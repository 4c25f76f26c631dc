//! Author-defined inline macros: parsed from special blocks, compiled into
//! the template engine as named macros, and expanded with comma-separated
//! arguments.

use vstd::prelude::*;

use crate::Error;
use crate::doc::{Element, OrgEvent};
use crate::strings::{chars_to_string, push_str, str_eq};
use crate::tera::{
    tera_add_raw_template, tera_build_inheritance_chains, tera_default, tera_render_kv,
    tera_templates,
};

verus! {

/// ASCII whitespace, as macro parameter lists use it.
pub open spec fn is_ws(c: char) -> bool {
    c == ' ' || c == '\t' || c == '\n' || c == '\r'
}

/// The first whitespace position, or the length.
pub open spec fn first_ws(s: Seq<char>) -> int
    decreases s.len(),
{
    if s.len() == 0 {
        0
    } else if is_ws(s[0]) {
        0
    } else {
        1 + first_ws(s.skip(1))
    }
}

/// The whitespace-separated words of a text.
pub open spec fn split_ws(s: Seq<char>) -> Seq<Seq<char>>
    decreases s.len(),
{
    if s.len() == 0 {
        Seq::empty()
    } else if is_ws(s[0]) {
        split_ws(s.skip(1))
    } else {
        let j = first_ws(s);
        if 1 <= j <= s.len() {
            seq![s.subrange(0, j)] + split_ws(s.skip(j))
        } else {
            seq![s]
        }
    }
}

proof fn lemma_first_ws_bounds(s: Seq<char>)
    ensures
        0 <= first_ws(s) <= s.len(),
        s.len() > 0 && !is_ws(s[0]) ==> first_ws(s) >= 1,
    decreases s.len(),
{
    if s.len() > 0 && !is_ws(s[0]) {
        lemma_first_ws_bounds(s.skip(1));
    }
}

fn is_ws_exec(c: char) -> (r: bool)
    ensures
        r == is_ws(c),
{
    c == ' ' || c == '\t' || c == '\n' || c == '\r'
}

/// Split a text into its whitespace-separated words.
pub fn split_whitespace(s: &str) -> (r: Vec<String>)
    ensures
        r@.len() == split_ws(s@).len(),
        forall|i: int| 0 <= i < r@.len() ==> (#[trigger] r@[i])@ == split_ws(s@)[i],
{
    let n = s.unicode_len();
    let mut out: Vec<String> = Vec::new();
    let mut i: usize = 0;
    proof {
        assert(s@.skip(0) =~= s@);
    }
    while i < n
        invariant
            i <= n,
            n == s@.len(),
            split_ws(s@) == Seq::new(out@.len() as nat, |k: int| out@[k]@) + split_ws(
                s@.skip(i as int),
            ),
        decreases n - i,
    {
        proof {
            assert(s@.skip(i as int)[0] == s@[i as int]);
            assert(s@.skip(i as int).skip(1) =~= s@.skip(i + 1 as int));
        }
        if is_ws_exec(s.get_char(i)) {
            i = i + 1;
        } else {
            let start = i;
            let mut j = i;
            let mut stop = false;
            while j < n && !stop
                invariant
                    start <= j <= n,
                    n == s@.len(),
                    forall|k: int| start <= k < j ==> !is_ws(#[trigger] s@[k]),
                    stop ==> j < n && is_ws(s@[j as int]),
                decreases n - j, (if stop { 0int } else { 1int }),
            {
                if is_ws_exec(s.get_char(j)) {
                    stop = true;
                } else {
                    j = j + 1;
                }
            }
            proof {
                assert(forall|k: int|
                    0 <= k < j - start ==> s@.skip(start as int)[k] == s@[k + start]);
                if (j as int) - (start as int) < s@.skip(start as int).len() {
                    assert(s@.skip(start as int)[j - start] == s@[j as int]);
                }
                lemma_first_ws_at(s@.skip(start as int), j - start);
                lemma_first_ws_bounds(s@.skip(start as int));
            }
            let mut word: Vec<char> = Vec::new();
            let mut k = start;
            while k < j
                invariant
                    start <= k <= j <= n,
                    n == s@.len(),
                    word@ == s@.subrange(start as int, k as int),
                decreases j - k,
            {
                word.push(s.get_char(k));
                proof {
                    assert(s@.subrange(start as int, k + 1 as int) =~= s@.subrange(
                        start as int,
                        k as int,
                    ).push(s@[k as int]));
                }
                k = k + 1;
            }
            out.push(chars_to_string(&word));
            proof {
                assert(s@.skip(start as int).subrange(0, j - start) =~= s@.subrange(
                    start as int,
                    j as int,
                ));
                assert(s@.skip(start as int).skip(j - start) =~= s@.skip(j as int));
                assert(Seq::new(out@.len() as nat, |k: int| out@[k]@) =~= Seq::new(
                    (out@.len() - 1) as nat,
                    |k: int| out@[k]@,
                ).push(s@.subrange(start as int, j as int)));
            }
            i = j;
        }
    }
    proof {
        assert(s@.skip(n as int) =~= Seq::<char>::empty());
        assert(split_ws(s@) =~= Seq::new(out@.len() as nat, |k: int| out@[k]@));
        assert(forall|i: int|
            0 <= i < out@.len() ==> (#[trigger] out@[i])@ == split_ws(s@)[i]);
    }
    out
}

proof fn lemma_first_ws_at(s: Seq<char>, j: int)
    requires
        0 <= j <= s.len(),
        forall|k: int| 0 <= k < j ==> !is_ws(#[trigger] s[k]),
        j < s.len() ==> is_ws(s[j]),
    ensures
        first_ws(s) == j,
    decreases j,
{
    if j == 0 {
    } else {
        assert(!is_ws(s[0]));
        assert(forall|k: int| 0 <= k < j - 1 ==> s.skip(1)[k] == s[k + 1]);
        if j - 1 < s.skip(1).len() {
            assert(s.skip(1)[j - 1] == s[j]);
        }
        lemma_first_ws_at(s.skip(1), j - 1);
    }
}

/// One author-defined macro: its name, parameters, and body.
#[derive(Debug, PartialEq, Eq)]
pub struct Macro {
    pub label: String,
    pub arguments: Vec<String>,
    pub definition: String,
}

/// The words joined as a parameter list: `a, b, c`.
pub open spec fn join_args(s: Seq<String>) -> Seq<char>
    decreases s.len(),
{
    if s.len() == 0 {
        Seq::empty()
    } else {
        s[0]@ + rest_args(s.skip(1))
    }
}

pub open spec fn rest_args(s: Seq<String>) -> Seq<char>
    decreases s.len(),
{
    if s.len() == 0 {
        Seq::empty()
    } else {
        ", "@ + s[0]@ + rest_args(s.skip(1))
    }
}

/// The macro written in the template language:
/// `{% macro name(a, b) %}body{% endmacro name %}`.
pub open spec fn spec_tera_macro(m: Macro) -> Seq<char> {
    "{% macro "@ + m.label@ + "("@ + join_args(m.arguments@) + ") %}"@ + m.definition@
        + "{% endmacro "@ + m.label@ + " %}"@
}

proof fn lemma_rest_snoc(s: Seq<String>, x: String)
    ensures
        rest_args(s.push(x)) == rest_args(s) + ", "@ + x@,
    decreases s.len(),
{
    if s.len() == 0 {
        assert(s.push(x)[0] == x);
        assert(s.push(x).skip(1) =~= Seq::<String>::empty());
        assert(rest_args(Seq::<String>::empty()) == Seq::<char>::empty());
        assert(rest_args(s.push(x)) == ", "@ + x@ + Seq::<char>::empty());
        assert(", "@ + x@ + Seq::<char>::empty() =~= ", "@ + x@);
        assert(rest_args(s) + ", "@ + x@ =~= ", "@ + x@);
    } else {
        assert(s.push(x)[0] == s[0]);
        assert(s.push(x).skip(1) =~= s.skip(1).push(x));
        lemma_rest_snoc(s.skip(1), x);
        assert(", "@ + s[0]@ + (rest_args(s.skip(1)) + ", "@ + x@) =~= (", "@ + s[0]@ + rest_args(
            s.skip(1),
        )) + ", "@ + x@);
    }
}

proof fn lemma_join_snoc(s: Seq<String>, x: String)
    ensures
        s.len() == 0 ==> join_args(s.push(x)) == x@,
        s.len() > 0 ==> join_args(s.push(x)) == join_args(s) + ", "@ + x@,
{
    if s.len() == 0 {
        assert(s.push(x)[0] == x);
        assert(s.push(x).skip(1) =~= Seq::<String>::empty());
        assert(x@ + rest_args(Seq::<String>::empty()) =~= x@);
    } else {
        assert(s.push(x)[0] == s[0]);
        assert(s.push(x).skip(1) =~= s.skip(1).push(x));
        lemma_rest_snoc(s.skip(1), x);
        assert(s[0]@ + (rest_args(s.skip(1)) + ", "@ + x@) =~= (s[0]@ + rest_args(s.skip(1)))
            + ", "@ + x@);
    }
}

impl Macro {
    /// Write the macro in the template language.
    pub fn to_tera_macro(&self) -> (r: String)
        ensures
            r@ == spec_tera_macro(*self),
    {
        let mut out: Vec<char> = Vec::new();
        push_str(&mut out, "{% macro ");
        push_str(&mut out, self.label.as_str());
        push_str(&mut out, "(");
        let ghost head = "{% macro "@ + self.label@ + "("@;
        let mut i: usize = 0;
        proof {
            assert(self.arguments@.take(0) =~= Seq::<String>::empty());
            assert(join_args(Seq::<String>::empty()) =~= Seq::<char>::empty());
            assert(out@ =~= head + join_args(self.arguments@.take(0)));
        }
        while i < self.arguments.len()
            invariant
                i <= self.arguments@.len(),
                head == "{% macro "@ + self.label@ + "("@,
                out@ == head + join_args(self.arguments@.take(i as int)),
            decreases self.arguments@.len() - i,
        {
            if i > 0 {
                push_str(&mut out, ", ");
            }
            push_str(&mut out, self.arguments[i].as_str());
            proof {
                lemma_join_snoc(self.arguments@.take(i as int), self.arguments@[i as int]);
                assert(self.arguments@.take(i as int).push(self.arguments@[i as int])
                    =~= self.arguments@.take(i + 1 as int));
            }
            i = i + 1;
        }
        proof {
            assert(self.arguments@.take(self.arguments@.len() as int) =~= self.arguments@);
        }
        push_str(&mut out, ") %}");
        push_str(&mut out, self.definition.as_str());
        push_str(&mut out, "{% endmacro ");
        push_str(&mut out, self.label.as_str());
        push_str(&mut out, " %}");
        chars_to_string(&out)
    }
}

/// The first comma, or the length.
pub open spec fn first_comma(s: Seq<char>) -> int
    decreases s.len(),
{
    if s.len() == 0 {
        0
    } else if s[0] == ',' {
        0
    } else {
        1 + first_comma(s.skip(1))
    }
}

/// The comma-separated segments of a text (segments may be empty).
pub open spec fn split_commas(s: Seq<char>) -> Seq<Seq<char>>
    decreases s.len(),
{
    let k = first_comma(s);
    if 0 <= k < s.len() {
        seq![s.subrange(0, k)] + split_commas(s.skip(k + 1))
    } else {
        seq![s]
    }
}

/// A text with leading whitespace dropped.
pub open spec fn trim_start(s: Seq<char>) -> Seq<char>
    decreases s.len(),
{
    if s.len() > 0 && is_ws(s[0]) {
        trim_start(s.skip(1))
    } else {
        s
    }
}

/// A text with trailing whitespace dropped.
pub open spec fn trim_end(s: Seq<char>) -> Seq<char>
    decreases s.len(),
{
    if s.len() > 0 && is_ws(s[s.len() - 1]) {
        trim_end(s.drop_last())
    } else {
        s
    }
}

/// A text with whitespace dropped at both ends.
pub open spec fn spec_trim(s: Seq<char>) -> Seq<char> {
    trim_end(trim_start(s))
}

/// The comma-separated arguments of a macro call, each trimmed.
pub open spec fn comma_args(s: Seq<char>) -> Seq<Seq<char>> {
    split_commas(s).map_values(|x: Seq<char>| spec_trim(x))
}

proof fn lemma_trim_start_at(s: Seq<char>, a: int)
    requires
        0 <= a <= s.len(),
        forall|k: int| 0 <= k < a ==> is_ws(#[trigger] s[k]),
        a < s.len() ==> !is_ws(s[a]),
    ensures
        trim_start(s) == s.skip(a),
    decreases a,
{
    if a == 0 {
        assert(s.skip(0) =~= s);
    } else {
        assert(is_ws(s[0]));
        assert(forall|k: int| 0 <= k < a - 1 ==> s.skip(1)[k] == s[k + 1]);
        if a - 1 < s.skip(1).len() {
            assert(s.skip(1)[a - 1] == s[a]);
        }
        lemma_trim_start_at(s.skip(1), a - 1);
        assert(s.skip(1).skip(a - 1) =~= s.skip(a));
    }
}

proof fn lemma_trim_end_at(s: Seq<char>, b: int)
    requires
        0 <= b <= s.len(),
        forall|k: int| b <= k < s.len() ==> is_ws(#[trigger] s[k]),
        b > 0 ==> !is_ws(s[b - 1]),
    ensures
        trim_end(s) == s.subrange(0, b),
    decreases s.len(),
{
    if b == s.len() {
        if s.len() > 0 && is_ws(s[s.len() - 1]) {
            assert(false);
        }
        assert(s.subrange(0, b) =~= s);
    } else {
        assert(is_ws(s[s.len() - 1]));
        assert(forall|k: int| 0 <= k < s.len() - 1 ==> s.drop_last()[k] == s[k]);
        lemma_trim_end_at(s.drop_last(), b);
        assert(s.drop_last().subrange(0, b) =~= s.subrange(0, b));
    }
}

/// Drop the whitespace at both ends of `s`.
pub fn trim_exec(s: &str) -> (r: String)
    ensures
        r@ == spec_trim(s@),
{
    let n = s.unicode_len();
    let mut a: usize = 0;
    while a < n && is_ws_exec2(s, a)
        invariant
            a <= n,
            n == s@.len(),
            forall|k: int| 0 <= k < a ==> is_ws(#[trigger] s@[k]),
        decreases n - a,
    {
        a = a + 1;
    }
    proof {
        lemma_trim_start_at(s@, a as int);
    }
    let mut b: usize = n;
    while b > a && is_ws_exec2(s, b - 1)
        invariant
            a <= b <= n,
            n == s@.len(),
            forall|k: int| b <= k < n ==> is_ws(#[trigger] s@[k]),
        decreases b,
    {
        b = b - 1;
    }
    proof {
        let t = s@.skip(a as int);
        assert(forall|k: int| 0 <= k < t.len() ==> t[k] == s@[k + a]);
        lemma_trim_end_at(t, b - a);
        assert(t.subrange(0, b - a) =~= s@.subrange(a as int, b as int));
    }
    let mut out: Vec<char> = Vec::new();
    let mut k = a;
    while k < b
        invariant
            a <= k <= b <= n,
            n == s@.len(),
            out@ == s@.subrange(a as int, k as int),
        decreases b - k,
    {
        out.push(s.get_char(k));
        proof {
            assert(s@.subrange(a as int, k + 1 as int) =~= s@.subrange(a as int, k as int).push(
                s@[k as int],
            ));
        }
        k = k + 1;
    }
    chars_to_string(&out)
}

fn is_ws_exec2(s: &str, i: usize) -> (r: bool)
    requires
        i < s@.len(),
    ensures
        r == is_ws(s@[i as int]),
{
    is_ws_exec(s.get_char(i))
}

proof fn lemma_first_comma_at(s: Seq<char>, j: int)
    requires
        0 <= j <= s.len(),
        forall|k: int| 0 <= k < j ==> (#[trigger] s[k]) != ',',
        j < s.len() ==> s[j] == ',',
    ensures
        first_comma(s) == j,
    decreases j,
{
    if j > 0 {
        assert(s[0] != ',');
        assert(forall|k: int| 0 <= k < j - 1 ==> s.skip(1)[k] == s[k + 1]);
        if j - 1 < s.skip(1).len() {
            assert(s.skip(1)[j - 1] == s[j]);
        }
        lemma_first_comma_at(s.skip(1), j - 1);
    }
}

/// Split a text at its commas; every segment is kept, even empty ones.
pub fn split_commas_exec(s: &str) -> (r: Vec<String>)
    ensures
        r@.len() == split_commas(s@).len(),
        forall|i: int| 0 <= i < r@.len() ==> (#[trigger] r@[i])@ == split_commas(s@)[i],
    decreases s@.len(),
{
    let n = s.unicode_len();
    let mut j: usize = 0;
    let mut found = false;
    while j < n && !found
        invariant
            j <= n,
            n == s@.len(),
            forall|k: int| 0 <= k < j ==> (#[trigger] s@[k]) != ',',
            found ==> j < n && s@[j as int] == ',',
        decreases n - j, (if found { 0int } else { 1int }),
    {
        if s.get_char(j) == ',' {
            found = true;
        } else {
            j = j + 1;
        }
    }
    proof {
        lemma_first_comma_at(s@, j as int);
    }
    if found {
        let seg = s.substring_char(0, j);
        let rest = s.substring_char(j + 1, n);
        let mut out: Vec<String> = Vec::new();
        out.push(seg.to_owned());
        let mut tail = split_commas_exec(rest);
        let ghost tailv = tail@;
        out.append(&mut tail);
        proof {
            assert(s@.subrange(0, j as int) == seg@);
            assert(rest@ == s@.skip(j + 1 as int));
            assert(forall|i: int|
                0 <= i < tailv.len() ==> out@[i + 1] == tailv[i]);
        }
        out
    } else {
        let mut out: Vec<String> = Vec::new();
        out.push(s.to_owned());
        out
    }
}

/// The position of the first macro with this label.
pub open spec fn spec_find_macro(macros: Seq<Macro>, name: Seq<char>) -> Option<int>
    decreases macros.len(),
{
    if macros.len() == 0 {
        None
    } else if macros[0].label@ == name {
        Some(0)
    } else {
        match spec_find_macro(macros.skip(1), name) {
            Some(i) => Some(i + 1),
            None => None,
        }
    }
}

/// Whether any macro bears this label.
pub open spec fn spec_has_macro(macros: Seq<Macro>, name: Seq<char>) -> bool {
    spec_find_macro(macros, name) is Some
}

proof fn lemma_find_macro_at(macros: Seq<Macro>, name: Seq<char>, j: int)
    requires
        0 <= j < macros.len(),
        macros[j].label@ == name,
        forall|k: int| 0 <= k < j ==> (#[trigger] macros[k]).label@ != name,
    ensures
        spec_find_macro(macros, name) == Some(j),
    decreases j,
{
    if j > 0 {
        assert(forall|k: int| 0 <= k < j - 1 ==> macros.skip(1)[k] == macros[k + 1]);
        assert(macros.skip(1)[j - 1] == macros[j]);
        lemma_find_macro_at(macros.skip(1), name, j - 1);
    }
}

proof fn lemma_find_macro_none(macros: Seq<Macro>, name: Seq<char>)
    requires
        forall|k: int| 0 <= k < macros.len() ==> (#[trigger] macros[k]).label@ != name,
    ensures
        spec_find_macro(macros, name) is None,
    decreases macros.len(),
{
    if macros.len() > 0 {
        assert(forall|k: int| 0 <= k < macros.len() - 1 ==> macros.skip(1)[k] == macros[k + 1]);
        lemma_find_macro_none(macros.skip(1), name);
    }
}

/// A found position names a macro with the looked-up label.
pub proof fn lemma_find_macro_label(macros: Seq<Macro>, name: Seq<char>)
    ensures
        spec_find_macro(macros, name) matches Some(k) ==> 0 <= k < macros.len()
            && macros[k].label@ == name,
    decreases macros.len(),
{
    if macros.len() > 0 && macros[0].label@ != name {
        lemma_find_macro_label(macros.skip(1), name);
        match spec_find_macro(macros.skip(1), name) {
            Some(j) => {
                assert(macros.skip(1)[j] == macros[j + 1]);
            },
            None => {},
        }
    }
}

/// The compiled macro set: the macros themselves and the template store
/// holding each as a named template.
pub struct Macros {
    pub macros: Vec<Macro>,
    pub tera: tera::Tera,
}

/// The macro-collector state while scanning a document's events.
pub ghost struct MacS {
    pub cur: Option<(Seq<char>, Seq<Seq<char>>, Seq<char>)>,
    pub out: Seq<(Seq<char>, Seq<Seq<char>>, Seq<char>)>,
}

/// The position of a collected macro with this label.
pub open spec fn mac_find(
    out: Seq<(Seq<char>, Seq<Seq<char>>, Seq<char>)>,
    label: Seq<char>,
) -> Option<int>
    decreases out.len(),
{
    if out.len() == 0 {
        None
    } else if out[0].0 == label {
        Some(0)
    } else {
        match mac_find(out.skip(1), label) {
            Some(i) => Some(i + 1),
            None => None,
        }
    }
}

/// Store a collected macro, replacing an earlier one with the same label.
pub open spec fn mac_upsert(
    out: Seq<(Seq<char>, Seq<Seq<char>>, Seq<char>)>,
    e: (Seq<char>, Seq<Seq<char>>, Seq<char>),
) -> Seq<(Seq<char>, Seq<Seq<char>>, Seq<char>)> {
    match mac_find(out, e.0) {
        Some(i) => out.update(i, e),
        None => out.push(e),
    }
}

/// One event's effect on the macro collector: a special block with
/// parameters opens a macro definition (first word the name, the rest its
/// parameters), text accumulates into the open body, and the block's end
/// stores it.
pub open spec fn mac_step(s: MacS, e: OrgEvent) -> MacS {
    match e {
        OrgEvent::Start(Element::SpecialBlock { parameters: Some(ps) }) => {
            let ws = split_ws(ps@);
            if ws.len() == 0 {
                s
            } else {
                MacS { cur: Some((ws[0], ws.skip(1), Seq::empty())), ..s }
            }
        },
        OrgEvent::Start(Element::Text { value }) => {
            match s.cur {
                Some((l, a, d)) => MacS { cur: Some((l, a, d + value@)), ..s },
                None => s,
            }
        },
        OrgEvent::End(Element::SpecialBlock { .. }) => {
            match s.cur {
                Some(m) => MacS { cur: None, out: mac_upsert(s.out, m) },
                None => s,
            }
        },
        _ => s,
    }
}

/// The collector folded over a stream.
pub open spec fn mac_fold(s: MacS, events: Seq<OrgEvent>) -> MacS
    decreases events.len(),
{
    if events.len() == 0 {
        s
    } else {
        mac_fold(mac_step(s, events[0]), events.skip(1))
    }
}

/// The macros a document's stream defines.
pub open spec fn spec_macros(events: Seq<OrgEvent>) -> Seq<(Seq<char>, Seq<Seq<char>>, Seq<char>)> {
    mac_fold(MacS { cur: None, out: Seq::empty() }, events).out
}

/// Whether a macro value realizes a collected triple.
pub open spec fn macro_models(m: Macro, t: (Seq<char>, Seq<Seq<char>>, Seq<char>)) -> bool {
    &&& m.label@ == t.0
    &&& m.arguments@.len() == t.1.len()
    &&& forall|i: int| 0 <= i < t.1.len() ==> (#[trigger] m.arguments@[i])@ == t.1[i]
    &&& m.definition@ == t.2
}

/// The current exec collector state as a ghost value.
pub open spec fn mac_state(
    cur: Option<Macro>,
    out: Seq<Macro>,
) -> MacS {
    MacS {
        cur: match cur {
            Some(m) => Some(
                (
                    m.label@,
                    Seq::new(m.arguments@.len() as nat, |i: int| m.arguments@[i]@),
                    m.definition@,
                ),
            ),
            None => None,
        },
        out: Seq::new(
            out.len() as nat,
            |i: int|
                (
                    out[i].label@,
                    Seq::new(out[i].arguments@.len() as nat, |j: int| out[i].arguments@[j]@),
                    out[i].definition@,
                ),
    ),
    }
}

fn macros_upsert(out: &mut Vec<Macro>, m: Macro)
    ensures
        mac_state(None, final(out)@).out == mac_upsert(
            mac_state(None, old(out)@).out,
            mac_state(Some(m), old(out)@).cur->0,
        ),
{
    let ghost target = mac_upsert(
        mac_state(None, old(out)@).out,
        mac_state(Some(m), old(out)@).cur->0,
    );
    let mut i: usize = 0;
    while i < out.len()
        invariant
            i <= out@.len(),
            out@ == old(out)@,
            target == mac_upsert(
                mac_state(None, old(out)@).out,
                mac_state(Some(m), old(out)@).cur->0,
            ),
            forall|j: int| 0 <= j < i ==> mac_state(None, out@).out[j].0 != m.label@,
        decreases out@.len() - i,
    {
        proof {
            let ov = mac_state(None, out@).out;
            assert(ov[i as int].0 == out@[i as int].label@);
        }
        if str_eq(out[i].label.as_str(), m.label.as_str()) {
            proof {
                lemma_mac_find_at(mac_state(None, out@).out, m.label@, i as int);
            }
            let ghost pre_out = out@;
            out.remove(i);
            out.insert(i, m);
            proof {
                assert(out@ =~= pre_out.update(i as int, m));
                assert(mac_state(None, out@).out =~~= target);
            }
            return;
        }
        i = i + 1;
    }
    proof {
        lemma_mac_find_none(mac_state(None, out@).out, m.label@);
    }
    out.push(m);
    proof {
        assert(mac_state(None, out@).out =~~= target);
    }
}

proof fn lemma_mac_find_at(
    out: Seq<(Seq<char>, Seq<Seq<char>>, Seq<char>)>,
    label: Seq<char>,
    j: int,
)
    requires
        0 <= j < out.len(),
        out[j].0 == label,
        forall|k: int| 0 <= k < j ==> (#[trigger] out[k]).0 != label,
    ensures
        mac_find(out, label) == Some(j),
    decreases j,
{
    if j > 0 {
        assert(forall|k: int| 0 <= k < j - 1 ==> out.skip(1)[k] == out[k + 1]);
        assert(out.skip(1)[j - 1] == out[j]);
        lemma_mac_find_at(out.skip(1), label, j - 1);
    }
}

proof fn lemma_mac_find_none(out: Seq<(Seq<char>, Seq<Seq<char>>, Seq<char>)>, label: Seq<char>)
    requires
        forall|k: int| 0 <= k < out.len() ==> (#[trigger] out[k]).0 != label,
    ensures
        mac_find(out, label) is None,
    decreases out.len(),
{
    if out.len() > 0 {
        assert(forall|k: int| 0 <= k < out.len() - 1 ==> out.skip(1)[k] == out[k + 1]);
        lemma_mac_find_none(out.skip(1), label);
    }
}

impl Macros {
    /// Collect the macro definitions of a document's stream and compile
    /// them into a template store.
    pub fn parse(events: &Vec<OrgEvent>) -> (r: Result<Macros, Error>)
        ensures
            match r {
                Ok(m) => {
                    &&& m.macros@.len() == spec_macros(events@).len()
                    &&& forall|i: int|
                        0 <= i < m.macros@.len() ==> macro_models(
                            #[trigger] m.macros@[i],
                            spec_macros(events@)[i],
                        )
                    &&& forall|i: int|
                        0 <= i < m.macros@.len() ==> tera_templates(m.tera).contains(
                            (#[trigger] m.macros@[i]).label@,
                        )
                },
                Err(e) => e matches Error::TemplateRenderFailure { page, .. } && (page@
                    == "__all_macro_definitions"@ || (exists|i: int|
                    0 <= i < spec_macros(events@).len() && (#[trigger] spec_macros(
                        events@,
                    )[i]).0 == page@) || page@ == Seq::<char>::empty()),
            },
    {
        let mut out: Vec<Macro> = Vec::new();
        let mut cur: Option<Macro> = None;
        let mut i: usize = 0;
        let ghost init = MacS { cur: None, out: Seq::empty() };
        proof {
            assert(events@.skip(0) =~= events@);
            assert(mac_state(None, out@).out =~= Seq::<(Seq<char>, Seq<Seq<char>>, Seq<
                char,
            >)>::empty());
        }
        while i < events.len()
            invariant
                i <= events@.len(),
                mac_fold(init, events@) == mac_fold(
                    mac_state(cur, out@),
                    events@.skip(i as int),
                ),
            decreases events@.len() - i,
        {
            proof {
                assert(events@.skip(i as int)[0] == events@[i as int]);
                assert(events@.skip(i as int).skip(1) =~= events@.skip(i + 1 as int));
            }
            let ghost pre = mac_state(cur, out@);
            match &events[i] {
                OrgEvent::Start(Element::SpecialBlock { parameters: Some(ps) }) => {
                    let words = split_whitespace(ps.as_str());
                    if words.len() > 0 {
                        let mut words = words;
                        let label = words.remove(0);
                        cur = Some(
                            Macro { label, arguments: words, definition: String::new() },
                        );
                        proof {
                            let m2 = mac_state(cur, out@);
                            assert((m2.cur->0).1 =~= split_ws(ps@).skip(1));
                            assert(m2 == mac_step(pre, events@[i as int]));
                        }
                    }
                },
                OrgEvent::Start(Element::Text { value }) => {
                    match cur {
                        Some(m) => {
                            let Macro { label, arguments, mut definition } = m;
                            definition.append(value.as_str());
                            cur = Some(Macro { label, arguments, definition });
                        },
                        None => {
                            cur = None;
                        },
                    }
                },
                OrgEvent::End(Element::SpecialBlock { .. }) => {
                    match cur {
                        Some(m) => {
                            macros_upsert(&mut out, m);
                            cur = None;
                        },
                        None => {
                            cur = None;
                        },
                    }
                },
                _ => {},
            }
            proof {
                assert(mac_state(cur, out@) == mac_step(pre, events@[i as int]));
            }
            i = i + 1;
        }
        proof {
            assert(events@.skip(events@.len() as int) =~= Seq::<OrgEvent>::empty());
        }
        let r = Self::from_macros(out);
        proof {
            match &r {
                Err(e) => match e {
                    Error::TemplateRenderFailure { page, .. } => {
                        if exists|i: int|
                            0 <= i < out@.len() && (#[trigger] out@[i]).label@ == page@ {
                            let i = choose|i: int|
                                0 <= i < out@.len() && (#[trigger] out@[i]).label@ == page@;
                            assert(macro_models(out@[i], spec_macros(events@)[i]));
                            assert(spec_macros(events@)[i].0 == page@);
                        }
                    },
                    _ => {},
                },
                _ => {},
            }
        }
        r
    }

    /// Compile a macro list: every macro becomes a named template, and a
    /// shared pseudo-template holds all the definitions for importing.
    pub fn from_macros(macros: Vec<Macro>) -> (r: Result<Macros, Error>)
        ensures
            match r {
                Ok(m) => {
                    &&& m.macros@ == macros@
                    &&& forall|i: int|
                        0 <= i < m.macros@.len() ==> tera_templates(m.tera).contains(
                            (#[trigger] m.macros@[i]).label@,
                        )
                },
                Err(e) => e matches Error::TemplateRenderFailure { page, .. } && (page@
                    == "__all_macro_definitions"@ || (exists|i: int|
                    0 <= i < macros@.len() && (#[trigger] macros@[i]).label@ == page@) || page@
                    == Seq::<char>::empty()),
            },
    {
        let mut tera = tera_default();
        let mut all: Vec<char> = Vec::new();
        let mut i: usize = 0;
        while i < macros.len()
            decreases macros@.len() - i,
        {
            let t = macros[i].to_tera_macro();
            push_str(&mut all, t.as_str());
            i = i + 1;
        }
        let all_str = chars_to_string(&all);
        match tera_add_raw_template(&mut tera, "__all_macro_definitions", all_str.as_str()) {
            Ok(_) => {},
            Err(message) => {
                return Err(
                    Error::TemplateRenderFailure {
                        page: "__all_macro_definitions".to_owned(),
                        message,
                    },
                );
            },
        }
        let mut i: usize = 0;
        while i < macros.len()
            invariant
                i <= macros@.len(),
                forall|j: int|
                    0 <= j < i ==> tera_templates(tera).contains(
                        (#[trigger] macros@[j]).label@,
                    ),
            decreases macros@.len() - i,
        {
            let mut template = "{% import \"__all_macro_definitions\" as macros %}".to_owned();
            template.append(macros[i].definition.as_str());
            match tera_add_raw_template(
                &mut tera,
                macros[i].label.as_str(),
                template.as_str(),
            ) {
                Ok(_) => {},
                Err(message) => {
                    return Err(
                        Error::TemplateRenderFailure { page: macros[i].label.clone(), message },
                    );
                },
            }
            i = i + 1;
        }
        match tera_build_inheritance_chains(&mut tera) {
            Ok(_) => {},
            Err(message) => {
                return Err(
                    Error::TemplateRenderFailure { page: String::new(), message },
                );
            },
        }
        Ok(Macros { macros, tera })
    }

    /// The processor for a named macro, if one is defined: the first macro
    /// bearing the name.
    pub fn get<'a>(&'a self, name: &str) -> (r: Option<MacroProcessor<'a>>)
        ensures
            match r {
                Some(p) => spec_find_macro(self.macros@, name@) matches Some(k) && *p.definition
                    == self.macros@[k] && *p.tera == self.tera,
                None => !spec_has_macro(self.macros@, name@),
            },
    {
        let mut i: usize = 0;
        while i < self.macros.len()
            invariant
                i <= self.macros@.len(),
                forall|j: int| 0 <= j < i ==> (#[trigger] self.macros@[j]).label@ != name@,
            decreases self.macros@.len() - i,
        {
            if str_eq(self.macros[i].label.as_str(), name) {
                proof {
                    lemma_find_macro_at(self.macros@, name@, i as int);
                }
                return Some(MacroProcessor { definition: &self.macros[i], tera: &self.tera });
            }
            i = i + 1;
        }
        proof {
            lemma_find_macro_none(self.macros@, name@);
        }
        None
    }
}

/// A handle for expanding one macro through the template store.
pub struct MacroProcessor<'a> {
    pub definition: &'a Macro,
    pub tera: &'a tera::Tera,
}

impl<'a> MacroProcessor<'a> {
    /// Bind a comma-separated argument list to the macro's parameters:
    /// exactly when the counts agree, parameter `i` is bound to argument
    /// `i`, split on commas and trimmed; otherwise the mismatch is reported
    /// with the macro's name.
    pub fn bound_arguments(&self, arguments: &str) -> (r: Result<Vec<(String, String)>, Error>)
        ensures
            match r {
                Ok(pairs) => {
                    &&& comma_args(arguments@).len() == self.definition.arguments@.len()
                    &&& pairs@.len() == self.definition.arguments@.len()
                    &&& forall|i: int|
                        0 <= i < pairs@.len() ==> (#[trigger] pairs@[i]).0
                            == self.definition.arguments@[i] && pairs@[i].1@ == comma_args(
                            arguments@,
                        )[i]
                },
                Err(e) => {
                    &&& comma_args(arguments@).len() != self.definition.arguments@.len()
                    &&& e matches Error::MacroArgumentMismatch { name } && name@
                        == self.definition.label@
                },
            },
    {
        let vals = split_commas_exec(arguments);
        proof {
            assert(comma_args(arguments@).len() == split_commas(arguments@).len());
        }
        if vals.len() != self.definition.arguments.len() {
            return Err(Error::MacroArgumentMismatch { name: self.definition.label.clone() });
        }
        let mut pairs: Vec<(String, String)> = Vec::new();
        let mut i: usize = 0;
        while i < vals.len()
            invariant
                vals@.len() == self.definition.arguments@.len(),
                vals@.len() == split_commas(arguments@).len(),
                forall|j: int| 0 <= j < vals@.len() ==> (#[trigger] vals@[j])@ == split_commas(
                    arguments@,
                )[j],
                i <= vals@.len(),
                pairs@.len() == i,
                forall|j: int|
                    0 <= j < i ==> (#[trigger] pairs@[j]).0 == self.definition.arguments@[j]
                        && pairs@[j].1@ == comma_args(arguments@)[j],
            decreases vals@.len() - i,
        {
            let bound = trim_exec(vals[i].as_str());
            proof {
                assert(comma_args(arguments@)[i as int] == spec_trim(
                    split_commas(arguments@)[i as int],
                ));
            }
            pairs.push((self.definition.arguments[i].clone(), bound));
            i = i + 1;
        }
        Ok(pairs)
    }

    /// Expand the macro with a comma-separated argument list.
    ///
    /// An argument count different from the parameter count is reported as
    /// a macro-argument mismatch, never silently truncated.  With matching
    /// counts the parameters are bound as `bound_arguments` states and the
    /// template store renders the macro's template with them; what that
    /// render returns is not a function of these arguments alone (the
    /// engine's built-in functions read the clock, randomness and the
    /// environment), so only the shape of the outcome is stated.
    pub fn process(&self, arguments: &str) -> (r: Result<String, Error>)
        ensures
            (comma_args(arguments@).len() != self.definition.arguments@.len()) <==> (
            r matches Err(Error::MacroArgumentMismatch { name }) && name@
                == self.definition.label@),
            r matches Err(Error::MacroArgumentMismatch { name }) ==> name@
                == self.definition.label@ && comma_args(arguments@).len()
                != self.definition.arguments@.len(),
            r is Ok ==> comma_args(arguments@).len() == self.definition.arguments@.len(),
            r matches Err(e) ==> (e matches Error::MacroArgumentMismatch { .. } || (e
                matches Error::TemplateRenderFailure { page, .. } && page@
                == self.definition.label@)),
    {
        let pairs = match self.bound_arguments(arguments) {
            Ok(pairs) => pairs,
            Err(e) => {
                return Err(e);
            },
        };
        match tera_render_kv(self.tera, self.definition.label.as_str(), &pairs) {
            Ok(content) => Ok(content),
            Err(message) => Err(
                Error::TemplateRenderFailure { page: self.definition.label.clone(), message },
            ),
        }
    }
}

} // verus!
