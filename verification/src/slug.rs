//! Slugs: URL-safe identifiers derived from titles.
//!
//! A slug holds only `a-z`, `0-9` and `-`, never two dashes in a row, and
//! never starts or ends with a dash.  ASCII letters are lowered, any other
//! ASCII character turns into a dash (runs collapse), and a character outside
//! ASCII is first transliterated by an outside helper whose output is then
//! classified the same way.

use vstd::prelude::*;

use crate::strings::chars_to_string;

verus! {

/// The ASCII transliteration of one character, as the outside transliterator
/// defines it; `None` where it has no transliteration.
pub uninterp spec fn deunicode_of(c: char) -> Option<Seq<char>>;

/// Relies on `deunicode::deunicode_char`: the transliteration of a character
/// is a function of that character alone.
#[verifier::external_body]
fn deunicode_chars(c: char) -> (r: Option<Vec<char>>)
    ensures
        match r {
            Some(v) => deunicode_of(c) == Some(v@),
            None => deunicode_of(c) is None,
        },
{
    deunicode::deunicode_char(c).map(|s| s.chars().collect())
}

/// Characters that a slug keeps as they are.
pub open spec fn is_slug_char(c: char) -> bool {
    ('a' <= c && c <= 'z') || ('0' <= c && c <= '9')
}

/// An ASCII upper-case letter.
pub open spec fn is_upper(c: char) -> bool {
    'A' <= c && c <= 'Z'
}

/// The lower-case counterpart of an ASCII upper-case letter.
pub open spec fn spec_lower(c: char) -> char {
    if c == 'A' { 'a' } else if c == 'B' { 'b' } else if c == 'C' { 'c' }
    else if c == 'D' { 'd' } else if c == 'E' { 'e' } else if c == 'F' { 'f' }
    else if c == 'G' { 'g' } else if c == 'H' { 'h' } else if c == 'I' { 'i' }
    else if c == 'J' { 'j' } else if c == 'K' { 'k' } else if c == 'L' { 'l' }
    else if c == 'M' { 'm' } else if c == 'N' { 'n' } else if c == 'O' { 'o' }
    else if c == 'P' { 'p' } else if c == 'Q' { 'q' } else if c == 'R' { 'r' }
    else if c == 'S' { 's' } else if c == 'T' { 't' } else if c == 'U' { 'u' }
    else if c == 'V' { 'v' } else if c == 'W' { 'w' } else if c == 'X' { 'x' }
    else if c == 'Y' { 'y' } else if c == 'Z' { 'z' } else { c }
}

pub fn lower(c: char) -> (r: char)
    ensures
        r == spec_lower(c),
{
    match c {
        'A' => 'a', 'B' => 'b', 'C' => 'c', 'D' => 'd', 'E' => 'e', 'F' => 'f',
        'G' => 'g', 'H' => 'h', 'I' => 'i', 'J' => 'j', 'K' => 'k', 'L' => 'l',
        'M' => 'm', 'N' => 'n', 'O' => 'o', 'P' => 'p', 'Q' => 'q', 'R' => 'r',
        'S' => 's', 'T' => 't', 'U' => 'u', 'V' => 'v', 'W' => 'w', 'X' => 'x',
        'Y' => 'y', 'Z' => 'z', _ => c,
    }
}

fn is_slug_char_exec(c: char) -> (r: bool)
    ensures
        r == is_slug_char(c),
{
    ('a' <= c && c <= 'z') || ('0' <= c && c <= '9')
}

fn is_upper_exec(c: char) -> (r: bool)
    ensures
        r == is_upper(c),
{
    'A' <= c && c <= 'Z'
}

/// One step of the slug fold: feed one already-transliterated character into
/// the accumulator.  The boolean tracks whether the last kept position is a
/// dash (or the start), so dashes never repeat and never lead.
pub open spec fn slug_step(acc: Seq<char>, prev_dash: bool, c: char) -> (Seq<char>, bool) {
    if is_slug_char(c) {
        (acc.push(c), false)
    } else if is_upper(c) {
        (acc.push(spec_lower(c)), false)
    } else if prev_dash {
        (acc, true)
    } else {
        (acc.push('-'), true)
    }
}

/// Fold a sequence of transliterated characters into the accumulator.
pub open spec fn slug_fold(acc: Seq<char>, prev_dash: bool, cs: Seq<char>) -> (Seq<char>, bool)
    decreases cs.len(),
{
    if cs.len() == 0 {
        (acc, prev_dash)
    } else {
        let (acc2, prev2) = slug_step(acc, prev_dash, cs[0]);
        slug_fold(acc2, prev2, cs.skip(1))
    }
}

/// What one input character contributes to the fold: itself when ASCII, its
/// transliteration otherwise (a dash when there is none).
pub open spec fn char_expansion(c: char) -> Seq<char> {
    if (c as u32) < 128 {
        seq![c]
    } else {
        match deunicode_of(c) {
            Some(cs) => cs,
            None => seq!['-'],
        }
    }
}

/// Fold a sequence of input characters, expanding each first.
pub open spec fn slug_chars(acc: Seq<char>, prev_dash: bool, cs: Seq<char>) -> (Seq<char>, bool)
    decreases cs.len(),
{
    if cs.len() == 0 {
        (acc, prev_dash)
    } else {
        let (acc2, prev2) = slug_fold(acc, prev_dash, char_expansion(cs[0]));
        slug_chars(acc2, prev2, cs.skip(1))
    }
}

/// The slug of a title: fold every character, then drop a trailing dash.
pub open spec fn slugify_spec(s: Seq<char>) -> Seq<char> {
    let (acc, _) = slug_chars(Seq::empty(), true, s);
    if acc.len() > 0 && acc.last() == '-' {
        acc.drop_last()
    } else {
        acc
    }
}

fn slug_push(acc: &mut Vec<char>, prev_dash: bool, c: char) -> (r: bool)
    ensures
        (final(acc)@, r) == slug_step(old(acc)@, prev_dash, c),
{
    if is_slug_char_exec(c) {
        acc.push(c);
        false
    } else if is_upper_exec(c) {
        acc.push(lower(c));
        false
    } else if prev_dash {
        true
    } else {
        acc.push('-');
        true
    }
}

fn slug_feed(acc: &mut Vec<char>, prev_dash: bool, cs: &Vec<char>) -> (r: bool)
    ensures
        (final(acc)@, r) == slug_fold(old(acc)@, prev_dash, cs@),
{
    let mut prev = prev_dash;
    let mut i: usize = 0;
    proof {
        assert(cs@.skip(0) =~= cs@);
    }
    while i < cs.len()
        invariant
            i <= cs@.len(),
            slug_fold(acc@, prev, cs@.skip(i as int)) == slug_fold(old(acc)@, prev_dash, cs@),
        decreases cs@.len() - i,
    {
        proof {
            assert(cs@.skip(i as int)[0] == cs@[i as int]);
            assert(cs@.skip(i as int).skip(1) =~= cs@.skip(i + 1 as int));
        }
        prev = slug_push(acc, prev, cs[i]);
        i = i + 1;
    }
    proof {
        assert(cs@.skip(cs@.len() as int) =~= Seq::<char>::empty());
    }
    prev
}

/// Derive the URL slug of `s`.
pub fn slugify(s: &str) -> (r: String)
    ensures
        r@ == slugify_spec(s@),
{
    let n = s.unicode_len();
    let mut acc: Vec<char> = Vec::new();
    let mut prev = true;
    let mut i: usize = 0;
    proof {
        assert(s@.skip(0) =~= s@);
    }
    while i < n
        invariant
            i <= n,
            n == s@.len(),
            slug_chars(acc@, prev, s@.skip(i as int)) == slug_chars(
                Seq::<char>::empty(),
                true,
                s@,
            ),
        decreases n - i,
    {
        proof {
            assert(s@.skip(i as int)[0] == s@[i as int]);
            assert(s@.skip(i as int).skip(1) =~= s@.skip(i + 1 as int));
        }
        let c = s.get_char(i);
        if (c as u32) < 128 {
            let single: Vec<char> = vec![c];
            proof {
                assert(single@ =~= char_expansion(c));
            }
            prev = slug_feed(&mut acc, prev, &single);
        } else {
            match deunicode_chars(c) {
                Some(cs) => {
                    prev = slug_feed(&mut acc, prev, &cs);
                }
                None => {
                    let dash: Vec<char> = vec!['-'];
                    proof {
                        assert(dash@ =~= char_expansion(c));
                    }
                    prev = slug_feed(&mut acc, prev, &dash);
                }
            }
        }
        i = i + 1;
    }
    proof {
        assert(s@.skip(n as int) =~= Seq::<char>::empty());
    }
    if acc.len() > 0 {
        let last = acc[acc.len() - 1];
        if last == '-' {
            acc.pop();
        }
    }
    chars_to_string(&acc)
}

/// A well-formed slug: only `a-z`, `0-9` and `-`, no dash runs, and no dash
/// at either end.
pub open spec fn slug_safe(r: Seq<char>) -> bool {
    &&& forall|i: int| 0 <= i < r.len() ==> is_slug_char(#[trigger] r[i]) || r[i] == '-'
    &&& forall|i: int| 0 <= i < r.len() - 1 ==> !(#[trigger] r[i] == '-' && r[i + 1] == '-')
    &&& r.len() > 0 ==> r[0] != '-' && r[r.len() - 1] != '-'
}

/// The internal shape the fold preserves: well-formed but for a possibly
/// trailing dash, with `prev` recording whether a dash (or the start) is last.
spec fn slug_inv(acc: Seq<char>, prev: bool) -> bool {
    &&& forall|i: int| 0 <= i < acc.len() ==> is_slug_char(#[trigger] acc[i]) || acc[i] == '-'
    &&& forall|i: int| 0 <= i < acc.len() - 1 ==> !(#[trigger] acc[i] == '-' && acc[i + 1] == '-')
    &&& acc.len() > 0 ==> acc[0] != '-'
    &&& !prev ==> acc.len() > 0 && acc[acc.len() - 1] != '-'
    &&& prev ==> acc.len() == 0 || acc[acc.len() - 1] == '-'
}

proof fn lemma_fold_inv(acc: Seq<char>, prev: bool, cs: Seq<char>)
    requires
        slug_inv(acc, prev),
    ensures
        slug_inv(slug_fold(acc, prev, cs).0, slug_fold(acc, prev, cs).1),
    decreases cs.len(),
{
    if cs.len() > 0 {
        let (acc2, prev2) = slug_step(acc, prev, cs[0]);
        assert(slug_inv(acc2, prev2));
        lemma_fold_inv(acc2, prev2, cs.skip(1));
    }
}

proof fn lemma_chars_inv(acc: Seq<char>, prev: bool, cs: Seq<char>)
    requires
        slug_inv(acc, prev),
    ensures
        slug_inv(slug_chars(acc, prev, cs).0, slug_chars(acc, prev, cs).1),
    decreases cs.len(),
{
    if cs.len() > 0 {
        let (acc2, prev2) = slug_fold(acc, prev, char_expansion(cs[0]));
        lemma_fold_inv(acc, prev, char_expansion(cs[0]));
        lemma_chars_inv(acc2, prev2, cs.skip(1));
    }
}

/// Every slug is well formed: lower-case letters, digits and single dashes
/// only, with no dash at either end.
pub proof fn lemma_slugify_safe(s: Seq<char>)
    ensures
        slug_safe(slugify_spec(s)),
{
    lemma_chars_inv(Seq::empty(), true, s);
    let (acc, prev) = slug_chars(Seq::<char>::empty(), true, s);
    if acc.len() > 0 && acc.last() == '-' {
        let r = acc.drop_last();
        assert forall|i: int| 0 <= i < r.len() implies is_slug_char(#[trigger] r[i]) || r[i]
            == '-' by {
            assert(r[i] == acc[i]);
        }
        if r.len() > 0 {
            assert(r[r.len() - 1] == acc[acc.len() - 2]);
            assert(!(acc[acc.len() - 2] == '-' && acc[acc.len() - 2 + 1] == '-'));
        }
    }
}

proof fn lemma_fold_identity(acc: Seq<char>, prev: bool, rest: Seq<char>)
    requires
        forall|i: int| 0 <= i < rest.len() ==> is_slug_char(#[trigger] rest[i]) || rest[i] == '-',
        forall|i: int| 0 <= i < rest.len() - 1 ==> !(#[trigger] rest[i] == '-' && rest[i + 1] == '-'),
        prev && rest.len() > 0 ==> rest[0] != '-',
    ensures
        slug_fold(acc, prev, rest).0 == acc + rest,
        slug_fold(acc, prev, rest).1 == if rest.len() > 0 {
            rest[rest.len() - 1] == '-'
        } else {
            prev
        },
    decreases rest.len(),
{
    if rest.len() == 0 {
        assert(acc + rest =~= acc);
    } else {
        let c = rest[0];
        assert(is_slug_char(c) || c == '-');
        assert(!is_upper(c));
        let (acc2, prev2) = slug_step(acc, prev, c);
        assert(acc2 == acc.push(c));
        lemma_fold_identity(acc2, prev2, rest.skip(1));
        assert(acc.push(c) + rest.skip(1) =~= acc + rest);
    }
}

proof fn lemma_chars_ascii_fold(acc: Seq<char>, prev: bool, cs: Seq<char>)
    requires
        forall|i: int| 0 <= i < cs.len() ==> (#[trigger] cs[i] as u32) < 128,
    ensures
        slug_chars(acc, prev, cs) == slug_fold(acc, prev, cs),
    decreases cs.len(),
{
    if cs.len() > 0 {
        let c = cs[0];
        assert(char_expansion(c) =~= seq![c]);
        let (acc2, prev2) = slug_step(acc, prev, c);
        assert(char_expansion(c).len() == 1);
        assert(char_expansion(c)[0] == c);
        assert(char_expansion(c).skip(1) =~= Seq::<char>::empty());
        assert(slug_fold(acc2, prev2, char_expansion(c).skip(1)) == (acc2, prev2));
        assert(slug_fold(acc, prev, char_expansion(c)) == (acc2, prev2));
        lemma_chars_ascii_fold(acc2, prev2, cs.skip(1));
    }
}

/// Slugifying is idempotent: a slug is its own slug.
pub proof fn lemma_slugify_idempotent(s: Seq<char>)
    ensures
        slugify_spec(slugify_spec(s)) == slugify_spec(s),
{
    let r = slugify_spec(s);
    lemma_slugify_safe(s);
    assert forall|i: int| 0 <= i < r.len() implies (#[trigger] r[i] as u32) < 128 by {
        assert(is_slug_char(r[i]) || r[i] == '-');
    }
    lemma_chars_ascii_fold(Seq::empty(), true, r);
    lemma_fold_identity(Seq::empty(), true, r);
    assert(Seq::<char>::empty() + r =~= r);
    if r.len() > 0 {
        assert(r[r.len() - 1] != '-');
    }
}

} // verus!
