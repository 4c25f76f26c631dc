//! Word counts over event streams.
//!
//! A post counts every text and link-description word in its subtree.  An
//! index counts only its own content: anything inside a child heading's
//! subtree is skipped by a small state machine, which is proved here to
//! count exactly the heading's own title and body.

use vstd::prelude::*;

use crate::doc::{
    Element, Heading, OrgEvent, heading_wf, spec_forest_events, spec_heading_open,
    spec_subtree_events, subtree_events,
};

verus! {

/// How many words the outside counter sees in a text.
pub uninterp spec fn word_count_of(s: Seq<char>) -> nat;

/// Relies on `words_count::count`: the word count of a text depends on the
/// text alone.
#[verifier::external_body]
fn words_in(s: &str) -> (r: usize)
    ensures
        r == word_count_of(s@),
{
    words_count::count(s).words
}

/// The words one event contributes: the words of a text, or of a link's
/// description; nothing otherwise.
pub open spec fn event_words(e: OrgEvent) -> nat {
    match e {
        OrgEvent::Start(Element::Text { value }) => word_count_of(value@),
        OrgEvent::Start(Element::Link { desc: Some(d), .. }) => word_count_of(d@),
        _ => 0,
    }
}

/// The word count of a post: every event's words, over the whole stream.
pub open spec fn spec_count_post(events: Seq<OrgEvent>) -> nat
    decreases events.len(),
{
    if events.len() == 0 {
        0
    } else {
        event_words(events[0]) + spec_count_post(events.skip(1))
    }
}

/// A sum clamped to what a machine word can hold.
pub open spec fn spec_sat(n: nat) -> nat {
    if n > usize::MAX as nat {
        usize::MAX as nat
    } else {
        n
    }
}

fn sat_add(a: usize, w: usize) -> (r: usize)
    ensures
        r == spec_sat((a + w) as nat),
{
    if a > usize::MAX - w {
        usize::MAX
    } else {
        a + w
    }
}

fn exec_event_words(e: &OrgEvent) -> (r: usize)
    ensures
        r == event_words(*e),
{
    match e {
        OrgEvent::Start(Element::Text { value }) => words_in(value.as_str()),
        OrgEvent::Start(Element::Link { desc: Some(d), .. }) => words_in(d.as_str()),
        _ => 0,
    }
}

/// Count the words of a post's whole subtree stream (clamped at the machine
/// maximum).
pub fn count_words_post(events: &Vec<OrgEvent>) -> (r: usize)
    ensures
        r == spec_sat(spec_count_post(events@)),
{
    let mut r: usize = 0;
    let ghost mut t: nat = 0nat;
    let mut i: usize = 0;
    proof {
        assert(events@.skip(0) =~= events@);
    }
    while i < events.len()
        invariant
            i <= events@.len(),
            spec_count_post(events@) == t + spec_count_post(events@.skip(i as int)),
            r == spec_sat(t),
        decreases events@.len() - i,
    {
        proof {
            assert(events@.skip(i as int)[0] == events@[i as int]);
            assert(events@.skip(i as int).skip(1) =~= events@.skip(i + 1 as int));
        }
        let w = exec_event_words(&events[i]);
        r = sat_add(r, w);
        proof {
            t = t + event_words(events@[i as int]);
        }
        i = i + 1;
    }
    r
}

/// One start event's effect on the index-count state.  While inside a deep
/// heading (`head`) nothing is seen; a heading more than one level below the
/// page opens a deep stretch, one exactly below opens a child (`sub`);
/// everything else counts only outside a child.
pub open spec fn index_start(
    level: int,
    sub: bool,
    head: bool,
    e: Element,
) -> (bool, bool, nat) {
    if head {
        (sub, head, 0nat)
    } else {
        match e {
            Element::Headline { level: lv } => if lv > level + 1 {
                (sub, true, 0nat)
            } else if lv > level {
                (true, head, 0nat)
            } else {
                (sub, head, 0nat)
            },
            _ => if !sub {
                (sub, head, event_words(OrgEvent::Start(e)))
            } else {
                (sub, head, 0nat)
            },
        }
    }
}

/// One end event's effect: closing a deep heading or a child.
pub open spec fn index_end(level: int, sub: bool, head: bool, e: Element) -> (bool, bool) {
    match e {
        Element::Headline { level: lv } => if lv > level + 1 {
            (sub, false)
        } else if lv > level {
            (false, head)
        } else {
            (sub, head)
        },
        _ => (sub, head),
    }
}

/// The index count of a stream from a given state.
pub open spec fn spec_count_index(
    level: int,
    sub: bool,
    head: bool,
    events: Seq<OrgEvent>,
) -> nat
    decreases events.len(),
{
    if events.len() == 0 {
        0
    } else {
        match events[0] {
            OrgEvent::Start(e) => {
                let (sub2, head2, w) = index_start(level, sub, head, e);
                w + spec_count_index(level, sub2, head2, events.skip(1))
            },
            OrgEvent::End(e) => {
                let (sub2, head2) = index_end(level, sub, head, e);
                spec_count_index(level, sub2, head2, events.skip(1))
            },
        }
    }
}

/// The state after a stream.
pub open spec fn index_state(
    level: int,
    sub: bool,
    head: bool,
    events: Seq<OrgEvent>,
) -> (bool, bool)
    decreases events.len(),
{
    if events.len() == 0 {
        (sub, head)
    } else {
        match events[0] {
            OrgEvent::Start(e) => {
                let (sub2, head2, w) = index_start(level, sub, head, e);
                index_state(level, sub2, head2, events.skip(1))
            },
            OrgEvent::End(e) => {
                let (sub2, head2) = index_end(level, sub, head, e);
                index_state(level, sub2, head2, events.skip(1))
            },
        }
    }
}

/// Count the words of an index page's own content: the subtree stream is
/// walked, and everything inside child headings is skipped.
pub fn count_words_index(h: &Heading) -> (r: usize)
    ensures
        r == spec_sat(spec_count_index(h.level as int, false, false, spec_subtree_events(*h))),
{
    let events = subtree_events(h);
    let mut r: usize = 0;
    let ghost mut t: nat = 0nat;
    let mut sub = false;
    let mut head = false;
    let mut i: usize = 0;
    proof {
        assert(events@.skip(0) =~= events@);
    }
    while i < events.len()
        invariant
            i <= events@.len(),
            spec_count_index(h.level as int, false, false, events@) == t + spec_count_index(
                h.level as int,
                sub,
                head,
                events@.skip(i as int),
            ),
            r == spec_sat(t),
        decreases events@.len() - i,
    {
        proof {
            assert(events@.skip(i as int)[0] == events@[i as int]);
            assert(events@.skip(i as int).skip(1) =~= events@.skip(i + 1 as int));
        }
        match &events[i] {
            OrgEvent::Start(e) => {
                if head {
                } else {
                    match e {
                        Element::Headline { level: lv } => {
                            if *lv > h.level {
                                if *lv - h.level > 1 {
                                    head = true;
                                } else {
                                    sub = true;
                                }
                            }
                        },
                        _ => {
                            if !sub {
                                let w = exec_event_words(&events[i]);
                                r = sat_add(r, w);
                                proof {
                                    t = t + event_words(events@[i as int]);
                                }
                            }
                        },
                    }
                }
            },
            OrgEvent::End(e) => {
                match e {
                    Element::Headline { level: lv } => {
                        if *lv > h.level {
                            if *lv - h.level > 1 {
                                head = false;
                            } else {
                                sub = false;
                            }
                        }
                    },
                    _ => {},
                }
            },
        }
        i = i + 1;
    }
    r
}

proof fn lemma_index_concat(level: int, sub: bool, head: bool, a: Seq<OrgEvent>, b: Seq<OrgEvent>)
    ensures
        spec_count_index(level, sub, head, a + b) == spec_count_index(level, sub, head, a)
            + spec_count_index(
            level,
            index_state(level, sub, head, a).0,
            index_state(level, sub, head, a).1,
            b,
        ),
        index_state(level, sub, head, a + b) == index_state(
            level,
            index_state(level, sub, head, a).0,
            index_state(level, sub, head, a).1,
            b,
        ),
    decreases a.len(),
{
    if a.len() == 0 {
        assert(a + b =~= b);
    } else {
        assert((a + b)[0] == a[0]);
        assert((a + b).skip(1) =~= a.skip(1) + b);
        match a[0] {
            OrgEvent::Start(e) => {
                let (sub2, head2, w) = index_start(level, sub, head, e);
                lemma_index_concat(level, sub2, head2, a.skip(1), b);
            },
            OrgEvent::End(e) => {
                let (sub2, head2) = index_end(level, sub, head, e);
                lemma_index_concat(level, sub2, head2, a.skip(1), b);
            },
        }
    }
}

/// Events that carry no heading structure: a well-formed section.
pub open spec fn no_headline_events(events: Seq<OrgEvent>) -> bool {
    forall|i: int|
        0 <= i < events.len() ==> !((#[trigger] events[i]) matches OrgEvent::Start(
            Element::Headline { .. },
        )) && !(events[i] matches OrgEvent::End(Element::Headline { .. }))
}

proof fn lemma_section_count(level: int, events: Seq<OrgEvent>)
    requires
        no_headline_events(events),
    ensures
        spec_count_index(level, false, false, events) == spec_count_post(events),
        index_state(level, false, false, events) == (false, false),
    decreases events.len(),
{
    if events.len() > 0 {
        assert(events[0] == events[0]);
        assert(forall|i: int| 0 <= i < events.skip(1).len() ==> events.skip(1)[i] == events[i + 1]);
        lemma_section_count(level, events.skip(1));
    }
}

proof fn lemma_blocked_count(level: int, sub: bool, head: bool, events: Seq<OrgEvent>)
    requires
        no_headline_events(events),
        sub,
    ensures
        spec_count_index(level, sub, head, events) == 0,
        index_state(level, sub, head, events) == (sub, head),
    decreases events.len(),
{
    if events.len() > 0 {
        assert(forall|i: int| 0 <= i < events.skip(1).len() ==> events.skip(1)[i] == events[i + 1]);
        lemma_blocked_count(level, sub, head, events.skip(1));
    }
}

proof fn lemma_deep_tree(level: int, h: Heading, head0: bool)
    requires
        heading_wf(h),
        h.level >= level + 2,
    ensures
        spec_count_index(level, true, head0, spec_subtree_events(h)) == 0,
        index_state(level, true, head0, spec_subtree_events(h)) == (true, false),
    decreases h, 0nat,
{
    reveal_with_fuel(spec_count_index, 7);
    reveal_with_fuel(index_state, 7);
    let full = spec_subtree_events(h);
    let open = spec_heading_open(h);
    let kids = spec_forest_events(h.children@);
    let fin = seq![OrgEvent::End(Element::Headline { level: h.level })];
    assert(full == open + h.section@ + kids + fin);
    lemma_index_concat(level, true, head0, open, h.section@);
    // After the headline start the machine is deep; the five opening events
    // leave it at (true, true) and count nothing.
    assert(open.skip(1) =~= open.subrange(1, 5));
    assert(open.subrange(1, 5).skip(1) =~= open.subrange(2, 5));
    assert(open.subrange(2, 5).skip(1) =~= open.subrange(3, 5));
    assert(open.subrange(3, 5).skip(1) =~= open.subrange(4, 5));
    assert(open.subrange(4, 5).skip(1) =~= Seq::<OrgEvent>::empty());
    assert(spec_count_index(level, true, head0, open) == 0);
    assert(index_state(level, true, head0, open) == (true, true));
    lemma_blocked_count(level, true, true, h.section@);
    lemma_index_concat(level, true, head0, open + h.section@, kids);
    lemma_index_concat(level, true, head0, open + h.section@ + kids, fin);
    assert(forall|i: int|
        0 <= i < h.children@.len() ==> (#[trigger] h.children@[i]).level == h.level + 1
            && heading_wf(h.children@[i]));
    lemma_deep_forest(level, h.children@, true);
    let st = index_state(level, true, true, kids);
    assert(st.0 == true);
    assert(fin.skip(1) =~= Seq::<OrgEvent>::empty());
    assert(h.level > level + 1);
    assert(spec_count_index(level, st.0, st.1, fin) == 0);
    assert(index_state(level, st.0, st.1, fin) == (true, false));
}

proof fn lemma_deep_forest(level: int, s: Seq<Heading>, head0: bool)
    requires
        forall|i: int|
            0 <= i < s.len() ==> heading_wf(#[trigger] s[i]) && s[i].level >= level + 2,
    ensures
        spec_count_index(level, true, head0, spec_forest_events(s)) == 0,
        index_state(level, true, head0, spec_forest_events(s)) == if s.len() == 0 {
            (true, head0)
        } else {
            (true, false)
        },
    decreases s, 1nat,
{
    if s.len() == 0 {
    } else {
        let first = spec_subtree_events(s[0]);
        let rest = spec_forest_events(s.skip(1));
        lemma_index_concat(level, true, head0, first, rest);
        lemma_deep_tree(level, s[0], head0);
        assert(forall|i: int| 0 <= i < s.skip(1).len() ==> s.skip(1)[i] == s[i + 1]);
        lemma_deep_forest(level, s.skip(1), false);
    }
}

proof fn lemma_child_tree(level: int, h: Heading)
    requires
        heading_wf(h),
        h.level == level + 1,
    ensures
        spec_count_index(level, false, false, spec_subtree_events(h)) == 0,
        index_state(level, false, false, spec_subtree_events(h)) == (false, false),
    decreases h, 0nat,
{
    reveal_with_fuel(spec_count_index, 7);
    reveal_with_fuel(index_state, 7);
    let open = spec_heading_open(h);
    let kids = spec_forest_events(h.children@);
    let fin = seq![OrgEvent::End(Element::Headline { level: h.level })];
    lemma_index_concat(level, false, false, open, h.section@);
    assert(open.skip(1) =~= open.subrange(1, 5));
    assert(open.subrange(1, 5).skip(1) =~= open.subrange(2, 5));
    assert(open.subrange(2, 5).skip(1) =~= open.subrange(3, 5));
    assert(open.subrange(3, 5).skip(1) =~= open.subrange(4, 5));
    assert(open.subrange(4, 5).skip(1) =~= Seq::<OrgEvent>::empty());
    assert(spec_count_index(level, false, false, open) == 0);
    assert(index_state(level, false, false, open) == (true, false));
    lemma_blocked_count(level, true, false, h.section@);
    lemma_index_concat(level, false, false, open + h.section@, kids);
    lemma_index_concat(level, false, false, open + h.section@ + kids, fin);
    assert(forall|i: int|
        0 <= i < h.children@.len() ==> (#[trigger] h.children@[i]).level == h.level + 1
            && heading_wf(h.children@[i]));
    lemma_deep_forest(level, h.children@, false);
    let st = index_state(level, true, false, kids);
    assert(st == (true, false));
    assert(fin.skip(1) =~= Seq::<OrgEvent>::empty());
    assert(spec_subtree_events(h) == open + h.section@ + kids + fin);
}

proof fn lemma_own_forest(level: int, s: Seq<Heading>)
    requires
        forall|i: int|
            0 <= i < s.len() ==> heading_wf(#[trigger] s[i]) && s[i].level == level + 1,
    ensures
        spec_count_index(level, false, false, spec_forest_events(s)) == 0,
        index_state(level, false, false, spec_forest_events(s)) == (false, false),
    decreases s, 1nat,
{
    if s.len() > 0 {
        let first = spec_subtree_events(s[0]);
        let rest = spec_forest_events(s.skip(1));
        lemma_index_concat(level, false, false, first, rest);
        lemma_child_tree(level, s[0]);
        assert(forall|i: int| 0 <= i < s.skip(1).len() ==> s.skip(1)[i] == s[i + 1]);
        lemma_own_forest(level, s.skip(1));
    }
}

/// The index word count of a well-formed heading covers exactly its own
/// content: the words of its title and of its own body.  Nothing belonging
/// to any descendant heading's subtree is counted.
pub proof fn lemma_index_counts_own_words(h: Heading)
    requires
        heading_wf(h),
    ensures
        spec_count_index(h.level as int, false, false, spec_subtree_events(h)) == word_count_of(
            h.raw@,
        ) + spec_count_post(h.section@),
{
    let level = h.level as int;
    reveal_with_fuel(spec_count_index, 7);
    reveal_with_fuel(index_state, 7);
    let open = spec_heading_open(h);
    let kids = spec_forest_events(h.children@);
    let fin = seq![OrgEvent::End(Element::Headline { level: h.level })];
    lemma_index_concat(level, false, false, open, h.section@);
    assert(open.skip(1) =~= open.subrange(1, 5));
    assert(open.subrange(1, 5).skip(1) =~= open.subrange(2, 5));
    assert(open.subrange(2, 5).skip(1) =~= open.subrange(3, 5));
    assert(open.subrange(3, 5).skip(1) =~= open.subrange(4, 5));
    assert(open.subrange(4, 5).skip(1) =~= Seq::<OrgEvent>::empty());
    assert(spec_count_index(level, false, false, open) == word_count_of(h.raw@));
    assert(index_state(level, false, false, open) == (false, false));
    lemma_section_count(level, h.section@);
    lemma_index_concat(level, false, false, open + h.section@, kids);
    lemma_index_concat(level, false, false, open + h.section@ + kids, fin);
    assert(forall|i: int|
        0 <= i < h.children@.len() ==> (#[trigger] h.children@[i]).level == h.level + 1
            && heading_wf(h.children@[i]));
    lemma_own_forest(level, h.children@);
    assert(fin.skip(1) =~= Seq::<OrgEvent>::empty());
    assert(spec_subtree_events(h) == open + h.section@ + kids + fin);
}

} // verus!
