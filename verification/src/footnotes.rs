//! Collecting the footnotes of a page: definitions with their text, and
//! inline references that carry their own definition, numbered when the
//! author left the label empty.

use vstd::prelude::*;

use crate::doc::{Element, OrgEvent};
use crate::strings::{chars_to_string, dec_str, push_dec};

verus! {

/// One footnote: its label and its definition text.
#[derive(Debug)]
pub struct Footnote {
    pub label: String,
    pub definition: String,
}

/// The collector's state: the auto-number counter, the open definition (if
/// the walk is inside one), and the footnotes gathered so far.
pub ghost struct FnoteS {
    pub fid: int,
    pub cur: Option<(Seq<char>, Seq<char>)>,
    pub out: Seq<(Seq<char>, Seq<char>)>,
}

/// One event's effect on the footnote collector.
pub open spec fn fnote_step(s: FnoteS, e: OrgEvent) -> FnoteS {
    match e {
        OrgEvent::Start(Element::FnDef { label }) => FnoteS {
            cur: Some((label@, Seq::empty())),
            ..s
        },
        OrgEvent::Start(Element::FnRef { label, definition: Some(def) }) => {
            if label@.len() == 0 {
                FnoteS { fid: s.fid + 1, out: s.out.push((dec_str((s.fid + 1) as nat), def@)), ..s }
            } else {
                FnoteS { out: s.out.push((label@, def@)), ..s }
            }
        },
        OrgEvent::Start(Element::Text { value }) => {
            match s.cur {
                Some((lab, def)) => FnoteS { cur: Some((lab, def + value@)), ..s },
                None => s,
            }
        },
        OrgEvent::End(Element::FnDef { .. }) => {
            match s.cur {
                Some((lab, def)) => FnoteS { cur: None, out: s.out.push((lab, def)), ..s },
                None => s,
            }
        },
        _ => s,
    }
}

/// The collector folded over a stream.
pub open spec fn fnote_fold(s: FnoteS, events: Seq<OrgEvent>) -> FnoteS
    decreases events.len(),
{
    if events.len() == 0 {
        s
    } else {
        fnote_fold(fnote_step(s, events[0]), events.skip(1))
    }
}

/// The labelled footnotes of a stream.
pub open spec fn spec_footnotes(events: Seq<OrgEvent>) -> Seq<(Seq<char>, Seq<char>)> {
    fnote_fold(FnoteS { fid: 0, cur: None, out: Seq::empty() }, events).out
}

/// Collect the footnotes of a page's stream: every definition with its
/// gathered text, and every self-defining reference, auto-numbered when its
/// label is empty.
pub fn get_footnotes(events: &Vec<OrgEvent>) -> (r: Vec<Footnote>)
    ensures
        r@.len() == spec_footnotes(events@).len(),
        forall|j: int|
            0 <= j < r@.len() ==> ((#[trigger] r@[j]).label@, r@[j].definition@)
                == spec_footnotes(events@)[j],
{
    let mut out: Vec<Footnote> = Vec::new();
    let mut fid: usize = 0;
    let mut cur: Option<(String, String)> = None;
    let mut i: usize = 0;
    let ghost init = FnoteS { fid: 0, cur: None, out: Seq::empty() };
    proof {
        assert(events@.skip(0) =~= events@);
        assert(Seq::new(out@.len() as nat, |j: int| (out@[j].label@, out@[j].definition@)) =~= Seq::<
            (Seq<char>, Seq<char>),
        >::empty());
    }
    while i < events.len()
        invariant
            i <= events@.len(),
            fid <= i,
            fnote_fold(init, events@) == fnote_fold(
                FnoteS {
                    fid: fid as int,
                    cur: match cur {
                        Some((ref l, ref d)) => Some((l@, d@)),
                        None => None,
                    },
                    out: Seq::new(out@.len() as nat, |j: int| (out@[j].label@, out@[j].definition@)),
                },
                events@.skip(i as int),
            ),
        decreases events@.len() - i,
    {
        proof {
            assert(events@.skip(i as int)[0] == events@[i as int]);
            assert(events@.skip(i as int).skip(1) =~= events@.skip(i + 1 as int));
        }
        let ghost pre = FnoteS {
            fid: fid as int,
            cur: match cur {
                Some((ref l, ref d)) => Some((l@, d@)),
                None => None,
            },
            out: Seq::new(out@.len() as nat, |j: int| (out@[j].label@, out@[j].definition@)),
        };
        match &events[i] {
            OrgEvent::Start(Element::FnDef { label }) => {
                cur = Some((label.clone(), String::new()));
            },
            OrgEvent::Start(Element::FnRef { label, definition: Some(def) }) => {
                if label.as_str().unicode_len() == 0 {
                    fid = fid + 1;
                    let mut lab: Vec<char> = Vec::new();
                    push_dec(&mut lab, fid as u64);
                    out.push(Footnote { label: chars_to_string(&lab), definition: def.clone() });
                    proof {
                        assert(label@ =~= Seq::<char>::empty());
                    }
                } else {
                    out.push(Footnote { label: label.clone(), definition: def.clone() });
                }
            },
            OrgEvent::Start(Element::Text { value }) => {
                match cur {
                    Some((l, mut d)) => {
                        d.append(value.as_str());
                        cur = Some((l, d));
                    },
                    None => {
                        cur = None;
                    },
                }
            },
            OrgEvent::End(Element::FnDef { .. }) => {
                match cur {
                    Some((l, d)) => {
                        out.push(Footnote { label: l, definition: d });
                        cur = None;
                    },
                    None => {
                        cur = None;
                    },
                }
            },
            _ => {},
        }
        proof {
            let post = FnoteS {
                fid: fid as int,
                cur: match cur {
                    Some((ref l, ref d)) => Some((l@, d@)),
                    None => None,
                },
                out: Seq::new(out@.len() as nat, |j: int| (out@[j].label@, out@[j].definition@)),
            };
            assert(post.out =~= fnote_step(pre, events@[i as int]).out);
            assert(post == fnote_step(pre, events@[i as int]));
        }
        i = i + 1;
    }
    proof {
        assert(events@.skip(events@.len() as int) =~= Seq::<OrgEvent>::empty());
        assert(forall|j: int|
            0 <= j < out@.len() ==> spec_footnotes(events@)[j] == ((#[trigger] out@[j]).label@,
            out@[j].definition@));
    }
    out
}

} // verus!
