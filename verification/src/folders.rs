//! The directory skeleton of a page tree: one directory per page, named by
//! its slug, nested like the tree; a page whose slug is `index` adds none.

use vstd::prelude::*;

use crate::page::{Page, PageEnum};
use crate::strings::str_eq;

verus! {

/// A child directory path: the base extended by a slug, unless the slug is
/// the sentinel `index`.
pub open spec fn spec_folder(base: Seq<char>, slug: Seq<char>) -> Seq<char> {
    if slug == "index"@ {
        base
    } else if base.len() == 0 {
        slug
    } else {
        base + seq!['/'] + slug
    }
}

/// The directories of a page tree, in creation order: the page's own, then
/// its children's, depth first.
pub open spec fn spec_folders(p: Page, base: Seq<char>) -> Seq<Seq<char>>
    decreases p,
{
    seq![spec_folder(base, p.info.slug@)] + (match p.page {
        PageEnum::Index { children } => spec_folders_forest(
            children@,
            spec_folder(base, p.info.slug@),
        ),
        _ => Seq::empty(),
    })
}

pub open spec fn spec_folders_forest(s: Seq<Page>, base: Seq<char>) -> Seq<Seq<char>>
    decreases s, 1nat,
{
    if s.len() == 0 {
        Seq::empty()
    } else {
        spec_folders(s[0], base) + spec_folders_forest(s.skip(1), base)
    }
}

/// The directories the tree needs, relative to the assets root, in the
/// order they are created.  An empty entry is the root itself.
pub fn generate_folders(page: &Page, base: &str) -> (r: Vec<String>)
    ensures
        r@.len() == spec_folders(*page, base@).len(),
        forall|i: int| 0 <= i < r@.len() ==> (#[trigger] r@[i])@ == spec_folders(*page, base@)[i],
    decreases *page,
{
    let own = if str_eq(page.info.slug.as_str(), "index") {
        base.to_owned()
    } else if base.unicode_len() == 0 {
        page.info.slug.clone()
    } else {
        let mut p = base.to_owned();
        p.append("/");
        p.append(page.info.slug.as_str());
        proof {
            reveal_strlit("/");
            assert(base@ + "/"@ + page.info.slug@ =~= base@ + seq!['/'] + page.info.slug@);
        }
        p
    };
    let mut out: Vec<String> = Vec::new();
    out.push(own.clone());
    match &page.page {
        PageEnum::Index { children } => {
            proof {
                assert(decreases_to!(*page => page.page));
                assert(page.page->Index_children == *children);
                assert(decreases_to!(page.page => page.page->Index_children));
                assert(decreases_to!(*children => children@));
                assert(decreases_to!(*page => children@));
            }
            let mut i: usize = 0;
            while i < children.len()
                invariant
                    i <= children@.len(),
                    (decreases_to!(*page => children@)),
                    own@ == spec_folder(base@, page.info.slug@),
                    out@.len() == 1 + spec_folders_forest(children@.take(i as int), own@).len(),
                    out@[0]@ == spec_folder(base@, page.info.slug@),
                    forall|j: int|
                        1 <= j < out@.len() ==> (#[trigger] out@[j])@ == spec_folders_forest(
                            children@.take(i as int),
                            own@,
                        )[j - 1],
                decreases children@.len() - i,
            {
                proof {
                    assert(decreases_to!(children@ => children@[i as int]));
                }
                let mut sub = generate_folders(&children[i], own.as_str());
                out.append(&mut sub);
                proof {
                    lemma_folders_forest_snoc(
                        children@.take(i as int),
                        children@[i as int],
                        own@,
                    );
                    assert(children@.take(i as int).push(children@[i as int]) =~= children@.take(
                        i + 1 as int,
                    ));
                }
                i = i + 1;
            }
            proof {
                assert(children@.take(children@.len() as int) =~= children@);
            }
        },
        _ => {},
    }
    out
}

proof fn lemma_folders_forest_snoc(s: Seq<Page>, p: Page, base: Seq<char>)
    ensures
        spec_folders_forest(s.push(p), base) == spec_folders_forest(s, base) + spec_folders(
            p,
            base,
        ),
    decreases s.len(),
{
    if s.len() == 0 {
        assert(s.push(p).skip(1) =~= Seq::<Page>::empty());
        assert(s.push(p)[0] == p);
        assert(spec_folders_forest(Seq::<Page>::empty(), base) =~= Seq::<Seq<char>>::empty());
        assert(spec_folders(p, base) + Seq::<Seq<char>>::empty() =~= spec_folders(p, base));
        assert(spec_folders_forest(s, base) + spec_folders(p, base) =~= spec_folders(p, base));
    } else {
        assert(s.push(p)[0] == s[0]);
        assert(s.push(p).skip(1) =~= s.skip(1).push(p));
        lemma_folders_forest_snoc(s.skip(1), p, base);
        assert(spec_folders(s[0], base) + (spec_folders_forest(s.skip(1), base) + spec_folders(
            p,
            base,
        )) =~= (spec_folders(s[0], base) + spec_folders_forest(s.skip(1), base)) + spec_folders(
            p,
            base,
        ));
    }
}

} // verus!
