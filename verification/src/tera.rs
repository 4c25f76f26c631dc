//! The template engine as a collaborator: the library sees a template store
//! as a set of template names, adds raw templates to it, asks whether a name
//! exists, and renders with plain key/value pairs.  Template resolution and
//! the site-wide page listing are verified here.

use vstd::prelude::*;

use crate::page::{Page, PageEnum};
use crate::strings::{push_str, str_eq, str_starts_with};

verus! {

/// The template store of the outside engine, declared so signatures and
/// fields can carry it; its contents are reached only through the wrappers
/// below.
#[verifier::external_type_specification]
#[verifier::external_body]
pub struct ExTera(tera::Tera);

/// The names of the templates a template store holds.
pub uninterp spec fn tera_templates(t: tera::Tera) -> Set<Seq<char>>;

/// Relies on `Tera::default`: a fresh store holds no templates.
#[verifier::external_body]
pub fn tera_default() -> (r: tera::Tera)
    ensures
        tera_templates(r) == Set::<Seq<char>>::empty(),
{
    tera::Tera::default()
}

/// Whether adding a named template to this store succeeds: the template
/// must parse, and the grown store's inheritance and imports must still
/// check — a function of the store value and the two texts.
pub uninterp spec fn tera_add_ok(t: tera::Tera, name: Seq<char>, content: Seq<char>) -> bool;

/// Relies on `Tera::add_raw_template`: it parses the template, inserts it,
/// and revalidates the store, all deterministically of the store and the
/// texts; on success the named template is in the store, and whatever
/// happens, at most that name was added.
#[verifier::external_body]
pub fn tera_add_raw_template(t: &mut tera::Tera, name: &str, content: &str) -> (r: Result<
    (),
    String,
>)
    ensures
        r is Ok <==> tera_add_ok(*old(t), name@, content@),
        r is Ok ==> tera_templates(*final(t)) == tera_templates(*old(t)).insert(name@),
        tera_templates(*final(t)) == tera_templates(*old(t)) || tera_templates(*final(t))
            == tera_templates(*old(t)).insert(name@),
{
    t.add_raw_template(name, content).map_err(|e| e.to_string())
}

/// Relies on `Tera::build_inheritance_chains`: it rewires inheritance but
/// neither adds nor removes templates.
#[verifier::external_body]
pub fn tera_build_inheritance_chains(t: &mut tera::Tera) -> (r: Result<(), String>)
    ensures
        tera_templates(*final(t)) == tera_templates(*old(t)),
{
    t.build_inheritance_chains().map_err(|e| e.to_string())
}

/// Relies on `Tera::get_template_names`: whether a name is among the
/// store's templates.
#[verifier::external_body]
pub fn tera_has_template(t: &tera::Tera, name: &str) -> (r: bool)
    ensures
        r == tera_templates(*t).contains(name@),
{
    t.get_template_names().any(|x| x == name)
}

/// Relies on `Tera::render` with a context built from the given pairs: a
/// name absent from the store never renders.
#[verifier::external_body]
pub fn tera_render_kv(t: &tera::Tera, name: &str, pairs: &Vec<(String, String)>) -> (r: Result<
    String,
    String,
>)
    ensures
        !tera_templates(*t).contains(name@) ==> r is Err,
{
    let mut ctx = tera::Context::new();
    for (k, v) in pairs.iter() {
        ctx.insert(k.as_str(), v.as_str());
    }
    t.render(name, &ctx).map_err(|e| format!("{:#}", e))
}

/// The template a page uses: an explicit name wins; else `{path}.html` when
/// the store has it (the root path counting as `index`); else the index or
/// post default.
pub open spec fn spec_get_template(
    templates: Set<Seq<char>>,
    name: Option<Seq<char>>,
    path: Seq<char>,
    index: bool,
) -> Seq<char> {
    match name {
        Some(n) => n,
        None => {
            let base = if path == "/"@ {
                "index"@
            } else {
                crate::render::trim_all(path, "/"@)
            };
            if templates.contains(base + ".html"@) {
                base + ".html"@
            } else if index {
                "default_index.html"@
            } else {
                "default.html"@
            }
        },
    }
}

/// Resolve the template for a page: the `template` property, the template
/// named after the page's path, or the kind's default.
pub fn get_template(tera: &tera::Tera, name: Option<&String>, path: &str, index: bool) -> (r:
    String)
    ensures
        r@ == spec_get_template(
            tera_templates(*tera),
            match name {
                Some(n) => Some(n@),
                None => None,
            },
            path@,
            index,
        ),
{
    match name {
        Some(n) => n.clone(),
        None => {
            let base = if str_eq(path, "/") {
                "index".to_owned()
            } else {
                proof {
                    reveal_strlit("/");
                }
                crate::render::trim_all_exec(path, "/")
            };
            let mut candidate = base;
            candidate.append(".html");
            if tera_has_template(tera, candidate.as_str()) {
                candidate
            } else if index {
                "default_index.html".to_owned()
            } else {
                "default.html".to_owned()
            }
        },
    }
}

/// One entry of the site-wide page listing.
#[derive(Debug)]
pub struct SiteLink {
    pub link: String,
    pub title: String,
    pub closed_at: Option<String>,
    pub description: Option<String>,
    pub order: usize,
}

/// The ghost value of one listing entry.
pub ghost struct SiteLinkS {
    pub link: Seq<char>,
    pub title: Seq<char>,
    pub closed_at: Option<Seq<char>>,
    pub description: Option<Seq<char>>,
    pub order: int,
}

/// The listing of a page tree, in depth-first order: the page itself, then
/// its children.
pub open spec fn links_of(p: Page) -> Seq<SiteLinkS>
    decreases p,
{
    seq![
        SiteLinkS {
            link: p.path@,
            title: p.info.title@,
            closed_at: match p.info.closed_at {
                Some(d) => Some(crate::page::spec_closed_str(d)),
                None => None,
            },
            description: match p.info.description {
                Some(ref d) => Some(d@),
                None => None,
            },
            order: p.order as int,
        },
    ] + (match p.page {
        PageEnum::Index { children } => links_forest(children@),
        _ => Seq::empty(),
    })
}

pub open spec fn links_forest(s: Seq<Page>) -> Seq<SiteLinkS>
    decreases s, 1nat,
{
    if s.len() == 0 {
        Seq::empty()
    } else {
        links_of(s[0]) + links_forest(s.skip(1))
    }
}

pub open spec fn link_models(l: SiteLink, m: SiteLinkS) -> bool {
    &&& l.link@ == m.link
    &&& l.title@ == m.title
    &&& match (l.closed_at, m.closed_at) {
        (Some(a), Some(b)) => a@ == b,
        (None, None) => true,
        _ => false,
    }
    &&& match (l.description, m.description) {
        (Some(ref a), Some(b)) => a@ == b,
        (None, None) => true,
        _ => false,
    }
    &&& l.order == m.order
}

/// Collect the whole tree's listing, page by page.
pub fn collect_links(p: &Page) -> (r: Vec<SiteLink>)
    ensures
        r@.len() == links_of(*p).len(),
        forall|i: int| 0 <= i < r@.len() ==> link_models(#[trigger] r@[i], links_of(*p)[i]),
    decreases *p,
{
    let mut out: Vec<SiteLink> = Vec::new();
    let closed_at = p.info.closed_at();
    let description = match &p.info.description {
        Some(d) => Some(d.clone()),
        None => None,
    };
    out.push(
        SiteLink {
            link: p.path.clone(),
            title: p.info.title.clone(),
            closed_at,
            description,
            order: p.order,
        },
    );
    match &p.page {
        PageEnum::Index { children } => {
            proof {
                assert(decreases_to!(*p => p.page));
                assert(p.page->Index_children == *children);
                assert(decreases_to!(p.page => p.page->Index_children));
                assert(decreases_to!(*children => children@));
                assert(decreases_to!(*p => children@));
            }
            let mut i: usize = 0;
            while i < children.len()
                invariant
                    i <= children@.len(),
                    (decreases_to!(*p => children@)),
                    out@.len() == 1 + links_forest(children@.take(i as int)).len(),
                    out@.len() >= 1,
                    link_models(out@[0], links_of(*p)[0]),
                    forall|j: int|
                        1 <= j < out@.len() ==> link_models(
                            #[trigger] out@[j],
                            links_forest(children@.take(i as int))[j - 1],
                        ),
                decreases children@.len() - i,
            {
                proof {
                    assert(decreases_to!(children@ => children@[i as int]));
                }
                let mut sub = collect_links(&children[i]);
                let ghost pre = out@;
                out.append(&mut sub);
                proof {
                    lemma_links_forest_snoc(children@.take(i as int), children@[i as int]);
                    assert(children@.take(i as int).push(children@[i as int]) =~= children@.take(
                        i + 1 as int,
                    ));
                }
                i = i + 1;
            }
            proof {
                assert(children@.take(children@.len() as int) =~= children@);
            }
        },
        _ => {},
    }
    proof {
        assert(links_of(*p)[0] == links_of(*p)[0]);
    }
    out
}

proof fn lemma_links_forest_snoc(s: Seq<Page>, p: Page)
    ensures
        links_forest(s.push(p)) == links_forest(s) + links_of(p),
    decreases s.len(),
{
    if s.len() == 0 {
        assert(s.push(p).skip(1) =~= Seq::<Page>::empty());
        assert(s.push(p)[0] == p);
        assert(links_forest(Seq::<Page>::empty()) =~= Seq::<SiteLinkS>::empty());
        assert(links_of(p) + Seq::<SiteLinkS>::empty() =~= links_of(p));
        assert(links_forest(s) + links_of(p) =~= links_of(p));
    } else {
        assert(s.push(p)[0] == s[0]);
        assert(s.push(p).skip(1) =~= s.skip(1).push(p));
        lemma_links_forest_snoc(s.skip(1), p);
        assert(links_of(s[0]) + (links_forest(s.skip(1)) + links_of(p)) =~= (links_of(s[0])
            + links_forest(s.skip(1))) + links_of(p));
    }
}

/// The entries of `s` whose link starts with `p`, in order.
pub open spec fn keep_prefixed(s: Seq<SiteLink>, p: Seq<char>) -> Seq<SiteLink>
    decreases s.len(),
{
    if s.len() == 0 {
        Seq::empty()
    } else {
        (if crate::render::spec_starts_with(s[0].link@, p) {
            seq![s[0]]
        } else {
            Seq::empty()
        }) + keep_prefixed(s.skip(1), p)
    }
}

proof fn lemma_keep_prefixed_snoc(s: Seq<SiteLink>, x: SiteLink, p: Seq<char>)
    ensures
        keep_prefixed(s.push(x), p) == keep_prefixed(s, p) + (if crate::render::spec_starts_with(
            x.link@,
            p,
        ) {
            seq![x]
        } else {
            Seq::empty()
        }),
    decreases s.len(),
{
    let tail: Seq<SiteLink> = if crate::render::spec_starts_with(x.link@, p) {
        seq![x]
    } else {
        Seq::empty()
    };
    if s.len() == 0 {
        assert(s.push(x)[0] == x);
        assert(s.push(x).skip(1) =~= Seq::<SiteLink>::empty());
        assert(keep_prefixed(Seq::<SiteLink>::empty(), p) == Seq::<SiteLink>::empty());
        assert(tail + Seq::<SiteLink>::empty() =~= tail);
        assert(keep_prefixed(s, p) + tail =~= tail);
    } else {
        assert(s.push(x)[0] == s[0]);
        assert(s.push(x).skip(1) =~= s.skip(1).push(x));
        lemma_keep_prefixed_snoc(s.skip(1), x, p);
        let head: Seq<SiteLink> = if crate::render::spec_starts_with(s[0].link@, p) {
            seq![s[0]]
        } else {
            Seq::empty()
        };
        assert(head + (keep_prefixed(s.skip(1), p) + tail) =~= (head + keep_prefixed(
            s.skip(1),
            p,
        )) + tail);
    }
}

/// The entries whose link starts with `path`: exactly the matching
/// subsequence of `links`, fields preserved, order kept.
pub fn links_with_prefix(links: &Vec<SiteLink>, path: &str) -> (r: Vec<SiteLink>)
    ensures
        r@ == keep_prefixed(links@, path@),
{
    let mut out: Vec<SiteLink> = Vec::new();
    let mut i: usize = 0;
    proof {
        assert(links@.take(0) =~= Seq::<SiteLink>::empty());
        assert(out@ =~= keep_prefixed(links@.take(0), path@));
    }
    while i < links.len()
        invariant
            i <= links@.len(),
            out@ == keep_prefixed(links@.take(i as int), path@),
        decreases links@.len() - i,
    {
        if str_starts_with(links[i].link.as_str(), path) {
            let description = match &links[i].description {
                Some(d) => Some(d.clone()),
                None => None,
            };
            let closed_at = match &links[i].closed_at {
                Some(d) => Some(d.clone()),
                None => None,
            };
            let copy = SiteLink {
                link: links[i].link.clone(),
                title: links[i].title.clone(),
                closed_at,
                description,
                order: links[i].order,
            };
            proof {
                assert(copy == links@[i as int]);
            }
            out.push(copy);
        }
        proof {
            lemma_keep_prefixed_snoc(links@.take(i as int), links@[i as int], path@);
            assert(links@.take(i as int).push(links@[i as int]) =~= links@.take(i + 1 as int));
        }
        i = i + 1;
    }
    proof {
        assert(links@.take(links@.len() as int) =~= links@);
    }
    out
}

} // verus!
