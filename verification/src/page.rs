//! The page tree: classifying headings and building pages.
//!
//! A heading either vanishes (a `noexport` tag, or a not-done workflow
//! keyword), becomes a leaf post (a `post` tag, or a parent tagged `posts`),
//! becomes a post whose body lives in a separate linked document (a `file`
//! property holding a file link), or recurses as a nested index.
//!
//! The ghost model `build_page` says exactly what tree a heading produces;
//! the executable builder is proved to match it.

use vstd::prelude::*;

use crate::config::{TodoKeywords, spec_in_todo, in_todo};
use crate::doc::{Date, Heading, lookup, spec_lookup, has_tag, spec_has_tag};
use crate::helpers::{parse_file_link, parse_file_link_spec};
use crate::slug::{slugify, slugify_spec};
use crate::strings::{str_eq, chars_to_string, push_dec, push_pad2, dec_str, pad2_str};

verus! {

/// The derived, immutable metadata of one page.
#[derive(Debug)]
pub struct PageInfo {
    /// The heading's properties, copied verbatim.
    pub properties: Vec<(String, String)>,
    /// The `title` property, or the raw heading text.
    pub title: String,
    /// The `slug` property or the title, slugified.
    pub slug: String,
    /// The `description` property, if any.
    pub description: Option<String>,
    /// The date of the closed timestamp, if any.
    pub closed_at: Option<Date>,
}

/// What kind of page a heading became.
#[derive(Debug)]
pub enum PageEnum {
    /// A section with child pages, keyed by slug.
    Index { children: Vec<Page> },
    /// A leaf whose content is the heading's own body.
    Post,
    /// A leaf whose content is parsed from a separate document.
    OrgFile { path: String },
}

/// One node of the page tree.
#[derive(Debug)]
pub struct Page {
    /// The heading this page came from.  For an index page the children are
    /// not kept here (they became pages); for leaf pages the whole subtree
    /// stays.
    pub heading: Heading,
    /// Absolute URL path; `/` for the root.
    pub path: String,
    pub info: PageInfo,
    /// Zero-based position among surviving siblings.
    pub order: usize,
    pub page: PageEnum,
}

/// The effective title of a heading.
pub open spec fn spec_title(h: Heading) -> Seq<char> {
    match spec_lookup(h.properties@, "title"@) {
        Some(t) => t,
        None => h.raw@,
    }
}

/// What the slug is derived from: the `slug` property, or the title.
pub open spec fn spec_slug_source(h: Heading) -> Seq<char> {
    match spec_lookup(h.properties@, "slug"@) {
        Some(s) => s,
        None => spec_title(h),
    }
}

/// The slug of a heading.
pub open spec fn spec_slug(h: Heading) -> Seq<char> {
    slugify_spec(spec_slug_source(h))
}

/// The description of a heading, if any.
pub open spec fn spec_description(h: Heading) -> Option<Seq<char>> {
    spec_lookup(h.properties@, "description"@)
}

/// Whether the classifier keeps a heading: not tagged `noexport`, and its
/// workflow keyword (if any) is either done, or is the in-review keyword
/// `PROGRESS` outside release mode.
pub open spec fn spec_keeps(h: Heading, kw: TodoKeywords, release: bool) -> bool {
    &&& !spec_has_tag(h, "noexport"@)
    &&& match h.keyword {
        Some(k) => !spec_in_todo(kw, k@) || (!release && k@ == "PROGRESS"@),
        None => true,
    }
}

/// Whether a kept heading is a leaf post rather than a nested index.
pub open spec fn spec_is_post(h: Heading, parent_posts: bool) -> bool {
    spec_has_tag(h, "post"@) || parent_posts
}

/// The ghost model of a page kind.
pub ghost enum PageKindModel {
    Index { children: Seq<PageModel> },
    Post,
    OrgFile { path: Seq<char> },
}

/// The ghost model of a page: every derived field as a mathematical value,
/// plus the heading it came from (children intact).
pub ghost struct PageModel {
    pub heading: Heading,
    pub path: Seq<char>,
    pub title: Seq<char>,
    pub slug: Seq<char>,
    pub description: Option<Seq<char>>,
    pub closed: Option<Date>,
    pub properties: Seq<(String, String)>,
    pub order: int,
    pub kind: PageKindModel,
}

/// Drop the first page with the given slug, if any.
pub open spec fn remove_first_slug(s: Seq<PageModel>, slug: Seq<char>) -> Seq<PageModel>
    decreases s.len(),
{
    if s.len() == 0 {
        s
    } else if s[0].slug == slug {
        s.skip(1)
    } else {
        seq![s[0]] + remove_first_slug(s.skip(1), slug)
    }
}

/// The model of an index page built from `h` at `path0`.
pub open spec fn build_page(
    h: Heading,
    kw: TodoKeywords,
    path0: Seq<char>,
    order: int,
    release: bool,
) -> PageModel
    decreases h, 0nat,
{
    let slug = spec_slug(h);
    let path1 = if slug == "index"@ {
        path0
    } else {
        path0 + seq!['/'] + slug
    };
    let parent_posts = spec_has_tag(h, "posts"@);
    let kids = build_children(h.children@, kw, path1, release, parent_posts, 0, Seq::empty());
    let path2 = if path1.len() == 0 {
        seq!['/']
    } else {
        path1
    };
    PageModel {
        heading: h,
        path: path2,
        title: spec_title(h),
        slug,
        description: spec_description(h),
        closed: h.closed,
        properties: h.properties@,
        order,
        kind: PageKindModel::Index { children: kids },
    }
}

/// The model of a kept child heading: an index page by recursion, or a leaf.
pub open spec fn build_child(
    h: Heading,
    kw: TodoKeywords,
    parent_path: Seq<char>,
    order: int,
    release: bool,
    parent_posts: bool,
) -> PageModel
    decreases h, 1nat,
{
    if !spec_is_post(h, parent_posts) {
        build_page(h, kw, parent_path, order, release)
    } else {
        let slug = spec_slug(h);
        let path = parent_path + seq!['/'] + slug;
        let kind = match spec_lookup(h.properties@, "file"@) {
            Some(f) => match parse_file_link_spec(f) {
                Some(l) => PageKindModel::OrgFile { path: l },
                None => PageKindModel::Post,
            },
            None => PageKindModel::Post,
        };
        PageModel {
            heading: h,
            path,
            title: spec_title(h),
            slug,
            description: spec_description(h),
            closed: h.closed,
            properties: h.properties@,
            order,
            kind,
        }
    }
}

/// The surviving children of a sibling list, in order, with slug collisions
/// resolved in favour of the later sibling.
pub open spec fn build_children(
    siblings: Seq<Heading>,
    kw: TodoKeywords,
    parent_path: Seq<char>,
    release: bool,
    parent_posts: bool,
    next_order: int,
    acc: Seq<PageModel>,
) -> Seq<PageModel>
    decreases siblings, 2nat,
{
    if siblings.len() == 0 {
        acc
    } else {
        let h0 = siblings[0];
        if !spec_keeps(h0, kw, release) {
            build_children(siblings.skip(1), kw, parent_path, release, parent_posts, next_order, acc)
        } else {
            let c = build_child(h0, kw, parent_path, next_order, release, parent_posts);
            build_children(
                siblings.skip(1),
                kw,
                parent_path,
                release,
                parent_posts,
                next_order + 1,
                remove_first_slug(acc, c.slug).push(c),
            )
        }
    }
}

/// The fields a page's stored heading shares with the heading it came from.
pub open spec fn heading_base_matches(a: Heading, b: Heading) -> bool {
    &&& a.level == b.level
    &&& a.raw == b.raw
    &&& a.tags == b.tags
    &&& a.keyword == b.keyword
    &&& a.properties == b.properties
    &&& a.closed == b.closed
    &&& a.section == b.section
}

/// Whether an executable page realizes a page model.
pub open spec fn page_models(p: Page, m: PageModel) -> bool
    decreases p,
{
    &&& heading_base_matches(p.heading, m.heading)
    &&& (m.kind matches PageKindModel::Index { .. } ==> p.heading.children@.len() == 0)
    &&& (!(m.kind matches PageKindModel::Index { .. }) ==> p.heading.children
        == m.heading.children)
    &&& p.path@ == m.path
    &&& p.order == m.order
    &&& p.info.title@ == m.title
    &&& p.info.slug@ == m.slug
    &&& p.info.properties@ == m.properties
    &&& match (p.info.description, m.description) {
        (Some(d), Some(md)) => d@ == md,
        (None, None) => true,
        _ => false,
    }
    &&& p.info.closed_at == m.closed
    &&& match p.page {
        PageEnum::Index { children } => m.kind matches PageKindModel::Index { children: mc }
            && children@.len() == mc.len() && (forall|i: int|
            0 <= i < mc.len() ==> page_models(#[trigger] children@[i], mc[i])),
        PageEnum::Post => m.kind matches PageKindModel::Post,
        PageEnum::OrgFile { path } => m.kind matches PageKindModel::OrgFile { path: mp } && path@
            == mp,
    }
}

/// Whether a list of pages realizes a list of models, position by position.
pub open spec fn pages_model(ps: Seq<Page>, ms: Seq<PageModel>) -> bool {
    ps.len() == ms.len() && forall|i: int| 0 <= i < ps.len() ==> page_models(#[trigger] ps[i], ms[i])
}

impl PageInfo {
    /// Derive the metadata of a heading: title and slug (with property
    /// overrides), description, closed date, and the properties verbatim.
    pub fn new(h: &Heading) -> (r: PageInfo)
        ensures
            r.properties@ == h.properties@,
            r.title@ == spec_title(*h),
            r.slug@ == spec_slug(*h),
            match (r.description, spec_description(*h)) {
                (Some(d), Some(md)) => d@ == md,
                (None, None) => true,
                _ => false,
            },
            r.closed_at == h.closed,
    {
        let properties = crate::config::clone_pairs(&h.properties);
        let title = match lookup(&h.properties, "title") {
            Some(t) => t.clone(),
            None => h.raw.clone(),
        };
        let slug_source = match lookup(&h.properties, "slug") {
            Some(s) => s.clone(),
            None => title.clone(),
        };
        let slug = slugify(slug_source.as_str());
        let description = match lookup(&h.properties, "description") {
            Some(d) => Some(d.clone()),
            None => None,
        };
        PageInfo { properties, title, slug, description, closed_at: h.closed }
    }

    /// The closed date as `year-month-day`, month and day two digits.
    pub fn closed_at(&self) -> (r: Option<String>)
        ensures
            match (self.closed_at, r) {
                (Some(d), Some(s)) => s@ == spec_closed_str(d),
                (None, None) => true,
                _ => false,
            },
    {
        match self.closed_at {
            Some(d) => {
                let mut out: Vec<char> = Vec::new();
                push_dec(&mut out, d.year as u64);
                out.push('-');
                push_pad2(&mut out, d.month as u64);
                out.push('-');
                push_pad2(&mut out, d.day as u64);
                Some(chars_to_string(&out))
            },
            None => None,
        }
    }
}

/// `year-month-day` with month and day zero-padded to two digits.
pub open spec fn spec_closed_str(d: Date) -> Seq<char> {
    dec_str(d.year as nat) + seq!['-'] + pad2_str(d.month as nat) + seq!['-'] + pad2_str(
        d.day as nat,
    )
}

proof fn lemma_remove_none(ms: Seq<PageModel>, slug: Seq<char>)
    requires
        forall|i: int| 0 <= i < ms.len() ==> (#[trigger] ms[i]).slug != slug,
    ensures
        remove_first_slug(ms, slug) == ms,
    decreases ms.len(),
{
    if ms.len() > 0 {
        lemma_remove_none(ms.skip(1), slug);
        assert(seq![ms[0]] + ms.skip(1) =~= ms);
    }
}

proof fn lemma_remove_at(ms: Seq<PageModel>, slug: Seq<char>, j: int)
    requires
        0 <= j < ms.len(),
        ms[j].slug == slug,
        forall|i: int| 0 <= i < j ==> (#[trigger] ms[i]).slug != slug,
    ensures
        remove_first_slug(ms, slug) == ms.subrange(0, j) + ms.skip(j + 1),
    decreases j,
{
    if j == 0 {
        assert(remove_first_slug(ms, slug) == ms.skip(1));
        assert(ms.subrange(0, 0) + ms.skip(1) =~= ms.skip(1));
    } else {
        assert(ms[0].slug != slug);
        assert(forall|i: int| 0 <= i < j - 1 ==> ms.skip(1)[i] == ms[i + 1]);
        lemma_remove_at(ms.skip(1), slug, j - 1);
        assert(ms.skip(1).subrange(0, j - 1) =~= ms.subrange(1, j));
        assert(ms.skip(1).skip(j) =~= ms.skip(j + 1));
        assert(seq![ms[0]] + (ms.subrange(1, j) + ms.skip(j + 1)) =~= ms.subrange(0, j) + ms.skip(
            j + 1,
        ));
    }
}

/// Insert a child page, evicting an earlier sibling with the same slug.
fn insert_child(kids: &mut Vec<Page>, p: Page, Ghost(ms): Ghost<Seq<PageModel>>, Ghost(pm): Ghost<
    PageModel,
>)
    requires
        pages_model(old(kids)@, ms),
        page_models(p, pm),
    ensures
        pages_model(final(kids)@, remove_first_slug(ms, pm.slug).push(pm)),
{
    let ghost slug = pm.slug;
    let mut j: usize = 0;
    while j < kids.len()
        invariant
            j <= kids@.len(),
            pages_model(kids@, ms),
            page_models(p, pm),
            forall|i: int| 0 <= i < j ==> (#[trigger] ms[i]).slug != pm.slug,
        decreases kids@.len() - j,
    {
        let same_slug = {
            let kj: &Page = &kids[j];
            proof {
                assert(*kj == kids@[j as int]);
            }
            str_eq(kj.info.slug.as_str(), p.info.slug.as_str())
        };
        if same_slug {
            let ghost pre = kids@;
            proof {
                assert(page_models(pre[j as int], ms[j as int]));
                assert(page_models(p, pm));
                assert(same_slug);
                assert(kids@[j as int].info.slug@ == p.info.slug@);
                assert(ms[j as int].slug == pm.slug);
                lemma_remove_at(ms, pm.slug, j as int);
            }
            kids.remove(j);
            kids.push(p);
            proof {
                let expect = ms.subrange(0, j as int) + ms.skip(j as int + 1);
                assert(kids@ =~= pre.remove(j as int).push(p));
                assert(pre.remove(j as int) =~= pre.subrange(0, j as int) + pre.skip(
                    j as int + 1,
                ));
                assert(kids@.len() == expect.push(pm).len());
                assert forall|i: int| 0 <= i < kids@.len() implies page_models(
                    #[trigger] kids@[i],
                    expect.push(pm)[i],
                ) by {
                    if i < j as int {
                        assert(kids@[i] == pre[i]);
                        assert(expect.push(pm)[i] == ms[i]);
                        assert(page_models(pre[i], ms[i]));
                    } else if i < kids@.len() - 1 {
                        assert(kids@[i] == pre[i + 1]);
                        assert(expect.push(pm)[i] == ms[i + 1]);
                        assert(page_models(pre[i + 1], ms[i + 1]));
                    }
                }
            }
            return;
        }
        proof {
            assert(page_models(kids@[j as int], ms[j as int]));
        }
        j = j + 1;
    }
    proof {
        lemma_remove_none(ms, slug);
    }
    kids.push(p);
}

impl Page {
    /// The child page with the given slug, if any.
    pub fn child(&self, slug: &str) -> (r: Option<&Page>)
        ensures
            match r {
                Some(c) => self.page matches PageEnum::Index { .. } && exists|i: int|
                    0 <= i < (self.page->Index_children)@.len() && (
                    #[trigger] (self.page->Index_children)@[i]) == *c && c.info.slug@ == slug@,
                None => true,
            },
    {
        match &self.page {
            PageEnum::Index { children } => {
                let mut i: usize = 0;
                while i < children.len()
                    invariant
                        i <= children@.len(),
                        self.page is Index,
                        self.page->Index_children == *children,
                    decreases children@.len() - i,
                {
                    if str_eq(children[i].info.slug.as_str(), slug) {
                        let c = &children[i];
                        proof {
                            assert(self.page->Index_children == *children);
                            assert((self.page->Index_children)@[i as int] == *c);
                            assert(c.info.slug@ == slug@);
                        }
                        return Some(c);
                    }
                    i = i + 1;
                }
                None
            },
            _ => None,
        }
    }
}

fn parse_child(
    order: usize,
    h: Heading,
    keywords: &TodoKeywords,
    release: bool,
    parent_is_posts: bool,
    path: &str,
) -> (r: Option<Page>)
    ensures
        match r {
            None => !spec_keeps(h, *keywords, release),
            Some(p) => spec_keeps(h, *keywords, release) && page_models(
                p,
                build_child(h, *keywords, path@, order as int, release, parent_is_posts),
            ),
        },
    decreases h, 1nat,
{
    if has_tag(&h, "noexport") {
        return None;
    }
    let skip = match &h.keyword {
        Some(k) => in_todo(keywords, k.as_str()) && (release || !str_eq(k.as_str(), "PROGRESS")),
        None => false,
    };
    if skip {
        return None;
    }
    let is_post = has_tag(&h, "post");
    if !is_post && !parent_is_posts {
        return Some(Page::parse_index(h, keywords, path.to_owned(), order, release));
    }
    let info = PageInfo::new(&h);
    let mut p = path.to_owned();
    p.append("/");
    p.append(info.slug.as_str());
    proof {
        reveal_strlit("/");
        assert(path@ + "/"@ + info.slug@ =~= path@ + seq!['/'] + spec_slug(h));
    }
    let file_link = match lookup(&h.properties, "file") {
        Some(f) => parse_file_link(f.as_str()),
        None => None,
    };
    match file_link {
        Some(link) => Some(
            Page { heading: h, path: p, info, order, page: PageEnum::OrgFile { path: link } },
        ),
        None => Some(Page { heading: h, path: p, info, order, page: PageEnum::Post }),
    }
}

impl Page {
    /// Build the page tree of a heading taken as an index page.
    ///
    /// `path` is the accumulated ancestor path; a heading whose slug is
    /// `index` adds no path segment, and an empty final path is the root
    /// `/`.  Children are classified in document order: excluded headings
    /// leave no page, posts and file-linked posts become leaves, everything
    /// else recurses as an index.  A later child whose slug repeats an
    /// earlier one's replaces it.
    pub fn parse_index(
        h: Heading,
        keywords: &TodoKeywords,
        path: String,
        order: usize,
        release: bool,
    ) -> (r: Page)
        ensures
            page_models(r, build_page(h, *keywords, path@, order as int, release)),
        decreases h, 0nat,
    {
        let ghost m = build_page(h, *keywords, path@, order as int, release);
        let info = PageInfo::new(&h);
        let mut path = path;
        let ghost path0 = path@;
        if !str_eq(info.slug.as_str(), "index") {
            path.append("/");
            path.append(info.slug.as_str());
            proof {
                reveal_strlit("/");
                assert(path0 + "/"@ + info.slug@ =~= path0 + seq!['/'] + spec_slug(h));
            }
        }
        let parent_is_posts = has_tag(&h, "posts");
        let ghost path1 = path@;
        let Heading { level, raw, tags, keyword, properties, closed, section, children } = h;
        let mut kids_src = children;
        let orig_len: usize = kids_src.len();
        let ghost orig = kids_src@;
        let mut kids: Vec<Page> = Vec::new();
        let mut next_order: usize = 0;
        let ghost mut acc_m: Seq<PageModel> = Seq::empty();
        proof {
            assert(orig == h.children@);
            assert(orig.skip(0) =~= orig);
        }
        while kids_src.len() > 0
            invariant
                orig == h.children@,
                path@ == path1,
                pages_model(kids@, acc_m),
                build_children(orig, *keywords, path1, release, parent_is_posts, 0, Seq::empty())
                    == build_children(
                    kids_src@,
                    *keywords,
                    path1,
                    release,
                    parent_is_posts,
                    next_order as int,
                    acc_m,
                ),
                next_order + kids_src@.len() <= orig_len && orig_len == orig.len(),
                exists|k: int|
                    0 <= k <= orig.len() && kids_src@ =~= #[trigger] orig.skip(k),
            decreases kids_src@.len(),
        {
            let ghost pre_src = kids_src@;
            let c = kids_src.remove(0);
            proof {
                let k = choose|k: int| 0 <= k <= orig.len() && pre_src =~= #[trigger] orig.skip(
                    k,
                );
                assert(c == orig[k]);
                assert(decreases_to!(h => h.children));
                assert(decreases_to!(h.children => h.children@));
                assert(h.children@ == orig);
                assert(decreases_to!(orig => orig[k]));
                assert(decreases_to!(h => c));
                assert(kids_src@ =~= pre_src.skip(1));
                assert(pre_src.skip(1) =~= orig.skip(k + 1));
            }
            match parse_child(next_order, c, keywords, release, parent_is_posts, path.as_str()) {
                Some(p) => {
                    let ghost pm = build_child(
                        c,
                        *keywords,
                        path1,
                        next_order as int,
                        release,
                        parent_is_posts,
                    );
                    insert_child(&mut kids, p, Ghost(acc_m), Ghost(pm));
                    proof {
                        acc_m = remove_first_slug(acc_m, pm.slug).push(pm);
                    }
                    next_order = next_order + 1;
                },
                None => {},
            }
        }
        proof {
            assert(kids_src@.len() == 0);
            assert(build_children(
                kids_src@,
                *keywords,
                path1,
                release,
                parent_is_posts,
                next_order as int,
                acc_m,
            ) == acc_m);
        }
        if path.as_str().unicode_len() == 0 {
            path = "/".to_owned();
            proof {
                reveal_strlit("/");
                assert("/"@ =~= seq!['/']);
            }
        }
        let heading = Heading {
            level,
            raw,
            tags,
            keyword,
            properties,
            closed,
            section,
            children: Vec::new(),
        };
        Page { heading, path, info, order, page: PageEnum::Index { children: kids } }
    }
}

/// Whether `q` is a strict descendant page of `m` in the model tree.
pub open spec fn subpage_of(q: PageModel, m: PageModel) -> bool
    decreases m,
{
    match m.kind {
        PageKindModel::Index { children } => exists|i: int|
            0 <= i < children.len() && ((#[trigger] children[i]) == q || subpage_of(
                q,
                children[i],
            )),
        _ => false,
    }
}

proof fn lemma_remove_first_elements(s: Seq<PageModel>, slug: Seq<char>)
    ensures
        forall|x: int|
            0 <= x < remove_first_slug(s, slug).len() ==> exists|y: int|
                0 <= y < s.len() && s[y] == #[trigger] remove_first_slug(s, slug)[x],
    decreases s.len(),
{
    if s.len() > 0 && s[0].slug != slug {
        lemma_remove_first_elements(s.skip(1), slug);
        assert forall|x: int| 0 <= x < remove_first_slug(s, slug).len() implies exists|y: int|
            0 <= y < s.len() && s[y] == #[trigger] remove_first_slug(s, slug)[x] by {
            if x == 0 {
                assert(s[0] == remove_first_slug(s, slug)[0]);
            } else {
                let r2 = remove_first_slug(s.skip(1), slug);
                assert(remove_first_slug(s, slug)[x] == r2[x - 1]);
                let y2 = choose|y: int| 0 <= y < s.skip(1).len() && s.skip(1)[y] == r2[x - 1];
                assert(s[y2 + 1] == r2[x - 1]);
            }
        }
    }
}

/// Every page in the built forest either came from the accumulator or is the
/// build of some kept sibling, at some order at least `next_order`.
proof fn lemma_children_elements(
    siblings: Seq<Heading>,
    kw: TodoKeywords,
    parent_path: Seq<char>,
    release: bool,
    pp: bool,
    next_order: int,
    acc: Seq<PageModel>,
)
    ensures
        forall|x: int|
            0 <= x < build_children(siblings, kw, parent_path, release, pp, next_order, acc).len()
                ==> (exists|y: int|
                0 <= y < acc.len() && acc[y] == #[trigger] build_children(
                    siblings,
                    kw,
                    parent_path,
                    release,
                    pp,
                    next_order,
                    acc,
                )[x]) || (exists|i: int, o: int|
                0 <= i < siblings.len() && spec_keeps(siblings[i], kw, release) && o >= next_order
                    && build_children(siblings, kw, parent_path, release, pp, next_order, acc)[x]
                    == build_child(siblings[i], kw, parent_path, o, release, pp)),
    decreases siblings, 3nat,
{
    if siblings.len() == 0 {
    } else {
        let h0 = siblings[0];
        let result = build_children(siblings, kw, parent_path, release, pp, next_order, acc);
        if !spec_keeps(h0, kw, release) {
            lemma_children_elements(
                siblings.skip(1),
                kw,
                parent_path,
                release,
                pp,
                next_order,
                acc,
            );
            assert forall|x: int| 0 <= x < result.len() implies (exists|y: int|
                0 <= y < acc.len() && acc[y] == #[trigger] result[x]) || (exists|i: int, o: int|
                0 <= i < siblings.len() && spec_keeps(siblings[i], kw, release) && o >= next_order
                    && result[x] == build_child(siblings[i], kw, parent_path, o, release, pp)) by {
                let r2 = build_children(
                    siblings.skip(1),
                    kw,
                    parent_path,
                    release,
                    pp,
                    next_order,
                    acc,
                );
                assert(result[x] == r2[x]);
                if exists|i: int, o: int|
                    0 <= i < siblings.skip(1).len() && spec_keeps(siblings.skip(1)[i], kw, release)
                        && o >= next_order && r2[x] == build_child(
                        siblings.skip(1)[i],
                        kw,
                        parent_path,
                        o,
                        release,
                        pp,
                    ) {
                    let (i, o) = choose|i: int, o: int|
                        0 <= i < siblings.skip(1).len() && spec_keeps(
                            siblings.skip(1)[i],
                            kw,
                            release,
                        ) && o >= next_order && r2[x] == build_child(
                            siblings.skip(1)[i],
                            kw,
                            parent_path,
                            o,
                            release,
                            pp,
                        );
                    assert(siblings.skip(1)[i] == siblings[i + 1]);
                }
            }
        } else {
            let c = build_child(h0, kw, parent_path, next_order, release, pp);
            let acc2 = remove_first_slug(acc, c.slug).push(c);
            lemma_children_elements(
                siblings.skip(1),
                kw,
                parent_path,
                release,
                pp,
                next_order + 1,
                acc2,
            );
            lemma_remove_first_elements(acc, c.slug);
            assert forall|x: int| 0 <= x < result.len() implies (exists|y: int|
                0 <= y < acc.len() && acc[y] == #[trigger] result[x]) || (exists|i: int, o: int|
                0 <= i < siblings.len() && spec_keeps(siblings[i], kw, release) && o >= next_order
                    && result[x] == build_child(siblings[i], kw, parent_path, o, release, pp)) by {
                let r2 = build_children(
                    siblings.skip(1),
                    kw,
                    parent_path,
                    release,
                    pp,
                    next_order + 1,
                    acc2,
                );
                assert(result[x] == r2[x]);
                if exists|y: int| 0 <= y < acc2.len() && acc2[y] == r2[x] {
                    let y = choose|y: int| 0 <= y < acc2.len() && acc2[y] == r2[x];
                    if y == acc2.len() - 1 {
                        assert(result[x] == c);
                    } else {
                        assert(acc2[y] == remove_first_slug(acc, c.slug)[y]);
                    }
                } else {
                    let (i, o) = choose|i: int, o: int|
                        0 <= i < siblings.skip(1).len() && spec_keeps(
                            siblings.skip(1)[i],
                            kw,
                            release,
                        ) && o >= next_order + 1 && r2[x] == build_child(
                            siblings.skip(1)[i],
                            kw,
                            parent_path,
                            o,
                            release,
                            pp,
                        );
                    assert(siblings.skip(1)[i] == siblings[i + 1]);
                }
            }
        }
    }
}

/// Every page of the built tree below the root comes from a heading the
/// classifier keeps: never one tagged `noexport`, and never one whose
/// workflow keyword hides it in this mode.
pub proof fn lemma_subpages_kept(
    h: Heading,
    kw: TodoKeywords,
    path0: Seq<char>,
    order: int,
    release: bool,
    q: PageModel,
)
    requires
        subpage_of(q, build_page(h, kw, path0, order, release)),
    ensures
        spec_keeps(q.heading, kw, release),
    decreases h, 4nat,
{
    let m = build_page(h, kw, path0, order, release);
    let slug = spec_slug(h);
    let path1 = if slug == "index"@ {
        path0
    } else {
        path0 + seq!['/'] + slug
    };
    let pp = spec_has_tag(h, "posts"@);
    let kids = build_children(h.children@, kw, path1, release, pp, 0, Seq::empty());
    lemma_children_elements(h.children@, kw, path1, release, pp, 0, Seq::empty());
    let i = choose|i: int|
        0 <= i < kids.len() && ((#[trigger] kids[i]) == q || subpage_of(q, kids[i]));
    assert(exists|s: int, o: int|
        0 <= s < h.children@.len() && spec_keeps(h.children@[s], kw, release) && o >= 0 && kids[i]
            == build_child(h.children@[s], kw, path1, o, release, pp));
    let (s, o) = choose|s: int, o: int|
        0 <= s < h.children@.len() && spec_keeps(h.children@[s], kw, release) && o >= 0 && kids[i]
            == build_child(h.children@[s], kw, path1, o, release, pp);
    let hs = h.children@[s];
    assert(decreases_to!(h => h.children));
    assert(decreases_to!(h.children => h.children@));
    assert(decreases_to!(h.children@ => h.children@[s]));
    if kids[i] == q {
        if spec_is_post(hs, pp) {
            assert(q.heading == hs);
        } else {
            assert(q == build_page(hs, kw, path1, o, release));
            assert(q.heading == hs);
        }
    } else {
        if spec_is_post(hs, pp) {
            assert(!(kids[i].kind matches PageKindModel::Index { .. }));
            assert(false);
        } else {
            lemma_subpages_kept(hs, kw, path1, o, release, q);
        }
    }
}

/// The path segment rule: what a child's accumulated base path is.
pub open spec fn child_base(base: Seq<char>, slug: Seq<char>) -> Seq<char> {
    if slug == "index"@ {
        base
    } else {
        base + seq!['/'] + slug
    }
}

/// An empty accumulated path denotes the site root `/`.
pub open spec fn norm_path(p: Seq<char>) -> Seq<char> {
    if p.len() == 0 {
        seq!['/']
    } else {
        p
    }
}

/// The path discipline of a built tree whose children were accumulated from
/// `base`: an index child's path is the normalized base extended by its slug
/// unless its slug is `index`, in which case the base is unchanged; a leaf
/// child's path is always the base extended by its slug.
pub open spec fn tree_paths_ok(m: PageModel, base: Seq<char>) -> bool
    decreases m,
{
    match m.kind {
        PageKindModel::Index { children } => forall|i: int|
            0 <= i < children.len() ==> {
                let c = #[trigger] children[i];
                match c.kind {
                    PageKindModel::Index { .. } => c.path == norm_path(child_base(base, c.slug))
                        && tree_paths_ok(c, child_base(base, c.slug)),
                    _ => c.path == base + seq!['/'] + c.slug,
                }
            },
        _ => true,
    }
}

/// Every page of a built tree carries the path its position dictates: parent
/// path plus `/` plus its slug, except that a slug of `index` adds nothing,
/// and that an empty accumulated path is the root `/`.
pub proof fn lemma_paths(h: Heading, kw: TodoKeywords, path0: Seq<char>, order: int, release: bool)
    ensures
        build_page(h, kw, path0, order, release).path == norm_path(
            child_base(path0, spec_slug(h)),
        ),
        tree_paths_ok(build_page(h, kw, path0, order, release), child_base(path0, spec_slug(h))),
    decreases h, 4nat,
{
    let m = build_page(h, kw, path0, order, release);
    let path1 = child_base(path0, spec_slug(h));
    let pp = spec_has_tag(h, "posts"@);
    let kids = build_children(h.children@, kw, path1, release, pp, 0, Seq::empty());
    lemma_children_elements(h.children@, kw, path1, release, pp, 0, Seq::empty());
    assert forall|i: int| 0 <= i < kids.len() implies {
        let c = #[trigger] kids[i];
        match c.kind {
            PageKindModel::Index { .. } => c.path == norm_path(child_base(path1, c.slug))
                && tree_paths_ok(c, child_base(path1, c.slug)),
            _ => c.path == path1 + seq!['/'] + c.slug,
        }
    } by {
        let (si, o) = choose|si: int, o: int|
            0 <= si < h.children@.len() && spec_keeps(h.children@[si], kw, release) && o >= 0
                && kids[i] == build_child(h.children@[si], kw, path1, o, release, pp);
        let hs = h.children@[si];
        assert(decreases_to!(h => h.children));
        assert(decreases_to!(h.children => h.children@));
        assert(decreases_to!(h.children@ => h.children@[si]));
        if spec_is_post(hs, pp) {
        } else {
            lemma_paths(hs, kw, path1, o, release);
        }
    }
}

/// No two children of one index share a slug.
pub open spec fn slugs_unique(children: Seq<PageModel>) -> bool {
    forall|i: int, j: int|
        0 <= i < j < children.len() ==> (#[trigger] children[i]).slug != (
        #[trigger] children[j]).slug
}

proof fn lemma_remove_unique(s: Seq<PageModel>, slug: Seq<char>)
    requires
        slugs_unique(s),
    ensures
        slugs_unique(remove_first_slug(s, slug)),
        forall|x: int|
            0 <= x < remove_first_slug(s, slug).len() ==> (#[trigger] remove_first_slug(
                s,
                slug,
            )[x]).slug != slug,
    decreases s.len(),
{
    if s.len() == 0 {
    } else if s[0].slug == slug {
        assert(forall|i: int, j: int|
            0 <= i < j < s.skip(1).len() ==> (#[trigger] s.skip(1)[i]).slug != (#[trigger] s.skip(
                1,
            )[j]).slug);
        assert forall|x: int| 0 <= x < s.skip(1).len() implies (#[trigger] s.skip(1)[x]).slug
            != slug by {
            assert(s.skip(1)[x] == s[x + 1]);
            assert(s[0].slug != s[x + 1].slug);
        }
    } else {
        assert(forall|i: int, j: int|
            0 <= i < j < s.skip(1).len() ==> (#[trigger] s.skip(1)[i]).slug != (#[trigger] s.skip(
                1,
            )[j]).slug);
        lemma_remove_unique(s.skip(1), slug);
        lemma_remove_first_elements(s.skip(1), slug);
        let r = remove_first_slug(s, slug);
        let r2 = remove_first_slug(s.skip(1), slug);
        assert forall|x: int| 0 <= x < r.len() implies (#[trigger] r[x]).slug != slug by {
            if x == 0 {
                assert(r[0] == s[0]);
            } else {
                assert(r[x] == r2[x - 1]);
            }
        }
        assert forall|i: int, j: int| 0 <= i < j < r.len() implies (#[trigger] r[i]).slug != (
        #[trigger] r[j]).slug by {
            if i == 0 {
                assert(r[j] == r2[j - 1]);
                let y = choose|y: int| 0 <= y < s.skip(1).len() && s.skip(1)[y] == r2[j - 1];
                assert(s[y + 1] == r2[j - 1]);
                assert(s[0].slug != s[y + 1].slug);
            } else {
                assert(r[i] == r2[i - 1] && r[j] == r2[j - 1]);
            }
        }
    }
}

proof fn lemma_children_unique(
    siblings: Seq<Heading>,
    kw: TodoKeywords,
    parent_path: Seq<char>,
    release: bool,
    pp: bool,
    next_order: int,
    acc: Seq<PageModel>,
)
    requires
        slugs_unique(acc),
    ensures
        slugs_unique(build_children(siblings, kw, parent_path, release, pp, next_order, acc)),
    decreases siblings, 3nat,
{
    if siblings.len() > 0 {
        let h0 = siblings[0];
        if !spec_keeps(h0, kw, release) {
            lemma_children_unique(siblings.skip(1), kw, parent_path, release, pp, next_order, acc);
        } else {
            let c = build_child(h0, kw, parent_path, next_order, release, pp);
            lemma_remove_unique(acc, c.slug);
            let acc2 = remove_first_slug(acc, c.slug).push(c);
            assert forall|i: int, j: int| 0 <= i < j < acc2.len() implies (
            #[trigger] acc2[i]).slug != (#[trigger] acc2[j]).slug by {
                if j == acc2.len() - 1 {
                    assert(acc2[i] == remove_first_slug(acc, c.slug)[i]);
                }
            }
            lemma_children_unique(
                siblings.skip(1),
                kw,
                parent_path,
                release,
                pp,
                next_order + 1,
                acc2,
            );
        }
    }
}

/// Sibling slugs never collide in a built tree: a later child with the same
/// slug replaces the earlier one, so exactly one survives.
pub proof fn lemma_tree_slugs_unique(
    h: Heading,
    kw: TodoKeywords,
    path0: Seq<char>,
    order: int,
    release: bool,
)
    ensures
        build_page(h, kw, path0, order, release).kind matches PageKindModel::Index { children }
            && slugs_unique(children),
{
    let path1 = child_base(path0, spec_slug(h));
    let pp = spec_has_tag(h, "posts"@);
    lemma_children_unique(h.children@, kw, path1, release, pp, 0, Seq::empty());
}

/// A heading tagged `noexport` never yields a page, at any depth.
pub proof fn lemma_noexport_excluded(
    h: Heading,
    kw: TodoKeywords,
    path0: Seq<char>,
    order: int,
    release: bool,
    q: PageModel,
)
    requires
        subpage_of(q, build_page(h, kw, path0, order, release)),
    ensures
        !spec_has_tag(q.heading, "noexport"@),
{
    lemma_subpages_kept(h, kw, path0, order, release, q);
}

/// In a release build, no page comes from a heading whose workflow keyword
/// is in the not-done set.
pub proof fn lemma_notdone_excluded_in_release(
    h: Heading,
    kw: TodoKeywords,
    path0: Seq<char>,
    order: int,
    q: PageModel,
    k: String,
)
    requires
        subpage_of(q, build_page(h, kw, path0, order, true)),
        q.heading.keyword == Some(k),
    ensures
        !spec_in_todo(kw, k@),
{
    lemma_subpages_kept(h, kw, path0, order, true, q);
}

/// Outside release mode the classifier keeps a heading whose keyword is the
/// in-review keyword `PROGRESS`, noexport aside.
pub proof fn lemma_progress_kept(h: Heading, kw: TodoKeywords, k: String)
    requires
        !spec_has_tag(h, "noexport"@),
        h.keyword == Some(k),
        k@ == "PROGRESS"@,
    ensures
        spec_keeps(h, kw, false),
{
}

/// Two trees that realize the same model agree on every slug, order and
/// path, at every depth: rebuilding an unchanged document reproduces them.
pub open spec fn same_shape(a: Page, b: Page) -> bool
    decreases a,
{
    &&& a.info.slug@ == b.info.slug@
    &&& a.order == b.order
    &&& a.path@ == b.path@
    &&& match (a.page, b.page) {
        (PageEnum::Index { children: ca }, PageEnum::Index { children: cb }) => ca@.len()
            == cb@.len() && (forall|i: int|
            0 <= i < ca@.len() ==> same_shape(#[trigger] ca@[i], cb@[i])),
        (PageEnum::Post, PageEnum::Post) => true,
        (PageEnum::OrgFile { path: fa }, PageEnum::OrgFile { path: fb }) => fa@ == fb@,
        _ => false,
    }
}

/// Determinism: any two builds of the same model have the same shape.
pub proof fn lemma_build_deterministic(a: Page, b: Page, m: PageModel)
    requires
        page_models(a, m),
        page_models(b, m),
    ensures
        same_shape(a, b),
    decreases a,
{
    match a.page {
        PageEnum::Index { children: ca } => {
            let mc = m.kind->Index_children;
            match b.page {
                PageEnum::Index { children: cb } => {
                    assert forall|i: int| 0 <= i < ca@.len() implies same_shape(
                        #[trigger] ca@[i],
                        cb@[i],
                    ) by {
                        assert(page_models(ca@[i], mc[i]));
                        assert(page_models(cb@[i], mc[i]));
                        lemma_build_deterministic(ca@[i], cb@[i], mc[i]);
                    }
                },
                _ => {
                    assert(false);
                },
            }
        },
        _ => {},
    }
}

proof fn lemma_remove_keeps(s: Seq<PageModel>, slug: Seq<char>, y: int)
    requires
        0 <= y < s.len(),
        s[y].slug != slug,
    ensures
        exists|x: int|
            0 <= x < remove_first_slug(s, slug).len() && #[trigger] remove_first_slug(s, slug)[x]
                == s[y],
    decreases s.len(),
{
    let r = remove_first_slug(s, slug);
    if s[0].slug == slug {
        assert(r[y - 1] == s.skip(1)[y - 1]);
    } else {
        if y == 0 {
            assert(r[0] == s[0]);
        } else {
            lemma_remove_keeps(s.skip(1), slug, y - 1);
            let r2 = remove_first_slug(s.skip(1), slug);
            let x2 = choose|x: int| 0 <= x < r2.len() && #[trigger] r2[x] == s.skip(1)[y - 1];
            assert(r[x2 + 1] == r2[x2]);
        }
    }
}

proof fn lemma_acc_survives(
    siblings: Seq<Heading>,
    kw: TodoKeywords,
    parent_path: Seq<char>,
    release: bool,
    pp: bool,
    next_order: int,
    acc: Seq<PageModel>,
    y: int,
)
    requires
        0 <= y < acc.len(),
        forall|j: int|
            0 <= j < siblings.len() && spec_keeps(#[trigger] siblings[j], kw, release)
                ==> spec_slug(siblings[j]) != acc[y].slug,
    ensures
        exists|x: int|
            0 <= x < build_children(siblings, kw, parent_path, release, pp, next_order, acc).len()
                && #[trigger] build_children(
                siblings,
                kw,
                parent_path,
                release,
                pp,
                next_order,
                acc,
            )[x] == acc[y],
    decreases siblings, 3nat,
{
    let result = build_children(siblings, kw, parent_path, release, pp, next_order, acc);
    if siblings.len() == 0 {
        assert(result[y] == acc[y]);
    } else {
        let h0 = siblings[0];
        assert(forall|j: int|
            0 <= j < siblings.skip(1).len() ==> #[trigger] siblings.skip(1)[j] == siblings[j + 1]);
        if !spec_keeps(h0, kw, release) {
            lemma_acc_survives(
                siblings.skip(1),
                kw,
                parent_path,
                release,
                pp,
                next_order,
                acc,
                y,
            );
            let x = choose|x: int|
                0 <= x < build_children(
                    siblings.skip(1),
                    kw,
                    parent_path,
                    release,
                    pp,
                    next_order,
                    acc,
                ).len() && #[trigger] build_children(
                    siblings.skip(1),
                    kw,
                    parent_path,
                    release,
                    pp,
                    next_order,
                    acc,
                )[x] == acc[y];
            assert(result[x] == acc[y]);
        } else {
            let c = build_child(h0, kw, parent_path, next_order, release, pp);
            assert(c.slug == spec_slug(h0));
            assert(c.slug != acc[y].slug);
            lemma_remove_keeps(acc, c.slug, y);
            let acc2 = remove_first_slug(acc, c.slug).push(c);
            let x2 = choose|x: int|
                0 <= x < remove_first_slug(acc, c.slug).len() && #[trigger] remove_first_slug(
                    acc,
                    c.slug,
                )[x] == acc[y];
            assert(acc2[x2] == acc[y]);
            lemma_acc_survives(
                siblings.skip(1),
                kw,
                parent_path,
                release,
                pp,
                next_order + 1,
                acc2,
                x2,
            );
            let x = choose|x: int|
                0 <= x < build_children(
                    siblings.skip(1),
                    kw,
                    parent_path,
                    release,
                    pp,
                    next_order + 1,
                    acc2,
                ).len() && #[trigger] build_children(
                    siblings.skip(1),
                    kw,
                    parent_path,
                    release,
                    pp,
                    next_order + 1,
                    acc2,
                )[x] == acc2[x2];
            assert(result[x] == acc[y]);
        }
    }
}

/// A kept sibling whose slug no later kept sibling repeats yields a child
/// page: with the in-review keyword outside release mode, the page is there.
pub proof fn lemma_kept_child_present(
    siblings: Seq<Heading>,
    kw: TodoKeywords,
    parent_path: Seq<char>,
    release: bool,
    pp: bool,
    next_order: int,
    acc: Seq<PageModel>,
    i: int,
)
    requires
        0 <= i < siblings.len(),
        spec_keeps(siblings[i], kw, release),
        forall|j: int|
            i < j < siblings.len() && spec_keeps(#[trigger] siblings[j], kw, release)
                ==> spec_slug(siblings[j]) != spec_slug(siblings[i]),
    ensures
        exists|x: int|
            0 <= x < build_children(siblings, kw, parent_path, release, pp, next_order, acc).len()
                && (#[trigger] build_children(
                siblings,
                kw,
                parent_path,
                release,
                pp,
                next_order,
                acc,
            )[x]).heading == siblings[i],
    decreases siblings, 3nat,
{
    let h0 = siblings[0];
    assert(forall|j: int|
        0 <= j < siblings.skip(1).len() ==> #[trigger] siblings.skip(1)[j] == siblings[j + 1]);
    if i == 0 {
        let c = build_child(h0, kw, parent_path, next_order, release, pp);
        assert(c.heading == h0);
        assert(c.slug == spec_slug(h0));
        let acc2 = remove_first_slug(acc, c.slug).push(c);
        let y = acc2.len() - 1;
        assert(acc2[y] == c);
        lemma_acc_survives(
            siblings.skip(1),
            kw,
            parent_path,
            release,
            pp,
            next_order + 1,
            acc2,
            y,
        );
        let x = choose|x: int|
            0 <= x < build_children(
                siblings.skip(1),
                kw,
                parent_path,
                release,
                pp,
                next_order + 1,
                acc2,
            ).len() && #[trigger] build_children(
                siblings.skip(1),
                kw,
                parent_path,
                release,
                pp,
                next_order + 1,
                acc2,
            )[x] == acc2[y];
        assert(build_children(siblings, kw, parent_path, release, pp, next_order, acc)[x] == c);
    } else {
        if !spec_keeps(h0, kw, release) {
            lemma_kept_child_present(
                siblings.skip(1),
                kw,
                parent_path,
                release,
                pp,
                next_order,
                acc,
                i - 1,
            );
        } else {
            let c = build_child(h0, kw, parent_path, next_order, release, pp);
            let acc2 = remove_first_slug(acc, c.slug).push(c);
            lemma_kept_child_present(
                siblings.skip(1),
                kw,
                parent_path,
                release,
                pp,
                next_order + 1,
                acc2,
                i - 1,
            );
        }
    }
}

} // verus!
