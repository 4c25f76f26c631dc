//! The feed of an index page: its direct children as items, serialized by
//! the outside feed library.

use vstd::prelude::*;

use crate::config::Config;
use crate::page::Page;

verus! {

/// The outside feed library's item type, declared so built items can be
/// carried to the channel serializer.
#[verifier::external_type_specification]
#[verifier::external_body]
pub struct ExRssItem(rss::Item);

/// One feed entry: computed here, serialized outside.
#[derive(Debug)]
pub struct FeedItem {
    pub title: String,
    /// Absolute link; also the permalink identifier.
    pub link: String,
    /// Publication date, formatted in the feed's date style; absent without
    /// a closed date.
    pub pub_date: Option<String>,
    pub description: String,
    pub content: Option<String>,
}

/// The feed's date rendering of a calendar date and time, as the outside
/// date library formats it; `None` for a date it rejects.
pub uninterp spec fn rfc822_of(
    year: u16,
    month: u8,
    day: u8,
    hour: u8,
    minute: u8,
) -> Option<Seq<char>>;

/// Relies on chrono's `NaiveDate::from_ymd_opt`, `and_hms_opt` and
/// `format`: the rendering depends on the date and time alone.
#[verifier::external_body]
fn format_pub_date(year: u16, month: u8, day: u8, hour: u8, minute: u8) -> (r: Option<String>)
    ensures
        match r {
            Some(s) => rfc822_of(year, month, day, hour, minute) == Some(s@),
            None => rfc822_of(year, month, day, hour, minute) is None,
        },
{
    chrono::NaiveDate::from_ymd_opt(year as i32, month as u32, day as u32).and_then(
        |d| d.and_hms_opt(hour as u32, minute as u32, 0),
    ).map(|dt| dt.format("%a, %d %b %Y %H:%M:%S GMT").to_string())
}

/// The feed item the outside library builds from these fields; the link
/// doubles as the permalink identifier.
pub uninterp spec fn rss_item_of(
    title: Seq<char>,
    link: Seq<char>,
    pub_date: Option<Seq<char>>,
    description: Seq<char>,
    content: Option<Seq<char>>,
) -> rss::Item;

/// Relies on `rss::ItemBuilder`: the built item is a function of its
/// fields; the guid is the link, marked permanent.
#[verifier::external_body]
fn to_rss_item(i: &FeedItem) -> (r: rss::Item)
    ensures
        r == rss_item_of(
            i.title@,
            i.link@,
            match i.pub_date {
                Some(ref d) => Some(d@),
                None => None,
            },
            i.description@,
            match i.content {
                Some(ref c) => Some(c@),
                None => None,
            },
        ),
{
    rss::ItemBuilder::default().title(Some(i.title.clone())).link(Some(i.link.clone())).guid(
        Some(rss::Guid { value: i.link.clone(), permalink: true }),
    ).pub_date(i.pub_date.clone()).description(Some(i.description.clone())).content(
        i.content.clone(),
    ).build()
}

/// The serialized channel the outside library renders from its metadata and
/// items, with a self-referential feed link.
pub uninterp spec fn rss_channel_xml_of(
    items: Seq<rss::Item>,
    title: Seq<char>,
    link: Seq<char>,
    description: Seq<char>,
    self_href: Seq<char>,
) -> Seq<char>;

/// Relies on `rss::ChannelBuilder` and the channel's `Display`: the feed
/// document is a function of the channel metadata and its items.
#[verifier::external_body]
fn channel_to_xml(
    items: Vec<rss::Item>,
    title: &str,
    link: &str,
    description: &str,
    self_href: &str,
) -> (r: String)
    ensures
        r@ == rss_channel_xml_of(items@, title@, link@, description@, self_href@),
{
    let mut atom = rss::extension::atom::AtomExtension::default();
    atom.set_links(
        [
            rss::extension::atom::Link {
                href: self_href.to_string(),
                rel: "self".to_string(),
                ..Default::default()
            },
        ],
    );
    rss::ChannelBuilder::default().namespaces(
        [("atom".to_string(), rss::extension::atom::NAMESPACE.to_string())],
    ).title(title).link(link).description(description).atom_ext(Some(atom)).items(items)
        .build().to_string()
}

/// The ghost fields of one feed item.
pub ghost struct FeedItemS {
    pub title: Seq<char>,
    pub link: Seq<char>,
    pub pub_date: Option<Seq<char>>,
    pub description: Seq<char>,
    pub content: Option<Seq<char>>,
}

pub open spec fn feed_item_view(i: FeedItem) -> FeedItemS {
    FeedItemS {
        title: i.title@,
        link: i.link@,
        pub_date: match i.pub_date {
            Some(ref d) => Some(d@),
            None => None,
        },
        description: i.description@,
        content: match i.content {
            Some(ref c) => Some(c@),
            None => None,
        },
    }
}

/// The feed entry of one rendered page: the page's title, its absolute
/// link under the site URL, its closed date as publication date, its own
/// description or the site's, and the rendered body.
pub fn feed_item_for(page: &Page, content: Option<&String>, config: &Config) -> (r: FeedItem)
    ensures
        r.title@ == page.info.title@,
        r.link@ == config.url@ + page.path@,
        match (r.pub_date, page.info.closed_at) {
            (pd, Some(d)) => {
                let h = match d.hour {
                    Some(h) => h,
                    None => 0,
                };
                let mi = match d.minute {
                    Some(m) => m,
                    None => 0,
                };
                match pd {
                    Some(ref s) => rfc822_of(d.year, d.month, d.day, h, mi) == Some(s@),
                    None => rfc822_of(d.year, d.month, d.day, h, mi) is None,
                }
            },
            (None, None) => true,
            _ => false,
        },
        r.description@ == match page.info.description {
            Some(ref d) => d@,
            None => config.description@,
        },
        match (r.content, content) {
            (Some(ref a), Some(b)) => a@ == b@,
            (None, None) => true,
            _ => false,
        },
{
    let mut link = config.url.clone();
    link.append(page.path.as_str());
    let pub_date = match page.info.closed_at {
        Some(d) => {
            let h = match d.hour {
                Some(h) => h,
                None => 0,
            };
            let mi = match d.minute {
                Some(m) => m,
                None => 0,
            };
            format_pub_date(d.year, d.month, d.day, h, mi)
        },
        None => None,
    };
    let description = match &page.info.description {
        Some(d) => d.clone(),
        None => config.description.clone(),
    };
    let content = match content {
        Some(c) => Some(c.clone()),
        None => None,
    };
    FeedItem { title: page.info.title.clone(), link, pub_date, description, content }
}

/// Serialize the feed of an index page at `path` over its children's
/// entries.
pub fn generate_rss(children: &Vec<FeedItem>, config: &Config, path: &str) -> (r: String)
    ensures
        r@ == rss_channel_xml_of(
            Seq::new(
                children@.len() as nat,
                |i: int|
                    rss_item_of(
                        children@[i].title@,
                        children@[i].link@,
                        match children@[i].pub_date {
                            Some(ref d) => Some(d@),
                            None => None,
                        },
                        children@[i].description@,
                        match children@[i].content {
                            Some(ref c) => Some(c@),
                            None => None,
                        },
                    ),
            ),
            config.title@,
            config.url@,
            config.description@,
            config.url@ + path@ + "/rss.xml"@,
        ),
{
    let mut items: Vec<rss::Item> = Vec::new();
    let mut i: usize = 0;
    while i < children.len()
        invariant
            i <= children@.len(),
            items@.len() == i,
            forall|j: int|
                0 <= j < i ==> #[trigger] items@[j] == rss_item_of(
                    children@[j].title@,
                    children@[j].link@,
                    match children@[j].pub_date {
                        Some(ref d) => Some(d@),
                        None => None,
                    },
                    children@[j].description@,
                    match children@[j].content {
                        Some(ref c) => Some(c@),
                        None => None,
                    },
                ),
        decreases children@.len() - i,
    {
        items.push(to_rss_item(&children[i]));
        i = i + 1;
    }
    let mut self_href = config.url.clone();
    self_href.append(path);
    self_href.append("/rss.xml");
    proof {
        assert(items@ =~= Seq::new(
            children@.len() as nat,
            |i: int|
                rss_item_of(
                    children@[i].title@,
                    children@[i].link@,
                    match children@[i].pub_date {
                        Some(ref d) => Some(d@),
                        None => None,
                    },
                    children@[i].description@,
                    match children@[i].content {
                        Some(ref c) => Some(c@),
                        None => None,
                    },
                ),
        ));
    }
    channel_to_xml(
        items,
        config.title.as_str(),
        config.url.as_str(),
        config.description.as_str(),
        self_href.as_str(),
    )
}

} // verus!
