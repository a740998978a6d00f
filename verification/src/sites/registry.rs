//! The site registry: which site family handles a page, in a fixed order of preference.

use vstd::prelude::*;
use crate::error::Error;
use crate::model::Stream;
use crate::sites::{ok, okxxx, pornhub, rutube, vk, xnxx, yandex, youtube};
use crate::text::{chars_of, push_str, string_of};
use crate::weburl::{opt_view, WebUrl};

verus! {

/// The site families, in the order in which they are tried: aggregators come before
/// the upstream hosts they delegate to.
#[derive(Debug, Clone, Copy, PartialEq, Eq, Structural)]
pub enum SiteId {
    Youtube,
    Yandex,
    Vk,
    Rutube,
    OkRu,
    Okxxx,
    Pornhub,
    Xnxx,
}

/// One registered site: its name, its family, and whether its streams are refreshed
/// before download.
#[derive(Debug, Clone, Copy)]
pub struct SitePlugin {
    pub id: &'static str,
    pub site: SiteId,
    pub refreshes: bool,
}

impl SitePlugin {
    pub fn new(id: &'static str, site: SiteId, refreshes: bool) -> (r: SitePlugin)
        ensures
            r.id == id,
            r.site == site,
            r.refreshes == refreshes,
    {
        SitePlugin { id, site, refreshes }
    }
}

/// The registry order.
pub open spec fn site_order() -> Seq<SiteId> {
    seq![
        SiteId::Youtube,
        SiteId::Yandex,
        SiteId::Vk,
        SiteId::Rutube,
        SiteId::OkRu,
        SiteId::Okxxx,
        SiteId::Pornhub,
        SiteId::Xnxx,
    ]
}

/// Whether a family refreshes its streams before download.
pub open spec fn refreshes(site: SiteId) -> bool {
    site == SiteId::Pornhub || site == SiteId::Xnxx
}

/// The registry rows, in order.
pub fn sites() -> (r: Vec<SitePlugin>)
    ensures
        r@.len() == site_order().len(),
        forall|i: int| 0 <= i < r@.len() ==> (#[trigger] r@[i]).site == site_order()[i] && r@[i].refreshes == refreshes(site_order()[i]),
{
    let mut v: Vec<SitePlugin> = Vec::new();
    v.push(SitePlugin::new("youtube", SiteId::Youtube, false));
    v.push(SitePlugin::new("yandex", SiteId::Yandex, false));
    v.push(SitePlugin::new("vk", SiteId::Vk, false));
    v.push(SitePlugin::new("rutube", SiteId::Rutube, false));
    v.push(SitePlugin::new("ok", SiteId::OkRu, false));
    v.push(SitePlugin::new("okxxx", SiteId::Okxxx, false));
    v.push(SitePlugin::new("pornhub", SiteId::Pornhub, true));
    v.push(SitePlugin::new("xnxx", SiteId::Xnxx, true));
    v
}

/// Whether a family recognizes the page URL.
pub open spec fn site_matches(site: SiteId, url: WebUrl) -> bool {
    match site {
        SiteId::Youtube => opt_view(url.host) matches Some(h) && youtube::youtube_host(h),
        SiteId::Yandex => yandex::yandex_page(url),
        SiteId::Vk => opt_view(url.host) matches Some(h) && vk::vk_host(h),
        SiteId::Rutube => opt_view(url.host) matches Some(h) && rutube::rutube_host(h),
        SiteId::OkRu => opt_view(url.host) matches Some(h) && ok::ok_host(h),
        SiteId::Okxxx => opt_view(url.host) matches Some(h) && okxxx::okxxx_host(h),
        SiteId::Pornhub => opt_view(url.host) matches Some(h) && pornhub::pornhub_host(h),
        SiteId::Xnxx => opt_view(url.host) matches Some(h) && xnxx::xnxx_host(h),
    }
}

pub fn matches(site: SiteId, url: &WebUrl) -> (r: bool)
    ensures
        r == site_matches(site, *url),
{
    match site {
        SiteId::Youtube => youtube::matches_host(url),
        SiteId::Yandex => yandex::matches_host(url),
        SiteId::Vk => vk::matches_host(url),
        SiteId::Rutube => rutube::matches_host(url),
        SiteId::OkRu => ok::matches_host(url),
        SiteId::Okxxx => okxxx::matches_host(url),
        SiteId::Pornhub => pornhub::matches_host(url),
        SiteId::Xnxx => xnxx::matches_host(url),
    }
}

/// The first family, in registry order, that recognizes the URL.
pub open spec fn first_match(url: WebUrl) -> Option<int> {
    first_match_from(url, 0)
}

pub open spec fn first_match_from(url: WebUrl, i: int) -> Option<int>
    decreases site_order().len() - i,
{
    if i < 0 || i >= site_order().len() {
        None
    } else if site_matches(site_order()[i], url) {
        Some(i)
    } else {
        first_match_from(url, i + 1)
    }
}

/// The family that handles a page: the first in registry order that recognizes its URL.
pub fn site_for(url: &WebUrl) -> (r: Option<SiteId>)
    ensures
        match first_match(*url) {
            Some(i) => r == Some(site_order()[i]),
            None => r is None,
        },
{
    let rows = sites();
    let mut i: usize = 0;
    while i < rows.len()
        invariant
            i <= rows@.len(),
            rows@.len() == site_order().len(),
            forall|j: int| 0 <= j < rows@.len() ==> (#[trigger] rows@[j]).site == site_order()[j],
            first_match(*url) == first_match_from(*url, i as int),
        decreases rows@.len() - i,
    {
        if matches(rows[i].site, url) {
            return Some(rows[i].site);
        }
        i = i + 1;
    }
    None
}

/// The family whose refresh step applies to a page's streams: the first family that
/// recognizes the page, when it refreshes (a page it recognizes that does not refresh
/// is left as it is).
pub fn refresh_site(url: &WebUrl) -> (r: Option<SiteId>)
    ensures
        match first_match(*url) {
            Some(i) => if refreshes(site_order()[i]) {
                r == Some(site_order()[i])
            } else {
                r is None
            },
            None => r is None,
        },
{
    match site_for(url) {
        Some(s) => if s == SiteId::Pornhub || s == SiteId::Xnxx {
            Some(s)
        } else {
            None
        },
        None => None,
    }
}

/// Whether a refreshing family fetches a stream anew: only streams served from its CDN.
pub open spec fn refresh_needed(site: SiteId, s: Stream) -> bool {
    match site {
        SiteId::Pornhub => pornhub::on_cdn(s),
        SiteId::Xnxx => xnxx::on_cdn(s),
        _ => false,
    }
}

pub fn needs_refresh(site: SiteId, stream: &Stream) -> (r: bool)
    ensures
        r == refresh_needed(site, *stream),
{
    match site {
        SiteId::Pornhub => pornhub::needs_refresh(stream),
        SiteId::Xnxx => xnxx::needs_refresh(stream),
        _ => false,
    }
}

/// The error for a Yandex upstream that no family handles.
pub fn unsupported_upstream(url: &WebUrl) -> (r: Error)
    ensures
        r matches Error::InvalidUrl(m) && m@ == "unsupported Yandex upstream host: "@ + match opt_view(
            url.host,
        ) {
            Some(h) => h,
            None => "?"@,
        },
{
    let mut m = chars_of("unsupported Yandex upstream host: ");
    match &url.host {
        Some(h) => push_str(&mut m, h.as_str()),
        None => push_str(&mut m, "?"),
    }
    Error::InvalidUrl(string_of(m.as_slice()))
}

/// The family that handles a page recognizes it, and no family before it in the
/// registry does.
pub proof fn law_first_match(url: WebUrl)
    ensures
        match first_match(url) {
            Some(i) => 0 <= i < site_order().len() && site_matches(site_order()[i], url) && forall|j: int|
                0 <= j < i ==> !site_matches(#[trigger] site_order()[j], url),
            None => forall|j: int| 0 <= j < site_order().len() ==> !site_matches(#[trigger] site_order()[j], url),
        },
{
    lemma_first_match_from(url, 0);
}

proof fn lemma_first_match_from(url: WebUrl, i: int)
    requires
        0 <= i <= site_order().len(),
    ensures
        match first_match_from(url, i) {
            Some(k) => i <= k < site_order().len() && site_matches(site_order()[k], url) && forall|j: int|
                i <= j < k ==> !site_matches(#[trigger] site_order()[j], url),
            None => forall|j: int| i <= j < site_order().len() ==> !site_matches(#[trigger] site_order()[j], url),
        },
    decreases site_order().len() - i,
{
    if i < site_order().len() && !site_matches(site_order()[i], url) {
        lemma_first_match_from(url, i + 1);
    }
}

/// A Yandex upstream on YouTube is fetched as a page first; any other is handed to the
/// registry as it is.
pub fn upstream_needs_page(url: &WebUrl) -> (r: bool)
    ensures
        r == site_matches(SiteId::Youtube, *url),
{
    youtube::matches_host(url)
}

/// When no family finds streams on a Yandex upstream: its VH content id, for the VH
/// player; else the error that the host is unsupported.
pub fn upstream_fallback(url: &WebUrl) -> (r: Result<String, Error>)
    ensures
        match yandex::vh::vh_content_id(*url) {
            Some(id) => r matches Ok(s) && s@ == id,
            None => r matches Err(Error::InvalidUrl(m)) && m@ == "unsupported Yandex upstream host: "@
                + match opt_view(url.host) {
                Some(h) => h,
                None => "?"@,
            },
        },
{
    match yandex::content_id(url) {
        Some(id) => Ok(id),
        None => Err(unsupported_upstream(url)),
    }
}

} // verus!
