//! Yandex Video: preview pages that point at an upstream player, and the native VH
//! player.

pub mod preview;
pub mod vh;

use vstd::prelude::*;
use crate::sites::common::{host_chars, strip_www, strip_www_of};
use crate::text::{chars_of, contains, contains_seq, ends_with, has_prefix, has_suffix, same, starts_with};
use crate::weburl::{opt_view, WebUrl};

pub use preview::film_id;
pub use vh::content_id;

verus! {

/// A Yandex host: `yandex.*` or a subdomain of `yandex.ru`, after any `www.`.
pub open spec fn yandex_host(host: Seq<char>) -> bool {
    let h = strip_www(host);
    starts_with(h, "yandex."@) || ends_with(h, ".yandex.ru"@)
}

pub fn is_yandex_host(host: &[char]) -> (r: bool)
    ensures
        r == yandex_host(host@),
{
    let h = strip_www_of(host);
    has_prefix(&h, &chars_of("yandex.")) || has_suffix(&h, &chars_of(".yandex.ru"))
}

pub open spec fn query_has(url: WebUrl, needle: Seq<char>) -> bool {
    opt_view(url.query) matches Some(q) && contains_seq(q, needle)
}

/// The VH player host, or a Yandex host with a preview path or a `stream_id=` query.
pub open spec fn yandex_page(url: WebUrl) -> bool {
    if opt_view(url.host) == Some("frontend.vh.yandex.ru"@) {
        true
    } else {
        let host = match opt_view(url.host) {
            Some(h) => h,
            None => Seq::empty(),
        };
        yandex_host(host) && (contains_seq(url.path@, "/video/preview"@) || query_has(url, "stream_id="@))
    }
}

fn query_contains(url: &WebUrl, needle: &str) -> (r: bool)
    ensures
        r == query_has(*url, needle@),
{
    match &url.query {
        Some(q) => contains(&chars_of(q.as_str()), &chars_of(needle)),
        None => false,
    }
}

pub fn matches_host(url: &WebUrl) -> (r: bool)
    ensures
        r == yandex_page(*url),
{
    let host = match host_chars(url) {
        Some(h) => h,
        None => Vec::new(),
    };
    if url.host.is_some() && same(&host, &chars_of("frontend.vh.yandex.ru")) {
        return true;
    }
    if !is_yandex_host(&host) {
        return false;
    }
    contains(&chars_of(url.path.as_str()), &chars_of("/video/preview")) || query_contains(url, "stream_id=")
}

/// A preview page: a preview path, or a `filmId=` query.
pub open spec fn preview_page(url: WebUrl) -> bool {
    contains_seq(url.path@, "/video/preview"@) || query_has(url, "filmId="@)
}

pub fn is_preview(url: &WebUrl) -> (r: bool)
    ensures
        r == preview_page(*url),
{
    contains(&chars_of(url.path.as_str()), &chars_of("/video/preview")) || query_contains(url, "filmId=")
}

/// What a Yandex page leads to.
pub enum YandexRoute {
    /// A preview, resolved to its upstream player.
    Preview,
    /// The VH player, for this content id.
    Player(String),
    /// Nothing to extract.
    Nothing,
}

/// Previews first, then pages that name a VH content id.
pub open spec fn route_of(url: WebUrl, r: YandexRoute) -> bool {
    if preview_page(url) {
        r is Preview
    } else {
        match vh::vh_content_id(url) {
            Some(id) => r matches YandexRoute::Player(x) && x@ == id,
            None => r is Nothing,
        }
    }
}

pub fn route(url: &WebUrl) -> (r: YandexRoute)
    ensures
        route_of(*url, r),
{
    if is_preview(url) {
        return YandexRoute::Preview;
    }
    match content_id(url) {
        Some(id) => YandexRoute::Player(id),
        None => YandexRoute::Nothing,
    }
}

} // verus!
