//! Yandex video previews: the film id, the embed data in `<noframes>`, and the choice of
//! the upstream player among the duplicates it lists.

use vstd::prelude::*;
use crate::error::Error;
use crate::json_value::{jget, jget2, jstr, member, opt_ref, JsonValue};
use crate::model::{copy_string, FetchedPage};
use crate::text::{
    all_digits, chars_of, eq_ic, eq_ignore_case, find, find_in, is_digit, rfind_ch, rfind_char,
    same, slice_chars, string_of,
};
use crate::weburl::{first_value, opt_view, parse_web_url, query_pairs_of, query_value, url_parse, UrlView, WebUrl};

verus! {

/// The upstream page a preview points at, and the title to give its streams.
pub struct ResolvedSource {
    pub url: WebUrl,
    pub title: String,
}

/// The film id: the `filmId` query value, else the last piece of the path when it is a
/// non-empty run of digits.
pub open spec fn film_id_of(url: WebUrl) -> Option<Seq<char>> {
    match first_value(query_pairs_of(url), "filmId"@) {
        Some(v) => Some(v),
        None => {
            let p = url.path@;
            let seg = match rfind_char(p, '/') {
                Some(i) => p.subrange(i + 1, p.len() as int),
                None => p,
            };
            if seg.len() > 0 && all_digits(seg) {
                Some(seg)
            } else {
                None
            }
        },
    }
}

pub fn film_id(url: &WebUrl) -> (r: Option<String>)
    ensures
        opt_view(r) == film_id_of(*url),
{
    if let Some(v) = query_value(url, "filmId") {
        return Some(v);
    }
    let p = chars_of(url.path.as_str());
    let seg = match rfind_ch(&p, '/') {
        Some(i) => {
            proof {
                crate::text::lemma_rfind_char(p@, '/');
                assert(p@.len() == p.len());
            }
            slice_chars(&p, i + 1, p.len())
        },
        None => slice_chars(&p, 0, p.len()),
    };
    assert(p@.subrange(0, p@.len() as int) =~= p@);
    if seg.len() == 0 || !crate::text::all_digits_of(&seg) {
        return None;
    }
    Some(string_of(seg.as_slice()))
}

/// The text of the page's `<noframes>` element, or why it is missing.
pub open spec fn noframes_of(html: Seq<char>) -> Result<Seq<char>, Seq<char>> {
    match find(html, "<noframes"@) {
        None => Err("page missing Yandex embed data"@),
        Some(st) => match find(html.subrange(st, html.len() as int), ">"@) {
            None => Err("truncated Yandex embed"@),
            Some(g) => {
                let js = st + g + 1;
                match find(html.subrange(js, html.len() as int), "</noframes>"@) {
                    None => Err("truncated Yandex embed"@),
                    Some(e) => Ok(html.subrange(js, js + e)),
                }
            },
        },
    }
}

/// The embed data's JSON text; a missing or unterminated `<noframes>` is an invalid URL
/// with the reason.
pub fn noframes_json_text(html: &str) -> (r: Result<String, Error>)
    ensures
        match noframes_of(html@) {
            Ok(t) => r matches Ok(s) && s@ == t,
            Err(m) => r matches Err(Error::InvalidUrl(x)) && x@ == m,
        },
{
    let h = chars_of(html);
    assert(h@.subrange(0, h@.len() as int) =~= h@);
    proof {
        reveal_strlit(">");
    }
    let st = match find_in(&h, 0, &chars_of("<noframes")) {
        Some(st) => st,
        None => {
            return Err(Error::InvalidUrl(string_of(chars_of("page missing Yandex embed data").as_slice())));
        },
    };
    proof {
        crate::text::lemma_find_props(h@, "<noframes"@);
        assert(h@.len() == h.len());
    }
    let g = match find_in(&h, st, &chars_of(">")) {
        Some(g) => g,
        None => {
            return Err(Error::InvalidUrl(string_of(chars_of("truncated Yandex embed").as_slice())));
        },
    };
    proof {
        crate::text::lemma_find_props(h@.subrange(st as int, h@.len() as int), ">"@);
    }
    let js = st + g + 1;
    let e = match find_in(&h, js, &chars_of("</noframes>")) {
        Some(e) => e,
        None => {
            return Err(Error::InvalidUrl(string_of(chars_of("truncated Yandex embed").as_slice())));
        },
    };
    proof {
        crate::text::lemma_find_props(h@.subrange(js as int, h@.len() as int), "</noframes>"@);
    }
    Ok(string_of(slice_chars(&h, js, js + e).as_slice()))
}

/// The player id of a duplicate: `host.playerId`, else `player.playerId`, when a
/// string; empty otherwise.
pub open spec fn player_of(v: JsonValue) -> Seq<char> {
    let p = match jget2(v, "host"@, "playerId"@) {
        Some(x) => Some(x),
        None => jget2(v, "player"@, "playerId"@),
    };
    match jstr(p) {
        Some(s) => s,
        None => Seq::empty(),
    }
}

/// The preference of a player (lower is better), ignoring ASCII case; 7 for others.
pub open spec fn player_rank(p: Seq<char>) -> nat {
    if eq_ic(p, "yandex"@) {
        0
    } else if eq_ic(p, "vh"@) {
        1
    } else if eq_ic(p, "rutube"@) {
        2
    } else if eq_ic(p, "youtube"@) {
        3
    } else if eq_ic(p, "ok"@) {
        4
    } else if eq_ic(p, "zen"@) {
        5
    } else if eq_ic(p, "vk"@) {
        6
    } else {
        7
    }
}

pub fn rank_of_player(p: &[char]) -> (r: u64)
    ensures
        r as nat == player_rank(p@),
{
    if eq_ignore_case(p, &chars_of("yandex")) {
        0
    } else if eq_ignore_case(p, &chars_of("vh")) {
        1
    } else if eq_ignore_case(p, &chars_of("rutube")) {
        2
    } else if eq_ignore_case(p, &chars_of("youtube")) {
        3
    } else if eq_ignore_case(p, &chars_of("ok")) {
        4
    } else if eq_ignore_case(p, &chars_of("zen")) {
        5
    } else if eq_ignore_case(p, &chars_of("vk")) {
        6
    } else {
        7
    }
}

fn player_id(v: &JsonValue) -> (r: Vec<char>)
    ensures
        r@ == player_of(*v),
{
    let p = match crate::json_value::get2(v, "host", "playerId") {
        Some(x) => Some(x),
        None => crate::json_value::get2(v, "player", "playerId"),
    };
    match p {
        Some(x) => match x.as_str() {
            Some(s) => chars_of(s),
            None => Vec::new(),
        },
        None => Vec::new(),
    }
}

/// `k` is the first duplicate of the best (lowest) player rank.
pub open spec fn is_first_best_dup(es: Seq<(String, JsonValue)>, k: int) -> bool {
    &&& 0 <= k < es.len()
    &&& forall|j: int| 0 <= j < es.len() ==> player_rank(player_of(#[trigger] es[j].1)) >= player_rank(player_of(es[k].1))
    &&& forall|j: int| 0 <= j < k ==> player_rank(player_of(#[trigger] es[j].1)) > player_rank(player_of(es[k].1))
}

/// The index of the duplicate to use when none is keyed by the film id.
fn best_dup(es: &Vec<(String, JsonValue)>) -> (k: usize)
    requires
        es@.len() > 0,
    ensures
        is_first_best_dup(es@, k as int),
{
    let mut best: usize = 0;
    let mut best_rank: u64 = rank_of_player(&player_id(&es[0].1));
    let mut i: usize = 1;
    while i < es.len()
        invariant
            1 <= i <= es@.len(),
            best < i,
            best_rank as nat == player_rank(player_of(es@[best as int].1)),
            forall|j: int| 0 <= j < i ==> player_rank(player_of(#[trigger] es@[j].1)) >= best_rank,
            forall|j: int| 0 <= j < best ==> player_rank(player_of(#[trigger] es@[j].1)) > best_rank,
        decreases es@.len() - i,
    {
        let r = rank_of_player(&player_id(&es[i].1));
        if r < best_rank {
            best = i;
            best_rank = r;
        }
        i = i + 1;
    }
    best
}

/// The URL of a duplicate's upstream page: `host.href`, else `player.videoUrl`, when a
/// string.
pub open spec fn dup_href(v: JsonValue) -> Option<Seq<char>> {
    jstr(
        match jget2(v, "host"@, "href"@) {
            Some(x) => Some(x),
            None => jget2(v, "player"@, "videoUrl"@),
        },
    )
}

/// The title of a duplicate, else the page's.
pub open spec fn dup_title(v: JsonValue, page_title: Seq<char>) -> Seq<char> {
    match jstr(jget(v, "title"@)) {
        Some(t) => t,
        None => page_title,
    }
}

/// The duplicate to follow: the one keyed by the film id, else the first of the best
/// player.
pub open spec fn chosen_dup(es: Seq<(String, JsonValue)>, film: Seq<char>, k: int) -> JsonValue {
    match member(es, film) {
        Some(v) => v,
        None => es[k].1,
    }
}

/// The upstream source the embed data names: the duplicates under `clips.dups` must be
/// a non-empty object (else the video is unavailable); the chosen one must name a URL
/// (else no streams), which must parse.
pub open spec fn resolved(json: JsonValue, film: Seq<char>, page_title: Seq<char>, r: Result<ResolvedSource, Error>) -> bool {
    match jget2(json, "clips"@, "dups"@) {
        Some(JsonValue::Object(m)) if m@.len() > 0 => exists|k: int|
            is_first_best_dup(m@, k) && {
                let entry = chosen_dup(m@, film, k);
                match dup_href(entry) {
                    None => r == Err::<ResolvedSource, Error>(Error::NoStreamsFound),
                    Some(href) => match url_parse(href) {
                        None => r matches Err(Error::InvalidUrl(_)),
                        Some(u) => r matches Ok(s) && s.url@ == u && s.title@ == dup_title(entry, page_title),
                    },
                }
            },
        _ => r matches Err(Error::InvalidUrl(x)) && x@ == "video unavailable or geo-restricted"@,
    }
}

/// The upstream page and title for a preview whose embed data is `json`.
pub fn resolve(json: &JsonValue, film: &str, page_title: &str) -> (r: Result<ResolvedSource, Error>)
    ensures
        resolved(*json, film@, page_title@, r),
{
    let dups = match crate::json_value::get2(json, "clips", "dups") {
        Some(JsonValue::Object(m)) => if m.len() > 0 {
            m
        } else {
            return Err(Error::InvalidUrl(string_of(chars_of("video unavailable or geo-restricted").as_slice())));
        },
        _ => {
            return Err(Error::InvalidUrl(string_of(chars_of("video unavailable or geo-restricted").as_slice())));
        },
    };
    let k = best_dup(dups);
    let entry: &JsonValue = match member_of(dups, film) {
        Some(v) => v,
        None => &dups[k].1,
    };
    assert(*entry == chosen_dup(dups@, film@, k as int));
    let href_v = match crate::json_value::get2(entry, "host", "href") {
        Some(x) => Some(x),
        None => crate::json_value::get2(entry, "player", "videoUrl"),
    };
    let href = match href_v {
        Some(x) => match x.as_str() {
            Some(s) => s,
            None => {
                return Err(Error::NoStreamsFound);
            },
        },
        None => {
            return Err(Error::NoStreamsFound);
        },
    };
    let title = match crate::json_value::get_str(entry, "title") {
        Some(t) => string_of(chars_of(t).as_slice()),
        None => string_of(chars_of(page_title).as_slice()),
    };
    match parse_web_url(href) {
        Ok(u) => Ok(ResolvedSource { url: u, title }),
        Err(e) => Err(Error::InvalidUrl(e)),
    }
}

/// The value of the member `key` of an object's entries.
fn member_of<'a>(es: &'a Vec<(String, JsonValue)>, key: &str) -> (r: Option<&'a JsonValue>)
    ensures
        opt_ref(r) == member(es@, key@),
{
    let k = chars_of(key);
    let mut i: usize = 0;
    assert(es@.subrange(0, es@.len() as int) =~= es@);
    while i < es.len()
        invariant
            i <= es@.len(),
            k@ == key@,
            member(es@, key@) == member(es@.subrange(i as int, es@.len() as int), key@),
        decreases es@.len() - i,
    {
        let ghost rest = es@.subrange(i as int, es@.len() as int);
        assert(rest.drop_first() =~= es@.subrange(i + 1, es@.len() as int));
        assert(rest[0] == es@[i as int]);
        if same(&chars_of(es[i].0.as_str()), &k) {
            return Some(&es[i].1);
        }
        i = i + 1;
    }
    assert(es@.subrange(i as int, es@.len() as int).len() == 0);
    None
}

/// The film id and the embed data's JSON text of a preview page: a page without a film
/// id is refused first, then one without embed data.
pub fn preview_embed(page: &FetchedPage) -> (r: Result<(String, String), Error>)
    ensures
        match film_id_of(page.info.url) {
            None => r matches Err(Error::InvalidUrl(m)) && m@ == "missing Yandex film id"@,
            Some(f) => match noframes_of(page.html@) {
                Ok(t) => r matches Ok((a, b)) && a@ == f && b@ == t,
                Err(m) => r matches Err(Error::InvalidUrl(x)) && x@ == m,
            },
        },
{
    let film = match film_id(&page.info.url) {
        Some(f) => f,
        None => {
            return Err(Error::InvalidUrl(string_of(chars_of("missing Yandex film id").as_slice())));
        },
    };
    match noframes_json_text(page.html.as_str()) {
        Ok(t) => Ok((film, t)),
        Err(e) => Err(e),
    }
}

} // verus!
