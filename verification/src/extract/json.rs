//! Pulling a JSON object literal out of a page's script text.

use vstd::prelude::*;
use crate::extract::generic::{kind_from, plain_stream, streams_match};
use crate::extract::html::opt_str_view;
use crate::extract::profile::JsonMapRule;
use crate::extract::{wants_kind, ExtractOptions};
use crate::json_value::{jget, jstr, json_text, opt_ref, push_json, JsonValue};
use crate::model::{str_views, MediaKind, Stream};
use crate::text::{
    before_first, before_first_of, chars_of, find, find_in, has_prefix, slice_chars, split_char,
    split_spec, starts_with, string_of, trim_bounds, trim_start, views,
};
use crate::weburl::{decode_form_pairs, first_value, form_pairs, opt_view, pair_views, parse_web_url, url_parse, UrlView};

verus! {

/// Scanner state: brace depth, inside a string literal, after a backslash in a string.
pub type ScanState = (int, bool, bool);

/// One step of the scanner over character `c`.
pub open spec fn step(st: ScanState, c: char) -> ScanState {
    if st.1 {
        if st.2 {
            (st.0, true, false)
        } else if c == '\\' {
            (st.0, true, true)
        } else if c == '"' {
            (st.0, false, false)
        } else {
            (st.0, true, false)
        }
    } else if c == '"' {
        (st.0, true, false)
    } else if c == '{' {
        (st.0 + 1, false, false)
    } else if c == '}' {
        (st.0 - 1, false, false)
    } else {
        st
    }
}

/// The scanner state after the first `n` characters of `s`.
pub open spec fn state_after(s: Seq<char>, n: int) -> ScanState
    decreases n,
{
    if n <= 0 {
        (0, false, false)
    } else {
        step(state_after(s, n - 1), s[n - 1])
    }
}

/// The character at `i` is a `}` outside any string that closes the outermost brace.
pub open spec fn closes_at(s: Seq<char>, i: int) -> bool {
    0 <= i < s.len() && !state_after(s, i).1 && s[i] == '}' && state_after(s, i).0 == 1
}

/// The first index at or after `i` where the outermost brace closes.
pub open spec fn close_from(s: Seq<char>, i: int) -> Option<int>
    decreases s.len() - i,
{
    if i < 0 || i >= s.len() {
        None
    } else if closes_at(s, i) {
        Some(i)
    } else {
        close_from(s, i + 1)
    }
}

/// The balanced JSON object at the start of `s`: from its `{` through the `}` that
/// closes it, braces inside string literals (with backslash escapes) not counted.
pub open spec fn json_object_prefix(s: Seq<char>) -> Option<Seq<char>> {
    if s.len() == 0 || s[0] != '{' {
        None
    } else {
        match close_from(s, 0) {
            Some(i) => Some(s.subrange(0, i + 1)),
            None => None,
        }
    }
}

/// The object that follows `marker = ` in `html`, after any whitespace.
pub open spec fn embedded_json(html: Seq<char>, marker: Seq<char>) -> Option<Seq<char>> {
    let needle = marker + " = "@;
    match find(html, needle) {
        Some(k) => json_object_prefix(trim_start(html.subrange(k + needle.len(), html.len() as int))),
        None => None,
    }
}

/// The balanced object at the start of `v[from..]`, as the index just past its `}`.
pub fn object_end(v: &[char], from: usize) -> (r: Option<usize>)
    requires
        from <= v@.len(),
    ensures
        match json_object_prefix(v@.subrange(from as int, v@.len() as int)) {
            Some(o) => r matches Some(e) && from < e <= v@.len() && v@.subrange(from as int, e as int) == o,
            None => r is None,
        },
{
    let ghost s = v@.subrange(from as int, v@.len() as int);
    if from >= v.len() || v[from] != '{' {
        return None;
    }
    let mut depth: usize = 0;
    let mut in_string = false;
    let mut escaped = false;
    let mut i: usize = from;
    while i < v.len()
        invariant
            from <= i <= v@.len(),
            from < v@.len(),
            s == v@.subrange(from as int, v@.len() as int),
            s[0] == '{',
            state_after(s, i - from) == (depth as int, in_string, escaped),
            i > from ==> depth >= 1,
            depth <= i - from,
            !in_string ==> !escaped,
            close_from(s, 0) == close_from(s, i - from),
        decreases v@.len() - i,
    {
        let c = v[i];
        assert(s[i - from] == c);
        let ghost before = state_after(s, i - from);
        if in_string {
            if escaped {
                escaped = false;
            } else if c == '\\' {
                escaped = true;
            } else if c == '"' {
                in_string = false;
            }
        } else if c == '"' {
            in_string = true;
        } else if c == '{' {
            depth = depth + 1;
        } else if c == '}' {
            if depth == 1 {
                assert(closes_at(s, i - from));
                assert(s.subrange(0, i - from + 1) =~= v@.subrange(from as int, i + 1));
                return Some(i + 1);
            }
            if depth == 0 {
                assert(i == from);
                assert(false);
                return None;
            }
            depth = depth - 1;
        }
        assert(!closes_at(s, i - from));
        assert((depth as int, in_string, escaped) == step(before, c));
        assert(state_after(s, i - from + 1) == step(before, c));
        i = i + 1;
    }
    None
}

/// The balanced JSON object at the start of `input` (`{` through its closing `}`).
pub fn extract_json_object(input: &str) -> (r: Option<String>)
    ensures
        match json_object_prefix(input@) {
            Some(o) => r matches Some(t) && t@ == o,
            None => r is None,
        },
{
    let v = chars_of(input);
    assert(v@.subrange(0, v@.len() as int) =~= v@);
    match object_end(&v, 0) {
        Some(e) => Some(string_of(slice_chars(&v, 0, e).as_slice())),
        None => None,
    }
}

/// The JSON object assigned to the script variable `marker` (`marker = {...}`) in `html`.
pub fn extract_embedded_json(html: &str, marker: &str) -> (r: Option<String>)
    ensures
        match embedded_json(html@, marker@) {
            Some(o) => r matches Some(t) && t@ == o,
            None => r is None,
        },
{
    let h = chars_of(html);
    let mut needle = chars_of(marker);
    let mut eq = chars_of(" = ");
    needle.append(&mut eq);
    assert(h@.subrange(0, h@.len() as int) =~= h@);
    let k = match find_in(&h, 0, &needle) {
        Some(k) => k,
        None => {
            return None;
        },
    };
    proof {
        crate::text::lemma_find_props(h@, needle@);
        assert(find(h@, needle@) == Some(k as int));
        assert(crate::text::occurs_at(h@, needle@, k as int));
        assert(h@.len() == h.len());
    }
    let start = k + needle.len();
    let rest = slice_chars(&h, start, h.len());
    let (a, _) = trim_bounds(&rest);
    assert(rest@.subrange(a as int, rest@.len() as int) =~= h@.subrange(start + a, h@.len() as int));
    match object_end(&h, start + a) {
        Some(e) => Some(string_of(slice_chars(&h, start + a, e).as_slice())),
        None => None,
    }
}

/// The value at a dot path (`streamingData.formats`): each piece is an object member.
pub open spec fn at_path(v: JsonValue, segs: Seq<Seq<char>>) -> Option<JsonValue>
    decreases segs.len(),
{
    if segs.len() == 0 {
        Some(v)
    } else {
        match jget(v, segs[0]) {
            Some(x) => at_path(x, segs.drop_first()),
            None => None,
        }
    }
}

/// The items of the array at a dot path; none when there is no array there.
pub open spec fn items_at(root: JsonValue, path: Seq<char>) -> Seq<JsonValue> {
    match at_path(root, split_spec(path, '.')) {
        Some(JsonValue::Array(a)) => a@,
        _ => Seq::empty(),
    }
}

fn value_at_path<'a>(root: &'a JsonValue, path: &str) -> (r: Option<&'a JsonValue>)
    ensures
        opt_ref(r) == at_path(*root, split_spec(path@, '.')),
{
    let segs = split_char(&chars_of(path), '.');
    let ghost all = views(segs@);
    let mut cur: &JsonValue = root;
    let mut i: usize = 0;
    assert(all.subrange(0, all.len() as int) =~= all);
    while i < segs.len()
        invariant
            i <= segs@.len(),
            all == views(segs@),
            all == split_spec(path@, '.'),
            at_path(*root, all) == at_path(*cur, all.subrange(i as int, all.len() as int)),
        decreases segs@.len() - i,
    {
        let ghost rest = all.subrange(i as int, all.len() as int);
        assert(rest.drop_first() =~= all.subrange(i + 1, all.len() as int));
        assert(rest[0] == segs@[i as int]@);
        let key = string_of(segs[i].as_slice());
        match cur.get(key.as_str()) {
            Some(x) => {
                cur = x;
            },
            None => {
                return None;
            },
        }
        i = i + 1;
    }
    assert(all.subrange(i as int, all.len() as int) =~= Seq::<Seq<char>>::empty());
    Some(cur)
}

/// The `url` value of a cipher string (form-encoded pairs).
pub open spec fn cipher_url(cipher: Seq<char>) -> Option<Seq<char>> {
    first_value(form_pairs(cipher), "url"@)
}

pub fn parse_cipher_url(cipher: &str) -> (r: Option<String>)
    ensures
        opt_view(r) == cipher_url(cipher@),
{
    let u = crate::text::chars_of("url");
    let pairs = decode_form_pairs(cipher);
    let ghost all = pair_views(pairs@);
    let mut i: usize = 0;
    assert(all.subrange(0, all.len() as int) =~= all);
    while i < pairs.len()
        invariant
            i <= pairs@.len(),
            all == pair_views(pairs@),
            all == form_pairs(cipher@),
            u@ == "url"@,
            first_value(all, "url"@) == first_value(all.subrange(i as int, all.len() as int), "url"@),
        decreases pairs@.len() - i,
    {
        let ghost rest = all.subrange(i as int, all.len() as int);
        assert(rest.drop_first() =~= all.subrange(i + 1, all.len() as int));
        assert(rest[0] == (pairs@[i as int].0@, pairs@[i as int].1@));
        if crate::text::same(&chars_of(pairs[i].0.as_str()), &u) {
            return Some(pairs[i].1.clone());
        }
        i = i + 1;
    }
    assert(all.subrange(i as int, all.len() as int).len() == 0);
    None
}

/// The file URL of an item: its `url_key` string, else the `url` inside its
/// `signatureCipher`, else inside its `cipher`.
pub open spec fn item_url(item: JsonValue, url_key: Seq<char>) -> Option<Seq<char>> {
    match jstr(jget(item, url_key)) {
        Some(u) => Some(u),
        None => match (match jstr(jget(item, "signatureCipher"@)) {
            Some(c) => cipher_url(c),
            None => None,
        }) {
            Some(u) => Some(u),
            None => match jstr(jget(item, "cipher"@)) {
                Some(c) => cipher_url(c),
                None => None,
            },
        },
    }
}

fn file_url_from_item(item: &JsonValue, url_key: &str) -> (r: Option<String>)
    ensures
        opt_view(r) == item_url(*item, url_key@),
{
    if let Some(u) = crate::json_value::get_str(item, url_key) {
        return Some(string_of(chars_of(u).as_slice()));
    }
    if let Some(c) = crate::json_value::get_str(item, "signatureCipher") {
        if let Some(u) = parse_cipher_url(c) {
            return Some(u);
        }
    }
    if let Some(c) = crate::json_value::get_str(item, "cipher") {
        return parse_cipher_url(c);
    }
    None
}

/// The label of an item: its `label_key` string, else its `alt_label_key` value (a
/// string as is, anything else as JSON text).
pub open spec fn item_label(item: JsonValue, label_key: Option<Seq<char>>, alt: Option<Seq<char>>) -> Option<Seq<char>> {
    match (match label_key {
        Some(k) => jstr(jget(item, k)),
        None => None,
    }) {
        Some(l) => Some(l),
        None => match alt {
            Some(k) => match jget(item, k) {
                Some(JsonValue::Str(s)) => Some(s@),
                Some(x) => Some(json_text(x)),
                None => None,
            },
            None => None,
        },
    }
}

fn label_from_item(item: &JsonValue, label_key: Option<&str>, alt_label_key: Option<&str>) -> (r: Option<String>)
    ensures
        opt_view(r) == item_label(*item, opt_str_view(label_key), opt_str_view(alt_label_key)),
{
    if let Some(k) = label_key {
        if let Some(l) = crate::json_value::get_str(item, k) {
            return Some(string_of(chars_of(l).as_slice()));
        }
    }
    match alt_label_key {
        Some(k) => match item.get(k) {
            Some(JsonValue::Str(s)) => Some(s.clone()),
            Some(x) => {
                let mut out: Vec<char> = Vec::new();
                push_json(&mut out, x);
                assert(out@ =~= json_text(*x));
                Some(string_of(out.as_slice()))
            },
            None => None,
        },
        None => None,
    }
}

/// Audio when the MIME type, before any `;`, starts with `audio/`; else video.
pub open spec fn mime_kind_of(m: Seq<char>) -> MediaKind {
    if starts_with(before_first(m, ";"@), "audio/"@) {
        MediaKind::Audio
    } else {
        MediaKind::Video
    }
}

pub fn mime_kind(mime_type: &str) -> (r: MediaKind)
    ensures
        r == mime_kind_of(mime_type@),
{
    let head = before_first_of(&chars_of(mime_type), &chars_of(";"));
    if has_prefix(&head, &chars_of("audio/")) {
        MediaKind::Audio
    } else {
        MediaKind::Video
    }
}

/// The stream an item gives, as (URL, kind, label): none without a URL that parses, or
/// when its kind (from `mime_key`, else from the URL) is not wanted.
pub open spec fn item_stream(item: JsonValue, rule: JsonMapRule, kinds: Seq<MediaKind>) -> Option<(UrlView, MediaKind, Option<Seq<char>>)> {
    match item_url(item, rule.url_key@) {
        Some(u) => match url_parse(u) {
            Some(p) => {
                let kind = match (match rule.mime_key {
                    Some(k) => jstr(jget(item, k@)),
                    None => None,
                }) {
                    Some(m) => mime_kind_of(m),
                    None => kind_from(p, None),
                };
                if kinds.contains(kind) {
                    Some((p, kind, item_label(item, opt_str_view(rule.label_key), opt_str_view(rule.alt_label_key))))
                } else {
                    None
                }
            },
            None => None,
        },
        None => None,
    }
}

/// The streams of a list of items, in order.
pub open spec fn items_streams(items: Seq<JsonValue>, rule: JsonMapRule, kinds: Seq<MediaKind>) -> Seq<(UrlView, MediaKind, Option<Seq<char>>)>
    decreases items.len(),
{
    if items.len() == 0 {
        Seq::empty()
    } else {
        let prev = items_streams(items.drop_last(), rule, kinds);
        match item_stream(items.last(), rule, kinds) {
            Some(x) => prev.push(x),
            None => prev,
        }
    }
}

/// The streams of the items at each of the rule's paths, path by path.
pub open spec fn rule_streams(root: JsonValue, rule: JsonMapRule, paths: Seq<Seq<char>>, kinds: Seq<MediaKind>) -> Seq<(UrlView, MediaKind, Option<Seq<char>>)>
    decreases paths.len(),
{
    if paths.len() == 0 {
        Seq::empty()
    } else {
        rule_streams(root, rule, paths.drop_last(), kinds) + items_streams(items_at(root, paths.last()), rule, kinds)
    }
}

/// The streams an embedded-JSON rule finds in the parsed object `root`.
pub fn apply_rule_to(root: &JsonValue, rule: &JsonMapRule, options: &ExtractOptions) -> (r: Vec<Stream>)
    ensures
        streams_match(r@, rule_streams(*root, *rule, str_views(rule.item_paths@), options.kinds@)),
{
    let ghost paths = str_views(rule.item_paths@);
    let ghost kinds = options.kinds@;
    let empty: Vec<JsonValue> = Vec::new();
    let mut streams: Vec<Stream> = Vec::new();
    let mut p: usize = 0;
    while p < rule.item_paths.len()
        invariant
            p <= rule.item_paths@.len(),
            paths == str_views(rule.item_paths@),
            kinds == options.kinds@,
            empty@.len() == 0,
            streams_match(streams@, rule_streams(*root, *rule, paths.subrange(0, p as int), kinds)),
        decreases rule.item_paths@.len() - p,
    {
        assert(paths.subrange(0, p + 1).drop_last() =~= paths.subrange(0, p as int));
        assert(paths[p as int] == rule.item_paths@[p as int]@);
        let items: &Vec<JsonValue> = match value_at_path(root, rule.item_paths[p]) {
            Some(JsonValue::Array(a)) => a,
            _ => &empty,
        };
        let ghost its = items_at(*root, paths[p as int]);
        assert(items@ == its);
        let ghost base = streams@;
        let ghost prefix = rule_streams(*root, *rule, paths.subrange(0, p as int), kinds);
        let mut i: usize = 0;
        while i < items.len()
            invariant
                i <= items@.len(),
                items@ == its,
                kinds == options.kinds@,
                streams_match(base, prefix),
                streams@.len() >= base.len(),
                forall|j: int| 0 <= j < base.len() ==> streams@[j] == base[j],
                streams_match(streams@.subrange(base.len() as int, streams@.len() as int), items_streams(its.subrange(0, i as int), *rule, kinds)),
            decreases items@.len() - i,
        {
            let item = &items[i];
            assert(its.subrange(0, i + 1).drop_last() =~= its.subrange(0, i as int));
            assert(its.subrange(0, i + 1).last() == *item);
            let ghost before = streams@;
            match file_url_from_item(item, rule.url_key) {
                Some(u) => match parse_web_url(u.as_str()) {
                    Ok(parsed) => {
                        let mime: Option<&str> = match rule.mime_key {
                            Some(k) => crate::json_value::get_str(item, k),
                            None => None,
                        };
                        let kind = match mime {
                            Some(m) => mime_kind(m),
                            None => crate::extract::infer_kind(&parsed, None),
                        };
                        if wants_kind(&options.kinds, kind) {
                            let label = label_from_item(item, rule.label_key, rule.alt_label_key);
                            streams.push(
                                Stream {
                                    url: parsed,
                                    kind,
                                    label,
                                    download_user_agent: None,
                                    mux_audio: None,
                                    hls: false,
                                    download_referer: None,
                                },
                            );
                            assert(streams@.subrange(base.len() as int, streams@.len() as int) =~= before.subrange(base.len() as int, before.len() as int).push(streams@.last()));
                        }
                    },
                    Err(_) => {},
                },
                None => {},
            }
            i = i + 1;
        }
        assert(its.subrange(0, its.len() as int) =~= its);
        proof {
            let tail = streams@.subrange(base.len() as int, streams@.len() as int);
            let want = rule_streams(*root, *rule, paths.subrange(0, p + 1), kinds);
            assert(want == prefix + items_streams(its, *rule, kinds));
            assert forall|j: int| 0 <= j < streams@.len() implies plain_stream(#[trigger] streams@[j], want[j].0, want[j].1, want[j].2) by {
                if j >= base.len() {
                    assert(streams@[j] == tail[j - base.len()]);
                    assert(want[j] == items_streams(its, *rule, kinds)[j - base.len()]);
                    assert(plain_stream(tail[j - base.len()], want[j].0, want[j].1, want[j].2));
                } else {
                    assert(streams@[j] == base[j]);
                    assert(want[j] == prefix[j]);
                    assert(plain_stream(base[j], prefix[j].0, prefix[j].1, prefix[j].2));
                }
            }
        }
        p = p + 1;
    }
    assert(paths.subrange(0, paths.len() as int) =~= paths);
    streams
}

proof fn lemma_close_from(s: Seq<char>, i: int)
    requires
        0 <= i,
    ensures
        close_from(s, i) matches Some(k) ==> i <= k < s.len() && closes_at(s, k),
    decreases s.len() - i,
{
    if i < s.len() && !closes_at(s, i) {
        lemma_close_from(s, i + 1);
    }
}

/// The object pulled out of a text is the start of that text, opens with `{` and ends
/// with the `}` that brings the brace depth (outside string literals) back to zero.
pub proof fn law_object_prefix(s: Seq<char>)
    ensures
        json_object_prefix(s) matches Some(o) ==> {
            &&& 0 < o.len() <= s.len()
            &&& o == s.subrange(0, o.len() as int)
            &&& o[0] == '{'
            &&& o.last() == '}'
            &&& state_after(s, o.len() - 1).0 == 1
            &&& !state_after(s, o.len() - 1).1
        },
{
    lemma_close_from(s, 0);
}

} // verus!
