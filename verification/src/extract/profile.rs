//! Declarative per-site extraction profiles.

use vstd::prelude::*;
use crate::model::MediaKind;
use crate::model::str_views;
use crate::text::{chars_of, ends_with, has_suffix, push_str, same};
use crate::weburl::WebUrl;

verus! {

/// How to recognise a site profile from the page host.
#[derive(Debug, Clone, Copy)]
pub enum HostMatch {
    /// `youtube.com` matches `youtube.com` and `www.youtube.com`.
    Suffix(&'static [&'static str]),
}

/// `host` is one of `suffixes` or a subdomain of one of them.
pub open spec fn host_matches(suffixes: Seq<Seq<char>>, host: Seq<char>) -> bool {
    exists|i: int|
        0 <= i < suffixes.len() && (host == #[trigger] suffixes[i] || ends_with(
            host,
            "."@ + suffixes[i],
        ))
}

impl HostMatch {
    pub open spec fn suffixes(&self) -> Seq<Seq<char>> {
        match self {
            HostMatch::Suffix(s) => str_views(s@),
        }
    }

    /// Whether `host` equals one of the suffixes or ends with `.` and one of them.
    pub fn matches(&self, host: &str) -> (r: bool)
        ensures
            r == host_matches(self.suffixes(), host@),
    {
        let HostMatch::Suffix(list) = self;
        let h = chars_of(host);
        let mut i: usize = 0;
        while i < list.len()
            invariant
                i <= list@.len(),
                h@ == host@,
                str_views(list@) == self.suffixes(),
                forall|j: int|
                    0 <= j < i ==> !(host@ == #[trigger] self.suffixes()[j] || ends_with(
                        host@,
                        "."@ + self.suffixes()[j],
                    )),
            decreases list@.len() - i,
        {
            let suffix = chars_of(list[i]);
            assert(suffix@ == self.suffixes()[i as int]);
            let mut dotted = chars_of(".");
            push_str(&mut dotted, list[i]);
            if same(&h, &suffix) || has_suffix(&h, &dotted) {
                return true;
            }
            i = i + 1;
        }
        false
    }
}

/// A host that matches also matches under any further label: `l.host` is a subdomain of
/// whatever `host` equals or is a subdomain of.
pub proof fn law_subdomain_matches(suffixes: Seq<Seq<char>>, host: Seq<char>, label: Seq<char>)
    requires
        host_matches(suffixes, host),
    ensures
        host_matches(suffixes, label + "."@ + host),
{
    reveal_strlit(".");
    let i = choose|i: int|
        0 <= i < suffixes.len() && (host == #[trigger] suffixes[i] || ends_with(host, "."@ + suffixes[i]));
    let sub = label + "."@ + host;
    let d = "."@ + suffixes[i];
    if host == suffixes[i] {
        assert(sub.subrange(sub.len() - d.len(), sub.len() as int) =~= d);
    } else {
        assert(host.subrange(host.len() - d.len(), host.len() as int) == d);
        assert(sub.subrange(sub.len() - d.len(), sub.len() as int) =~= host.subrange(
            host.len() - d.len(),
            host.len() as int,
        ));
    }
    assert(ends_with(sub, d) || sub == suffixes[i]);
}

/// A suffix matches a host only at a label boundary: the host is the suffix itself, or
/// it ends with the suffix right after a `.`. So `notyoutube.com` does not match through
/// `youtube.com`.
pub proof fn law_suffix_at_boundary(s: Seq<char>, host: Seq<char>)
    ensures
        (host == s || ends_with(host, "."@ + s)) <==> (host == s || (host.len() > s.len()
            && ends_with(host, s) && host[host.len() - s.len() - 1] == '.')),
{
    reveal_strlit(".");
    let d = "."@ + s;
    if host.len() > s.len() && ends_with(host, s) && host[host.len() - s.len() - 1] == '.' {
        assert(host.subrange(host.len() - d.len(), host.len() as int) =~= d);
    }
    if host != s && ends_with(host, d) {
        let t = host.subrange(host.len() - d.len(), host.len() as int);
        assert(t == d);
        assert(host[host.len() - s.len() - 1] == t[0]);
        assert(host.subrange(host.len() - s.len(), host.len() as int) =~= t.subrange(1, t.len() as int));
        assert(t.subrange(1, t.len() as int) =~= s);
    }
}

/// Maps fields inside JSON format objects to a file URL and metadata.
#[derive(Debug, Clone, Copy)]
pub struct JsonMapRule {
    pub marker: &'static str,
    /// Dot paths to arrays of format objects, e.g. `streamingData.formats`.
    pub item_paths: &'static [&'static str],
    pub url_key: &'static str,
    pub mime_key: Option<&'static str>,
    pub label_key: Option<&'static str>,
    pub alt_label_key: Option<&'static str>,
}

/// Site-specific discovery rule. Generic HTML rules always run first.
#[derive(Debug, Clone, Copy)]
pub enum ProfileRule {
    /// CSS selector whose attribute holds a direct file URL.
    Selector {
        selector: &'static str,
        attr: &'static str,
        kind: MediaKind,
        label_attr: Option<&'static str>,
    },
    /// JavaScript variable embedded in HTML whose JSON lists downloadable files.
    EmbeddedJson(JsonMapRule),
}

/// Declarative extractor config for one site or family of hosts.
#[derive(Debug, Clone, Copy)]
pub struct SiteProfile {
    pub id: &'static str,
    pub hosts: HostMatch,
    pub rules: &'static [ProfileRule],
}

/// The set of site profiles that extraction consults.
#[derive(Debug, Clone, Copy)]
pub struct ProfileRegistry {
    profiles: &'static [SiteProfile],
}

/// The host of a URL, or the empty string without one.
pub open spec fn host_or_empty(url: WebUrl) -> Seq<char> {
    match url.host {
        Some(h) => h@,
        None => Seq::empty(),
    }
}

/// The profiles of `ps` whose hosts match `host`, in order.
pub open spec fn matching_profiles(ps: Seq<SiteProfile>, host: Seq<char>) -> Seq<SiteProfile>
    decreases ps.len(),
{
    if ps.len() == 0 {
        Seq::empty()
    } else if host_matches(ps.last().hosts.suffixes(), host) {
        matching_profiles(ps.drop_last(), host).push(ps.last())
    } else {
        matching_profiles(ps.drop_last(), host)
    }
}

impl ProfileRegistry {
    pub closed spec fn profiles(&self) -> Seq<SiteProfile> {
        self.profiles@
    }

    pub fn new(profiles: &'static [SiteProfile]) -> (r: Self)
        ensures
            r.profiles() == profiles@,
    {
        ProfileRegistry { profiles }
    }

    /// The profiles whose hosts match the host of `url`, in registry order.
    pub fn matching(&self, url: &WebUrl) -> (r: Vec<SiteProfile>)
        ensures
            r@ == matching_profiles(self.profiles(), host_or_empty(*url)),
    {
        let empty = String::new();
        let host: &str = match &url.host {
            Some(h) => h.as_str(),
            None => empty.as_str(),
        };
        let mut r: Vec<SiteProfile> = Vec::new();
        let mut i: usize = 0;
        while i < self.profiles.len()
            invariant
                i <= self.profiles@.len(),
                host@ == host_or_empty(*url),
                r@ == matching_profiles(self.profiles@.subrange(0, i as int), host@),
            decreases self.profiles@.len() - i,
        {
            let p = self.profiles[i];
            assert(self.profiles@.subrange(0, i + 1).drop_last() =~= self.profiles@.subrange(
                0,
                i as int,
            ));
            if p.hosts.matches(host) {
                r.push(p);
            }
            i = i + 1;
        }
        assert(self.profiles@.subrange(0, self.profiles@.len() as int) =~= self.profiles@);
        r
    }
}

} // verus!
