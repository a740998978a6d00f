//! The page extractor: generic discovery and site profiles, then site families, then
//! duplicates dropped and the quality applied.

use vstd::prelude::*;
use crate::extract::profile::{matching_profiles, host_or_empty, ProfileRegistry, SiteProfile};
use crate::extract::{dedupe_streams, deduped};
use crate::model::Stream;
use crate::quality::{filtered, Quality};
use crate::weburl::WebUrl;

verus! {

/// Extracts streams from fetched pages with a registry of site profiles.
#[derive(Debug, Clone, Copy)]
pub struct PageExtractor {
    registry: ProfileRegistry,
}

impl PageExtractor {
    pub closed spec fn registry_spec(&self) -> ProfileRegistry {
        self.registry
    }

    pub fn new(registry: ProfileRegistry) -> (r: PageExtractor)
        ensures
            r.registry_spec() == registry,
    {
        PageExtractor { registry }
    }

    /// The profiles that apply to a page, in registry order.
    pub fn profiles_for(&self, url: &WebUrl) -> (r: Vec<SiteProfile>)
        ensures
            r@ == matching_profiles(self.registry_spec().profiles(), host_or_empty(*url)),
    {
        self.registry.matching(url)
    }

    /// The final list from everything found on a page (generic and profile streams
    /// first, then the site family's): each URL once, then the quality's heights.
    pub fn finish(&self, streams: Vec<Stream>, quality: Quality) -> (r: Vec<Stream>)
        ensures
            r@ == filtered(quality, deduped(streams@)),
    {
        quality.filter_streams(dedupe_streams(streams))
    }
}

} // verus!
