//! Overflow-checked usage counters for a single owner.

use vstd::prelude::*;

verus! {

/// Usage counters belonging to one owner: how many video plays and how many
/// ad impressions were observed.  Each counter is bounded by `u32::MAX`; an
/// addition that would exceed the bound fails and leaves the counter
/// unchanged, it never wraps.
#[derive(Debug, Clone, Copy)]
pub struct OwnerUsage {
    video_plays: u32,
    ad_impressions: u32,
}

impl OwnerUsage {
    /// The current number of recorded video plays, for contracts.
    pub closed spec fn spec_video_plays(&self) -> u32 {
        self.video_plays
    }

    /// The current number of recorded ad impressions, for contracts.
    pub closed spec fn spec_ad_impressions(&self) -> u32 {
        self.ad_impressions
    }

    /// The counter pair holding exactly the two given values, for contracts.
    pub closed spec fn make(video_plays: u32, ad_impressions: u32) -> OwnerUsage {
        OwnerUsage { video_plays, ad_impressions }
    }

    /// Construct counters with the given starting values.
    pub fn new(video_plays: u32, ad_impressions: u32) -> (r: Self)
        ensures
            r == OwnerUsage::make(video_plays, ad_impressions),
    {
        Self { video_plays, ad_impressions }
    }

    /// Return the video plays counter.
    pub fn get_video_plays(&self) -> (r: u32)
        ensures
            r == self.spec_video_plays(),
    {
        self.video_plays
    }

    /// Return the ad impressions counter.
    pub fn get_ad_impressions(&self) -> (r: u32)
        ensures
            r == self.spec_ad_impressions(),
    {
        self.ad_impressions
    }

    /// Try to add `param` to the video plays counter.  On success the new
    /// value is stored and returned; a would-be overflow changes nothing and
    /// yields `None`.
    pub fn add_video_plays(&mut self, param: u32) -> (r: Option<u32>)
        ensures
            old(self).spec_video_plays() + param <= u32::MAX ==> {
                &&& r == Some((old(self).spec_video_plays() + param) as u32)
                &&& final(self).spec_video_plays() == old(self).spec_video_plays() + param
                &&& final(self).spec_ad_impressions() == old(self).spec_ad_impressions()
            },
            old(self).spec_video_plays() + param > u32::MAX ==> {
                &&& r is None
                &&& *final(self) == *old(self)
            },
    {
        match self.video_plays.checked_add(param) {
            Some(result) => {
                self.video_plays = result;

                Some(result)
            }

            None => None,
        }
    }

    /// Try to add `param` to the ad impressions counter.  On success the new
    /// value is stored and returned; a would-be overflow changes nothing and
    /// yields `None`.
    pub fn add_ad_impressions(&mut self, param: u32) -> (r: Option<u32>)
        ensures
            old(self).spec_ad_impressions() + param <= u32::MAX ==> {
                &&& r == Some((old(self).spec_ad_impressions() + param) as u32)
                &&& final(self).spec_ad_impressions() == old(self).spec_ad_impressions() + param
                &&& final(self).spec_video_plays() == old(self).spec_video_plays()
            },
            old(self).spec_ad_impressions() + param > u32::MAX ==> {
                &&& r is None
                &&& *final(self) == *old(self)
            },
    {
        match self.ad_impressions.checked_add(param) {
            Some(result) => {
                self.ad_impressions = result;

                Some(result)
            }

            None => None,
        }
    }
}

impl Default for OwnerUsage {
    /// Counters start at zero when an owner is first observed.
    fn default() -> (r: Self)
        ensures
            r == OwnerUsage::make(0, 0),
    {
        Self { video_plays: 0, ad_impressions: 0 }
    }
}

/// Two counter pairs with the same counter values are the same value.
pub proof fn lemma_owner_usage_eq(a: OwnerUsage, b: OwnerUsage)
    requires
        a.spec_video_plays() == b.spec_video_plays(),
        a.spec_ad_impressions() == b.spec_ad_impressions(),
    ensures
        a == b,
{
}

/// What `make` stores is what the two projections read back.
pub broadcast proof fn lemma_make_fields(video_plays: u32, ad_impressions: u32)
    ensures
        (#[trigger] OwnerUsage::make(video_plays, ad_impressions)).spec_video_plays()
            == video_plays,
        OwnerUsage::make(video_plays, ad_impressions).spec_ad_impressions() == ad_impressions,
{
}

} // verus!
