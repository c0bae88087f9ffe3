//! The owner-keyed aggregate: a mapping from owner identifier to usage
//! counters, with an overflow-checked, order-insensitive merge.

use vstd::prelude::*;

verus! {

use crate::owner_usage::OwnerUsage;
use crate::owner_usage::lemma_owner_usage_eq;

broadcast use crate::owner_usage::lemma_make_fields;

/// The map described by a sequence of key/value entries.
pub open spec fn seq_to_map(s: Seq<(u32, OwnerUsage)>) -> Map<u32, OwnerUsage>
    decreases s.len(),
{
    if s.len() == 0 {
        Map::empty()
    } else {
        seq_to_map(s.drop_last()).insert(s.last().0, s.last().1)
    }
}

/// No owner appears twice in the entry list.
pub open spec fn unique_keys(s: Seq<(u32, OwnerUsage)>) -> bool {
    forall|i: int, j: int|
        #![trigger s[i].0, s[j].0]
        0 <= i < j < s.len() ==> s[i].0 != s[j].0
}

/// An owner is in the map exactly when some entry carries it.
pub proof fn lemma_seq_to_map_contains(s: Seq<(u32, OwnerUsage)>, k: u32)
    ensures
        seq_to_map(s).contains_key(k) <==> exists|i: int|
            0 <= i < s.len() && (#[trigger] s[i]).0 == k,
    decreases s.len(),
{
    if s.len() > 0 {
        lemma_seq_to_map_contains(s.drop_last(), k);
        if s.last().0 == k {
            assert(s[s.len() - 1].0 == k);
        } else {
            if seq_to_map(s).contains_key(k) {
                let i = choose|i: int|
                    0 <= i < s.drop_last().len() && (#[trigger] s.drop_last()[i]).0 == k;
                assert(s[i].0 == k);
            }
            if exists|i: int| 0 <= i < s.len() && (#[trigger] s[i]).0 == k {
                let i = choose|i: int| 0 <= i < s.len() && (#[trigger] s[i]).0 == k;
                assert(i < s.len() - 1);
                assert(s.drop_last()[i].0 == k);
            }
        }
    }
}

/// With unique keys, the map reads back exactly the entry that carries `k`.
pub proof fn lemma_seq_to_map_get(s: Seq<(u32, OwnerUsage)>, k: u32, i: int)
    requires
        unique_keys(s),
        0 <= i < s.len(),
        s[i].0 == k,
    ensures
        seq_to_map(s).contains_key(k),
        seq_to_map(s)[k] == s[i].1,
    decreases s.len(),
{
    if i == s.len() - 1 {
    } else {
        assert(s[i].0 != s[s.len() - 1].0);
        assert(unique_keys(s.drop_last()));
        lemma_seq_to_map_get(s.drop_last(), k, i);
    }
}

/// Overwriting the entry that carries `k` is an insert on the map.
proof fn lemma_seq_to_map_update(s: Seq<(u32, OwnerUsage)>, i: int, u: OwnerUsage)
    requires
        unique_keys(s),
        0 <= i < s.len(),
    ensures
        seq_to_map(s.update(i, (s[i].0, u))) == seq_to_map(s).insert(s[i].0, u),
    decreases s.len(),
{
    let t = s.update(i, (s[i].0, u));
    if i == s.len() - 1 {
        assert(t.drop_last() =~= s.drop_last());
        assert(seq_to_map(t) =~= seq_to_map(s).insert(s[i].0, u));
    } else {
        assert(s[i].0 != s[s.len() - 1].0);
        assert(unique_keys(s.drop_last()));
        lemma_seq_to_map_update(s.drop_last(), i, u);
        assert(t.drop_last() =~= s.drop_last().update(i, (s[i].0, u)));
        assert(t.last() == s.last());
        assert(seq_to_map(t) =~= seq_to_map(s).insert(s[i].0, u));
    }
}

/// The per-owner aggregate: unique owners, each with one counter pair.
/// Entry order is the order in which owners were first inserted.
#[derive(Debug)]
pub struct Aggregate {
    items: Vec<(u32, OwnerUsage)>,
}

impl Aggregate {
    /// The entry list, for contracts.
    pub closed spec fn entries(&self) -> Seq<(u32, OwnerUsage)> {
        self.items@
    }

    /// The owner-to-counters mapping this aggregate holds, for contracts.
    pub closed spec fn as_map(&self) -> Map<u32, OwnerUsage> {
        seq_to_map(self.items@)
    }

    /// Every owner appears at most once.
    pub closed spec fn wf(&self) -> bool {
        unique_keys(self.items@)
    }

    /// The empty aggregate.
    pub fn new() -> (r: Aggregate)
        ensures
            r.wf(),
            r.as_map() == Map::<u32, OwnerUsage>::empty(),
            r.entries() == Seq::<(u32, OwnerUsage)>::empty(),
    {
        Aggregate { items: Vec::new() }
    }

    /// Number of owners held.
    pub fn len(&self) -> (n: usize)
        ensures
            n == self.entries().len(),
    {
        self.items.len()
    }

    /// The entry at position `i`.
    pub fn entry_at(&self, i: usize) -> (e: (u32, OwnerUsage))
        requires
            i < self.entries().len(),
        ensures
            e == self.entries()[i as int],
    {
        self.items[i]
    }

    /// Look up the counters recorded for `owner`.
    pub fn get(&self, owner: u32) -> (r: Option<OwnerUsage>)
        requires
            self.wf(),
        ensures
            match r {
                Some(u) => self.as_map().contains_key(owner) && self.as_map()[owner] == u,
                None => !self.as_map().contains_key(owner),
            },
    {
        let n = self.items.len();
        let mut i: usize = 0;
        while i < n
            invariant
                0 <= i <= n,
                n == self.items@.len(),
                self.wf(),
                forall|k: int| 0 <= k < i ==> (#[trigger] self.items@[k]).0 != owner,
            decreases n - i,
        {
            if self.items[i].0 == owner {
                proof {
                    lemma_seq_to_map_get(self.items@, owner, i as int);
                }
                return Some(self.items[i].1);
            }
            i += 1;
        }
        proof {
            lemma_seq_to_map_contains(self.items@, owner);
        }
        None
    }

    /// Record `usage` for `owner`, replacing what was there or appending a
    /// new entry for an owner not seen before.
    pub fn set(&mut self, owner: u32, usage: OwnerUsage)
        requires
            old(self).wf(),
        ensures
            final(self).wf(),
            final(self).as_map() == old(self).as_map().insert(owner, usage),
    {
        let n = self.items.len();
        let mut i: usize = 0;
        while i < n
            invariant
                0 <= i <= n,
                n == self.items@.len(),
                self.wf(),
                self == old(self),
                forall|k: int| 0 <= k < i ==> (#[trigger] self.items@[k]).0 != owner,
            decreases n - i,
        {
            if self.items[i].0 == owner {
                proof {
                    lemma_seq_to_map_update(self.items@, i as int, usage);
                }
                self.items[i] = (owner, usage);
                proof {
                    assert(final(self).items@ == old(self).items@.update(
                        i as int,
                        (owner, usage),
                    ));
                    assert(unique_keys(final(self).items@));
                }
                return ;
            }
            i += 1;
        }
        self.items.push((owner, usage));
        proof {
            assert(final(self).items@.drop_last() =~= old(self).items@);
            assert(final(self).items@.last() == (owner, usage));
            assert(unique_keys(final(self).items@));
        }
    }
}

/// The counter-wise sum of two counter pairs.
pub open spec fn combine_usage(x: OwnerUsage, y: OwnerUsage) -> OwnerUsage
    recommends
        x.spec_video_plays() + y.spec_video_plays() <= u32::MAX,
        x.spec_ad_impressions() + y.spec_ad_impressions() <= u32::MAX,
{
    OwnerUsage::make(
        (x.spec_video_plays() + y.spec_video_plays()) as u32,
        (x.spec_ad_impressions() + y.spec_ad_impressions()) as u32,
    )
}

/// Whether the counter-wise sums of every owner shared by `a` and `b` fit in
/// 32 bits.
pub open spec fn can_merge(a: Map<u32, OwnerUsage>, b: Map<u32, OwnerUsage>) -> bool {
    forall|k: u32|
        #![trigger a.contains_key(k), b.contains_key(k)]
        a.contains_key(k) && b.contains_key(k) ==> {
            &&& a[k].spec_video_plays() + b[k].spec_video_plays() <= u32::MAX
            &&& a[k].spec_ad_impressions() + b[k].spec_ad_impressions() <= u32::MAX
        }
}

/// The counter-wise union of `a` and `b`: owners of either side, shared
/// owners with their counters added.
pub open spec fn merged_map(a: Map<u32, OwnerUsage>, b: Map<u32, OwnerUsage>) -> Map<
    u32,
    OwnerUsage,
> {
    Map::new(
        |k: u32| a.contains_key(k) || b.contains_key(k),
        |k: u32|
            if a.contains_key(k) && b.contains_key(k) {
                combine_usage(a[k], b[k])
            } else if a.contains_key(k) {
                a[k]
            } else {
                b[k]
            },
    )
}

/// Merging two aggregates: the counter-wise union, or nothing when some
/// shared owner's sum would overflow.
pub open spec fn spec_merge(a: Map<u32, OwnerUsage>, b: Map<u32, OwnerUsage>) -> Option<
    Map<u32, OwnerUsage>,
> {
    if can_merge(a, b) {
        Some(merged_map(a, b))
    } else {
        None
    }
}

/// Merging is commutative: the two orders agree both on whether the merge
/// succeeds and on the merged aggregate.
pub proof fn lemma_merge_commutative(a: Map<u32, OwnerUsage>, b: Map<u32, OwnerUsage>)
    ensures
        spec_merge(a, b) == spec_merge(b, a),
{
    assert(can_merge(a, b) <==> can_merge(b, a));
    if can_merge(a, b) {
        assert(merged_map(a, b) =~= merged_map(b, a));
    }
}

/// Merging is associative: folding three aggregates from either end agrees
/// both on whether every step succeeds and on the final aggregate.
pub proof fn lemma_merge_associative(
    a: Map<u32, OwnerUsage>,
    b: Map<u32, OwnerUsage>,
    c: Map<u32, OwnerUsage>,
)
    ensures
        (match spec_merge(a, b) {
            Some(ab) => spec_merge(ab, c),
            None => None,
        }) == (match spec_merge(b, c) {
            Some(bc) => spec_merge(a, bc),
            None => None,
        }),
{
    let ab = merged_map(a, b);
    let bc = merged_map(b, c);
    let left_ok = can_merge(a, b) && can_merge(ab, c);
    let right_ok = can_merge(b, c) && can_merge(a, bc);
    assert(left_ok ==> right_ok) by {
        if left_ok {
            assert forall|k: u32|
                #![trigger b.contains_key(k), c.contains_key(k)]
                b.contains_key(k) && c.contains_key(k) implies {
                &&& b[k].spec_video_plays() + c[k].spec_video_plays() <= u32::MAX
                &&& b[k].spec_ad_impressions() + c[k].spec_ad_impressions() <= u32::MAX
            } by {
                assert(a.contains_key(k) && b.contains_key(k) ==> {
                    &&& a[k].spec_video_plays() + b[k].spec_video_plays() <= u32::MAX
                    &&& a[k].spec_ad_impressions() + b[k].spec_ad_impressions() <= u32::MAX
                });
                assert(ab.contains_key(k) && c.contains_key(k) ==> {
                    &&& ab[k].spec_video_plays() + c[k].spec_video_plays() <= u32::MAX
                    &&& ab[k].spec_ad_impressions() + c[k].spec_ad_impressions() <= u32::MAX
                });
            }
            assert forall|k: u32|
                #![trigger a.contains_key(k), bc.contains_key(k)]
                a.contains_key(k) && bc.contains_key(k) implies {
                &&& a[k].spec_video_plays() + bc[k].spec_video_plays() <= u32::MAX
                &&& a[k].spec_ad_impressions() + bc[k].spec_ad_impressions() <= u32::MAX
            } by {
                assert(a.contains_key(k) && b.contains_key(k) ==> {
                    &&& a[k].spec_video_plays() + b[k].spec_video_plays() <= u32::MAX
                    &&& a[k].spec_ad_impressions() + b[k].spec_ad_impressions() <= u32::MAX
                });
                assert(ab.contains_key(k) && c.contains_key(k) ==> {
                    &&& ab[k].spec_video_plays() + c[k].spec_video_plays() <= u32::MAX
                    &&& ab[k].spec_ad_impressions() + c[k].spec_ad_impressions() <= u32::MAX
                });
            }
        }
    };
    assert(right_ok ==> left_ok) by {
        if right_ok {
            assert forall|k: u32|
                #![trigger a.contains_key(k), b.contains_key(k)]
                a.contains_key(k) && b.contains_key(k) implies {
                &&& a[k].spec_video_plays() + b[k].spec_video_plays() <= u32::MAX
                &&& a[k].spec_ad_impressions() + b[k].spec_ad_impressions() <= u32::MAX
            } by {
                assert(b.contains_key(k) && c.contains_key(k) ==> {
                    &&& b[k].spec_video_plays() + c[k].spec_video_plays() <= u32::MAX
                    &&& b[k].spec_ad_impressions() + c[k].spec_ad_impressions() <= u32::MAX
                });
                assert(a.contains_key(k) && bc.contains_key(k) ==> {
                    &&& a[k].spec_video_plays() + bc[k].spec_video_plays() <= u32::MAX
                    &&& a[k].spec_ad_impressions() + bc[k].spec_ad_impressions() <= u32::MAX
                });
            }
            assert forall|k: u32|
                #![trigger ab.contains_key(k), c.contains_key(k)]
                ab.contains_key(k) && c.contains_key(k) implies {
                &&& ab[k].spec_video_plays() + c[k].spec_video_plays() <= u32::MAX
                &&& ab[k].spec_ad_impressions() + c[k].spec_ad_impressions() <= u32::MAX
            } by {
                assert(b.contains_key(k) && c.contains_key(k) ==> {
                    &&& b[k].spec_video_plays() + c[k].spec_video_plays() <= u32::MAX
                    &&& b[k].spec_ad_impressions() + c[k].spec_ad_impressions() <= u32::MAX
                });
                assert(a.contains_key(k) && bc.contains_key(k) ==> {
                    &&& a[k].spec_video_plays() + bc[k].spec_video_plays() <= u32::MAX
                    &&& a[k].spec_ad_impressions() + bc[k].spec_ad_impressions() <= u32::MAX
                });
            }
        }
    };
    if left_ok && right_ok {
        assert forall|k: u32| #![auto] true implies merged_map(ab, c).dom().contains(k)
            == merged_map(a, bc).dom().contains(k) by {}
        assert(merged_map(ab, c) =~= merged_map(a, bc)) by {
            assert forall|k: u32|
                #![trigger merged_map(ab, c).contains_key(k)]
                merged_map(ab, c).contains_key(k) implies merged_map(ab, c)[k] == merged_map(
                a,
                bc,
            )[k] by {
                assert(a.contains_key(k) && b.contains_key(k) ==> {
                    &&& a[k].spec_video_plays() + b[k].spec_video_plays() <= u32::MAX
                    &&& a[k].spec_ad_impressions() + b[k].spec_ad_impressions() <= u32::MAX
                });
                assert(b.contains_key(k) && c.contains_key(k) ==> {
                    &&& b[k].spec_video_plays() + c[k].spec_video_plays() <= u32::MAX
                    &&& b[k].spec_ad_impressions() + c[k].spec_ad_impressions() <= u32::MAX
                });
                assert(ab.contains_key(k) && c.contains_key(k) ==> {
                    &&& ab[k].spec_video_plays() + c[k].spec_video_plays() <= u32::MAX
                    &&& ab[k].spec_ad_impressions() + c[k].spec_ad_impressions() <= u32::MAX
                });
                assert(a.contains_key(k) && bc.contains_key(k) ==> {
                    &&& a[k].spec_video_plays() + bc[k].spec_video_plays() <= u32::MAX
                    &&& a[k].spec_ad_impressions() + bc[k].spec_ad_impressions() <= u32::MAX
                });
            }
        }
    }
}

impl Aggregate {
    /// The merge of this aggregate with `other`: counters of shared owners
    /// are added with the overflow check; `None` exactly when some shared
    /// owner's sum does not fit.  Neither input is changed.
    pub fn merged(&self, other: &Aggregate) -> (r: Option<Aggregate>)
        requires
            self.wf(),
            other.wf(),
        ensures
            match r {
                Some(m) => {
                    &&& m.wf()
                    &&& can_merge(self.as_map(), other.as_map())
                    &&& m.as_map() == merged_map(self.as_map(), other.as_map())
                },
                None => !can_merge(self.as_map(), other.as_map()),
            },
    {
        let ghost a = self.as_map();
        let mut out = Aggregate::new();
        let n = self.len();
        let mut i: usize = 0;
        while i < n
            invariant
                0 <= i <= n,
                n == self.entries().len(),
                self.wf(),
                out.wf(),
                out.as_map() == seq_to_map(self.entries().take(i as int)),
            decreases n - i,
        {
            let e = self.entry_at(i);
            out.set(e.0, e.1);
            proof {
                assert(self.entries().take(i + 1).drop_last() =~= self.entries().take(i as int));
                assert(self.entries().take(i + 1).last() == self.entries()[i as int]);
            }
            i += 1;
        }
        proof {
            assert(self.entries().take(n as int) =~= self.entries());
            assert(out.as_map() == a);
            assert(merged_map(a, seq_to_map(Seq::<(u32, OwnerUsage)>::empty())) =~= a);
            assert(Seq::<(u32, OwnerUsage)>::empty() =~= other.entries().take(0));
        }
        let m = other.len();
        let mut j: usize = 0;
        while j < m
            invariant
                0 <= j <= m,
                m == other.entries().len(),
                self.wf(),
                other.wf(),
                out.wf(),
                a == self.as_map(),
                can_merge(a, seq_to_map(other.entries().take(j as int))),
                out.as_map() == merged_map(a, seq_to_map(other.entries().take(j as int))),
            decreases m - j,
        {
            let ghost prefix = seq_to_map(other.entries().take(j as int));
            let e = other.entry_at(j);
            let k = e.0;
            let u = e.1;
            proof {
                assert(other.entries().take(j + 1).drop_last() =~= other.entries().take(j as int));
                assert(other.entries().take(j + 1).last() == other.entries()[j as int]);
                assert forall|idx: int| 0 <= idx < j implies (#[trigger] other.entries().take(
                    j as int,
                )[idx]).0 != k by {
                    assert(other.entries()[idx].0 != other.entries()[j as int].0);
                }
                lemma_seq_to_map_contains(other.entries().take(j as int), k);
                assert(!prefix.contains_key(k));
                lemma_seq_to_map_get(other.entries(), k, j as int);
                assert(other.as_map()[k] == u);
            }
            let cur = out.get(k);
            let mut acc = match cur {
                Some(c) => c,
                None => OwnerUsage::default(),
            };
            let ghost acc0 = acc;
            proof {
                if a.contains_key(k) {
                    assert(cur == Some(a[k]));
                } else {
                    assert(cur is None);
                }
            }
            if acc.add_video_plays(u.get_video_plays()).is_none() {
                proof {
                    assert(a.contains_key(k));
                    assert(a[k].spec_video_plays() + u.spec_video_plays() > u32::MAX);
                    assert(other.as_map().contains_key(k));
                    assert(!can_merge(a, other.as_map()));
                }
                return None;
            }
            if acc.add_ad_impressions(u.get_ad_impressions()).is_none() {
                proof {
                    assert(a.contains_key(k));
                    assert(a[k].spec_ad_impressions() + u.spec_ad_impressions() > u32::MAX);
                    assert(other.as_map().contains_key(k));
                    assert(!can_merge(a, other.as_map()));
                }
                return None;
            }
            proof {
                if a.contains_key(k) {
                    lemma_owner_usage_eq(acc, combine_usage(a[k], u));
                } else {
                    lemma_owner_usage_eq(acc, u);
                }
            }
            out.set(k, acc);
            proof {
                let next = seq_to_map(other.entries().take(j + 1));
                assert(next == prefix.insert(k, u));
                assert(can_merge(a, next)) by {
                    assert forall|k2: u32|
                        #![trigger a.contains_key(k2), next.contains_key(k2)]
                        a.contains_key(k2) && next.contains_key(k2) implies {
                        &&& a[k2].spec_video_plays() + next[k2].spec_video_plays() <= u32::MAX
                        &&& a[k2].spec_ad_impressions() + next[k2].spec_ad_impressions()
                            <= u32::MAX
                    } by {
                        if k2 != k {
                            assert(prefix.contains_key(k2) && next[k2] == prefix[k2]);
                            assert(a.contains_key(k2) && prefix.contains_key(k2) ==> {
                                &&& a[k2].spec_video_plays() + prefix[k2].spec_video_plays()
                                    <= u32::MAX
                                &&& a[k2].spec_ad_impressions() + prefix[k2].spec_ad_impressions()
                                    <= u32::MAX
                            });
                        }
                    }
                };
                assert(out.as_map() =~= merged_map(a, next)) by {
                    assert forall|k2: u32|
                        #![trigger merged_map(a, next).contains_key(k2)]
                        true implies (merged_map(a, prefix).insert(k, acc).contains_key(k2)
                        <==> merged_map(a, next).contains_key(k2)) && (merged_map(
                        a,
                        next,
                    ).contains_key(k2) ==> merged_map(a, prefix).insert(k, acc)[k2] == merged_map(
                        a,
                        next,
                    )[k2]) by {
                        if k2 != k {
                            assert(next.contains_key(k2) <==> prefix.contains_key(k2));
                            if next.contains_key(k2) {
                                assert(next[k2] == prefix[k2]);
                            }
                        }
                    }
                };
            }
            j += 1;
        }
        proof {
            assert(other.entries().take(m as int) =~= other.entries());
        }
        Some(out)
    }
}

} // verus!
