//! Ordering records for the report, and the size totals it prints.
use vstd::prelude::*;
use crate::tree::{clamp_u64, add_clamped};
use crate::package::{Package, PackageView};
use crate::aggregate::{PackageWithAllVersions, AggregatedView};
use crate::discover::package_views;

verus! {

broadcast use vstd::seq_lib::group_to_multiset_ensures;

/// The key a report is sorted by.
#[derive(PartialEq, Eq, Structural, Clone, Copy, Debug)]
pub enum SortOrder {
    /// Total disk usage.
    Size,
    /// Number of versions installed.
    Versions,
}

/// A record that can be ranked under a sort order.
pub trait Ranked: Sized {
    spec fn rank_spec(&self, order: SortOrder) -> int;

    fn rank(&self, order: SortOrder) -> (r: u128)
        ensures
            r as int == self.rank_spec(order),
    ;
}

impl Ranked for Package {
    /// A single install carries one version.
    open spec fn rank_spec(&self, order: SortOrder) -> int {
        match order {
            SortOrder::Size => self.disk_usage as int,
            SortOrder::Versions => 1,
        }
    }

    fn rank(&self, order: SortOrder) -> (r: u128) {
        match order {
            SortOrder::Size => self.disk_usage as u128,
            SortOrder::Versions => 1,
        }
    }
}

impl Ranked for PackageWithAllVersions {
    open spec fn rank_spec(&self, order: SortOrder) -> int {
        match order {
            SortOrder::Size => self.disk_usage as int,
            SortOrder::Versions => self.versions@.len() as int,
        }
    }

    fn rank(&self, order: SortOrder) -> (r: u128) {
        match order {
            SortOrder::Size => self.disk_usage as u128,
            SortOrder::Versions => self.versions.len() as u128,
        }
    }
}

/// `s` runs from the highest rank to the lowest.
pub open spec fn ranked_descending<T: Ranked>(s: Seq<T>, order: SortOrder) -> bool {
    forall|a: int, b: int|
        0 <= a < b < s.len() ==> #[trigger] s[a].rank_spec(order) >= #[trigger] s[b].rank_spec(order)
}

/// `s` holds, at each position `i`, the item that stood at `origin[i]` in
/// `orig`, and items of equal rank keep their relative order.
pub open spec fn stable_from<T: Ranked>(s: Seq<T>, orig: Seq<T>, origin: Seq<int>, order: SortOrder) -> bool {
    &&& origin.len() == s.len()
    &&& forall|i: int| 0 <= i < s.len() ==> 0 <= #[trigger] origin[i] < orig.len() && s[i] == orig[origin[i]]
    &&& forall|a: int, b: int|
        0 <= a < b < s.len() && #[trigger] s[a].rank_spec(order) == #[trigger] s[b].rank_spec(order)
            ==> origin[a] < origin[b]
}

/// Sorts `items` from the highest rank under `order` to the lowest; items of
/// equal rank keep their order.
pub fn sort_by_rank<T: Ranked>(items: &mut Vec<T>, order: SortOrder)
    ensures
        final(items)@.to_multiset() == old(items)@.to_multiset(),
        ranked_descending(final(items)@, order),
        exists|origin: Seq<int>| stable_from(final(items)@, old(items)@, origin, order),
{
    let ghost orig = items@;
    let ghost all = items@.to_multiset();
    let ghost mut origin: Seq<int> = Seq::empty();
    let mut sorted: Vec<T> = Vec::new();
    while items.len() > 0
        invariant
            items@.to_multiset().add(sorted@.to_multiset()) == all,
            ranked_descending(sorted@, order),
            items@ == orig.subrange(0, items@.len() as int),
            items@.len() <= orig.len(),
            stable_from(sorted@, orig, origin, order),
            forall|i: int| 0 <= i < origin.len() ==> #[trigger] origin[i] >= items@.len(),
        decreases items@.len(),
    {
        let ghost before = items@;
        let x = items.pop().unwrap();
        assert(before == items@.push(x));
        let ghost r = items@.len() as int;
        assert(x == orig[r]);
        assert(items@ =~= orig.subrange(0, r));
        let key = x.rank(order);
        let mut j: usize = 0;
        while j < sorted.len() && sorted[j].rank(order) > key
            invariant
                j <= sorted@.len(),
                forall|m: int| 0 <= m < j ==> #[trigger] sorted@[m].rank_spec(order) > key,
            decreases sorted@.len() - j,
        {
            j = j + 1;
        }
        let ghost s0 = sorted@;
        let ghost o0 = origin;
        sorted.insert(j, x);
        proof { origin = o0.insert(j as int, r); }
        assert(sorted@ == s0.insert(j as int, x));
        assert forall|a: int, b: int| 0 <= a < b < sorted@.len() implies
            #[trigger] sorted@[a].rank_spec(order) >= #[trigger] sorted@[b].rank_spec(order) by {
            if j < s0.len() {
                assert(s0[j as int].rank_spec(order) <= key);
            }
            if a < j && b > j {
                assert(s0[a].rank_spec(order) >= s0[b - 1].rank_spec(order));
            }
            if a == j && b > j {
                assert(s0[j as int].rank_spec(order) >= s0[b - 1].rank_spec(order));
            }
        }
        assert forall|i: int| 0 <= i < sorted@.len() implies
            0 <= #[trigger] origin[i] < orig.len() && sorted@[i] == orig[origin[i]] by {
            if i > j {
                assert(origin[i] == o0[i - 1]);
            }
        }
        assert forall|a: int, b: int|
            0 <= a < b < sorted@.len() && #[trigger] sorted@[a].rank_spec(order) == #[trigger] sorted@[b].rank_spec(order)
            implies origin[a] < origin[b] by {
            if a < j && b > j {
                assert(o0[a] < o0[b - 1]);
            }
            if b == j {
                assert(s0[a].rank_spec(order) > key);
            }
            if a == j {
                assert(origin[b] == o0[b - 1]);
            }
        }
        assert forall|i: int| 0 <= i < origin.len() implies #[trigger] origin[i] >= items@.len() by {
            if i > j {
                assert(origin[i] == o0[i - 1]);
            } else if i < j {
                assert(origin[i] == o0[i]);
            }
        }
    }
    assert(items@ == Seq::<T>::empty());
    items.append(&mut sorted);
    assert(stable_from(items@, orig, origin, order));
}

/// Sum of the disk usage of `ps`.
pub open spec fn usage_total(ps: Seq<PackageView>) -> int
    decreases ps.len(),
{
    if ps.len() == 0 {
        0
    } else {
        usage_total(ps.drop_last()) + ps.last().disk_usage
    }
}

/// Sum of the disk usage of `gs`.
pub open spec fn merged_total(gs: Seq<AggregatedView>) -> int
    decreases gs.len(),
{
    if gs.len() == 0 {
        0
    } else {
        merged_total(gs.drop_last()) + gs.last().disk_usage
    }
}

/// The disk usage of all `packages` together; `u64::MAX` past that.
pub fn total_disk_usage(packages: &[Package]) -> (r: u64)
    ensures
        r == clamp_u64(usage_total(package_views(packages@))),
{
    let ghost ps = package_views(packages@);
    let mut total: u64 = 0;
    let mut i: usize = 0;
    while i < packages.len()
        invariant
            i <= packages@.len(),
            ps == package_views(packages@),
            total == clamp_u64(usage_total(ps.subrange(0, i as int))),
        decreases packages@.len() - i,
    {
        assert(ps.subrange(0, i + 1).drop_last() =~= ps.subrange(0, i as int));
        total = add_clamped(total, packages[i].disk_usage);
        i = i + 1;
    }
    assert(ps.subrange(0, i as int) =~= ps);
    total
}

/// The disk usage of all `groups` together; `u64::MAX` past that.
pub fn merged_disk_usage(groups: &[PackageWithAllVersions]) -> (r: u64)
    ensures
        r == clamp_u64(merged_total(groups@.map_values(|g: PackageWithAllVersions| g@))),
{
    let ghost gs = groups@.map_values(|g: PackageWithAllVersions| g@);
    let mut total: u64 = 0;
    let mut i: usize = 0;
    while i < groups.len()
        invariant
            i <= groups@.len(),
            gs == groups@.map_values(|g: PackageWithAllVersions| g@),
            total == clamp_u64(merged_total(gs.subrange(0, i as int))),
        decreases groups@.len() - i,
    {
        assert(gs.subrange(0, i + 1).drop_last() =~= gs.subrange(0, i as int));
        total = add_clamped(total, groups[i].disk_usage);
        i = i + 1;
    }
    assert(gs.subrange(0, i as int) =~= gs);
    total
}

} // verus!
