//! Merging the installs of one package name into a single record.
use vstd::prelude::*;
use crate::tree::{clamp_u64, add_clamped};
use crate::package::{Package, PackageView};
use crate::discover::package_views;

verus! {

/// Every install of one package name: versions and paths in discovery order,
/// and their summed disk usage.
pub struct PackageWithAllVersions {
    pub name: String,
    pub versions: Vec<String>,
    pub paths: Vec<String>,
    pub disk_usage: u64,
}

pub struct AggregatedView {
    pub name: Seq<char>,
    pub versions: Seq<Seq<char>>,
    pub paths: Seq<Seq<char>>,
    pub disk_usage: int,
}

pub open spec fn strs(v: Seq<String>) -> Seq<Seq<char>> {
    v.map_values(|s: String| s@)
}

impl View for PackageWithAllVersions {
    type V = AggregatedView;

    open spec fn view(&self) -> AggregatedView {
        AggregatedView {
            name: self.name@,
            versions: strs(self.versions@),
            paths: strs(self.paths@),
            disk_usage: self.disk_usage as int,
        }
    }
}

/// The names of `ps`, each once, in the order of first appearance.
pub open spec fn distinct_names(ps: Seq<PackageView>) -> Seq<Seq<char>>
    decreases ps.len(),
{
    if ps.len() == 0 {
        Seq::empty()
    } else {
        let r = distinct_names(ps.drop_last());
        if r.contains(ps.last().name) {
            r
        } else {
            r.push(ps.last().name)
        }
    }
}

/// The versions of the records of `ps` named `name`, in order.
pub open spec fn versions_of(ps: Seq<PackageView>, name: Seq<char>) -> Seq<Seq<char>>
    decreases ps.len(),
{
    if ps.len() == 0 {
        Seq::empty()
    } else if ps.last().name == name {
        versions_of(ps.drop_last(), name).push(ps.last().version)
    } else {
        versions_of(ps.drop_last(), name)
    }
}

/// The paths of the records of `ps` named `name`, in order.
pub open spec fn paths_of(ps: Seq<PackageView>, name: Seq<char>) -> Seq<Seq<char>>
    decreases ps.len(),
{
    if ps.len() == 0 {
        Seq::empty()
    } else if ps.last().name == name {
        paths_of(ps.drop_last(), name).push(ps.last().path)
    } else {
        paths_of(ps.drop_last(), name)
    }
}

/// The summed disk usage of the records of `ps` named `name`.
pub open spec fn usage_of(ps: Seq<PackageView>, name: Seq<char>) -> int
    decreases ps.len(),
{
    if ps.len() == 0 {
        0
    } else if ps.last().name == name {
        usage_of(ps.drop_last(), name) + ps.last().disk_usage
    } else {
        usage_of(ps.drop_last(), name)
    }
}

/// The merged record of the name `name` over `ps`.
pub open spec fn merged(ps: Seq<PackageView>, name: Seq<char>) -> AggregatedView {
    AggregatedView {
        name: name,
        versions: versions_of(ps, name),
        paths: paths_of(ps, name),
        disk_usage: clamp_u64(usage_of(ps, name)),
    }
}

/// Where `name` stands in `names`.
fn position_of(names: &Vec<String>, name: &String) -> (r: Option<usize>)
    ensures
        match r {
            Some(j) => j < names@.len() && names@[j as int]@ == name@,
            None => !strs(names@).contains(name@),
        },
{
    let mut j: usize = 0;
    while j < names.len()
        invariant
            j <= names@.len(),
            forall|k: int| 0 <= k < j ==> names@[k]@ != name@,
        decreases names@.len() - j,
    {
        if names[j] == *name {
            return Some(j);
        }
        j = j + 1;
    }
    proof {
        if strs(names@).contains(name@) {
            let k = choose|k: int| 0 <= k < strs(names@).len() && strs(names@)[k] == name@;
            assert(names@[k]@ == name@);
        }
    }
    None
}

/// Gathers the installs named `name` in `packages`.
fn merge_one(packages: &[Package], name: &String) -> (r: PackageWithAllVersions)
    ensures
        r@ == merged(package_views(packages@), name@),
{
    let ghost ps = package_views(packages@);
    let mut versions: Vec<String> = Vec::new();
    let mut paths: Vec<String> = Vec::new();
    let mut disk_usage: u64 = 0;
    let mut i: usize = 0;
    while i < packages.len()
        invariant
            i <= packages@.len(),
            ps == package_views(packages@),
            strs(versions@) == versions_of(ps.subrange(0, i as int), name@),
            strs(paths@) == paths_of(ps.subrange(0, i as int), name@),
            disk_usage == clamp_u64(usage_of(ps.subrange(0, i as int), name@)),
        decreases packages@.len() - i,
    {
        let p = &packages[i];
        let ghost pre = ps.subrange(0, i as int);
        assert(ps.subrange(0, i + 1).drop_last() =~= pre);
        assert(ps.subrange(0, i + 1).last() == p@);
        if p.name == *name {
            let ghost v0 = versions@;
            let ghost q0 = paths@;
            versions.push(p.version.clone());
            paths.push(p.path.clone());
            assert(strs(versions@) =~= strs(v0).push(p.version@));
            assert(strs(paths@) =~= strs(q0).push(p.path@));
            disk_usage = add_clamped(disk_usage, p.disk_usage);
        }
        i = i + 1;
    }
    assert(ps.subrange(0, i as int) =~= ps);
    PackageWithAllVersions { name: name.clone(), versions, paths, disk_usage }
}

/// Merges the records of `packages` that share a name: one record per
/// distinct name, in the order the names first appear.
pub fn collect_versions(packages: &[Package]) -> (r: Vec<PackageWithAllVersions>)
    ensures
        r@.len() == distinct_names(package_views(packages@)).len(),
        forall|k: int|
            0 <= k < r@.len() ==> #[trigger] r@[k]@ == merged(
                package_views(packages@),
                distinct_names(package_views(packages@))[k],
            ),
{
    let ghost ps = package_views(packages@);
    let mut names: Vec<String> = Vec::new();
    let mut i: usize = 0;
    while i < packages.len()
        invariant
            i <= packages@.len(),
            ps == package_views(packages@),
            strs(names@) == distinct_names(ps.subrange(0, i as int)),
        decreases packages@.len() - i,
    {
        let p = &packages[i];
        assert(ps.subrange(0, i + 1).drop_last() =~= ps.subrange(0, i as int));
        assert(ps.subrange(0, i + 1).last() == p@);
        match position_of(&names, &p.name) {
            Some(j) => {
                assert(strs(names@)[j as int] == p.name@);
            },
            None => {
                let ghost n0 = names@;
                names.push(p.name.clone());
                assert(strs(names@) =~= strs(n0).push(p.name@));
            },
        }
        i = i + 1;
    }
    assert(ps.subrange(0, i as int) =~= ps);
    let mut result: Vec<PackageWithAllVersions> = Vec::new();
    let mut k: usize = 0;
    while k < names.len()
        invariant
            k <= names@.len(),
            ps == package_views(packages@),
            strs(names@) == distinct_names(ps),
            result@.len() == k,
            forall|m: int| 0 <= m < k ==> #[trigger] result@[m]@ == merged(ps, distinct_names(ps)[m]),
        decreases names@.len() - k,
    {
        assert(strs(names@)[k as int] == names@[k as int]@);
        let group = merge_one(packages, &names[k]);
        result.push(group);
        k = k + 1;
    }
    result
}

} // verus!
