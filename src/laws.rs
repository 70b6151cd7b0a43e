//! Properties of discovery and merging, stated over the scan model.
use vstd::prelude::*;
use crate::tree::{DirNode, ManifestSource, dir_usage};
use crate::package::{MetadataError, manifest_fields, package_of};
use crate::discover::{
    ScanView, ScanFailureView, EntryKind, discovered, entries_scan, entry_scan, inner_scan,
    candidate_scan, empty_scan, join, entry_kind, first_named, is_scope_name,
};
use crate::aggregate::{distinct_names};
use crate::package::PackageView;

verus! {

proof fn lemma_first_named_none(s: Seq<DirNode>, name: Seq<char>)
    requires
        forall|i: int| 0 <= i < s.len() ==> #[trigger] s[i].name@ != name,
    ensures
        first_named(s, name) == -1,
    decreases s.len(),
{
    if s.len() > 0 {
        lemma_first_named_none(s.drop_last(), name);
    }
}

/// A directory with no subdirectory named `node_modules` holds no packages.
pub proof fn lemma_no_node_modules_finds_nothing(d: DirNode)
    requires
        forall|i: int| 0 <= i < d.children@.len() ==> #[trigger] d.children@[i].name@ != "node_modules"@,
    ensures
        discovered(d) == empty_scan(),
{
    lemma_first_named_none(d.children@, "node_modules"@);
}

/// Below an entry whose name is no scope, no subdirectory is a candidate.
pub proof fn lemma_inner_of_plain_entry(first: Seq<char>, s: Seq<DirNode>)
    requires
        !is_scope_name(first),
    ensures
        inner_scan(first, s) == empty_scan(),
    decreases s.len(),
{
    if s.len() > 0 {
        lemma_inner_of_plain_entry(first, s.drop_last());
        assert(seq![first, s.last().name@][0] == first);
        assert(join(empty_scan(), empty_scan()) =~= empty_scan());
    }
}

/// The entries of `node_modules` are scanned one after another.
pub proof fn lemma_entries_scan_append(a: Seq<DirNode>, b: Seq<DirNode>)
    ensures
        entries_scan(a + b) == join(entries_scan(a), entries_scan(b)),
    decreases b.len(),
{
    if b.len() == 0 {
        assert(a + b =~= a);
        assert(join(entries_scan(a), empty_scan()) =~= entries_scan(a));
    } else {
        assert((a + b).drop_last() =~= a + b.drop_last());
        assert((a + b).last() == b.last());
        lemma_entries_scan_append(a, b.drop_last());
        let x = entries_scan(a);
        let y = entries_scan(b.drop_last());
        let z = entry_scan(b.last());
        assert(join(join(x, y), z) =~= join(x, join(y, z)));
    }
}

/// A `.bin` directory directly under `node_modules` yields nothing, whatever
/// it holds: the scan of the entries is the same with it as without it.
pub proof fn lemma_bin_dir_ignored(before: Seq<DirNode>, bin: DirNode, after: Seq<DirNode>)
    requires
        bin.name@ == ".bin"@,
    ensures
        entry_scan(bin) == empty_scan(),
        entries_scan(before + seq![bin] + after) == entries_scan(before + after),
{
    reveal_strlit(".bin");
    assert(entry_kind(seq![bin.name@]) == EntryKind::BinDir);
    lemma_inner_of_plain_entry(bin.name@, bin.children@);
    assert(join(empty_scan(), empty_scan()) =~= empty_scan());
    lemma_entries_scan_append(before + seq![bin], after);
    lemma_entries_scan_append(before, seq![bin]);
    lemma_entries_scan_append(before, after);
    assert(seq![bin].drop_last() =~= Seq::<DirNode>::empty());
    assert(entries_scan(seq![bin]) == join(entries_scan(Seq::<DirNode>::empty()), entry_scan(bin)));
    assert(join(entries_scan(before), empty_scan()) =~= entries_scan(before));
}

/// A package whose manifest names it `n` at version `v` yields first the
/// record `(n, v)` at its own path, sized by every regular file beneath it.
pub proof fn lemma_candidate_record(c: DirNode, n: String, v: String)
    requires
        c.manifest == (ManifestSource::Parsed { name: Some(n), version: Some(v) }),
        n@.len() > 0,
        v@.len() > 0,
        dir_usage(c) <= u64::MAX,
    ensures
        candidate_scan(c).packages.len() >= 1,
        candidate_scan(c).packages[0] == (PackageView {
            name: n@,
            version: v@,
            path: c.path@,
            disk_usage: dir_usage(c),
        }),
{
}

/// A scope `@scope` holding one package, which holds no `node_modules`,
/// yields exactly one record: the name its manifest declares and its own path.
pub proof fn lemma_scoped_package(scope: DirNode, pkg: DirNode)
    requires
        is_scope_name(scope.name@),
        scope.children@ == seq![pkg],
        manifest_fields(pkg.manifest) is Ok,
        forall|i: int| 0 <= i < pkg.children@.len() ==> #[trigger] pkg.children@[i].name@ != "node_modules"@,
    ensures
        entry_scan(scope).packages.len() == 1,
        entry_scan(scope).packages[0].name == manifest_fields(pkg.manifest)->Ok_0.0,
        entry_scan(scope).packages[0].path == pkg.path@,
        entry_scan(scope).failures.len() == 0,
{
    lemma_no_node_modules_finds_nothing(pkg);
    let names = seq![scope.name@, pkg.name@];
    assert(names[0] == scope.name@);
    assert(entry_kind(names) == EntryKind::ScopedCandidate);
    assert(entry_kind(seq![scope.name@]) == EntryKind::ScopeGroup);
    let s = scope.children@;
    assert(s.drop_last() =~= Seq::<DirNode>::empty());
    assert(inner_scan(scope.name@, s) == join(inner_scan(scope.name@, s.drop_last()), candidate_scan(pkg)));
}

/// A package whose `node_modules` holds one more package, itself without a
/// `node_modules`, yields two records: the outer one, then the inner one,
/// each sized by the files beneath its own directory.
pub proof fn lemma_nested_package(outer: DirNode, k: int, inner: DirNode)
    requires
        entry_kind(seq![outer.name@]) == EntryKind::TopLevelCandidate,
        entry_kind(seq![inner.name@]) == EntryKind::TopLevelCandidate,
        package_of(outer) is Ok,
        package_of(inner) is Ok,
        first_named(outer.children@, "node_modules"@) == k,
        0 <= k < outer.children@.len(),
        outer.children@[k].children@ == seq![inner],
        forall|i: int| 0 <= i < inner.children@.len() ==> #[trigger] inner.children@[i].name@ != "node_modules"@,
    ensures
        entry_scan(outer).packages == seq![package_of(outer)->Ok_0, package_of(inner)->Ok_0],
        entry_scan(outer).packages[0].path == outer.path@,
        entry_scan(outer).packages[1].path == inner.path@,
        entry_scan(outer).packages[0].disk_usage == crate::tree::clamp_u64(dir_usage(outer)),
        entry_scan(outer).packages[1].disk_usage == crate::tree::clamp_u64(dir_usage(inner)),
{
    assert(seq![outer.name@][0] == outer.name@);
    assert(seq![inner.name@][0] == inner.name@);
    lemma_no_node_modules_finds_nothing(inner);
    lemma_inner_of_plain_entry(outer.name@, outer.children@);
    lemma_inner_of_plain_entry(inner.name@, inner.children@);
    let s = seq![inner];
    assert(s.drop_last() =~= Seq::<DirNode>::empty());
    assert(entries_scan(s) == join(entries_scan(s.drop_last()), entry_scan(inner)));
    assert(discovered(outer) == entries_scan(s));
    assert(entry_scan(outer).packages =~= seq![package_of(outer)->Ok_0, package_of(inner)->Ok_0]);
}

/// A candidate whose manifest lacks `version` is left out: the records found
/// before it stay as they were, and one failure is added.
pub proof fn lemma_missing_version_excluded(before: Seq<DirNode>, c: DirNode, n: Option<String>)
    requires
        entry_kind(seq![c.name@]) == EntryKind::TopLevelCandidate,
        c.manifest == (ManifestSource::Parsed { name: n, version: None }),
    ensures
        entries_scan(before.push(c)).packages == entries_scan(before).packages,
        entries_scan(before.push(c)).failures == entries_scan(before).failures.push(
            ScanFailureView { path: c.path@, error: MetadataError::ParseError },
        ),
{
    assert(seq![c.name@][0] == c.name@);
    lemma_inner_of_plain_entry(c.name@, c.children@);
    assert(before.push(c).drop_last() =~= before);
    assert(before.push(c).last() == c);
    assert(package_of(c) == Err::<PackageView, MetadataError>(MetadataError::ParseError));
    let f = ScanFailureView { path: c.path@, error: MetadataError::ParseError };
    assert(candidate_scan(c) == (ScanView { packages: Seq::empty(), failures: seq![f] }));
    assert(entry_scan(c) == join(candidate_scan(c), inner_scan(c.name@, c.children@)));
    assert(entries_scan(before.push(c)) == join(entries_scan(before), entry_scan(c)));
    assert(entries_scan(before.push(c)).packages =~= entries_scan(before).packages);
    assert(entries_scan(before.push(c)).failures =~= entries_scan(before).failures.push(
        ScanFailureView { path: c.path@, error: MetadataError::ParseError },
    ));
}

/// Merging yields one group per name: no name twice, and exactly the names
/// that some record carries.
pub proof fn lemma_one_group_per_name(ps: Seq<PackageView>)
    ensures
        distinct_names(ps).no_duplicates(),
        forall|n: Seq<char>| distinct_names(ps).contains(n) <==> exists|i: int| 0 <= i < ps.len() && #[trigger] ps[i].name == n,
    decreases ps.len(),
{
    if ps.len() > 0 {
        let pre = ps.drop_last();
        lemma_one_group_per_name(pre);
        let last = ps.last().name;
        assert forall|n: Seq<char>| distinct_names(ps).contains(n) implies exists|i: int| 0 <= i < ps.len() && #[trigger] ps[i].name == n by {
            if distinct_names(pre).contains(n) {
                let i = choose|i: int| 0 <= i < pre.len() && #[trigger] pre[i].name == n;
                assert(ps[i].name == n);
            } else {
                assert(distinct_names(ps) == distinct_names(pre).push(last));
                assert(n == last);
                assert(ps[ps.len() - 1].name == n);
            }
        }
        assert forall|n: Seq<char>| (exists|i: int| 0 <= i < ps.len() && #[trigger] ps[i].name == n) implies distinct_names(ps).contains(n) by {
            let i = choose|i: int| 0 <= i < ps.len() && #[trigger] ps[i].name == n;
            if i < ps.len() - 1 {
                assert(pre[i].name == n);
                assert(distinct_names(pre).contains(n));
                if !distinct_names(pre).contains(last) {
                    assert(distinct_names(ps)[distinct_names(pre).index_of(n)] == n);
                }
            } else {
                if !distinct_names(pre).contains(last) {
                    assert(distinct_names(ps)[distinct_names(pre).len() as int] == n);
                }
            }
        }
    }
}

} // verus!
