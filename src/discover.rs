//! Finding the package roots under a project's `node_modules`, at every depth.
use vstd::prelude::*;
use crate::tree::DirNode;
use crate::package::{Package, PackageView, MetadataError, package_of, get_package_info};

verus! {

/// Where a directory below `node_modules` stands, judged by its path
/// components relative to `node_modules`.
#[derive(PartialEq, Eq, Structural, Clone, Copy, Debug)]
pub enum EntryKind {
    /// `@scope`: groups scoped packages; not a package itself.
    ScopeGroup,
    /// `.bin`: holds executable links; never a package.
    BinDir,
    /// `name`: a package candidate.
    TopLevelCandidate,
    /// `name/sub`: lies inside a package already found.
    InteriorSkip,
    /// `@scope/name`: a scoped package candidate.
    ScopedCandidate,
}

/// A candidate directory that did not read as a package.
pub struct ScanFailure {
    pub path: String,
    pub error: MetadataError,
}

pub struct ScanFailureView {
    pub path: Seq<char>,
    pub error: MetadataError,
}

impl View for ScanFailure {
    type V = ScanFailureView;

    open spec fn view(&self) -> ScanFailureView {
        ScanFailureView { path: self.path@, error: self.error }
    }
}

/// What a scan yields: the packages found and the candidates rejected, each
/// in discovery order.
#[verifier::ext_equal]
pub struct ScanView {
    pub packages: Seq<PackageView>,
    pub failures: Seq<ScanFailureView>,
}

pub open spec fn empty_scan() -> ScanView {
    ScanView { packages: Seq::empty(), failures: Seq::empty() }
}

/// `a` followed by `b`.
pub open spec fn join(a: ScanView, b: ScanView) -> ScanView {
    ScanView { packages: a.packages + b.packages, failures: a.failures + b.failures }
}

pub open spec fn package_views(s: Seq<Package>) -> Seq<PackageView> {
    s.map_values(|p: Package| p@)
}

pub open spec fn failure_views(s: Seq<ScanFailure>) -> Seq<ScanFailureView> {
    s.map_values(|f: ScanFailure| f@)
}

pub open spec fn is_scope_name(s: Seq<char>) -> bool {
    s.len() > 0 && s[0] == '@'
}

/// The kind of a directory whose path relative to `node_modules` has the
/// components `c` (at least one).
pub open spec fn entry_kind(c: Seq<Seq<char>>) -> EntryKind {
    if c.len() == 1 {
        if is_scope_name(c[0]) {
            EntryKind::ScopeGroup
        } else if c[0] == ".bin"@ {
            EntryKind::BinDir
        } else {
            EntryKind::TopLevelCandidate
        }
    } else if is_scope_name(c[0]) {
        EntryKind::ScopedCandidate
    } else {
        EntryKind::InteriorSkip
    }
}

/// Index of the first directory of `s` named `name`, or -1.
pub open spec fn first_named(s: Seq<DirNode>, name: Seq<char>) -> int
    decreases s.len(),
{
    if s.len() == 0 {
        -1
    } else {
        let r = first_named(s.drop_last(), name);
        if r >= 0 {
            r
        } else if s.last().name@ == name {
            s.len() - 1
        } else {
            -1
        }
    }
}

proof fn lemma_first_named_bounds(s: Seq<DirNode>, name: Seq<char>)
    ensures
        -1 <= first_named(s, name) < s.len(),
    decreases s.len(),
{
    if s.len() > 0 {
        lemma_first_named_bounds(s.drop_last(), name);
    }
}

proof fn lemma_first_named_prefix(s: Seq<DirNode>, m: int, name: Seq<char>)
    requires
        0 <= m <= s.len(),
        first_named(s.subrange(0, m), name) >= 0,
    ensures
        first_named(s, name) == first_named(s.subrange(0, m), name),
    decreases s.len(),
{
    if s.len() > m {
        assert(s.drop_last().subrange(0, m) =~= s.subrange(0, m));
        lemma_first_named_prefix(s.drop_last(), m, name);
    } else {
        assert(s.subrange(0, m) =~= s);
    }
}

/// What a scan of the project (or package) directory `d` finds: nothing
/// without a `node_modules` subdirectory, else what its entries yield.
pub open spec fn discovered(d: DirNode) -> ScanView
    decreases d, 0int,
{
    let k = first_named(d.children@, "node_modules"@);
    if 0 <= k < d.children@.len() {
        entries_scan(d.children@[k].children@)
    } else {
        empty_scan()
    }
}

/// What the entries `s` of a `node_modules` directory yield, in order.
pub open spec fn entries_scan(s: Seq<DirNode>) -> ScanView
    decreases s, 0int,
{
    if s.len() == 0 {
        empty_scan()
    } else {
        join(entries_scan(s.drop_last()), entry_scan(s.last()))
    }
}

/// What one entry `c` of `node_modules` yields: itself where it is a
/// candidate, then those of its subdirectories that are candidates.
pub open spec fn entry_scan(c: DirNode) -> ScanView
    decreases c, 2int,
{
    let here = if entry_kind(seq![c.name@]) == EntryKind::TopLevelCandidate {
        candidate_scan(c)
    } else {
        empty_scan()
    };
    join(here, inner_scan(c.name@, c.children@))
}

/// What the subdirectories `s` of the entry named `first` yield.
pub open spec fn inner_scan(first: Seq<char>, s: Seq<DirNode>) -> ScanView
    decreases s, 0int,
{
    if s.len() == 0 {
        empty_scan()
    } else {
        let here = if entry_kind(seq![first, s.last().name@]) == EntryKind::ScopedCandidate {
            candidate_scan(s.last())
        } else {
            empty_scan()
        };
        join(inner_scan(first, s.drop_last()), here)
    }
}

/// What a candidate directory `c` yields: its record followed by what a scan
/// of `c` itself finds, or one failure.
pub open spec fn candidate_scan(c: DirNode) -> ScanView
    decreases c, 1int,
{
    match package_of(c) {
        Ok(p) => join(
            ScanView { packages: seq![p], failures: Seq::empty() },
            discovered(c),
        ),
        Err(e) => ScanView {
            packages: Seq::empty(),
            failures: seq![ScanFailureView { path: c.path@, error: e }],
        },
    }
}

/// Whether `s` spells `lit`.
fn name_is(s: &String, lit: &str) -> (r: bool)
    ensures
        r == (s@ == lit@),
{
    let t = lit.to_string();
    *s == t
}

/// Whether `s` begins with `@`, the mark of a scope.
fn starts_with_scope_mark(s: &String) -> (r: bool)
    ensures
        r == is_scope_name(s@),
{
    let mut chars = s.as_str().chars();
    match chars.next() {
        Some(c) => c == '@',
        None => false,
    }
}

/// Classifies a directory below `node_modules` by the components of its
/// path relative to `node_modules`.
pub fn classify(components: &[String]) -> (r: EntryKind)
    requires
        components@.len() >= 1,
    ensures
        r == entry_kind(components@.map_values(|c: String| c@)),
{
    let ghost v = components@.map_values(|c: String| c@);
    let scoped = starts_with_scope_mark(&components[0]);
    if components.len() == 1 {
        if scoped {
            EntryKind::ScopeGroup
        } else if name_is(&components[0], ".bin") {
            EntryKind::BinDir
        } else {
            EntryKind::TopLevelCandidate
        }
    } else if scoped {
        EntryKind::ScopedCandidate
    } else {
        EntryKind::InteriorSkip
    }
}

/// Index of the first directory of `dirs` named `name`.
fn find_child(dirs: &Vec<DirNode>, name: &str) -> (r: Option<usize>)
    ensures
        match r {
            Some(i) => i as int == first_named(dirs@, name@),
            None => first_named(dirs@, name@) == -1,
        },
{
    let mut i: usize = 0;
    while i < dirs.len()
        invariant
            i <= dirs@.len(),
            first_named(dirs@.subrange(0, i as int), name@) == -1,
        decreases dirs@.len() - i,
    {
        assert(dirs@.subrange(0, i + 1).drop_last() == dirs@.subrange(0, i as int));
        if name_is(&dirs[i].name, name) {
            proof { lemma_first_named_prefix(dirs@, i + 1, name@); }
            return Some(i);
        }
        i = i + 1;
    }
    assert(dirs@.subrange(0, i as int) == dirs@);
    None
}

proof fn lemma_views_push(s: Seq<Package>, p: Package)
    ensures
        package_views(s.push(p)) == package_views(s).push(p@),
{
    assert(package_views(s.push(p)) =~= package_views(s).push(p@));
}

proof fn lemma_failure_views_push(s: Seq<ScanFailure>, f: ScanFailure)
    ensures
        failure_views(s.push(f)) == failure_views(s).push(f@),
{
    assert(failure_views(s.push(f)) =~= failure_views(s).push(f@));
}

/// Reads the candidate `dir`; where it is a package, records it and then
/// scans it for nested packages, else records the failure.
fn visit_candidate(dir: &DirNode, packages: &mut Vec<Package>, failures: &mut Vec<ScanFailure>)
    ensures
        package_views(final(packages)@) == package_views(old(packages)@) + candidate_scan(*dir).packages,
        failure_views(final(failures)@) == failure_views(old(failures)@) + candidate_scan(*dir).failures,
    decreases *dir, 1int,
{
    match get_package_info(dir) {
        Ok(package) => {
            proof { lemma_views_push(packages@, package); }
            packages.push(package);
            traverse(dir, packages, failures);
            proof {
                let d = discovered(*dir);
                assert(package_views(old(packages)@) + candidate_scan(*dir).packages
                    =~= package_views(old(packages)@).push(package@) + d.packages);
                assert(failure_views(old(failures)@) + d.failures
                    =~= failure_views(old(failures)@) + (Seq::<ScanFailureView>::empty() + d.failures));
            }
        },
        Err(e) => {
            let f = ScanFailure { path: dir.path.clone(), error: e };
            proof { lemma_failure_views_push(failures@, f); }
            failures.push(f);
            assert(package_views(old(packages)@) + candidate_scan(*dir).packages
                =~= package_views(old(packages)@));
        },
    }
}

/// Scans the directory `root` for the packages installed in its
/// `node_modules`, and in theirs, depth first; appends each package found to
/// `packages` and each candidate that failed to read to `failures`.
pub fn traverse(root: &DirNode, packages: &mut Vec<Package>, failures: &mut Vec<ScanFailure>)
    ensures
        package_views(final(packages)@) == package_views(old(packages)@) + discovered(*root).packages,
        failure_views(final(failures)@) == failure_views(old(failures)@) + discovered(*root).failures,
    decreases *root, 0int,
{
    let found = find_child(&root.children, "node_modules");
    let k = match found {
        Some(k) => k,
        None => {
            assert(package_views(old(packages)@) + discovered(*root).packages =~= package_views(old(packages)@));
            assert(failure_views(old(failures)@) + discovered(*root).failures =~= failure_views(old(failures)@));
            return;
        },
    };
    proof { lemma_first_named_bounds(root.children@, "node_modules"@); }
    let node_modules = &root.children[k];
    let ghost entries = node_modules.children@;
    let ghost p0 = package_views(packages@);
    let ghost f0 = failure_views(failures@);
    let mut i: usize = 0;
    while i < node_modules.children.len()
        invariant
            i <= entries.len(),
            entries == node_modules.children@,
            node_modules == root.children@[k as int],
            0 <= k < root.children@.len(),
            package_views(packages@) == p0 + entries_scan(entries.subrange(0, i as int)).packages,
            failure_views(failures@) == f0 + entries_scan(entries.subrange(0, i as int)).failures,
        decreases entries.len() - i,
    {
        let entry = &node_modules.children[i];
        let ghost pb = package_views(packages@);
        let ghost fb = failure_views(failures@);
        let top = vec![entry.name.clone()];
        let kind = classify(top.as_slice());
        assert(top@.map_values(|c: String| c@) =~= seq![entry.name@]);
        if kind == EntryKind::TopLevelCandidate {
            proof { assert(decreases_to!(*root => entry)); }
            visit_candidate(entry, packages, failures);
        }
        let ghost here = if entry_kind(seq![entry.name@]) == EntryKind::TopLevelCandidate {
            candidate_scan(*entry)
        } else {
            empty_scan()
        };
        assert(package_views(packages@) =~= pb + here.packages);
        assert(failure_views(failures@) =~= fb + here.failures);
        let mut j: usize = 0;
        while j < entry.children.len()
            invariant
                j <= entry.children@.len(),
                entry == entries[i as int],
                entries == node_modules.children@,
                node_modules == root.children@[k as int],
                0 <= k < root.children@.len(),
                i < entries.len(),
                package_views(packages@) == pb + here.packages
                    + inner_scan(entry.name@, entry.children@.subrange(0, j as int)).packages,
                failure_views(failures@) == fb + here.failures
                    + inner_scan(entry.name@, entry.children@.subrange(0, j as int)).failures,
            decreases entry.children@.len() - j,
        {
            let sub = &entry.children[j];
            let pair = vec![entry.name.clone(), sub.name.clone()];
            let kind2 = classify(pair.as_slice());
            assert(pair@.map_values(|c: String| c@) =~= seq![entry.name@, sub.name@]);
            let ghost pj = package_views(packages@);
            let ghost fj = failure_views(failures@);
            if kind2 == EntryKind::ScopedCandidate {
                proof { assert(decreases_to!(*root => sub)); }
                visit_candidate(sub, packages, failures);
            }
            proof {
                let s = entry.children@.subrange(0, j + 1);
                assert(s.drop_last() =~= entry.children@.subrange(0, j as int));
                assert(s.last() == *sub);
                let inner = inner_scan(entry.name@, entry.children@.subrange(0, j as int));
                assert(package_views(packages@) =~= pb + here.packages + inner_scan(entry.name@, s).packages);
                assert(failure_views(failures@) =~= fb + here.failures + inner_scan(entry.name@, s).failures);
            }
            j = j + 1;
        }
        proof {
            assert(entry.children@.subrange(0, j as int) =~= entry.children@);
            let s = entries.subrange(0, i + 1);
            assert(s.drop_last() =~= entries.subrange(0, i as int));
            assert(s.last() == *entry);
            assert(entry_scan(*entry) == join(here, inner_scan(entry.name@, entry.children@)));
            assert(entries_scan(s) == join(entries_scan(entries.subrange(0, i as int)), entry_scan(*entry)));
            assert(package_views(packages@) =~= p0 + entries_scan(s).packages);
            assert(failure_views(failures@) =~= f0 + entries_scan(s).failures);
        }
        i = i + 1;
    }
    assert(entries.subrange(0, i as int) =~= entries);
}

} // verus!
