//! The directory snapshot that the scan works on.
use vstd::prelude::*;

verus! {

/// What was found of a directory's manifest file (`package.json`).
pub enum ManifestSource {
    /// The directory holds no readable manifest file.
    Missing,
    /// The file exists but is not well-formed, or a field has the wrong type.
    Malformed,
    /// The file parsed; each field is present or absent.
    Parsed { name: Option<String>, version: Option<String> },
}

/// One directory of the snapshot.
///
/// `file_sizes` holds the byte length of each regular file directly inside
/// it; files that could not be stat'ed, and non-regular entries, are left out.
/// `children` holds its subdirectories, in the order the walk met them.
pub struct DirNode {
    pub name: String,
    pub path: String,
    pub file_sizes: Vec<u64>,
    pub manifest: ManifestSource,
    pub children: Vec<DirNode>,
}

/// Sum of a sequence of byte counts.
pub open spec fn sum_sizes(s: Seq<u64>) -> int
    decreases s.len(),
{
    if s.len() == 0 {
        0
    } else {
        sum_sizes(s.drop_last()) + s.last()
    }
}

/// Bytes held by regular files anywhere beneath `d`.
pub open spec fn dir_usage(d: DirNode) -> int
    decreases d,
{
    sum_sizes(d.file_sizes@) + forest_usage(d.children@)
}

/// Bytes held by regular files beneath each directory of `s`.
pub open spec fn forest_usage(s: Seq<DirNode>) -> int
    decreases s,
{
    if s.len() == 0 {
        0
    } else {
        forest_usage(s.drop_last()) + dir_usage(s.last())
    }
}

/// `x`, or `u64::MAX` where `x` is larger.
pub open spec fn clamp_u64(x: int) -> int {
    if x > u64::MAX {
        u64::MAX as int
    } else {
        x
    }
}

pub proof fn lemma_sum_sizes_nonneg(s: Seq<u64>)
    ensures
        sum_sizes(s) >= 0,
    decreases s.len(),
{
    if s.len() > 0 {
        lemma_sum_sizes_nonneg(s.drop_last());
    }
}

pub proof fn lemma_usage_nonneg(d: DirNode)
    ensures
        dir_usage(d) >= 0,
    decreases d,
{
    lemma_sum_sizes_nonneg(d.file_sizes@);
    lemma_forest_usage_nonneg(d.children@);
}

pub proof fn lemma_forest_usage_nonneg(s: Seq<DirNode>)
    ensures
        forest_usage(s) >= 0,
    decreases s,
{
    if s.len() > 0 {
        lemma_forest_usage_nonneg(s.drop_last());
        lemma_usage_nonneg(s.last());
    }
}

/// Adds two byte counts, stopping at `u64::MAX`.
pub(crate) fn add_clamped(a: u64, b: u64) -> (r: u64)
    ensures
        r == clamp_u64(a + b),
{
    if a > u64::MAX - b {
        u64::MAX
    } else {
        a + b
    }
}

/// Sums the byte lengths of the regular files beneath `dir`, at any depth.
/// A total past `u64::MAX` is reported as `u64::MAX`.
pub fn calc_disk_usage(dir: &DirNode) -> (r: u64)
    ensures
        r == clamp_u64(dir_usage(*dir)),
    decreases dir,
{
    let mut total: u64 = 0;
    let mut i: usize = 0;
    proof { lemma_sum_sizes_nonneg(dir.file_sizes@); }
    while i < dir.file_sizes.len()
        invariant
            i <= dir.file_sizes@.len(),
            total == clamp_u64(sum_sizes(dir.file_sizes@.subrange(0, i as int))),
        decreases dir.file_sizes@.len() - i,
    {
        proof {
            assert(dir.file_sizes@.subrange(0, i + 1).drop_last()
                == dir.file_sizes@.subrange(0, i as int));
            lemma_sum_sizes_nonneg(dir.file_sizes@.subrange(0, i as int));
        }
        total = add_clamped(total, dir.file_sizes[i]);
        i = i + 1;
    }
    assert(dir.file_sizes@.subrange(0, i as int) == dir.file_sizes@);
    let ghost files = sum_sizes(dir.file_sizes@);
    let mut j: usize = 0;
    while j < dir.children.len()
        invariant
            j <= dir.children@.len(),
            files >= 0,
            total == clamp_u64(files + forest_usage(dir.children@.subrange(0, j as int))),
        decreases dir.children@.len() - j,
    {
        proof {
            assert(dir.children@.subrange(0, j + 1).drop_last()
                == dir.children@.subrange(0, j as int));
            lemma_forest_usage_nonneg(dir.children@.subrange(0, j as int));
            lemma_usage_nonneg(dir.children@[j as int]);
            assert(decreases_to!(*dir => dir.children@[j as int]));
        }
        let sub = calc_disk_usage(&dir.children[j]);
        total = add_clamped(total, sub);
        j = j + 1;
    }
    assert(dir.children@.subrange(0, j as int) == dir.children@);
    total
}

} // verus!
