//! Package records and the reading of a package root's manifest.
use vstd::prelude::*;
use crate::tree::{DirNode, ManifestSource, dir_usage, clamp_u64, calc_disk_usage};

verus! {

/// One installed copy of a package.
pub struct Package {
    pub name: String,
    pub version: String,
    pub path: String,
    pub disk_usage: u64,
}

/// A package record in mathematical terms.
pub struct PackageView {
    pub name: Seq<char>,
    pub version: Seq<char>,
    pub path: Seq<char>,
    pub disk_usage: int,
}

impl View for Package {
    type V = PackageView;

    open spec fn view(&self) -> PackageView {
        PackageView {
            name: self.name@,
            version: self.version@,
            path: self.path@,
            disk_usage: self.disk_usage as int,
        }
    }
}

/// Why a directory could not be read as a package root.
#[derive(PartialEq, Eq, Structural, Clone, Copy, Debug)]
pub enum MetadataError {
    /// No manifest file could be read.
    FileNotFound,
    /// The manifest is malformed or lacks a non-empty `name` or `version`.
    ParseError,
}

impl MetadataError {
    /// A short description for log lines.
    pub fn message(&self) -> (r: &'static str) {
        match self {
            MetadataError::FileNotFound => "manifest file not found",
            MetadataError::ParseError => "manifest has no usable name and version",
        }
    }
}

/// The name and version a manifest declares, where both are present and
/// non-empty.
pub open spec fn manifest_fields(m: ManifestSource) -> Result<(Seq<char>, Seq<char>), MetadataError> {
    match m {
        ManifestSource::Missing => Err(MetadataError::FileNotFound),
        ManifestSource::Malformed => Err(MetadataError::ParseError),
        ManifestSource::Parsed { name, version } => {
            if name is Some && version is Some && name->0@.len() > 0 && version->0@.len() > 0 {
                Ok((name->0@, version->0@))
            } else {
                Err(MetadataError::ParseError)
            }
        },
    }
}

/// The record that a package root `d` yields, or why it yields none.
pub open spec fn package_of(d: DirNode) -> Result<PackageView, MetadataError> {
    match manifest_fields(d.manifest) {
        Ok(f) => Ok(
            PackageView {
                name: f.0,
                version: f.1,
                path: d.path@,
                disk_usage: clamp_u64(dir_usage(d)),
            },
        ),
        Err(e) => Err(e),
    }
}

/// Takes the declared name and version out of a manifest.
pub fn read_manifest(m: &ManifestSource) -> (r: Result<(String, String), MetadataError>)
    ensures
        match (r, manifest_fields(*m)) {
            (Ok(v), Ok(f)) => v.0@ == f.0 && v.1@ == f.1,
            (Err(e), Err(g)) => e == g,
            _ => false,
        },
{
    match m {
        ManifestSource::Missing => Err(MetadataError::FileNotFound),
        ManifestSource::Malformed => Err(MetadataError::ParseError),
        ManifestSource::Parsed { name: Some(name), version: Some(version) } => {
            if !name.as_str().is_empty() && !version.as_str().is_empty() {
                Ok((name.clone(), version.clone()))
            } else {
                Err(MetadataError::ParseError)
            }
        },
        ManifestSource::Parsed { .. } => Err(MetadataError::ParseError),
    }
}

/// Reads the package rooted at `root`: its manifest's name and version, its
/// path and its disk usage.
pub fn get_package_info(root: &DirNode) -> (r: Result<Package, MetadataError>)
    ensures
        match (r, package_of(*root)) {
            (Ok(p), Ok(q)) => p@ == q,
            (Err(e), Err(g)) => e == g,
            _ => false,
        },
{
    match read_manifest(&root.manifest) {
        Ok((name, version)) => Ok(
            Package {
                name,
                version,
                path: root.path.clone(),
                disk_usage: calc_disk_usage(root),
            },
        ),
        Err(e) => Err(e),
    }
}

} // verus!
