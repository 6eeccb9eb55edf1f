//! Package records: the metadata of one package artifact in a channel.
use vstd::prelude::*;
use crate::platform::{determine_subdir, pair_text, platform_of_pair, subdir_name, ConvertSubdirError};
use crate::channel::Channel;
use crate::text::{chars_of, push_all, string_from_chars};
use crate::version::Version;

verus! {

/// How a package is independent of the architecture, if it is.
#[derive(Debug, Clone, Copy, PartialEq, Eq, Hash)]
pub enum NoArchType {
    /// The package is built for one architecture.
    Native,
    /// A generic architecture-independent package.
    Generic,
    /// An architecture-independent Python package.
    Python,
}

impl NoArchType {
    /// Whether the package is built for one architecture.
    pub fn is_none(&self) -> (r: bool)
        ensures
            r == (*self is Native),
    {
        matches!(self, NoArchType::Native)
    }
}

/// Information about the subdirectory of a channel.
#[derive(Debug, Clone, PartialEq, Eq)]
pub struct ChannelInfo {
    /// The channel's subdirectory.
    pub subdir: String,
}

/// The `index.json` file found in package archives: the package's build and dependency
/// metadata.
#[derive(Debug, Clone, PartialEq, Eq)]
pub struct IndexJson {
    pub name: String,
    pub version: Version,
    pub build: String,
    pub build_number: u64,
    pub arch: Option<String>,
    pub noarch: NoArchType,
    pub platform: Option<String>,
    pub license: Option<String>,
    pub license_family: Option<String>,
    pub depends: Vec<String>,
    pub constrains: Vec<String>,
    pub track_features: Vec<String>,
    pub features: Option<String>,
    pub timestamp: Option<u64>,
    pub subdir: Option<String>,
}

/// A single record in a channel's index: one binary distribution of a package.
#[derive(Debug, Clone, PartialEq, Eq)]
pub struct PackageRecord {
    pub arch: Option<String>,
    pub build: String,
    pub build_number: u64,
    /// Restrictions on other packages that apply only where those are installed.
    pub constrains: Vec<String>,
    /// Packages that must be installed next to this one.
    pub depends: Vec<String>,
    pub features: Option<String>,
    pub legacy_bz2_md5: Option<String>,
    pub legacy_bz2_size: Option<u64>,
    pub license: Option<String>,
    pub license_family: Option<String>,
    pub md5: Option<String>,
    pub name: String,
    pub noarch: NoArchType,
    pub platform: Option<String>,
    pub sha256: Option<String>,
    pub size: Option<u64>,
    pub subdir: String,
    pub timestamp: Option<u64>,
    /// Only counted: each one lowers the priority of the record.
    pub track_features: Vec<String>,
    pub version: Version,
}

fn clone_opt(s: &Option<String>) -> (r: Option<String>)
    ensures
        r == *s,
{
    match s {
        Some(x) => Some(x.clone()),
        None => None,
    }
}

/// The fields of a record that come from `index.json` unchanged.
pub open spec fn copied_from_index(r: PackageRecord, index: IndexJson) -> bool {
    &&& r.arch == index.arch
    &&& r.build == index.build
    &&& r.build_number == index.build_number
    &&& r.constrains == index.constrains
    &&& r.depends == index.depends
    &&& r.features == index.features
    &&& r.license == index.license
    &&& r.license_family == index.license_family
    &&& r.name == index.name
    &&& r.noarch == index.noarch
    &&& r.platform == index.platform
    &&& r.timestamp == index.timestamp
    &&& r.track_features == index.track_features
    &&& r.version == index.version
}

impl PackageRecord {
    /// The record as `name=version=build`.
    pub fn to_text(&self) -> (r: String)
        ensures
            r@ == self.name@ + seq!['='] + self.version.source@ + seq!['='] + self.build@,
    {
        let mut out = chars_of(self.name.as_str());
        out.push('=');
        let v = chars_of(self.version.source.as_str());
        push_all(&mut out, &v);
        out.push('=');
        let b = chars_of(self.build.as_str());
        push_all(&mut out, &b);
        string_from_chars(&out)
    }

    /// Builds a record from an `index.json` and optionally a size, sha256 and md5 hash.
    /// Where the index names no subdirectory it is derived from the platform and arch.
    pub fn from_index_json(
        index: IndexJson,
        size: Option<u64>,
        sha256: Option<String>,
        md5: Option<String>,
    ) -> (r: Result<PackageRecord, ConvertSubdirError>)
        ensures
            match r {
                Ok(rec) => {
                    &&& copied_from_index(rec, index)
                    &&& rec.size == size
                    &&& rec.sha256 == sha256
                    &&& rec.md5 == md5
                    &&& rec.legacy_bz2_md5 is None
                    &&& rec.legacy_bz2_size is None
                    &&& match index.subdir {
                        Some(s) => rec.subdir == s,
                        None => {
                            &&& index.platform is Some && index.arch is Some
                            &&& platform_of_pair(pair_text(index.platform->0@, index.arch->0@)) is Some
                            &&& rec.subdir@ == subdir_name(
                                platform_of_pair(pair_text(index.platform->0@, index.arch->0@))->0)
                        },
                    }
                },
                Err(e) => {
                    &&& index.subdir is None
                    &&& (index.platform is None ==> e == ConvertSubdirError::PlatformEmpty)
                    &&& (index.platform is Some && index.arch is None ==> e == ConvertSubdirError::ArchEmpty)
                    &&& (index.platform is Some && index.arch is Some ==> {
                        &&& platform_of_pair(pair_text(index.platform->0@, index.arch->0@)) is None
                        &&& e is NoKnownCombination
                        &&& e->NoKnownCombination_platform == index.platform->0
                        &&& e->NoKnownCombination_arch == index.arch->0
                    })
                },
            },
    {
        let subdir = match index.subdir {
            None => {
                match determine_subdir(clone_opt(&index.platform), clone_opt(&index.arch)) {
                    Ok(s) => s,
                    Err(e) => return Err(e),
                }
            },
            Some(s) => s,
        };
        Ok(PackageRecord {
            arch: index.arch,
            build: index.build,
            build_number: index.build_number,
            constrains: index.constrains,
            depends: index.depends,
            features: index.features,
            legacy_bz2_md5: None,
            legacy_bz2_size: None,
            license: index.license,
            license_family: index.license_family,
            md5,
            name: index.name,
            noarch: index.noarch,
            platform: index.platform,
            sha256,
            size,
            subdir,
            timestamp: index.timestamp,
            track_features: index.track_features,
            version: index.version,
        })
    }
}


/// The records of one subdirectory of a channel, keyed by archive file name in the order
/// the index lists them.
#[derive(Debug, Clone, PartialEq, Eq)]
pub struct RepoData {
    pub info: Option<ChannelInfo>,
    /// The `.tar.bz2` archives.
    pub packages: Vec<(String, PackageRecord)>,
    /// The `.conda` archives.
    pub conda_packages: Vec<(String, PackageRecord)>,
    /// Archives that remain available but are no longer installable.
    pub removed: Vec<String>,
    /// The version of the index format.
    pub version: Option<u64>,
}

/// A record together with where it can be downloaded from.
#[derive(Debug, Clone, PartialEq, Eq)]
pub struct RepoDataRecord {
    pub package_record: PackageRecord,
    pub file_name: String,
    pub url: String,
    /// The base location of the channel the record comes from, which names it.
    pub channel: String,
}

/// A base location that ends in `/`, adding one where it is missing.
pub open spec fn as_directory(base: Seq<char>) -> Seq<char> {
    if base.len() > 0 && base[base.len() - 1] == '/' { base } else { base.push('/') }
}

/// The download location of archive `file` of subdirectory `subdir` under the
/// directory `base`.
pub open spec fn archive_url(base: Seq<char>, subdir: Seq<char>, file: Seq<char>) -> Seq<char> {
    as_directory(base) + subdir + seq!['/'] + file
}

/// The located form of an entry of `packages` followed by `conda_packages`.
pub open spec fn located(entry: (String, PackageRecord), channel: Channel, r: RepoDataRecord) -> bool {
    &&& r.package_record == entry.1
    &&& r.file_name == entry.0
    &&& r.url@ == archive_url(channel.base_url@, entry.1.subdir@, entry.0@)
    &&& r.channel@ == channel.base_url@
}

fn locate(file_name: String, rec: PackageRecord, channel: &Channel) -> (r: RepoDataRecord)
    ensures
        located((file_name, rec), *channel, r),
{
    let mut url = chars_of(channel.base_url.as_str());
    let n = url.len();
    if !(n > 0 && url[n - 1] == '/') {
        url.push('/');
    }
    assert(url@ == as_directory(channel.base_url@));
    let sub = chars_of(rec.subdir.as_str());
    push_all(&mut url, &sub);
    url.push('/');
    let file = chars_of(file_name.as_str());
    push_all(&mut url, &file);
    assert(url@ =~= archive_url(channel.base_url@, rec.subdir@, file_name@));
    RepoDataRecord {
        url: string_from_chars(&url),
        channel: channel.base_url.clone(),
        package_record: rec,
        file_name,
    }
}

impl RepoData {
    /// The records of this index with their download locations in `channel`: first the
    /// `.tar.bz2` archives, then the `.conda` archives, each in index order.
    pub fn into_repo_data_records(self, channel: &Channel) -> (r: Vec<RepoDataRecord>)
        ensures
            r@.len() == self.packages@.len() + self.conda_packages@.len(),
            forall|i: int| 0 <= i < r@.len() ==> located(
                (self.packages@ + self.conda_packages@)[i], *channel, #[trigger] r@[i]),
    {
        let ghost p = self.packages@;
        let ghost c = self.conda_packages@;
        let ghost all = p + c;
        let mut first = self.packages;
        let mut second = self.conda_packages;
        let mut stack: Vec<(String, PackageRecord)> = Vec::new();
        while second.len() > 0
            invariant
                second@.len() <= c.len(),
                second@ == c.subrange(0, second@.len() as int),
                stack@.len() == c.len() - second@.len(),
                forall|i: int| 0 <= i < stack@.len() ==> #[trigger] stack@[i] == c[c.len() - 1 - i],
            decreases second@.len(),
        {
            let x = second.pop().unwrap();
            stack.push(x);
            assert(second@ =~= c.subrange(0, second@.len() as int));
        }
        while first.len() > 0
            invariant
                first@.len() <= p.len(),
                first@ == p.subrange(0, first@.len() as int),
                stack@.len() == c.len() + p.len() - first@.len(),
                forall|i: int| 0 <= i < c.len() ==> #[trigger] stack@[i] == c[c.len() - 1 - i],
                forall|i: int| c.len() <= i < stack@.len() ==> #[trigger] stack@[i] == p[p.len() - 1 - (i - c.len())],
            decreases first@.len(),
        {
            let x = first.pop().unwrap();
            stack.push(x);
            assert(first@ =~= p.subrange(0, first@.len() as int));
        }
        assert forall|i: int| 0 <= i < stack@.len() implies #[trigger] stack@[i] == all[all.len() - 1 - i] by {
            if i < c.len() {
            } else {
            }
        }
        let ghost full = stack@;
        let mut out: Vec<RepoDataRecord> = Vec::new();
        while stack.len() > 0
            invariant
                stack@ == full.subrange(0, stack@.len() as int),
                full.len() == all.len(),
                forall|i: int| 0 <= i < full.len() ==> #[trigger] full[i] == all[all.len() - 1 - i],
                out@.len() + stack@.len() == all.len(),
                forall|i: int| 0 <= i < out@.len() ==> located(all[i], *channel, #[trigger] out@[i]),
            decreases stack@.len(),
        {
            let ghost m = stack@.len();
            let (file_name, rec) = stack.pop().unwrap();
            assert(stack@ =~= full.subrange(0, stack@.len() as int));
            assert(full[m - 1] == all[all.len() - m]);
            let located_rec = locate(file_name, rec, channel);
            out.push(located_rec);
        }
        out
    }
}

} // verus!
