//! Known platforms and the mapping from legacy platform/arch pairs to subdirectories.
use vstd::prelude::*;
use crate::text::{chars_eq_str, chars_of, owned, push_all};

verus! {

/// A platform for which packages are built, named after its channel subdirectory.
#[derive(Debug, Clone, Copy, PartialEq, Eq, Hash)]
pub enum Platform {
    NoArch,
    Linux32,
    Linux64,
    LinuxAarch64,
    LinuxArmV6l,
    LinuxArmV7l,
    LinuxPpc64le,
    LinuxPpc64,
    LinuxS390X,
    Osx64,
    OsxArm64,
    Win32,
    Win64,
    WinArm64,
}

/// The subdirectory name of a platform.
pub open spec fn subdir_name(p: Platform) -> Seq<char> {
    match p {
        Platform::NoArch => "noarch"@,
        Platform::Linux32 => "linux-32"@,
        Platform::Linux64 => "linux-64"@,
        Platform::LinuxAarch64 => "linux-aarch64"@,
        Platform::LinuxArmV6l => "linux-armv6l"@,
        Platform::LinuxArmV7l => "linux-armv7l"@,
        Platform::LinuxPpc64le => "linux-ppc64le"@,
        Platform::LinuxPpc64 => "linux-ppc64"@,
        Platform::LinuxS390X => "linux-s390x"@,
        Platform::Osx64 => "osx-64"@,
        Platform::OsxArm64 => "osx-arm64"@,
        Platform::Win32 => "win-32"@,
        Platform::Win64 => "win-64"@,
        Platform::WinArm64 => "win-arm64"@,
    }
}

impl Platform {
    /// The subdirectory name of this platform, e.g. `osx-64`.
    pub fn as_subdir(&self) -> (r: String)
        ensures
            r@ == subdir_name(*self),
    {
        match self {
            Platform::NoArch => owned("noarch"),
            Platform::Linux32 => owned("linux-32"),
            Platform::Linux64 => owned("linux-64"),
            Platform::LinuxAarch64 => owned("linux-aarch64"),
            Platform::LinuxArmV6l => owned("linux-armv6l"),
            Platform::LinuxArmV7l => owned("linux-armv7l"),
            Platform::LinuxPpc64le => owned("linux-ppc64le"),
            Platform::LinuxPpc64 => owned("linux-ppc64"),
            Platform::LinuxS390X => owned("linux-s390x"),
            Platform::Osx64 => owned("osx-64"),
            Platform::OsxArm64 => owned("osx-arm64"),
            Platform::Win32 => owned("win-32"),
            Platform::Win64 => owned("win-64"),
            Platform::WinArm64 => owned("win-arm64"),
        }
    }
}

/// An error that can occur when deriving a subdirectory from a platform and an architecture.
#[derive(Debug, Clone, PartialEq, Eq)]
pub enum ConvertSubdirError {
    /// The platform and architecture do not form a known combination.
    NoKnownCombination { platform: String, arch: String },
    /// The platform key is missing.
    PlatformEmpty,
    /// The architecture key is missing.
    ArchEmpty,
}

/// The platform named by a `<platform>-<arch>` pair as legacy package metadata writes it.
pub open spec fn platform_of_pair(c: Seq<char>) -> Option<Platform> {
    if c == "linux-x86"@ { Some(Platform::Linux32) }
    else if c == "linux-x86_64"@ { Some(Platform::Linux64) }
    else if c == "linux-aarch64"@ { Some(Platform::LinuxAarch64) }
    else if c == "linux-armv6l"@ { Some(Platform::LinuxArmV6l) }
    else if c == "linux-armv7l"@ { Some(Platform::LinuxArmV7l) }
    else if c == "linux-ppc64le"@ { Some(Platform::LinuxPpc64le) }
    else if c == "linux-ppc64"@ { Some(Platform::LinuxPpc64) }
    else if c == "linux-s390x"@ { Some(Platform::LinuxS390X) }
    else if c == "osx-x86_64"@ { Some(Platform::Osx64) }
    else if c == "osx-arm64"@ { Some(Platform::OsxArm64) }
    else if c == "win-32"@ { Some(Platform::Win32) }
    else if c == "win-64"@ { Some(Platform::Win64) }
    else if c == "win-arm64"@ { Some(Platform::WinArm64) }
    else { None }
}

/// The joined form `<platform>-<arch>`.
pub open spec fn pair_text(platform: Seq<char>, arch: Seq<char>) -> Seq<char> {
    platform + seq!['-'] + arch
}

fn lookup_pair(c: &Vec<char>) -> (r: Option<Platform>)
    ensures
        r == platform_of_pair(c@),
{
    if chars_eq_str(c, "linux-x86") { Some(Platform::Linux32) }
    else if chars_eq_str(c, "linux-x86_64") { Some(Platform::Linux64) }
    else if chars_eq_str(c, "linux-aarch64") { Some(Platform::LinuxAarch64) }
    else if chars_eq_str(c, "linux-armv6l") { Some(Platform::LinuxArmV6l) }
    else if chars_eq_str(c, "linux-armv7l") { Some(Platform::LinuxArmV7l) }
    else if chars_eq_str(c, "linux-ppc64le") { Some(Platform::LinuxPpc64le) }
    else if chars_eq_str(c, "linux-ppc64") { Some(Platform::LinuxPpc64) }
    else if chars_eq_str(c, "linux-s390x") { Some(Platform::LinuxS390X) }
    else if chars_eq_str(c, "osx-x86_64") { Some(Platform::Osx64) }
    else if chars_eq_str(c, "osx-arm64") { Some(Platform::OsxArm64) }
    else if chars_eq_str(c, "win-32") { Some(Platform::Win32) }
    else if chars_eq_str(c, "win-64") { Some(Platform::Win64) }
    else if chars_eq_str(c, "win-arm64") { Some(Platform::WinArm64) }
    else { None }
}

/// Determines the subdirectory of a legacy record from its platform and arch keys,
/// for the combinations found in published package metadata.
pub fn determine_subdir(platform: Option<String>, arch: Option<String>) -> (r: Result<String, ConvertSubdirError>)
    ensures
        platform is None ==> r == Err::<String, ConvertSubdirError>(ConvertSubdirError::PlatformEmpty),
        platform is Some && arch is None ==> r == Err::<String, ConvertSubdirError>(ConvertSubdirError::ArchEmpty),
        platform is Some && arch is Some ==> match platform_of_pair(pair_text(platform->0@, arch->0@)) {
            Some(pl) => r is Ok && r->Ok_0@ == subdir_name(pl),
            None => r is Err && r->Err_0 is NoKnownCombination
                && r->Err_0->NoKnownCombination_platform == platform->0
                && r->Err_0->NoKnownCombination_arch == arch->0,
        },
{
    let platform = match platform {
        Some(p) => p,
        None => return Err(ConvertSubdirError::PlatformEmpty),
    };
    let arch = match arch {
        Some(a) => a,
        None => return Err(ConvertSubdirError::ArchEmpty),
    };
    let mut joined = chars_of(platform.as_str());
    joined.push('-');
    let ac = chars_of(arch.as_str());
    push_all(&mut joined, &ac);
    assert(joined@ =~= pair_text(platform@, arch@));
    match lookup_pair(&joined) {
        Some(pl) => Ok(pl.as_subdir()),
        None => Err(ConvertSubdirError::NoKnownCombination { platform, arch }),
    }
}

} // verus!
