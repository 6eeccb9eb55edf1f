//! Channels: named sources of package records.
use vstd::prelude::*;
use crate::platform::Platform;
use crate::text::{chars_of, push_all, string_from_chars};

verus! {

/// A channel: the base location of its index and the platforms it serves.
#[derive(Debug, Clone, PartialEq, Eq)]
pub struct Channel {
    pub base_url: String,
    pub platforms: Vec<Platform>,
}

/// The location of the empty channel bundled under a source directory.
pub open spec fn empty_channel_url(dir: Seq<char>) -> Seq<char> {
    "file://"@ + dir + "/resources/channels/empty/"@
}

/// The empty channel bundled with the sources under `manifest_dir`; it serves `noarch`.
pub fn empty_channel(manifest_dir: &str) -> (r: Channel)
    ensures
        r.base_url@ == empty_channel_url(manifest_dir@),
        r.platforms@ == seq![Platform::NoArch],
{
    let mut url = chars_of("file://");
    let dir = chars_of(manifest_dir);
    push_all(&mut url, &dir);
    let tail = chars_of("/resources/channels/empty/");
    push_all(&mut url, &tail);
    let mut platforms: Vec<Platform> = Vec::new();
    platforms.push(Platform::NoArch);
    Channel { base_url: string_from_chars(&url), platforms }
}

} // verus!
