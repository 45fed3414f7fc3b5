//! Keeping the downloader up to date from its GitHub releases.
use vstd::prelude::*;

verus! {

/// Where the newest release is described.
pub const YT_DLP_RELEASES_API: &'static str = "https://api.github.com/repos/yt-dlp/yt-dlp/releases/latest";

/// Where the newest Windows executable is downloaded from.
pub const YT_DLP_EXE_URL: &'static str = "https://github.com/yt-dlp/yt-dlp/releases/latest/download/yt-dlp.exe";

/// The part of a release description that is used: its tag, which is the
/// version (e.g. "2026.07.04"); a missing tag reads as empty.
#[derive(Debug)]
pub struct Release {
    pub tag_name: String,
}

/// The newest version, from the fetched release description: a failed fetch
/// passes its error on, and an empty tag is refused with
/// "empty tag_name from GitHub API".
pub fn latest_ytdlp_version(fetched: Result<Release, String>) -> (res: Result<String, String>)
    ensures
        match fetched {
            Err(e) => res == Err::<String, String>(e),
            Ok(r) => if r.tag_name@.len() == 0 {
                res matches Err(e) && e@ == "empty tag_name from GitHub API"@
            } else {
                res == Ok::<String, String>(r.tag_name)
            },
        },
{
    match fetched {
        Err(e) => Err(e),
        Ok(release) => {
            if release.tag_name.as_str().is_empty() {
                Err(crate::text::owned("empty tag_name from GitHub API"))
            } else {
                Ok(release.tag_name)
            }
        },
    }
}

} // verus!
