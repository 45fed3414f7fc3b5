//! Which copy of the downloader and of ffmpeg to run.
use vstd::prelude::*;

verus! {

/// Where the downloader executable is taken from.
#[derive(Clone, Copy, Debug, PartialEq, Eq, Structural)]
pub enum BinarySource {
    /// The copy the in-app updater wrote to the app-data folder.
    AppDataOverride,
    /// The copy shipped next to the application.
    Bundled,
    /// The copy in the development tree.
    DevTree,
    /// Whatever `yt-dlp.exe` the system `PATH` finds.
    SystemPath,
}

/// Where the ffmpeg folder is taken from.
#[derive(Clone, Copy, Debug, PartialEq, Eq, Structural)]
pub enum FfmpegSource {
    Bundled,
    DevTree,
}

/// The first present copy in the order app-data override, bundled copy,
/// development tree; else the system `PATH`.
pub open spec fn binary_choice(app_data_override: bool, bundled: bool, dev_tree: bool) -> BinarySource {
    if app_data_override {
        BinarySource::AppDataOverride
    } else if bundled {
        BinarySource::Bundled
    } else if dev_tree {
        BinarySource::DevTree
    } else {
        BinarySource::SystemPath
    }
}

/// Chooses the downloader executable from which copies exist: an update
/// written to the app-data folder wins over the bundled copy, which wins
/// over the development tree; without any, the system `PATH` is searched.
pub fn resolve_binary(app_data_override: bool, bundled: bool, dev_tree: bool) -> (res: BinarySource)
    ensures
        res == binary_choice(app_data_override, bundled, dev_tree),
        app_data_override ==> res == BinarySource::AppDataOverride,
        !app_data_override && bundled ==> res == BinarySource::Bundled,
        !app_data_override && !bundled && dev_tree ==> res == BinarySource::DevTree,
        !app_data_override && !bundled && !dev_tree ==> res == BinarySource::SystemPath,
{
    if app_data_override {
        BinarySource::AppDataOverride
    } else if bundled {
        BinarySource::Bundled
    } else if dev_tree {
        BinarySource::DevTree
    } else {
        BinarySource::SystemPath
    }
}

/// The resolution order: an updated copy in the app-data folder is run
/// whatever other copies exist; without it the bundled copy wins over the
/// development tree; the system `PATH` is searched only when no copy exists.
pub proof fn law_binary_priority(app_data_override: bool, bundled: bool, dev_tree: bool)
    ensures
        app_data_override ==> binary_choice(app_data_override, bundled, dev_tree)
            == BinarySource::AppDataOverride,
        !app_data_override && bundled ==> binary_choice(app_data_override, bundled, dev_tree)
            == BinarySource::Bundled,
        !app_data_override && !bundled && dev_tree ==> binary_choice(
            app_data_override,
            bundled,
            dev_tree,
        ) == BinarySource::DevTree,
        binary_choice(app_data_override, bundled, dev_tree) == BinarySource::SystemPath
            <==> !app_data_override && !bundled && !dev_tree,
{
}

/// Chooses the ffmpeg folder: the bundled one, else the development tree's,
/// else none.
pub fn resolve_ffmpeg_dir(bundled: bool, dev_tree: bool) -> (res: Option<FfmpegSource>)
    ensures
        bundled ==> res == Some(FfmpegSource::Bundled),
        !bundled && dev_tree ==> res == Some(FfmpegSource::DevTree),
        !bundled && !dev_tree ==> res is None,
{
    if bundled {
        Some(FfmpegSource::Bundled)
    } else if dev_tree {
        Some(FfmpegSource::DevTree)
    } else {
        None
    }
}

} // verus!
