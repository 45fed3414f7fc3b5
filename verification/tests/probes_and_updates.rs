use ytdlp_gui::binaries::{resolve_binary, resolve_ffmpeg_dir, BinarySource, FfmpegSource};
use ytdlp_gui::metadata::{
    default_download_dir, fetch_info, fetch_info_args, is_newer_version, later_version,
    metadata_outcome, parse_version, update_available, ytdlp_version,
};
use ytdlp_gui::updater::{latest_ytdlp_version, Release, YT_DLP_EXE_URL, YT_DLP_RELEASES_API};

#[test]
fn binary_resolution_order() {
    assert_eq!(resolve_binary(true, true, true), BinarySource::AppDataOverride);
    assert_eq!(resolve_binary(true, false, false), BinarySource::AppDataOverride);
    assert_eq!(resolve_binary(false, true, true), BinarySource::Bundled);
    assert_eq!(resolve_binary(false, false, true), BinarySource::DevTree);
    assert_eq!(resolve_binary(false, false, false), BinarySource::SystemPath);
}

#[test]
fn ffmpeg_resolution_order() {
    assert_eq!(resolve_ffmpeg_dir(true, true), Some(FfmpegSource::Bundled));
    assert_eq!(resolve_ffmpeg_dir(false, true), Some(FfmpegSource::DevTree));
    assert_eq!(resolve_ffmpeg_dir(false, false), None);
}

#[test]
fn probe_arguments() {
    assert_eq!(
        fetch_info_args("  https://x.example/v \n"),
        vec!["-J", "--no-warnings", "--encoding", "utf-8", "https://x.example/v"]
    );
}

#[test]
fn failed_probe_reports_last_stderr_line() {
    assert_eq!(
        fetch_info(false, b"", b"WARNING: w\nERROR: [generic] Unsupported URL\n", None, None),
        Err("ERROR: [generic] Unsupported URL".to_string())
    );
    assert_eq!(
        fetch_info(false, b"{}", b"", None, None),
        Err("failed to fetch info".to_string())
    );
}

#[test]
fn successful_probe_parses_json() {
    let v = fetch_info(true, br#"{"title":"T","duration":12}"#, b"", None, None).unwrap();
    assert_eq!(v["title"], serde_json::Value::String("T".to_string()));
    assert_eq!(v["duration"].as_u64(), Some(12));
    let e = fetch_info(true, b"not json", b"", None, None).unwrap_err();
    let serde_message = serde_json::from_str::<serde_json::Value>("not json").unwrap_err().to_string();
    assert_eq!(e, format!("failed to parse metadata: {}", serde_message));
}

#[test]
fn metadata_outcomes() {
    assert_eq!(metadata_outcome(Ok(serde_json::Value::Null)), Ok(serde_json::Value::Null));
    assert_eq!(
        metadata_outcome(Err("EOF while parsing".to_string())),
        Err("failed to parse metadata: EOF while parsing".to_string())
    );
}

#[test]
fn update_offers() {
    let cur = "2025.01.01".to_string();
    assert!(update_available(&cur, &Some("2026.07.04".to_string())));
    assert!(!update_available(&cur, &Some("2025.01.01".to_string())));
    assert!(!update_available(&cur, &Some("".to_string())));
    assert!(!update_available(&cur, &None));
    // An older release is not an update.
    assert!(!update_available(&"2026.07.05".to_string(), &Some("2026.07.04".to_string())));
    assert!(!update_available(&cur, &Some("2024.12.31".to_string())));
    // Components compare as numbers, and a nightly build is newer than its day.
    assert!(update_available(&"2025.9.1".to_string(), &Some("2025.10.01".to_string())));
    assert!(update_available(&"2024.03.10".to_string(), &Some("2024.03.10.232819".to_string())));
    assert!(!update_available(&"2024.03.10.232819".to_string(), &Some("2024.03.10".to_string())));
    // Tags that are not dotted versions are compared for difference only.
    assert!(update_available(&"".to_string(), &Some("2026.07.04".to_string())));
    assert!(update_available(&"unknown".to_string(), &Some("2026.07.04".to_string())));
}

#[test]
fn version_parsing() {
    assert_eq!(parse_version("2026.07.04"), Some(vec![2026, 7, 4]));
    assert_eq!(parse_version("2024.03.10.232819"), Some(vec![2024, 3, 10, 232819]));
    assert_eq!(parse_version("18446744073709551615"), Some(vec![u64::MAX]));
    assert_eq!(parse_version("18446744073709551616"), None);
    assert_eq!(parse_version(""), None);
    assert_eq!(parse_version("2026..04"), None);
    assert_eq!(parse_version("v2026.07.04"), None);
    assert_eq!(parse_version("2026.07.04\n"), None);
    assert!(later_version(&vec![2, 0], &vec![1, 9, 9]));
    assert!(!later_version(&vec![1, 2], &vec![1, 2]));
    assert!(later_version(&vec![1, 2, 0], &vec![1, 2]));
    assert!(is_newer_version("2026.07.04", "2026.07.03"));
    assert!(!is_newer_version("2026.07.03", "2026.07.04"));
    assert!(is_newer_version("nightly", "2026.07.04"));
    assert!(!is_newer_version("", "x"));
    assert!(!is_newer_version("x", "x"));
}

#[test]
fn version_report() {
    let r = ytdlp_version(b"2025.01.01\r\n", Some("2026.07.04".to_string()));
    assert_eq!(r.current, "2025.01.01");
    assert_eq!(r.latest, Some("2026.07.04".to_string()));
    assert!(r.update_available);
    let r = ytdlp_version(b" 2026.07.04\n", Some("2026.07.04".to_string()));
    assert!(!r.update_available);
    let r = ytdlp_version(b"\xff1", None);
    assert_eq!(r.current, "\u{fffd}1");
    assert!(!r.update_available);
}

#[test]
fn download_dir_choice() {
    assert_eq!(
        default_download_dir(b"C:\\Users\\me\\Downloads\r\n", Err("no profile".to_string())),
        Ok("C:\\Users\\me\\Downloads".to_string())
    );
    assert_eq!(
        default_download_dir(b"  \r\n", Ok("C:\\Users\\me\\Downloads".to_string())),
        Ok("C:\\Users\\me\\Downloads".to_string())
    );
    assert_eq!(
        default_download_dir(b"", Err("environment variable not found".to_string())),
        Err("environment variable not found".to_string())
    );
}

#[test]
fn latest_version_from_release() {
    assert_eq!(
        latest_ytdlp_version(Ok(Release { tag_name: "2026.07.04".to_string() })),
        Ok("2026.07.04".to_string())
    );
    assert_eq!(
        latest_ytdlp_version(Ok(Release { tag_name: String::new() })),
        Err("empty tag_name from GitHub API".to_string())
    );
    assert_eq!(
        latest_ytdlp_version(Err("timed out".to_string())),
        Err("timed out".to_string())
    );
}

#[test]
fn release_locations() {
    assert!(YT_DLP_RELEASES_API.ends_with("/releases/latest"));
    assert!(YT_DLP_EXE_URL.ends_with("/yt-dlp.exe"));
}
