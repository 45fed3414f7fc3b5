use ytdlp_gui::options::{finish_args, DownloadOptions};

fn base() -> Vec<String> {
    [
        "--no-simulate",
        "--progress",
        "--newline",
        "--encoding",
        "utf-8",
        "--print",
        "before_dl:__ENTRY__|%(title)s",
        "--print",
        "after_move:__FILE__|%(filepath)s",
        "--progress-template",
        "download:__PROG__|%(progress.downloaded_bytes)s|%(progress.total_bytes)s|%(progress.total_bytes_estimate)s|%(progress.speed)s|%(progress.eta)s",
        "--no-mtime",
    ]
    .iter()
    .map(|s| s.to_string())
    .collect()
}

fn with(extra: &[&str]) -> Vec<String> {
    let mut v = base();
    v.extend(extra.iter().map(|s| s.to_string()));
    v
}

#[test]
fn default_options_give_plumbing_only() {
    let o = DownloadOptions::default();
    assert_eq!(o.to_args(None), Ok(base()));
}

#[test]
fn no_output_dir_keeps_default_location() {
    let o = DownloadOptions {
        format: Some("b".to_string()),
        output_dir: None,
        raw_args: None,
        cookies: None,
    };
    let args = o.to_args(None).unwrap();
    assert!(!args.contains(&"--paths".to_string()));
    assert_eq!(args, with(&["--format", "b"]));
}

#[test]
fn format_and_dir_are_trimmed() {
    let o = DownloadOptions {
        format: Some("  bv*+ba/b ".to_string()),
        output_dir: Some(" D:\\v ".to_string()),
        raw_args: None,
        cookies: None,
    };
    assert_eq!(
        o.to_args(None),
        Ok(with(&["--format", "bv*+ba/b", "--paths", "D:\\v"]))
    );
}

#[test]
fn blank_values_are_skipped() {
    let o = DownloadOptions {
        format: Some("   ".to_string()),
        output_dir: Some(" ".to_string()),
        raw_args: Some("".to_string()),
        cookies: Some("\n".to_string()),
    };
    // A blank output directory does not fall back to the Downloads folder.
    assert_eq!(o.to_args(Some("c.txt".to_string())), Ok(base()));
    assert_eq!(o.cookie_file_contents(), None);
}

#[test]
fn cookies_file_is_passed() {
    let o = DownloadOptions {
        format: None,
        output_dir: None,
        raw_args: None,
        cookies: Some("  # Netscape HTTP Cookie File\n ".to_string()),
    };
    let bytes = o.cookie_file_contents().unwrap();
    let mut expected = vec![0xef, 0xbb, 0xbf];
    expected.extend_from_slice(b"# Netscape HTTP Cookie File");
    assert_eq!(bytes, expected);
    assert_eq!(
        o.to_args(Some("/tmp/ytdlp-gui-cookies-0.txt".to_string())),
        Ok(with(&["--cookies", "/tmp/ytdlp-gui-cookies-0.txt"]))
    );
}

#[test]
fn raw_args_are_split_and_appended() {
    let o = DownloadOptions {
        format: Some("b".to_string()),
        output_dir: None,
        raw_args: Some("--embed-subs -o '%(title)s [x].%(ext)s' \"a b\"\\ c".to_string()),
        cookies: None,
    };
    assert_eq!(
        o.to_args(None),
        Ok(with(&["--format", "b", "--embed-subs", "-o", "%(title)s [x].%(ext)s", "a b c"]))
    );
}

#[test]
fn unclosed_quote_is_an_error() {
    let o = DownloadOptions {
        format: None,
        output_dir: None,
        raw_args: Some("--proxy 'socks5://x".to_string()),
        cookies: None,
    };
    assert_eq!(
        o.to_args(None),
        Err("raw args parse error: missing closing quote".to_string())
    );
}

#[test]
fn finishing_arguments() {
    assert_eq!(
        finish_args(vec!["a".to_string()], Ok(vec!["b".to_string(), "c".to_string()])),
        Ok(vec!["a".to_string(), "b".to_string(), "c".to_string()])
    );
    assert_eq!(
        finish_args(vec!["a".to_string()], Err("oops".to_string())),
        Err("raw args parse error: oops".to_string())
    );
}

#[test]
fn option_args_without_raw() {
    let o = DownloadOptions {
        format: None,
        output_dir: None,
        raw_args: Some("-x".to_string()),
        cookies: None,
    };
    assert_eq!(o.option_args(None), base());
}
