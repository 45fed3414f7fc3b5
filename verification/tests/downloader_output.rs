use ytdlp_gui::jobs::{list_jobs, start_download, JobManager};
use ytdlp_gui::output::{
    classify_output_line, error_tail, field_value, output_segments, parse_progress_line,
    stdout_text_of, take_complete_lines, OutputLine,
};

#[test]
fn progress_line_fields() {
    let p = parse_progress_line("__PROG__|1024|4096|NA|512.5|3").unwrap();
    assert_eq!(p.downloaded, Some("1024".to_string()));
    assert_eq!(p.total, Some("4096".to_string()));
    assert_eq!(p.total_estimate, None);
    assert_eq!(p.speed, Some("512.5".to_string()));
    assert_eq!(p.eta, Some("3".to_string()));
    let p = parse_progress_line("__PROG__|None||NA|x|y|extra").unwrap();
    assert_eq!(p.downloaded, None);
    assert_eq!(p.total, None);
    assert_eq!(p.speed, Some("x".to_string()));
    assert_eq!(p.eta, Some("y".to_string()));
}

#[test]
fn non_progress_lines() {
    assert!(parse_progress_line("__PROG__|1|2|3|4").is_none());
    assert!(parse_progress_line("__PROGX|1|2|3|4|5").is_none());
    assert!(parse_progress_line("[download] 10%").is_none());
    assert!(parse_progress_line("").is_none());
}

#[test]
fn field_values() {
    assert_eq!(field_value("NA".to_string()), None);
    assert_eq!(field_value("None".to_string()), None);
    assert_eq!(field_value("".to_string()), None);
    assert_eq!(field_value("12".to_string()), Some("12".to_string()));
    assert_eq!(field_value("na".to_string()), Some("na".to_string()));
}

#[test]
fn line_kinds() {
    match classify_output_line("__ENTRY__|My Video") {
        OutputLine::Entry(t) => assert_eq!(t, "My Video"),
        other => panic!("{:?}", other),
    }
    match classify_output_line("__FILE__|D:\\v.mp4") {
        OutputLine::File(f) => assert_eq!(f, "D:\\v.mp4"),
        other => panic!("{:?}", other),
    }
    match classify_output_line("__PROG__|1|2|3|4|5") {
        OutputLine::Progress(p) => assert_eq!(p.eta, Some("5".to_string())),
        other => panic!("{:?}", other),
    }
    assert!(matches!(classify_output_line("[info] hello"), OutputLine::Other));
}

#[test]
fn stdout_lines_decoded_one_by_one() {
    // A UTF-8 title line, then a path line in another encoding.
    let mut buf = "__ENTRY__|标题\n".as_bytes().to_vec();
    buf.extend_from_slice(b"__FILE__|D:\\\xcf\xc2\\a.mp4\n");
    let segments = output_segments(&buf);
    assert_eq!(segments.len(), 3);
    let fallbacks = vec![None, Some("__FILE__|D:\\下\\a.mp4".to_string()), None];
    assert_eq!(stdout_text_of(&buf, &fallbacks), "__ENTRY__|标题\n__FILE__|D:\\下\\a.mp4\n");
    assert_eq!(
        stdout_text_of(&buf, &Vec::new()),
        "__ENTRY__|标题\n__FILE__|D:\\\u{fffd}\u{fffd}\\a.mp4\n"
    );
    assert_eq!(stdout_text_of(b"a\nb", &Vec::new()), "a\nb");
    assert_eq!(stdout_text_of(b"", &Vec::new()), "");
}

#[test]
fn stdout_updates_the_job() {
    let mut m = JobManager::new();
    let id = start_download(&mut m, "u").unwrap();
    let out = b"[info] x\r\n__ENTRY__|First\n__PROG__|1|10|NA|2.0|5\n__ENTRY__|Second\n__PROG__|10|10|NA|NA|0\n__FILE__|/tmp/v.mp4\n";
    let report = m.apply_stdout(id, out, &Vec::new());
    assert_eq!(report.title, Some("Second".to_string()));
    assert_eq!(report.filepath, Some("/tmp/v.mp4".to_string()));
    assert_eq!(report.progress.len(), 2);
    assert_eq!(report.progress[0].downloaded, Some("1".to_string()));
    assert_eq!(report.progress[1].speed, None);
    let j = &list_jobs(&m)[0];
    assert_eq!(j.title, Some("Second".to_string()));
    assert_eq!(j.filepath, Some("/tmp/v.mp4".to_string()));
}

#[test]
fn stdout_without_markers_changes_nothing() {
    let mut m = JobManager::new();
    let id = start_download(&mut m, "u").unwrap();
    let report = m.apply_stdout(id, b"hello\nworld", &Vec::new());
    assert_eq!(report.title, None);
    assert_eq!(report.filepath, None);
    assert!(report.progress.is_empty());
    assert_eq!(list_jobs(&m)[0].title, None);
}

#[test]
fn stderr_error_text() {
    assert_eq!(
        error_tail("WARNING: a\nERROR: Unsupported URL: x  \n"),
        Some("ERROR: Unsupported URL: x".to_string())
    );
    assert_eq!(error_tail("ERROR: a\n   \n"), None);
    assert_eq!(error_tail(""), None);
}

#[test]
fn chunks_give_complete_lines() {
    let mut pending = Vec::new();
    assert!(take_complete_lines(&mut pending, b"__PROG__|1|").is_empty());
    assert_eq!(pending, b"__PROG__|1|".to_vec());
    let lines = take_complete_lines(&mut pending, b"2|3|4|5\n__ENTRY__|T\nrest");
    assert_eq!(lines, vec![b"__PROG__|1|2|3|4|5".to_vec(), b"__ENTRY__|T".to_vec()]);
    assert_eq!(pending, b"rest".to_vec());
    let lines = take_complete_lines(&mut pending, b"\n\n");
    assert_eq!(lines, vec![b"rest".to_vec(), b"".to_vec()]);
    assert!(pending.is_empty());
}

#[test]
fn lines_applied_as_they_arrive() {
    let mut m = JobManager::new();
    let id = start_download(&mut m, "u").unwrap();
    let r = m.apply_output_line(id, b"__PROG__|5|10|NA|1.5|2\r", None, true);
    assert_eq!(r.progress.len(), 1);
    assert_eq!(r.progress[0].eta, Some("2".to_string()));
    assert_eq!(r.title, None);
    let r = m.apply_output_line(id, b"__ENTRY__|Clip", None, true);
    assert_eq!(r.title, Some("Clip".to_string()));
    assert!(r.progress.is_empty());
    let r = m.apply_output_line(id, b"__FILE__|D:\\\xcf\xc2\\c.mp4", Some("__FILE__|D:\\下\\c.mp4".to_string()), false);
    assert_eq!(r.filepath, Some("D:\\下\\c.mp4".to_string()));
    let j = &list_jobs(&m)[0];
    assert_eq!(j.title, Some("Clip".to_string()));
    assert_eq!(j.filepath, Some("D:\\下\\c.mp4".to_string()));
    let r = m.apply_text(id, "__ENTRY__|A\n__ENTRY__|B\n");
    assert_eq!(r.title, Some("B".to_string()));
}
