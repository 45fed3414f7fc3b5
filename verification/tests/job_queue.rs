use ytdlp_gui::jobs::{
    cancel_download, clear_finished, is_terminal_status, list_jobs, start_download, JobManager,
    JobStatus,
};

fn ids(m: &JobManager) -> Vec<u32> {
    list_jobs(m).iter().map(|j| j.id).collect()
}

#[test]
fn empty_url_is_refused() {
    let mut m = JobManager::new();
    assert_eq!(start_download(&mut m, ""), Err("URL is empty".to_string()));
    assert_eq!(start_download(&mut m, "  \t\n"), Err("URL is empty".to_string()));
    assert!(list_jobs(&m).is_empty());
    // A refused URL does not use up an id.
    assert_eq!(start_download(&mut m, "u"), Ok(1));
}

#[test]
fn new_jobs_are_queued_with_increasing_ids() {
    let mut m = JobManager::default();
    assert_eq!(start_download(&mut m, "  https://a.example/v  "), Ok(1));
    assert_eq!(start_download(&mut m, "https://b.example/v"), Ok(2));
    let jobs = list_jobs(&m);
    assert_eq!(jobs.len(), 2);
    assert_eq!(jobs[0].id, 1);
    assert_eq!(jobs[0].url, "https://a.example/v");
    assert_eq!(jobs[0].status, JobStatus::Queued);
    assert_eq!(jobs[0].title, None);
    assert_eq!(jobs[0].filepath, None);
    assert_eq!(jobs[0].error, None);
    assert_eq!(jobs[1].id, 2);
    assert_eq!(jobs[1].url, "https://b.example/v");
}

#[test]
fn cancel_marks_only_that_job() {
    let mut m = JobManager::new();
    start_download(&mut m, "a").unwrap();
    start_download(&mut m, "b").unwrap();
    assert_eq!(cancel_download(&mut m, 2), Ok(()));
    let jobs = list_jobs(&m);
    assert_eq!(jobs[0].status, JobStatus::Queued);
    assert_eq!(jobs[1].status, JobStatus::Cancelled);
    assert!(m.is_cancelled(2));
    assert!(!m.is_cancelled(1));
    // Unknown ids are accepted and change nothing.
    assert_eq!(cancel_download(&mut m, 77), Ok(()));
    assert!(!m.is_cancelled(77));
    assert_eq!(ids(&m), vec![1, 2]);
}

#[test]
fn cancelled_job_ends_cancelled() {
    let mut m = JobManager::new();
    let id = start_download(&mut m, "a").unwrap();
    cancel_download(&mut m, id).unwrap();
    let (status, message) = m.finish_job(id, true, &Some("T".to_string()), &None, Some("boom".to_string()));
    assert_eq!(status, JobStatus::Cancelled);
    assert_eq!(message, None);
    let jobs = list_jobs(&m);
    assert_eq!(jobs[0].status, JobStatus::Cancelled);
    assert_eq!(jobs[0].title, Some("T".to_string()));
    assert_eq!(jobs[0].error, None);
}

#[test]
fn successful_run_finishes() {
    let mut m = JobManager::new();
    let id = start_download(&mut m, "a").unwrap();
    let (status, message) = m.finish_job(
        id,
        true,
        &Some("Title".to_string()),
        &Some("C:\\v.mp4".to_string()),
        Some("warning".to_string()),
    );
    assert_eq!(status, JobStatus::Finished);
    assert_eq!(message, None);
    let j = &list_jobs(&m)[0];
    assert_eq!(j.status, JobStatus::Finished);
    assert_eq!(j.filepath, Some("C:\\v.mp4".to_string()));
    assert_eq!(j.error, None);
}

#[test]
fn failed_run_keeps_first_error() {
    let mut m = JobManager::new();
    let a = start_download(&mut m, "a").unwrap();
    let b = start_download(&mut m, "b").unwrap();
    let (status, message) = m.finish_job(a, false, &None, &None, Some("ERROR: x".to_string()));
    assert_eq!(status, JobStatus::Error);
    assert_eq!(message, Some("ERROR: x".to_string()));
    assert_eq!(list_jobs(&m)[0].error, Some("ERROR: x".to_string()));
    // An error recorded earlier stays; the message still reports the new text.
    m.fail_job(b, "raw args parse error: missing closing quote".to_string());
    let (status, message) = m.finish_job(b, false, &None, &None, Some("later".to_string()));
    assert_eq!(status, JobStatus::Error);
    assert_eq!(message, Some("later".to_string()));
    assert_eq!(
        list_jobs(&m)[1].error,
        Some("raw args parse error: missing closing quote".to_string())
    );
}

#[test]
fn failed_run_without_message() {
    let mut m = JobManager::new();
    let a = start_download(&mut m, "a").unwrap();
    let (status, message) = m.finish_job(a, false, &None, &None, None);
    assert_eq!(status, JobStatus::Error);
    assert_eq!(message, None);
    assert_eq!(list_jobs(&m)[0].error, None);
}

#[test]
fn finishing_unknown_job_changes_nothing() {
    let mut m = JobManager::new();
    start_download(&mut m, "a").unwrap();
    let (status, message) = m.finish_job(9, false, &None, &None, Some("e".to_string()));
    assert_eq!(status, JobStatus::Error);
    assert_eq!(message, Some("e".to_string()));
    assert_eq!(list_jobs(&m)[0].status, JobStatus::Queued);
}

#[test]
fn clear_finished_keeps_active_jobs() {
    let mut m = JobManager::new();
    for u in ["a", "b", "c", "d", "e"] {
        start_download(&mut m, u).unwrap();
    }
    m.finish_job(1, true, &None, &None, None);
    m.finish_job(3, false, &None, &None, None);
    cancel_download(&mut m, 4).unwrap();
    clear_finished(&mut m);
    assert_eq!(ids(&m), vec![2, 5]);
    clear_finished(&mut m);
    assert_eq!(ids(&m), vec![2, 5]);
    // Ids are never reused after clearing.
    assert_eq!(start_download(&mut m, "f"), Ok(6));
    assert_eq!(ids(&m), vec![2, 5, 6]);
}

#[test]
fn fail_and_record_output() {
    let mut m = JobManager::new();
    let id = start_download(&mut m, "a").unwrap();
    m.record_output(id, &Some("T".to_string()), &None);
    m.record_output(id, &None, &Some("p".to_string()));
    let j = list_jobs(&m).remove(0);
    assert_eq!(j.title, Some("T".to_string()));
    assert_eq!(j.filepath, Some("p".to_string()));
    m.fail_job(id, "failed to spawn yt-dlp: x".to_string());
    let j = list_jobs(&m).remove(0);
    assert_eq!(j.status, JobStatus::Error);
    assert_eq!(j.error, Some("failed to spawn yt-dlp: x".to_string()));
    let copy = j.snapshot();
    assert_eq!(copy.url, "a");
    assert_eq!(copy.title, Some("T".to_string()));
}

#[test]
fn terminal_statuses() {
    assert!(is_terminal_status(JobStatus::Finished));
    assert!(is_terminal_status(JobStatus::Error));
    assert!(is_terminal_status(JobStatus::Cancelled));
    assert!(!is_terminal_status(JobStatus::Queued));
    assert!(!is_terminal_status(JobStatus::Resolving));
    assert!(!is_terminal_status(JobStatus::Downloading));
}

#[test]
fn issued_ids_and_urls() {
    let mut m = JobManager::new();
    assert_eq!(m.issued(), 0);
    start_download(&mut m, " https://x.example/a ").unwrap();
    start_download(&mut m, "").unwrap_err();
    assert_eq!(m.issued(), 1);
    assert_eq!(m.job_url(1), Some("https://x.example/a".to_string()));
    assert_eq!(m.job_url(2), None);
}

#[test]
fn urls_are_kept_trimmed() {
    let mut m = JobManager::new();
    start_download(&mut m, "\t https://x.example/a\n").unwrap();
    start_download(&mut m, "https://x.example/b ").unwrap();
    cancel_download(&mut m, 1).unwrap();
    m.finish_job(2, true, &None, &None, None);
    for j in list_jobs(&m) {
        assert!(!j.url.is_empty());
        assert_eq!(j.url, j.url.trim());
    }
    assert_eq!(m.job_url(1), Some("https://x.example/a".to_string()));
    assert_eq!(m.job_url(2), Some("https://x.example/b".to_string()));
}
