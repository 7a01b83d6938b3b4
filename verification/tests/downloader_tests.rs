use sftp_download::paths::{join_remote, relative_path, remote_file_name, trim_end_slashes};
use sftp_download::progress::format_bytes;
use sftp_download::sftp_downloader::{
    filter_file, finish_line, format_file_result, keep_latest, mtime_in_range, plan_entry, plan_file,
    progress_prefix, total_size, truncate_str, DownloadOptions, DownloadTask, EntryPlan, FilePlan,
    FileTransfer, FileVerdict, CHUNK_SIZE,
};

fn task(name: &str, size: u64, mtime: Option<i64>) -> DownloadTask {
    DownloadTask {
        remote_path: format!("/data/{}", name),
        local_path: format!("./data/{}", name),
        file_size: size,
        mtime,
    }
}

fn names(tasks: &[DownloadTask]) -> Vec<String> {
    tasks.iter().map(|t| t.remote_path.clone()).collect()
}

#[test]
fn default_options() {
    let o = DownloadOptions::default();
    assert!(!o.skip_existing);
    assert!(!o.resume);
    assert_eq!(o.parallel, 4);
    assert!(o.exclude_patterns.is_empty());
    assert!(o.include_patterns.is_empty());
    assert!(!o.ignore_case);
    assert_eq!(o.since, None);
    assert_eq!(o.until, None);
    assert_eq!(o.latest, None);
}

#[test]
fn mtime_range_bounds_are_inclusive() {
    assert!(mtime_in_range(100, None, None));
    assert!(mtime_in_range(100, Some(100), Some(100)));
    assert!(!mtime_in_range(99, Some(100), None));
    assert!(!mtime_in_range(101, None, Some(100)));
    assert!(mtime_in_range(-5, None, Some(0)));
}

#[test]
fn latest_keeps_newest_first() {
    let tasks = vec![
        task("a", 1, Some(10)),
        task("b", 2, None),
        task("c", 3, Some(30)),
        task("d", 4, Some(20)),
        task("e", 5, Some(30)),
    ];
    let kept = keep_latest(tasks, Some(3));
    assert_eq!(names(&kept), vec!["/data/c", "/data/e", "/data/d"]);
}

#[test]
fn latest_unknown_mtime_sinks() {
    let tasks = vec![task("a", 1, None), task("b", 2, Some(-1)), task("c", 3, None)];
    let kept = keep_latest(tasks, Some(2));
    assert_eq!(names(&kept), vec!["/data/b", "/data/a"]);
}

#[test]
fn latest_zero_clears_and_large_keeps_order() {
    let tasks = vec![task("a", 1, Some(1)), task("b", 2, Some(2))];
    assert!(keep_latest(tasks.clone(), Some(0)).is_empty());
    assert_eq!(names(&keep_latest(tasks.clone(), Some(2))), vec!["/data/a", "/data/b"]);
    assert_eq!(names(&keep_latest(tasks.clone(), Some(5))), vec!["/data/a", "/data/b"]);
    assert_eq!(names(&keep_latest(tasks, None)), vec!["/data/a", "/data/b"]);
}

#[test]
fn filter_pipeline_order() {
    let mut o = DownloadOptions::default();
    o.include_patterns = vec!["*.log".to_string()];
    o.exclude_patterns = vec!["debug*".to_string()];
    o.since = Some(100);
    o.until = Some(200);
    assert_eq!(filter_file("app.log", Some(150), &o), FileVerdict::Keep);
    assert_eq!(filter_file("app.log", None, &o), FileVerdict::Keep);
    assert_eq!(filter_file("app.txt", Some(150), &o), FileVerdict::NotIncluded);
    assert_eq!(filter_file("debug.log", Some(150), &o), FileVerdict::Excluded);
    assert_eq!(filter_file("app.log", Some(99), &o), FileVerdict::OutOfRange);
    assert_eq!(filter_file("app.log", Some(201), &o), FileVerdict::OutOfRange);
    // Whitelist first: a file outside it is reported as not included even if excluded.
    assert_eq!(filter_file("debug.txt", Some(150), &o), FileVerdict::NotIncluded);
    o.ignore_case = true;
    assert_eq!(filter_file("APP.LOG", Some(150), &o), FileVerdict::Keep);
    assert_eq!(filter_file("DEBUG.LOG", Some(150), &o), FileVerdict::Excluded);
}

#[test]
fn plan_entry_cases() {
    let o = DownloadOptions::default();
    assert!(matches!(plan_entry("/data", "/data", ".", true, None, None, &o), EntryPlan::Skip));
    assert!(matches!(plan_entry("/data", "/data", "..", true, None, None, &o), EntryPlan::Skip));
    match plan_entry("/data", "/data", "sub", true, None, None, &o) {
        EntryPlan::Descend(p) => assert_eq!(p, "/data/sub"),
        _ => panic!("expected a directory"),
    }
    match plan_entry("/data/sub", "/data", "a.log", false, Some(7), Some(42), &o) {
        EntryPlan::Fetch { remote_path, relative_path, file_size, mtime } => {
            assert_eq!(remote_path, "/data/sub/a.log");
            assert_eq!(relative_path, "sub/a.log");
            assert_eq!(file_size, 7);
            assert_eq!(mtime, Some(42));
        }
        _ => panic!("expected a file"),
    }
    match plan_entry("/", "", "x", false, None, None, &o) {
        EntryPlan::Fetch { remote_path, relative_path, file_size, .. } => {
            assert_eq!(remote_path, "/x");
            assert_eq!(relative_path, "x");
            assert_eq!(file_size, 0);
        }
        _ => panic!("expected a file"),
    }
    let mut ex = DownloadOptions::default();
    ex.exclude_patterns = vec!["*.tmp".to_string()];
    assert!(matches!(plan_entry("/d", "/d", "b.tmp", false, Some(1), None, &ex), EntryPlan::Skip));
}

#[test]
fn remote_paths() {
    assert_eq!(remote_file_name("/data/app.log"), "app.log");
    assert_eq!(remote_file_name("app.log"), "app.log");
    assert_eq!(remote_file_name("/data/dir/"), "dir");
    assert_eq!(remote_file_name("/data/dir/."), "dir");
    assert_eq!(remote_file_name("/data/.."), "/data/..");
    assert_eq!(remote_file_name("/"), "/");
    assert_eq!(remote_file_name(""), "");
    assert_eq!(trim_end_slashes("/data///"), "/data");
    assert_eq!(trim_end_slashes("/"), "");
    assert_eq!(join_remote("/data", "a"), "/data/a");
    assert_eq!(join_remote("/data/", "a"), "/data/a");
    assert_eq!(join_remote("", "a"), "/a");
    assert_eq!(relative_path("/data/x/y", "/data"), "x/y");
    assert_eq!(relative_path("/other/y", "/data"), "/other/y");
    assert_eq!(relative_path("/data//y", "/data"), "y");
}

#[test]
fn plan_file_cases() {
    // No local file: always start fresh.
    assert_eq!(plan_file(None, 10, true, false), FilePlan::Fresh);
    assert_eq!(plan_file(None, 10, false, true), FilePlan::Fresh);
    // Skip an already complete file.
    assert_eq!(plan_file(Some(10), 10, true, false), FilePlan::AlreadyComplete(10));
    // Skip leaves any existing file alone, even a shorter one.
    assert_eq!(plan_file(Some(3), 10, true, false), FilePlan::AlreadyComplete(3));
    assert_eq!(plan_file(Some(0), 10, true, false), FilePlan::AlreadyComplete(0));
    // Skip together with resume: resume decides.
    assert_eq!(plan_file(Some(3), 10, true, true), FilePlan::ResumeFrom(3));
    // Resume from the local size.
    assert_eq!(plan_file(Some(3), 10, false, true), FilePlan::ResumeFrom(3));
    assert_eq!(plan_file(Some(12), 10, false, true), FilePlan::AlreadyComplete(12));
    // Default: overwrite.
    assert_eq!(plan_file(Some(12), 10, false, false), FilePlan::Fresh);
}

#[test]
fn chunked_transfer() {
    let mut t = FileTransfer::new(0, (CHUNK_SIZE as u64) * 16 + 5);
    assert!(t.wants_more());
    assert_eq!(t.next_read_len(), CHUNK_SIZE);
    let mut flushes = 0;
    while t.wants_more() {
        let n = t.next_read_len();
        if t.advance(n) {
            flushes += 1;
        }
    }
    assert_eq!(t.offset, (CHUNK_SIZE as u64) * 16 + 5);
    assert_eq!(flushes, 1);
    let t = FileTransfer::new(7, 10);
    assert_eq!(t.next_read_len(), 3);
}

#[test]
fn sizes_add_up() {
    let tasks = vec![task("a", 1, None), task("b", 20, None), task("c", 300, None)];
    assert_eq!(total_size(&tasks), 321);
    assert_eq!(total_size(&Vec::new()), 0);
}

#[test]
fn truncation() {
    assert_eq!(truncate_str("short.log", 30), "short.log");
    assert_eq!(truncate_str("abcdefghij", 8), "...fghij");
    assert_eq!(truncate_str("abcdefgh", 8), "abcdefgh");
}

#[test]
fn byte_formatting() {
    assert_eq!(format_bytes(15), "15 B");
    assert_eq!(format_bytes(0), "0 B");
    assert_eq!(format_bytes(1500), "1.46 KiB");
}

#[test]
fn file_result_line() {
    let line = format_file_result(1, 1, "backup.tar.gz", 200, 200, None);
    assert_eq!(line, format!("(1/1) {:<30} {:>10}  {:>3}%  {}", "backup.tar.gz", "200 B", 100, "N/A"));
    let line = format_file_result(2, 8, "a.log", 1000, 250, Some(100));
    assert_eq!(line, format!("(2/8) {:<30} {:>10}  {:>3}%  {}", "a.log", "250 B", 25, "100 B/s"));
    let empty = format_file_result(1, 1, "e", 0, 0, None);
    assert!(empty.contains(" 100%  N/A"));
    // An empty remote file: no percentage to compute, whatever was transferred.
    let odd = format_file_result(1, 1, "e", 0, u64::MAX, None);
    assert!(odd.contains(" 100%  N/A"));
}

#[test]
fn directory_progress_lines() {
    let prefix = progress_prefix(3, 8, "20260610_Info.log");
    assert_eq!(prefix, format!("(3/8) {:<28}", "20260610_Info.log"));
    let long = progress_prefix(1, 2, "a_very_long_file_name_that_keeps_going.log");
    assert_eq!(long, "(1/2) ...name_that_keeps_going.log");
    let done = finish_line(&prefix, 10, 5, None);
    assert_eq!(done, format!("{} {:>10}  {:>3}%  -", prefix, "5 B", 50));
}
