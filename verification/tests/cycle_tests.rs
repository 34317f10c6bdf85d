use rust_sync::config::Config;
use rust_sync::cycle::{log_line, plan_cycle, timeout_outcome, CycleTarget};
use rust_sync::error::SyncError;
use rust_sync::error::decimal;
use rust_sync::instance::{lock_file_name, lock_verdict, recorded_pid, trim_white_space, LockVerdict};

#[test]
fn cycle_on_local_path_does_nothing() {
    assert_eq!(plan_cycle("/mnt/backup", "pull"), Ok(CycleTarget::LocalOnly));
    assert_eq!(plan_cycle("/mnt/backup", "anything"), Ok(CycleTarget::LocalOnly));
}

#[test]
fn cycle_dispatches_on_mode() {
    assert_eq!(
        plan_cycle("s3://b/p", "pull"),
        Ok(CycleTarget::Pull { bucket: "b".to_string(), prefix: "p".to_string() })
    );
    assert_eq!(
        plan_cycle("s3://b", "push"),
        Ok(CycleTarget::Push { bucket: "b".to_string(), prefix: String::new() })
    );
    assert_eq!(
        plan_cycle("s3://b/p", "Pull"),
        Err(SyncError::UnknownSyncMode("Pull".to_string()))
    );
}

#[test]
fn timeout_keeps_result_or_reports_limit() {
    let done: Option<Result<u32, String>> = Some(Ok(5));
    assert_eq!(timeout_outcome(done, 100), Ok(Ok(5)));
    let failed: Option<Result<u32, String>> = Some(Err("boom".to_string()));
    assert_eq!(timeout_outcome(failed, 100), Ok(Err("boom".to_string())));
    let late: Option<Result<u32, String>> = None;
    assert_eq!(timeout_outcome(late, 2500), Err(SyncError::Timeout(2500)));
}

#[test]
fn log_line_has_stamp_message_and_newline() {
    assert_eq!(log_line("[2024-01-02 03:04:05]", "App started"), "[2024-01-02 03:04:05] App started\n");
}

#[test]
fn lock_file_name_flattens_separators() {
    assert_eq!(
        lock_file_name("/home/u/data", "s3://b/p"),
        "rust_sync__home_u_data_s3:__b_p.pid"
    );
    assert_eq!(lock_file_name("C:\\sync", "x"), "rust_sync_C:_sync_x.pid");
    let name = lock_file_name("a/b\\c", "d/e");
    assert!(!name.contains('/') && !name.contains('\\'));
}

#[test]
fn recorded_pid_reads_trimmed_decimal() {
    assert_eq!(recorded_pid(" 1234\n"), Some(1234));
    assert_eq!(recorded_pid("+7"), Some(7));
    assert_eq!(recorded_pid("4294967295"), Some(u32::MAX));
    assert_eq!(recorded_pid("4294967296"), None);
    assert_eq!(recorded_pid("-7"), None);
    assert_eq!(recorded_pid("12a"), None);
    assert_eq!(recorded_pid("+"), None);
    assert_eq!(recorded_pid("   "), None);
    assert_eq!(recorded_pid(""), None);
    assert_eq!(recorded_pid("0042"), Some(42));
}

#[test]
fn settings_file_lies_beside_the_executable() {
    assert_eq!(Config::file_beside("/opt/app/sync"), Some("/opt/app/config.toml".to_string()));
    assert_eq!(Config::file_beside("sync"), Some("config.toml".to_string()));
    assert_eq!(Config::file_beside("/"), None);
}

#[test]
fn trimming_matches_str_trim() {
    for text in ["  a b \t\n", "\u{a0}\u{3000}x\u{2028}", "", "   ", "x", "\u{200b}x\u{200b}", "\u{85}1\u{205f}"] {
        assert_eq!(trim_white_space(text), text.trim());
    }
    assert_eq!(recorded_pid("\u{3000}77\u{a0}"), Some(77));
}

#[test]
fn decimal_writes_numbers() {
    for n in [0u64, 7, 10, 99, 100, 2500, u64::MAX] {
        assert_eq!(decimal(n), n.to_string());
    }
}

#[test]
fn error_messages_read_as_before() {
    assert_eq!(SyncError::InvalidS3Path.message(), "Invalid S3 path format");
    assert_eq!(SyncError::InvalidPattern("bad".to_string()).message(), "bad");
    assert_eq!(SyncError::UnknownSyncMode("sideways".to_string()).message(), "Unknown sync_mode: sideways");
    assert_eq!(SyncError::OutsideLocalDir("/x".to_string()).message(), "prefix not found");
    assert_eq!(SyncError::Timeout(2500).message(), "Operation timeout after 2500 ms");
}

#[test]
fn lock_is_held_only_by_a_live_recorded_process() {
    assert_eq!(lock_verdict(Some(42), true), LockVerdict::HeldBy(42));
    assert_eq!(lock_verdict(Some(42), false), LockVerdict::Free);
    assert_eq!(lock_verdict(None, true), LockVerdict::Free);
    assert_eq!(lock_verdict(None, false), LockVerdict::Free);
}
