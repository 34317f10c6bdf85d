use rust_sync::plan::{plan_pull, plan_push, remote_key_for, remote_orphans, PullPlan, RemoteCheck};

fn strings(v: &[&str]) -> Vec<String> {
    v.iter().map(|s| s.to_string()).collect()
}

fn fetched(plan: &PullPlan) -> Vec<bool> {
    plan.steps.iter().map(|s| s.fetch).collect()
}

#[test]
fn remote_key_joins_prefix_and_relative_path() {
    assert_eq!(remote_key_for("photos", "2024/a.jpg"), "photos/2024/a.jpg");
    assert_eq!(remote_key_for("", "a.jpg"), "a.jpg");
    assert_eq!(remote_key_for("photos/", "a.jpg"), "photos//a.jpg");
}

#[test]
fn pull_with_refetch_downloads_missing_keys_once() {
    let keys = strings(&["p/a.txt", "p/c.txt", "p/c.txt", "other/d.txt"]);
    let files = strings(&["/data/a.txt", "/data/sub/b.txt"]);
    let plan = plan_pull(&keys, "p", "/data", &files, true);
    assert_eq!(plan.steps.len(), 4);
    assert_eq!(fetched(&plan), vec![false, true, false, true]);
    assert_eq!(plan.steps[0].relative, "a.txt");
    assert_eq!(plan.steps[1].relative, "c.txt");
    assert_eq!(plan.steps[1].target, "/data/c.txt");
    assert_eq!(plan.steps[3].relative, "other/d.txt");
    assert_eq!(plan.steps[3].target, "/data/other/d.txt");
    assert_eq!(plan.steps[2].key, "p/c.txt");
    assert_eq!(plan.orphans, strings(&["/data/sub/b.txt"]));
}

#[test]
fn pull_without_refetch_downloads_only_present_files() {
    let keys = strings(&["p/a.txt", "p/c.txt", "p/sub/b.txt"]);
    let files = strings(&["/data/a.txt", "/data/sub/b.txt"]);
    let plan = plan_pull(&keys, "p", "/data", &files, false);
    assert_eq!(fetched(&plan), vec![true, false, true]);
    assert!(plan.orphans.is_empty());
}

#[test]
fn pull_with_empty_prefix_uses_keys_as_paths() {
    let keys = strings(&["a.txt", "dir/b.txt"]);
    let files = strings(&["/data/a.txt", "/data/z.txt"]);
    let plan = plan_pull(&keys, "", "/data", &files, true);
    assert_eq!(fetched(&plan), vec![false, true]);
    assert_eq!(plan.steps[1].target, "/data/dir/b.txt");
    assert_eq!(plan.orphans, strings(&["/data/z.txt"]));
}

#[test]
fn pull_compares_paths_by_components() {
    let keys = strings(&["p/sub//b.txt"]);
    let files = strings(&["/data/sub/b.txt"]);
    let plan = plan_pull(&keys, "p", "/data", &files, true);
    assert_eq!(fetched(&plan), vec![false]);
}

#[test]
fn pull_ignores_files_outside_local_dir() {
    let keys = strings(&["p/a.txt"]);
    let files = strings(&["/elsewhere/a.txt"]);
    let plan = plan_pull(&keys, "p", "/data", &files, false);
    assert_eq!(fetched(&plan), vec![false]);
    assert!(plan.orphans.is_empty());
}

#[test]
fn pull_of_empty_listing_deletes_every_local_file() {
    let keys: Vec<String> = Vec::new();
    let files = strings(&["/data/a.txt", "/data/b.txt"]);
    let plan = plan_pull(&keys, "p", "/data", &files, true);
    assert!(plan.steps.is_empty());
    assert_eq!(plan.orphans, files);
}

#[test]
fn push_uploads_every_file_and_checks_every_key() {
    let keys = strings(&["p/a.txt", "p/gone.txt", "q/x"]);
    let files = strings(&["/data/a.txt", "/data/sub/b.txt"]);
    let plan = plan_push(&keys, "p", "/data", &files);
    assert!(plan.unplaced.is_none());
    assert_eq!(plan.uploads.len(), 2);
    assert_eq!(plan.uploads[0].local_path, "/data/a.txt");
    assert_eq!(plan.uploads[0].key, "p/a.txt");
    assert_eq!(plan.uploads[1].key, "p/sub/b.txt");
    assert_eq!(plan.checks.len(), 3);
    assert_eq!(plan.checks[0].target, "/data/a.txt");
    assert_eq!(plan.checks[1].target, "/data/gone.txt");
    assert_eq!(plan.checks[2].key, "q/x");
    assert_eq!(plan.checks[2].target, "/data/q/x");
}

#[test]
fn push_stops_at_a_file_outside_local_dir() {
    let keys = strings(&["p/a.txt"]);
    let files = strings(&["/data/a.txt", "/elsewhere/x", "/data/b"]);
    let plan = plan_push(&keys, "p", "/data", &files);
    assert_eq!(plan.unplaced, Some("/elsewhere/x".to_string()));
    assert_eq!(plan.uploads.len(), 1);
    assert!(plan.checks.is_empty());
}

#[test]
fn push_deletes_exactly_absent_objects() {
    let checks = vec![
        RemoteCheck { key: "p/a".to_string(), target: "/d/a".to_string() },
        RemoteCheck { key: "p/b".to_string(), target: "/d/b".to_string() },
        RemoteCheck { key: "p/c".to_string(), target: "/d/c".to_string() },
    ];
    assert_eq!(remote_orphans(&checks, &vec![true, false, false]), strings(&["p/b", "p/c"]));
    assert!(remote_orphans(&checks, &vec![true, true, true]).is_empty());
}

#[test]
fn pushed_files_survive_a_pull() {
    let files = strings(&["/data/a.txt", "/data/sub/b.txt", "/data/c"]);
    let push = plan_push(&Vec::new(), "p", "/data", &files);
    let keys: Vec<String> = push.uploads.iter().map(|u| u.key.clone()).collect();
    let pull = plan_pull(&keys, "p", "/data", &files, true);
    assert!(pull.orphans.is_empty());
    assert_eq!(fetched(&pull), vec![false, false, false]);
}

#[test]
fn second_pull_after_a_settled_one_is_quiet() {
    let keys = strings(&["p/a", "p/b"]);
    let first = plan_pull(&keys, "p", "/data", &strings(&["/data/a", "/data/z"]), true);
    assert_eq!(fetched(&first), vec![false, true]);
    assert_eq!(first.orphans, strings(&["/data/z"]));
    let second = plan_pull(&keys, "p", "/data", &strings(&["/data/a", "/data/b"]), true);
    assert_eq!(fetched(&second), vec![false, false]);
    assert!(second.orphans.is_empty());
}

#[test]
fn prefix_with_trailing_slash_keeps_listed_files() {
    let keys = strings(&["data/x.csv", "data/y.csv"]);
    let files = strings(&["/local/x.csv", "/local/z.csv"]);
    let plan = plan_pull(&keys, "data/", "/local", &files, true);
    assert_eq!(fetched(&plan), vec![false, true]);
    assert_eq!(plan.steps[1].target, "/local/y.csv");
    assert_eq!(plan.orphans, strings(&["/local/z.csv"]));
}

#[test]
fn file_where_a_listed_key_lands_is_kept() {
    let keys = strings(&["pq/x"]);
    let files = strings(&["/data/pq/x", "/data/x"]);
    let plan = plan_pull(&keys, "p", "/data", &files, false);
    assert_eq!(plan.steps[0].relative, "pq/x");
    assert_eq!(fetched(&plan), vec![true]);
    assert_eq!(plan.orphans, strings(&["/data/x"]));
}
