use rust_sync::error::SyncError;
use rust_sync::filter::NameFilter;
use rust_sync::listing::{should_delete_old_file, KeyListing, LocalScan};

#[test]
fn filter_matches_file_names() {
    let f = NameFilter::new(r"\.jpg$").unwrap();
    assert!(f.matches_file_name("a.jpg"));
    assert!(!f.matches_file_name("a.png"));
    assert!(!f.matches_file_name("a.jpg.bak"));
}

#[test]
fn filter_on_keys_looks_at_the_last_segment() {
    let f = NameFilter::new(r"^data").unwrap();
    assert!(f.matches_key("archive/data_1.csv"));
    assert!(!f.matches_key("data/readme.txt"));
    assert!(f.matches_key("data_2.csv"));
    let any = NameFilter::new(".").unwrap();
    assert!(!any.matches_key("folder/"));
}

#[test]
fn invalid_pattern_is_refused_with_message() {
    match NameFilter::new("foo(bar") {
        Err(SyncError::InvalidPattern(msg)) => {
            assert_eq!(msg, regex::Regex::new("foo(bar").unwrap_err().to_string());
        }
        _ => panic!("pattern should be refused"),
    }
}

#[test]
fn listing_keeps_selected_keys_in_order_across_pages() {
    let f = NameFilter::new(r"\.txt$").unwrap();
    let mut listing = KeyListing::new();
    listing.absorb_page(&f, &vec![Some("p/a.txt".to_string()), Some("p/b.bin".to_string()), None]);
    listing.absorb_page(&f, &vec![Some("p/c.txt".to_string()), Some("x.txt/".to_string())]);
    assert_eq!(listing.keys, vec!["p/a.txt".to_string(), "p/c.txt".to_string()]);
}

#[test]
fn listing_of_missing_key_counts_as_empty_key() {
    let f = NameFilter::new("^$").unwrap();
    let mut listing = KeyListing::new();
    listing.absorb_page(&f, &vec![None]);
    assert_eq!(listing.keys, vec![String::new()]);
}

#[test]
fn old_files_are_deleted_only_when_enabled_and_older() {
    assert!(should_delete_old_file(true, Some(1001), 1000));
    assert!(!should_delete_old_file(true, Some(1000), 1000));
    assert!(!should_delete_old_file(true, None, 1000));
    assert!(!should_delete_old_file(false, Some(5000), 1000));
    assert!(should_delete_old_file(true, Some(u128::MAX), u64::MAX));
}

#[test]
fn listing_does_not_depend_on_page_boundaries() {
    let f = NameFilter::new(r"^[ab]").unwrap();
    let entries = vec![
        Some("x/a1".to_string()),
        Some("x/c1".to_string()),
        None,
        Some("b2".to_string()),
        Some("a/c".to_string()),
    ];
    let mut whole = KeyListing::new();
    whole.absorb_page(&f, &entries);
    let mut split = KeyListing::new();
    split.absorb_page(&f, &entries[..2].to_vec());
    split.absorb_page(&f, &entries[2..].to_vec());
    assert_eq!(whole.keys, split.keys);
    assert_eq!(whole.keys, vec!["x/a1".to_string(), "b2".to_string()]);
}

#[test]
fn scan_admits_only_files_whose_name_matches() {
    let f = NameFilter::new(r"^log").unwrap();
    assert!(LocalScan::admits(&f, "/data/sub/log1.txt", true));
    assert!(!LocalScan::admits(&f, "/data/log_dir", false));
    assert!(!LocalScan::admits(&f, "/data/log/readme", true));
    assert!(!LocalScan::admits(&f, "/data/..", true));
    let any = NameFilter::new("").unwrap();
    assert!(LocalScan::admits(&any, "/", true));
}

#[test]
fn scan_keeps_young_files_and_deletes_old_ones() {
    let mut scan = LocalScan::new();
    assert!(!scan.settle("/d/a", true, Some(10), 100));
    assert!(scan.settle("/d/b", true, Some(101), 100));
    assert!(!scan.settle("/d/c", true, None, 100));
    assert!(!scan.settle("/d/e", false, Some(1_000_000), 100));
    assert_eq!(scan.kept, vec!["/d/a".to_string(), "/d/c".to_string(), "/d/e".to_string()]);
}
