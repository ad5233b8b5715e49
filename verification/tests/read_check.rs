use freemkv::strings;
use freemkv::verify::{
    bad_clusters, exit_status, progress_pct, result_rows, row_head, status_key, total_sectors,
    verify_target, SectorStatus,
};

#[test]
fn result_rows_skip_zero_counts() {
    assert_eq!(result_rows(10, 0, 0, 0), vec![("verify.good", 10)]);
    assert_eq!(
        result_rows(10, 1, 0, 2),
        vec![("verify.good", 10), ("verify.slow", 1), ("verify.bad", 2)]
    );
    assert_eq!(result_rows(0, 0, 3, 0), vec![("verify.good", 0), ("verify.recovered", 3)]);
}

#[test]
fn result_row_columns() {
    assert_eq!(row_head("verify.good", 1234), "Good:               1234");
    assert_eq!(row_head("verify.recovered", 5).len(), 11 + 1 + 12);
}

#[test]
fn damaged_ranges_and_clusters() {
    assert_eq!(status_key(SectorStatus::Bad), Some("verify.status_bad"));
    assert_eq!(status_key(SectorStatus::Slow), Some("verify.status_slow"));
    assert_eq!(status_key(SectorStatus::Good), None);
    let s = [SectorStatus::Bad, SectorStatus::Slow, SectorStatus::Bad, SectorStatus::Recovered];
    assert_eq!(bad_clusters(&s), 2);
    assert_eq!(bad_clusters(&[]), 0);
}

#[test]
fn progress_and_totals() {
    assert_eq!(progress_pct(50, 200), 25);
    assert_eq!(progress_pct(5, 0), 0);
    assert_eq!(progress_pct(200, 200), 100);
    assert_eq!(total_sectors(&[1, 2, u32::MAX]), 3 + u32::MAX as u64);
    assert_eq!(total_sectors(&[]), 0);
}

#[test]
fn check_outcome() {
    assert_eq!(exit_status(0), 0);
    assert_eq!(exit_status(7), 1);
    assert_eq!(verify_target(&[]), "disc://");
    assert_eq!(verify_target(&["disc:///dev/sg2".to_string()]), "disc:///dev/sg2");
    assert_eq!(strings::fmt("verify.unrecoverable", &[("count", "3"), ("clusters", "1")]),
        "3 unrecoverable sectors in 1 clusters");
}

#[test]
fn message_lookup_falls_back_to_key() {
    assert_eq!(strings::get("no.such.key"), "no.such.key");
    assert_eq!(strings::fmt("rip.opening", &[("device", "disc://")]), "Opening disc://... ");
}
