//! The catalog-difference filter against a real SQLite catalog.

use media_scanner::database::dedup_entries;
use media_scanner::database::difference;
use media_scanner::database::files_not_in_db;
use media_scanner::error::ScanError;
use media_scanner::song_scanner::songs_to_scan;

fn entry(path: &str, size: u64) -> (String, u64) {
    (path.to_string(), size)
}

#[test]
fn empty_candidates_need_no_catalog() {
    // With nothing to probe, the catalog file is never opened: a path that
    // cannot exist still yields an empty, successful result.
    let r = files_not_in_db("/nonexistent/dir/catalog.db", &Vec::new()).unwrap();
    assert!(r.is_empty());
}

#[test]
fn difference_subtracts_present_pairs() {
    let a = vec![entry("/m/a.mp3", 1), entry("/m/b.mp3", 2), entry("/m/c.mp3", 3)];
    let b = vec![entry("/m/b.mp3", 2), entry("/m/c.mp3", 999)];
    let d = difference(&a, &b);
    assert_eq!(d, vec![entry("/m/a.mp3", 1), entry("/m/c.mp3", 3)]);
}

#[test]
fn difference_on_nothing_present_keeps_all() {
    let a = vec![entry("x", 5)];
    assert_eq!(difference(&a, &Vec::new()), a);
}

#[test]
fn all_present_leaves_nothing() {
    let a = vec![entry("x", 5), entry("y", 6)];
    let b = vec![entry("y", 6), entry("x", 5), entry("z", 7)];
    assert_eq!(difference(&a, &b), Vec::<(String, u64)>::new());
}

#[test]
fn dedup_keeps_first_occurrences() {
    let v = vec![entry("a", 1), entry("b", 2), entry("a", 1), entry("a", 3)];
    let d = dedup_entries(&v);
    assert_eq!(d, vec![entry("a", 1), entry("b", 2), entry("a", 3)]);
}

fn make_catalog(path: &str, rows: &[(String, u64)]) {
    let conn = sqlite3::open(path).unwrap();
    conn.execute("DROP TABLE IF EXISTS allsongs").unwrap();
    conn.execute("CREATE TABLE allsongs (path TEXT, size INTEGER)").unwrap();
    conn.execute("BEGIN").unwrap();
    for (p, s) in rows {
        let mut st = conn.prepare("INSERT INTO allsongs (path, size) VALUES (?, ?)").unwrap();
        st.bind(1, p.as_str()).unwrap();
        st.bind(2, *s as i64).unwrap();
        while st.next().unwrap() != sqlite3::State::Done {}
    }
    conn.execute("COMMIT").unwrap();
}

#[test]
fn known_rows_are_filtered_out() {
    let db = "/tmp/media_scanner_test_catalog_basic.db";
    make_catalog(db, &[entry("/m/known.mp3", 10)]);
    let candidates = vec![entry("/m/known.mp3", 10), entry("/m/new.mp3", 20)];
    let r = files_not_in_db(db, &candidates).unwrap();
    assert_eq!(r, vec![entry("/m/new.mp3", 20)]);
}

#[test]
fn size_must_match_for_a_row_to_count() {
    let db = "/tmp/media_scanner_test_catalog_size.db";
    make_catalog(db, &[entry("/m/known.mp3", 10)]);
    let candidates = vec![entry("/m/known.mp3", 11)];
    let r = files_not_in_db(db, &candidates).unwrap();
    assert_eq!(r, vec![entry("/m/known.mp3", 11)]);
}

#[test]
fn rescan_of_fully_catalogued_tree_is_empty() {
    let db = "/tmp/media_scanner_test_catalog_rescan.db";
    let rows: Vec<(String, u64)> = (0..50).map(|i| entry(&format!("/m/{}.mp3", i), i)).collect();
    make_catalog(db, &rows);
    let r = files_not_in_db(db, &rows).unwrap();
    assert!(r.is_empty());
}

#[test]
fn more_candidates_than_one_batch_still_match() {
    // 1500 candidates force two prepared statements; every second one is
    // already catalogued.
    let db = "/tmp/media_scanner_test_catalog_batches.db";
    let known: Vec<(String, u64)> =
        (0..1500).filter(|i| i % 2 == 0).map(|i| entry(&format!("/m/{}.mp3", i), i)).collect();
    make_catalog(db, &known);
    let candidates: Vec<(String, u64)> =
        (0..1500).map(|i| entry(&format!("/m/{}.mp3", i), i)).collect();
    let r = files_not_in_db(db, &candidates).unwrap();
    let expected: Vec<(String, u64)> =
        (0..1500).filter(|i| i % 2 == 1).map(|i| entry(&format!("/m/{}.mp3", i), i)).collect();
    assert_eq!(r, expected);
}

#[test]
fn force_skips_the_catalog_entirely() {
    // The catalog knows the candidate, and the path is not even a valid
    // database; with force set neither matters.
    let candidates = vec![entry("/m/track.mp3", 1234)];
    let r = songs_to_scan("/nonexistent/dir/catalog.db", &candidates, true).unwrap();
    assert_eq!(r, candidates);
}

#[test]
fn force_false_consults_the_catalog() {
    let db = "/tmp/media_scanner_test_catalog_force.db";
    make_catalog(db, &[entry("/m/track.mp3", 1234)]);
    let r = songs_to_scan(db, &vec![entry("/m/track.mp3", 1234)], false).unwrap();
    assert!(r.is_empty());
    let r2 = songs_to_scan(db, &vec![entry("/m/track.mp3", 1234)], true).unwrap();
    assert_eq!(r2.len(), 1);
}

#[test]
fn a_broken_catalog_is_reported() {
    // An in-memory database has no allsongs table: preparing the probe fails
    // and the error is surfaced as a catalog failure.
    let candidates = vec![entry("/m/a.mp3", 1)];
    match files_not_in_db(":memory:", &candidates) {
        Err(ScanError::Sqlite3Error(msg)) => {
            assert!(!msg.is_empty());
        },
        _ => panic!("expected a catalog error"),
    }
}
