use zora::coordinator::{JobState, ScanJob};
use zora::database::{LoadError, SignatureDatabase};
use zora::digest::{digest_of, ContentHasher};
use zora::scanner::{classify, open_failed, scan_content, FileScan, ScanResult};

const EMPTY_SHA256: &str = "e3b0c44298fc1c149afbf4c8996fb92427ae41e4649b934ca495991b7852b855";
const ABC_SHA256: &str = "ba7816bf8f01cfea414140de5dae2223b00361a396177a9cb410ff61f20015ad";

fn hex(bytes: &[u8]) -> String {
    bytes.iter().map(|b| format!("{:02x}", b)).collect()
}

fn empty_file_db() -> SignatureDatabase {
    SignatureDatabase::load(&format!("{}\n", EMPTY_SHA256)).unwrap()
}

#[test]
fn digest_of_known_inputs() {
    assert_eq!(hex(&digest_of(b"")), EMPTY_SHA256);
    assert_eq!(hex(&digest_of(b"abc")), ABC_SHA256);
}

#[test]
fn chunked_hash_equals_whole_hash() {
    let mut h = ContentHasher::new();
    h.update(b"a");
    h.update(b"");
    h.update(b"bc");
    assert_eq!(h.finish(), digest_of(b"abc"));
}

#[test]
fn lookup_normalizes_case() {
    let db = SignatureDatabase::load(&format!("{}\n", ABC_SHA256.to_uppercase())).unwrap();
    assert!(db.lookup(ABC_SHA256));
    assert!(db.lookup(&ABC_SHA256.to_uppercase()));
    assert!(!db.lookup(EMPTY_SHA256));
    assert!(!db.lookup("not a digest"));
    assert!(!db.lookup(&ABC_SHA256[..62]));
}

#[test]
fn load_skips_blank_lines_and_carriage_returns() {
    let src = format!("\r\n{}\r\n\n{}", EMPTY_SHA256, ABC_SHA256);
    let db = SignatureDatabase::load(&src).unwrap();
    assert!(db.lookup(EMPTY_SHA256));
    assert!(db.lookup(ABC_SHA256));
    assert!(db.contains_digest(&digest_of(b"abc")));
    assert!(!db.contains_digest(&digest_of(b"abcd")));
}

#[test]
fn load_reports_first_malformed_line() {
    let src = format!("{}\n\nxyz\n{}\n", EMPTY_SHA256, "q");
    match SignatureDatabase::load(&src) {
        Err(LoadError::Malformed { line_index }) => assert_eq!(line_index, 2),
        other => panic!("unexpected: {:?}", other.is_ok()),
    }
    match SignatureDatabase::load(&EMPTY_SHA256[..63]) {
        Err(LoadError::Malformed { line_index }) => assert_eq!(line_index, 0),
        other => panic!("unexpected: {:?}", other.is_ok()),
    }
}

#[test]
fn empty_source_gives_empty_database() {
    let db = SignatureDatabase::load("").unwrap();
    assert!(!db.lookup(EMPTY_SHA256));
}

#[test]
fn empty_file_matching_signature_is_infected() {
    let db = empty_file_db();
    assert_eq!(scan_content(&db, "empty".to_string(), b""), ScanResult::Infected("empty".to_string()));
    let scan = FileScan::open("e2".to_string());
    assert_eq!(scan.finish(&db), ScanResult::Infected("e2".to_string()));
    assert_eq!(scan_content(&db, "x".to_string(), b"x"), ScanResult::Clean("x".to_string()));
}

#[test]
fn read_failure_is_an_error_result() {
    let db = empty_file_db();
    let mut scan = FileScan::open("f".to_string());
    scan.feed(b"partial");
    assert_eq!(scan.path(), "f");
    assert_eq!(scan.fail("denied".to_string()), ScanResult::Error("f".to_string(), "denied".to_string()));
    assert_eq!(
        open_failed("g".to_string(), "missing".to_string()),
        ScanResult::Error("g".to_string(), "missing".to_string())
    );
    assert!(db.lookup(EMPTY_SHA256));
}

#[test]
fn classify_by_digest() {
    let db = empty_file_db();
    assert_eq!(classify(&db, "a".to_string(), &digest_of(b"")), ScanResult::Infected("a".to_string()));
    assert_eq!(classify(&db, "b".to_string(), &digest_of(b"b")), ScanResult::Clean("b".to_string()));
}

#[test]
fn scanning_twice_gives_the_same_result() {
    let db = empty_file_db();
    let first = scan_content(&db, "p".to_string(), b"same bytes");
    let second = scan_content(&db, "p".to_string(), b"same bytes");
    assert_eq!(first, second);
    assert_eq!(first.path(), "p");
}

fn started(paths: &[&str]) -> ScanJob {
    let mut job = ScanJob::new();
    assert_eq!(job.state(), JobState::Idle);
    assert!(job.start());
    assert!(!job.start());
    assert_eq!(job.state(), JobState::Enumerating);
    job.enumerated(paths.iter().map(|p| p.to_string()).collect());
    job
}

#[test]
fn three_files_one_unreadable() {
    let db = empty_file_db();
    let mut job = started(&["a", "b", "c"]);
    assert_eq!(job.total(), 3);
    let mut results = Vec::new();
    while let Some(p) = job.dispatch() {
        let r = if p == "b" {
            open_failed(p, "permission denied".to_string())
        } else {
            scan_content(&db, p.clone(), p.as_bytes())
        };
        results.push(r);
    }
    assert_eq!(job.in_flight(), 3);
    let mut completions = 0;
    for r in results {
        if job.record(r) {
            completions += 1;
        }
    }
    assert_eq!(completions, 1);
    assert_eq!(job.scanned(), 3);
    assert_eq!(job.error_count(), 1);
    assert_eq!(job.clean_count() + job.infected_count(), 2);
    assert!(job.is_completed());
    assert_eq!(job.progress(), (3, 3));
    assert!(!job.record(ScanResult::Clean("extra".to_string())));
    assert_eq!(job.scanned(), 3);
}

#[test]
fn infected_paths_in_report_order() {
    let mut job = started(&["x", "y", "z"]);
    let _ = job.dispatch();
    let _ = job.dispatch();
    let _ = job.dispatch();
    job.record(ScanResult::Infected("z".to_string()));
    job.record(ScanResult::Clean("y".to_string()));
    job.record(ScanResult::Infected("x".to_string()));
    assert!(job.any_infected());
    assert_eq!(job.infected_paths(), &vec!["z".to_string(), "x".to_string()]);
    assert_eq!(job.clean_count() + job.infected_count() + job.error_count(), job.total());
}

#[test]
fn empty_directory_completes_at_once() {
    let job = started(&[]);
    assert!(job.is_completed());
    assert_eq!(job.progress(), (1, 1));
    assert_eq!(job.infected_count(), 0);
    assert_eq!(job.error_count(), 0);
    assert!(!job.any_infected());
}

#[test]
fn progress_never_decreases() {
    let mut job = ScanJob::new();
    let mut last = job.progress();
    let mut check = |job: &ScanJob| {
        let p = job.progress();
        assert!(last.0 * p.1 <= p.0 * last.1);
        last = p;
    };
    job.start();
    check(&job);
    job.enumerated(vec!["a".to_string(), "b".to_string()]);
    check(&job);
    let a = job.dispatch().unwrap();
    check(&job);
    job.record(ScanResult::Clean(a));
    check(&job);
    assert_eq!(job.progress(), (1, 2));
    let b = job.dispatch().unwrap();
    job.record(ScanResult::Clean(b));
    check(&job);
    assert_eq!(job.progress(), (2, 2));
}

#[test]
fn cancel_stops_dispatch_but_counts_outstanding() {
    let mut job = started(&["a", "b", "c"]);
    let a = job.dispatch().unwrap();
    job.cancel();
    assert!(job.is_cancelled());
    assert_eq!(job.dispatch(), None);
    job.cancel();
    assert_eq!(job.state(), JobState::Cancelled);
    assert_eq!(job.in_flight(), 1);
    assert!(!job.record(ScanResult::Infected(a)));
    assert_eq!(job.in_flight(), 0);
    assert_eq!(job.scanned(), 1);
    assert_eq!(job.infected_paths().len(), 1);
    assert!(!job.is_completed());
}

#[test]
fn cancel_while_enumerating_ignores_paths() {
    let mut job = ScanJob::new();
    job.cancel();
    assert_eq!(job.state(), JobState::Idle);
    job.start();
    job.cancel();
    job.enumerated(vec!["a".to_string()]);
    assert_eq!(job.total(), 0);
    assert_eq!(job.dispatch(), None);
    assert!(job.is_cancelled());
}
