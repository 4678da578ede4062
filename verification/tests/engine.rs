use migrate_to_latest::catalog::{Catalog, MigrationFile};
use migrate_to_latest::checksum::checksum;
use migrate_to_latest::error::{AdapterError, MigrationError};
use migrate_to_latest::reconcile::{
    apply_pending, first_pending, next_step, prepare, run_migrations, validate_applied,
    AppliedMigration, MigrationBackend, Step, BOOTSTRAP_MIGRATIONS_SQL,
};
use std::sync::Mutex;

/// A backend that keeps the control table in memory.
struct MemoryBackend {
    rows: Mutex<Vec<AppliedMigration>>,
    executed: Mutex<Vec<String>>,
    bootstraps: Mutex<Vec<String>>,
    refuse: Mutex<Option<String>>,
    refuse_fetch: bool,
    refuse_bootstrap: bool,
}

impl MemoryBackend {
    fn new() -> Self {
        MemoryBackend {
            rows: Mutex::new(Vec::new()),
            executed: Mutex::new(Vec::new()),
            bootstraps: Mutex::new(Vec::new()),
            refuse: Mutex::new(None),
            refuse_fetch: false,
            refuse_bootstrap: false,
        }
    }

    fn with_rows(rows: Vec<(&str, &str)>) -> Self {
        let backend = MemoryBackend::new();
        for (name, digest) in rows {
            backend.rows.lock().unwrap().push(AppliedMigration {
                name: name.to_string(),
                checksum: digest.to_string(),
            });
        }
        backend
    }

    fn refuse(&self, name: Option<&str>) {
        *self.refuse.lock().unwrap() = name.map(|n| n.to_string());
    }

    fn names(&self) -> Vec<String> {
        let mut names: Vec<String> =
            self.rows.lock().unwrap().iter().map(|r| r.name.clone()).collect();
        names.sort();
        names
    }

    fn executed(&self) -> Vec<String> {
        self.executed.lock().unwrap().clone()
    }
}

fn failure(text: &str) -> AdapterError {
    AdapterError::new(std::io::Error::new(std::io::ErrorKind::Other, text.to_string()))
}

impl MigrationBackend for MemoryBackend {
    fn ensure_migrations_table(&self, bootstrap_sql: &str) -> Result<(), AdapterError> {
        if self.refuse_bootstrap {
            return Err(failure("no connection"));
        }
        self.bootstraps.lock().unwrap().push(bootstrap_sql.to_string());
        Ok(())
    }

    fn fetch_applied_migrations(&self) -> Result<Vec<AppliedMigration>, AdapterError> {
        if self.refuse_fetch {
            return Err(failure("cannot select"));
        }
        let mut rows = self.rows.lock().unwrap().clone();
        rows.sort_by(|a, b| a.name.as_bytes().cmp(b.name.as_bytes()));
        Ok(rows)
    }

    fn apply_migration(&self, name: &str, sql: &str, checksum: &str) -> Result<(), AdapterError> {
        if self.refuse.lock().unwrap().as_deref() == Some(name) {
            return Err(failure("insert failed"));
        }
        let mut rows = self.rows.lock().unwrap();
        if rows.iter().any(|r| r.name == name) {
            return Err(failure("UNIQUE constraint failed: __migrations.name"));
        }
        self.executed.lock().unwrap().push(sql.to_string());
        rows.push(AppliedMigration { name: name.to_string(), checksum: checksum.to_string() });
        Ok(())
    }
}

fn file(name: &str, content: &[u8]) -> MigrationFile {
    MigrationFile::new(name.to_string(), content.to_vec())
}

fn catalog(files: Vec<MigrationFile>) -> Catalog {
    Catalog::build(files).unwrap()
}

fn row(name: &str, digest: &str) -> AppliedMigration {
    AppliedMigration { name: name.to_string(), checksum: digest.to_string() }
}

const INIT: &[u8] = b"CREATE TABLE t(x INT);";
const SEED: &[u8] = b"INSERT INTO t VALUES (1);";

#[test]
fn first_run_applies_both_files_in_order_and_records_them() {
    let backend = MemoryBackend::new();
    let files = catalog(vec![file("0001_init.sql", INIT), file("0002_seed.sql", SEED)]);
    let mut progress = Vec::new();
    let result = run_migrations(&backend, &files, &mut progress);
    assert!(result.is_ok());
    assert_eq!(progress, vec!["0001_init.sql".to_string(), "0002_seed.sql".to_string()]);
    assert_eq!(
        backend.executed(),
        vec!["CREATE TABLE t(x INT);".to_string(), "INSERT INTO t VALUES (1);".to_string()]
    );
    let rows = backend.fetch_applied_migrations().unwrap();
    assert_eq!(rows.len(), 2);
    assert_eq!(rows[0].name, "0001_init.sql");
    assert_eq!(rows[0].checksum, checksum(INIT));
    assert_eq!(rows[1].name, "0002_seed.sql");
    assert_eq!(rows[1].checksum, checksum(SEED));
}

#[test]
fn second_run_applies_nothing() {
    let backend = MemoryBackend::new();
    let files = catalog(vec![file("0001_init.sql", INIT), file("0002_seed.sql", SEED)]);
    let mut progress = Vec::new();
    assert!(run_migrations(&backend, &files, &mut progress).is_ok());
    let mut again = Vec::new();
    let result = run_migrations(&backend, &files, &mut again);
    assert!(result.is_ok());
    assert!(again.is_empty());
    assert_eq!(backend.names().len(), 2);
    assert_eq!(backend.executed().len(), 2);
}

#[test]
fn second_run_applies_nothing_beside_a_foreign_row() {
    let backend = MemoryBackend::with_rows(vec![("zzz_other.sql", "feed")]);
    let files = catalog(vec![file("0001_a.sql", b"a"), file("0002_b.sql", b"b")]);
    let mut progress = Vec::new();
    assert!(run_migrations(&backend, &files, &mut progress).is_ok());
    assert_eq!(progress, vec!["0002_b.sql".to_string()]);
    let mut again = Vec::new();
    assert!(run_migrations(&backend, &files, &mut again).is_ok());
    assert!(again.is_empty());
    assert_eq!(backend.names(), vec!["0002_b.sql".to_string(), "zzz_other.sql".to_string()]);
}

#[test]
fn files_run_in_name_order_whatever_the_listing_order() {
    let backend = MemoryBackend::new();
    let files = catalog(vec![file("0002_b.sql", b"second"), file("0001_a.sql", b"first")]);
    let mut progress = Vec::new();
    assert!(run_migrations(&backend, &files, &mut progress).is_ok());
    assert_eq!(progress, vec!["0001_a.sql".to_string(), "0002_b.sql".to_string()]);
    assert_eq!(backend.executed(), vec!["first".to_string(), "second".to_string()]);
}

#[test]
fn edited_file_is_reported_with_both_checksums() {
    let backend = MemoryBackend::new();
    let before = catalog(vec![file("0001_init.sql", INIT)]);
    let mut progress = Vec::new();
    assert!(run_migrations(&backend, &before, &mut progress).is_ok());
    let edited: &[u8] = b"CREATE TABLE t(x INT, y INT);";
    let after = catalog(vec![file("0001_init.sql", edited)]);
    let mut again = Vec::new();
    match run_migrations(&backend, &after, &mut again) {
        Err(MigrationError::ChecksumMismatch(name, expected, found)) => {
            assert_eq!(name, "0001_init.sql");
            assert_eq!(expected, checksum(INIT));
            assert_eq!(found, checksum(edited));
        }
        other => panic!("expected a checksum mismatch, got {:?}", other),
    }
    assert!(again.is_empty());
    assert_eq!(backend.executed().len(), 1);
}

#[test]
fn edited_file_stops_the_run_before_pending_files() {
    let backend = MemoryBackend::with_rows(vec![("0001_a.sql", "not the digest")]);
    let files = catalog(vec![file("0001_a.sql", b"a"), file("0002_b.sql", b"b")]);
    let mut progress = Vec::new();
    let result = run_migrations(&backend, &files, &mut progress);
    assert!(matches!(result, Err(MigrationError::ChecksumMismatch(_, _, _))));
    assert!(progress.is_empty());
    assert!(backend.executed().is_empty());
}

#[test]
fn refused_file_is_not_recorded_and_is_tried_again() {
    let backend = MemoryBackend::new();
    let files = catalog(vec![file("0001_init.sql", INIT), file("0002_seed.sql", SEED)]);
    backend.refuse(Some("0002_seed.sql"));
    let mut progress = Vec::new();
    let result = run_migrations(&backend, &files, &mut progress);
    match result {
        Err(MigrationError::Adapter(cause)) => assert_eq!(cause.message(), "insert failed"),
        other => panic!("expected a backend failure, got {:?}", other),
    }
    assert_eq!(progress, vec!["0001_init.sql".to_string()]);
    assert_eq!(backend.names(), vec!["0001_init.sql".to_string()]);

    backend.refuse(None);
    let mut again = Vec::new();
    assert!(run_migrations(&backend, &files, &mut again).is_ok());
    assert_eq!(again, vec!["0002_seed.sql".to_string()]);
    assert_eq!(backend.names(), vec!["0001_init.sql".to_string(), "0002_seed.sql".to_string()]);
}

#[test]
fn refused_file_stops_the_run_before_later_files() {
    let backend = MemoryBackend::new();
    let files = catalog(vec![file("1.sql", b"a"), file("2.sql", b"b"), file("3.sql", b"c")]);
    backend.refuse(Some("2.sql"));
    let mut progress = Vec::new();
    assert!(matches!(
        run_migrations(&backend, &files, &mut progress),
        Err(MigrationError::Adapter(_))
    ));
    assert_eq!(backend.executed(), vec!["a".to_string()]);
}

#[test]
fn empty_catalog_and_empty_history_succeed() {
    let backend = MemoryBackend::new();
    let files = catalog(Vec::new());
    let mut progress = Vec::new();
    assert!(run_migrations(&backend, &files, &mut progress).is_ok());
    assert!(progress.is_empty());
    assert!(backend.names().is_empty());
    assert_eq!(backend.bootstraps.lock().unwrap().len(), 1);
}

#[test]
fn bootstrap_statement_is_handed_to_the_backend_on_every_run() {
    let backend = MemoryBackend::new();
    let files = catalog(vec![file("0001_init.sql", INIT)]);
    let mut progress = Vec::new();
    assert!(run_migrations(&backend, &files, &mut progress).is_ok());
    assert!(run_migrations(&backend, &files, &mut progress).is_ok());
    let seen = backend.bootstraps.lock().unwrap().clone();
    assert_eq!(seen, vec![BOOTSTRAP_MIGRATIONS_SQL.to_string(), BOOTSTRAP_MIGRATIONS_SQL.to_string()]);
    assert!(BOOTSTRAP_MIGRATIONS_SQL.contains("CREATE TABLE IF NOT EXISTS __migrations ("));
    assert!(BOOTSTRAP_MIGRATIONS_SQL.contains("name TEXT PRIMARY KEY,"));
    assert!(BOOTSTRAP_MIGRATIONS_SQL.contains("checksum TEXT NOT NULL,"));
    assert!(BOOTSTRAP_MIGRATIONS_SQL.contains("executed_at TIMESTAMP DEFAULT CURRENT_TIMESTAMP"));
}

#[test]
fn failing_bootstrap_ends_the_run() {
    let mut backend = MemoryBackend::new();
    backend.refuse_bootstrap = true;
    let files = catalog(vec![file("0001_init.sql", INIT)]);
    let mut progress = Vec::new();
    match run_migrations(&backend, &files, &mut progress) {
        Err(MigrationError::Adapter(cause)) => assert_eq!(cause.message(), "no connection"),
        other => panic!("expected a backend failure, got {:?}", other),
    }
    assert!(progress.is_empty());
    assert!(backend.executed().is_empty());
}

#[test]
fn failing_fetch_ends_the_run() {
    let mut backend = MemoryBackend::new();
    backend.refuse_fetch = true;
    let files = catalog(vec![file("0001_init.sql", INIT)]);
    let mut progress = vec!["kept".to_string()];
    match run_migrations(&backend, &files, &mut progress) {
        Err(MigrationError::Adapter(cause)) => assert_eq!(cause.message(), "cannot select"),
        other => panic!("expected a backend failure, got {:?}", other),
    }
    assert_eq!(progress, vec!["kept".to_string()]);
}

#[test]
fn file_that_is_not_text_stops_the_run_after_the_files_before_it() {
    let backend = MemoryBackend::new();
    let files = catalog(vec![
        file("0001.sql", b"ok"),
        file("0002.sql", &[0xff, 0xfe, 0x00]),
        file("0003.sql", b"later"),
    ]);
    let mut progress = Vec::new();
    match run_migrations(&backend, &files, &mut progress) {
        Err(MigrationError::ReadFile(name)) => assert_eq!(name, "0002.sql"),
        other => panic!("expected a read failure, got {:?}", other),
    }
    assert_eq!(progress, vec!["0001.sql".to_string()]);
    assert_eq!(backend.names(), vec!["0001.sql".to_string()]);
}

#[test]
fn applied_file_that_is_not_text_is_only_compared_by_checksum() {
    let bytes: &[u8] = &[0xc3, 0x28];
    let digest = checksum(bytes);
    let backend = MemoryBackend::with_rows(vec![("0001.sql", digest.as_str())]);
    let files = catalog(vec![file("0001.sql", bytes)]);
    let mut progress = Vec::new();
    assert!(run_migrations(&backend, &files, &mut progress).is_ok());
    assert!(progress.is_empty());
}

#[test]
fn renamed_file_in_the_applied_prefix_is_passed_over() {
    let applied = vec![row("0001_old_name.sql", "0000")];
    let files = catalog(vec![file("0001_new_name.sql", b"x")]);
    assert!(validate_applied(&applied, &files).is_ok());
    let backend = MemoryBackend::with_rows(vec![("0001_old_name.sql", "0000")]);
    let mut progress = Vec::new();
    assert!(run_migrations(&backend, &files, &mut progress).is_ok());
    assert!(progress.is_empty());
}

#[test]
fn rows_beyond_the_last_file_are_not_checked() {
    let digest = checksum(b"a");
    let applied = vec![row("0001.sql", digest.as_str()), row("0002.sql", "whatever")];
    let files = catalog(vec![file("0001.sql", b"a")]);
    assert!(validate_applied(&applied, &files).is_ok());
    assert_eq!(first_pending(applied.len(), &files), 1);
    let mut progress = Vec::new();
    let backend = MemoryBackend::new();
    assert!(apply_pending(&backend, &applied, &files, &mut progress).is_ok());
    assert!(progress.is_empty());
}

#[test]
fn validation_reports_the_first_changed_file() {
    let applied = vec![
        row("0001.sql", checksum(b"one").as_str()),
        row("0002.sql", "stale-two"),
        row("0003.sql", "stale-three"),
    ];
    let files = catalog(vec![
        file("0001.sql", b"one"),
        file("0002.sql", b"two"),
        file("0003.sql", b"three"),
    ]);
    match validate_applied(&applied, &files) {
        Err(MigrationError::ChecksumMismatch(name, expected, found)) => {
            assert_eq!(name, "0002.sql");
            assert_eq!(expected, "stale-two");
            assert_eq!(found, checksum(b"two"));
        }
        other => panic!("expected a checksum mismatch, got {:?}", other),
    }
}

#[test]
fn first_pending_is_the_length_of_the_history() {
    let files = catalog(vec![file("1.sql", b"a"), file("2.sql", b"b"), file("3.sql", b"c")]);
    assert_eq!(first_pending(0, &files), 0);
    assert_eq!(first_pending(2, &files), 2);
    assert_eq!(first_pending(3, &files), 3);
    assert_eq!(first_pending(7, &files), 3);
}

#[test]
fn prepare_reads_the_content_as_text() {
    let ready = prepare(&file("0001_init.sql", INIT)).unwrap();
    assert_eq!(ready.name, "0001_init.sql");
    assert_eq!(ready.sql, "CREATE TABLE t(x INT);");
    assert_eq!(ready.checksum, checksum(INIT));
    let accents = prepare(&file("a.sql", "SELECT 'é';".as_bytes())).unwrap();
    assert_eq!(accents.sql, "SELECT 'é';");
}

#[test]
fn prepare_refuses_bytes_that_are_not_text() {
    match prepare(&file("bad.sql", &[0x80])) {
        Err(MigrationError::ReadFile(name)) => assert_eq!(name, "bad.sql"),
        other => panic!("expected a read failure, got {:?}", other),
    }
}

#[test]
fn next_step_walks_the_catalog() {
    let files = catalog(vec![file("1.sql", b"a"), file("2.sql", &[0xff])]);
    match next_step(&files, 0) {
        Ok(Step::Apply(ready)) => {
            assert_eq!(ready.name, "1.sql");
            assert_eq!(ready.sql, "a");
        }
        other => panic!("expected a migration to apply, got {:?}", other),
    }
    assert!(matches!(next_step(&files, 1), Err(MigrationError::ReadFile(_))));
    assert!(matches!(next_step(&files, 2), Ok(Step::Done)));
    assert!(matches!(next_step(&files, 9), Ok(Step::Done)));
}

#[test]
fn apply_pending_keeps_earlier_progress() {
    let backend = MemoryBackend::new();
    let files = catalog(vec![file("1.sql", b"a")]);
    let mut progress = vec!["earlier".to_string()];
    assert!(apply_pending(&backend, &Vec::new(), &files, &mut progress).is_ok());
    assert_eq!(progress, vec!["earlier".to_string(), "1.sql".to_string()]);
}
