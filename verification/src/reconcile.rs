//! The reconciliation engine: checks the recorded history against the
//! catalog, then applies what is missing, one file after another.

use crate::catalog::file_views;
use crate::catalog::Catalog;
use crate::catalog::FileView;
use crate::catalog::MigrationFile;
use crate::error::AdapterError;
use crate::error::MigrationError;
use vstd::prelude::*;
use vstd::utf8::encode_utf8;
use vstd::utf8::valid_utf8;

verus! {

/// The statement that creates the control table where it does not exist yet.
pub const BOOTSTRAP_MIGRATIONS_SQL: &'static str = r#"
        CREATE TABLE IF NOT EXISTS __migrations (
            name TEXT PRIMARY KEY,
            checksum TEXT NOT NULL,
            description TEXT,
            executed_by TEXT,
            executed_at TIMESTAMP DEFAULT CURRENT_TIMESTAMP
        );
    "#;

/// A row of the control table: a migration that has run, and the digest its
/// file had then.
#[derive(Debug, Clone)]
pub struct AppliedMigration {
    pub name: String,
    pub checksum: String,
}

/// A row of the control table as the rules see it.
pub struct AppliedRecord {
    pub name: Seq<char>,
    pub checksum: Seq<char>,
}

impl View for AppliedMigration {
    type V = AppliedRecord;

    open spec fn view(&self) -> AppliedRecord {
        AppliedRecord { name: self.name@, checksum: self.checksum@ }
    }
}

/// The view of each row.
pub open spec fn records(applied: Seq<AppliedMigration>) -> Seq<AppliedRecord> {
    applied.map_values(|row: AppliedMigration| row@)
}

/// What the engine needs of a storage backend.
///
/// An implementation creates the control table where it is missing, returns
/// its rows in ascending order of `name`, and runs a migration and records it
/// as one atomic unit: both happen or neither does.
pub trait MigrationBackend: Send + Sync {
    /// Runs the bootstrap statement. Safe on every run.
    fn ensure_migrations_table(&self, bootstrap_sql: &str) -> Result<(), AdapterError>;

    /// All rows of the control table, ordered by name.
    fn fetch_applied_migrations(&self) -> Result<Vec<AppliedMigration>, AdapterError>;

    /// Runs `sql` and records `name` with `checksum`, atomically.
    fn apply_migration(&self, name: &str, sql: &str, checksum: &str) -> Result<(), AdapterError>;
}

/// Position `i` holds a file that was applied under the same name and has
/// another digest now.
pub open spec fn drifted_at(applied: Seq<AppliedRecord>, files: Seq<FileView>, i: int) -> bool {
    &&& 0 <= i < applied.len()
    &&& i < files.len()
    &&& applied[i].name == files[i].name
    &&& applied[i].checksum != files[i].checksum()
}

/// Some applied file has changed.
pub open spec fn has_drift(applied: Seq<AppliedRecord>, files: Seq<FileView>) -> bool {
    exists|i: int| drifted_at(applied, files, i)
}

/// Position `i` is the first that holds a changed file.
pub open spec fn first_drift_at(applied: Seq<AppliedRecord>, files: Seq<FileView>, i: int) -> bool {
    &&& drifted_at(applied, files, i)
    &&& forall|j: int| 0 <= j < i ==> !drifted_at(applied, files, j)
}

/// `error` reports the first changed file: its name, the digest on record and
/// the digest of the file as it is.
pub open spec fn reports_first_drift(
    error: MigrationError,
    applied: Seq<AppliedRecord>,
    files: Seq<FileView>,
) -> bool {
    exists|i: int|
        {
            &&& #[trigger] first_drift_at(applied, files, i)
            &&& error matches MigrationError::ChecksumMismatch(name, expected, found)
            &&& name@ == files[i].name
            &&& expected@ == applied[i].checksum
            &&& found@ == files[i].checksum()
        }
}

/// Checks the applied prefix: where the history and the catalog name the same
/// file at the same position, the digests must agree. A position where the
/// names differ is passed over, and so are rows beyond the last file.
pub fn validate_applied(applied: &Vec<AppliedMigration>, catalog: &Catalog) -> (result: Result<
    (),
    MigrationError,
>)
    ensures
        result is Ok <==> !has_drift(records(applied@), catalog@),
        result matches Err(error) ==> reports_first_drift(error, records(applied@), catalog@),
{
    let files = catalog.files();
    let mut i: usize = 0;
    while i < applied.len() && i < files.len()
        invariant
            i <= applied@.len(),
            i <= files@.len(),
            file_views(files@) == catalog@,
            forall|j: int| 0 <= j < i ==> !drifted_at(records(applied@), catalog@, j),
        decreases applied@.len() - i,
    {
        let row = &applied[i];
        let file = &files[i];
        proof {
            assert(records(applied@)[i as int] == row@);
            assert(file_views(files@)[i as int] == file@);
        }
        if *file.name() == row.name {
            if *file.checksum() != row.checksum {
                let error = MigrationError::ChecksumMismatch(
                    file.name().clone(),
                    row.checksum.clone(),
                    file.checksum().clone(),
                );
                proof {
                    assert(first_drift_at(records(applied@), catalog@, i as int));
                }
                return Err(error);
            }
        }
        i += 1;
    }
    Ok(())
}

/// The files that the history does not cover yet: those from position
/// `applied_len` on.
pub open spec fn pending(applied_len: nat, files: Seq<FileView>) -> Seq<FileView> {
    if applied_len >= files.len() {
        Seq::empty()
    } else {
        files.skip(applied_len as int)
    }
}

/// Decodes bytes with `String::from_utf8` of std, on a copy of them. Trusted:
/// it succeeds exactly on valid UTF-8, and the text it returns is encoded by
/// the very bytes that went in.
#[verifier::external_body]
fn text_from_utf8(bytes: &[u8]) -> (text: Option<String>)
    ensures
        text is Some <==> valid_utf8(bytes@),
        text matches Some(t) ==> encode_utf8(t@) == bytes@,
{
    String::from_utf8(bytes.to_vec()).ok()
}

/// A pending migration, ready for the backend.
#[derive(Debug)]
pub struct PendingMigration {
    pub name: String,
    pub sql: String,
    pub checksum: String,
}

/// `ready` is `file` with its content read as text.
pub open spec fn prepared_from(ready: PendingMigration, file: FileView) -> bool {
    &&& ready.name@ == file.name
    &&& encode_utf8(ready.sql@) == file.content
    &&& ready.checksum@ == file.checksum()
}

/// Reads a file's content as the text of its statements. A file whose bytes
/// are not UTF-8 is refused by name.
pub fn prepare(file: &MigrationFile) -> (result: Result<PendingMigration, MigrationError>)
    ensures
        result is Ok <==> valid_utf8(file@.content),
        result matches Ok(ready) ==> prepared_from(ready, file@),
        result matches Err(error) ==> error matches MigrationError::ReadFile(name) && name@
            == file@.name,
{
    match text_from_utf8(file.content().as_slice()) {
        Some(sql) => Ok(
            PendingMigration {
                name: file.name().clone(),
                sql,
                checksum: file.checksum().clone(),
            },
        ),
        None => Err(MigrationError::ReadFile(file.name().clone())),
    }
}

/// Where the applying starts: behind the last position that the history
/// covers, or at the end of the catalog where the history is longer.
pub fn first_pending(applied_len: usize, catalog: &Catalog) -> (start: usize)
    ensures
        start <= catalog@.len(),
        catalog@.skip(start as int) == pending(applied_len as nat, catalog@),
{
    let n = catalog.len();
    if applied_len >= n {
        proof {
            assert(catalog@.skip(n as int) =~= Seq::empty());
        }
        n
    } else {
        applied_len
    }
}

/// What a run does next.
#[derive(Debug)]
pub enum Step {
    /// Hand this migration to the backend.
    Apply(PendingMigration),
    /// Nothing is left to apply.
    Done,
}

/// Decides the next step of a run that has dealt with the files before
/// `position`: the file at `position` is to be applied, unless its bytes are
/// not text, which ends the run; behind the last file the run is done.
pub fn next_step(catalog: &Catalog, position: usize) -> (result: Result<Step, MigrationError>)
    ensures
        position >= catalog@.len() ==> result matches Ok(Step::Done),
        position < catalog@.len() ==> {
            &&& result is Ok <==> valid_utf8(catalog@[position as int].content)
            &&& result matches Ok(step) ==> step matches Step::Apply(ready) && prepared_from(
                ready,
                catalog@[position as int],
            )
            &&& result matches Err(error) ==> error matches MigrationError::ReadFile(name) && name@
                == catalog@[position as int].name
        },
{
    if position >= catalog.len() {
        return Ok(Step::Done);
    }
    match prepare(catalog.get(position)) {
        Ok(ready) => Ok(Step::Apply(ready)),
        Err(error) => Err(error),
    }
}

/// The name of each file.
pub open spec fn names_of(files: Seq<FileView>) -> Seq<Seq<char>> {
    files.map_values(|file: FileView| file.name)
}

/// How a run over the history `applied` and the catalog `files` can end, and
/// which files it reports as applied on the way, whatever the backend answers.
///
/// A changed file ends the run before anything is applied. Otherwise the
/// pending files are applied in catalog order and reported one by one; the run
/// stops at the first whose bytes are not text and at the first that the
/// backend refuses, and succeeds when none is left.
pub open spec fn run_outcome(
    applied: Seq<AppliedRecord>,
    files: Seq<FileView>,
    reported: Seq<Seq<char>>,
    result: Result<(), MigrationError>,
) -> bool {
    let todo = pending(applied.len(), files);
    let done = reported.len() as int;
    if has_drift(applied, files) {
        &&& done == 0
        &&& result matches Err(error) && reports_first_drift(error, applied, files)
    } else {
        &&& done <= todo.len()
        &&& reported == names_of(todo.take(done))
        &&& forall|i: int| 0 <= i < done ==> valid_utf8(#[trigger] todo[i].content)
        &&& match result {
            Ok(_) => done == todo.len(),
            Err(MigrationError::ReadFile(name)) => {
                &&& done < todo.len()
                &&& !valid_utf8(todo[done].content)
                &&& name@ == todo[done].name
            },
            Err(MigrationError::Adapter(_)) => done < todo.len() && valid_utf8(todo[done].content),
            Err(_) => false,
        }
    }
}

/// The characters of each reported name.
pub open spec fn reported_names(progress: Seq<String>) -> Seq<Seq<char>> {
    progress.map_values(|name: String| name@)
}

/// Validates the history `applied` against the catalog and applies the
/// pending files through `backend`, in catalog order. The name of each file
/// that the backend has applied is appended to `progress`.
pub fn apply_pending<B>(
    backend: &B,
    applied: &Vec<AppliedMigration>,
    catalog: &Catalog,
    progress: &mut Vec<String>,
) -> (result: Result<(), MigrationError>) where B: MigrationBackend + ?Sized
    ensures
        final(progress)@.len() >= old(progress)@.len(),
        final(progress)@.take(old(progress)@.len() as int) == old(progress)@,
        run_outcome(
            records(applied@),
            catalog@,
            reported_names(final(progress)@.skip(old(progress)@.len() as int)),
            result,
        ),
{
    let ghost earlier = progress@;
    match validate_applied(applied, catalog) {
        Err(error) => {
            proof {
                assert(progress@.skip(earlier.len() as int) =~= Seq::empty());
                assert(progress@.take(earlier.len() as int) =~= earlier);
            }
            return Err(error);
        },
        Ok(_) => {},
    }
    let start = first_pending(applied.len(), catalog);
    let ghost todo = pending(applied@.len(), catalog@);
    let total = catalog.len();
    let mut position = start;
    proof {
        assert(records(applied@).len() == applied@.len());
        assert(progress@.skip(earlier.len() as int) =~= Seq::empty());
        assert(progress@.take(earlier.len() as int) =~= earlier);
        assert(reported_names(Seq::<String>::empty()) =~= names_of(todo.take(0)));
    }
    loop
        invariant
            earlier == old(progress)@,
            total == catalog@.len(),
            start <= position <= catalog@.len(),
            todo == pending(applied@.len(), catalog@),
            todo == catalog@.skip(start as int),
            records(applied@).len() == applied@.len(),
            !has_drift(records(applied@), catalog@),
            progress@.len() == earlier.len() + (position - start),
            progress@.take(earlier.len() as int) == earlier,
            reported_names(progress@.skip(earlier.len() as int)) == names_of(
                todo.take(position - start),
            ),
            forall|i: int| 0 <= i < position - start ==> valid_utf8(#[trigger] todo[i].content),
        decreases catalog@.len() - position,
    {
        let ghost done = position - start;
        let ghost shown = progress@.skip(earlier.len() as int);
        proof {
            if position < catalog@.len() {
                assert(todo[done] == catalog@[position as int]);
            }
        }
        match next_step(catalog, position) {
            Err(error) => {
                return Err(error);
            },
            Ok(Step::Done) => {
                return Ok(());
            },
            Ok(Step::Apply(ready)) => {
                assert(position < catalog@.len());
                match backend.apply_migration(
                    ready.name.as_str(),
                    ready.sql.as_str(),
                    ready.checksum.as_str(),
                ) {
                    Err(cause) => {
                        return Err(MigrationError::Adapter(cause));
                    },
                    Ok(_) => {},
                }
                progress.push(ready.name);
                position += 1;
                proof {
                    assert(progress@.take(earlier.len() as int) =~= earlier);
                    assert(progress@.skip(earlier.len() as int) =~= shown.push(ready.name));
                    assert(todo.take(done + 1) =~= todo.take(done).push(todo[done]));
                    assert(reported_names(shown.push(ready.name)) =~= reported_names(shown).push(
                        ready.name@,
                    ));
                    assert(names_of(todo.take(done).push(todo[done])) =~= names_of(
                        todo.take(done),
                    ).push(todo[done].name));
                }
            },
        }
    }
}

/// Brings the database up to the catalog: creates the control table where it
/// is missing, fetches the history, checks it against the catalog and applies
/// what is pending. Any failure ends the run at once; nothing is retried.
pub fn run_migrations<B>(backend: &B, catalog: &Catalog, progress: &mut Vec<String>) -> (result:
    Result<(), MigrationError>) where B: MigrationBackend + ?Sized
    ensures
        final(progress)@.len() >= old(progress)@.len(),
        final(progress)@.take(old(progress)@.len() as int) == old(progress)@,
        (result matches Err(MigrationError::Adapter(_)) && final(progress)@ == old(progress)@)
            || exists|history: Seq<AppliedRecord>| #[trigger]
            run_outcome(
                history,
                catalog@,
                reported_names(final(progress)@.skip(old(progress)@.len() as int)),
                result,
            ),
{
    proof {
        assert(progress@.take(progress@.len() as int) =~= progress@);
    }
    match backend.ensure_migrations_table(BOOTSTRAP_MIGRATIONS_SQL) {
        Err(cause) => {
            return Err(MigrationError::Adapter(cause));
        },
        Ok(_) => {},
    }
    let applied = match backend.fetch_applied_migrations() {
        Err(cause) => {
            return Err(MigrationError::Adapter(cause));
        },
        Ok(rows) => rows,
    };
    apply_pending(backend, &applied, catalog, progress)
}

} // verus!
