//! The migration catalog: which entries of a directory are migrations, and
//! the order in which they run.

use crate::checksum::checksum;
use crate::checksum::checksum_of;
use crate::order::compare_names;
use crate::order::lemma_bytes_before_irreflexive;
use crate::order::lemma_bytes_before_transitive;
use crate::order::name_before;
use crate::order::Precedence;
use vstd::prelude::*;
use vstd::string::StringSliceAdditionalSpecFns;
use vstd::utf8::encode_utf8;

verus! {

/// What a directory listing shows of one entry.
#[derive(Debug)]
pub struct DirectoryEntry {
    /// The entry's base name.
    pub name: String,
    /// Whether the entry is a regular file.
    pub is_file: bool,
}

/// The bytes of `.sql`.
pub open spec fn sql_suffix() -> Seq<u8> {
    seq![46u8, 115u8, 113u8, 108u8]
}

/// The name has the extension `sql`, in exactly this case: it ends in `.sql`
/// and something stands before the dot.
pub open spec fn is_sql_name(name: Seq<char>) -> bool {
    let bytes = encode_utf8(name);
    bytes.len() > 4 && bytes.subrange(bytes.len() - 4, bytes.len() as int) == sql_suffix()
}

/// The entry is a migration: a regular file with the extension `sql`.
pub open spec fn is_migration(entry: DirectoryEntry) -> bool {
    entry.is_file && is_sql_name(entry.name@)
}

/// The names of the migrations among `entries`, in the order of the listing.
pub open spec fn selected_names(entries: Seq<DirectoryEntry>) -> Seq<Seq<char>>
    decreases entries.len(),
{
    if entries.len() == 0 {
        Seq::empty()
    } else if is_migration(entries.last()) {
        selected_names(entries.drop_last()).push(entries.last().name@)
    } else {
        selected_names(entries.drop_last())
    }
}

/// The characters of each name.
pub open spec fn texts(names: Seq<String>) -> Seq<Seq<char>> {
    names.map_values(|name: String| name@)
}

/// Whether a file name has the extension `sql`.
pub fn has_sql_extension(name: &str) -> (yes: bool)
    ensures
        yes == is_sql_name(name@),
{
    let bytes = name.as_bytes();
    let n = bytes.len();
    if n <= 4 {
        return false;
    }
    let yes = bytes[n - 4] == 46 && bytes[n - 3] == 115 && bytes[n - 2] == 113 && bytes[n - 1]
        == 108;
    proof {
        let tail = bytes@.subrange(n - 4, n as int);
        assert(tail[0] == bytes@[n - 4]);
        assert(tail[1] == bytes@[n - 3]);
        assert(tail[2] == bytes@[n - 2]);
        assert(tail[3] == bytes@[n - 1]);
        if yes {
            assert(tail =~= sql_suffix());
        } else {
            assert(sql_suffix()[0] == 46u8 && sql_suffix()[1] == 115u8 && sql_suffix()[2] == 113u8
                && sql_suffix()[3] == 108u8);
        }
    }
    yes
}

/// Picks the migrations out of a directory listing: regular files with the
/// extension `sql`. Directories and other files are passed over.
pub fn select_migrations(entries: &Vec<DirectoryEntry>) -> (names: Vec<String>)
    ensures
        texts(names@) == selected_names(entries@),
{
    let mut names: Vec<String> = Vec::new();
    let mut i: usize = 0;
    proof {
        assert(texts(names@) =~= selected_names(entries@.take(0)));
    }
    while i < entries.len()
        invariant
            i <= entries.len(),
            texts(names@) == selected_names(entries@.take(i as int)),
        decreases entries.len() - i,
    {
        let entry = &entries[i];
        let ghost before = names@;
        proof {
            assert(entries@.take(i + 1).drop_last() =~= entries@.take(i as int));
            assert(entries@.take(i + 1).last() == entries@[i as int]);
        }
        if entry.is_file && has_sql_extension(entry.name.as_str()) {
            names.push(entry.name.clone());
            proof {
                assert(texts(names@) =~= texts(before).push(entry.name@));
            }
        }
        i += 1;
    }
    proof {
        assert(entries@.take(i as int) =~= entries@);
    }
    names
}

/// A migration file as the rules see it: its name and its bytes.
pub struct FileView {
    pub name: Seq<char>,
    pub content: Seq<u8>,
}

impl FileView {
    /// The digest of the file's content.
    pub open spec fn checksum(self) -> Seq<char> {
        checksum_of(self.content)
    }
}

/// A migration file read from disk, together with the digest of its content.
#[derive(Debug)]
pub struct MigrationFile {
    name: String,
    content: Vec<u8>,
    checksum: String,
}

impl View for MigrationFile {
    type V = FileView;

    closed spec fn view(&self) -> FileView {
        FileView { name: self.name@, content: self.content@ }
    }
}

impl MigrationFile {
    #[verifier::type_invariant]
    spec fn digest_matches(self) -> bool {
        self.checksum@ == checksum_of(self.content@)
    }

    /// Takes a file's name and bytes and computes its digest.
    pub fn new(name: String, content: Vec<u8>) -> (file: Self)
        ensures
            file@ == (FileView { name: name@, content: content@ }),
    {
        let checksum = checksum(content.as_slice());
        MigrationFile { name, content, checksum }
    }

    /// The file's base name.
    pub fn name(&self) -> (name: &String)
        ensures
            name@ == self@.name,
    {
        &self.name
    }

    /// The file's bytes.
    pub fn content(&self) -> (content: &Vec<u8>)
        ensures
            content@ == self@.content,
    {
        &self.content
    }

    /// The digest of the file's bytes.
    pub fn checksum(&self) -> (digest: &String)
        ensures
            digest@ == self@.checksum(),
    {
        proof {
            use_type_invariant(self);
        }
        &self.checksum
    }
}

/// The view of each file.
pub open spec fn file_views(files: Seq<MigrationFile>) -> Seq<FileView> {
    files.map_values(|file: MigrationFile| file@)
}

/// No two files have the same name.
pub open spec fn names_distinct(files: Seq<FileView>) -> bool {
    forall|i: int, j: int| 0 <= i < j < files.len() ==> files[i].name != files[j].name
}

/// Every file's name sorts strictly before the names of those after it.
pub open spec fn sorted_by_name(files: Seq<FileView>) -> bool {
    forall|i: int, j: int|
        0 <= i < j < files.len() ==> name_before(#[trigger] files[i].name, #[trigger] files[j].name)
}

/// `file` stands in `files` at `from` or later.
pub open spec fn occurs_from(files: Seq<FileView>, from: int, file: FileView) -> bool {
    exists|k: int| from <= k < files.len() && #[trigger] files[k] == file
}

/// Where a file of this name belongs among files in name order: behind the
/// files whose names sort before it. Says too whether the file that stands
/// there already has this very name.
fn insertion_point(sorted: &Vec<MigrationFile>, name: &str) -> (place: (usize, bool))
    requires
        sorted_by_name(file_views(sorted@)),
    ensures
        place.0 <= sorted@.len(),
        forall|q: int|
            0 <= q < place.0 ==> name_before(#[trigger] file_views(sorted@)[q].name, name@),
        place.1 ==> place.0 < sorted@.len() && file_views(sorted@)[place.0 as int].name == name@,
        !place.1 ==> forall|q: int|
            place.0 <= q < sorted@.len() ==> name_before(
                name@,
                #[trigger] file_views(sorted@)[q].name,
            ),
{
    let ghost views = file_views(sorted@);
    let mut p: usize = 0;
    while p < sorted.len()
        invariant
            p <= sorted@.len(),
            views == file_views(sorted@),
            sorted_by_name(views),
            forall|q: int| 0 <= q < p ==> name_before(#[trigger] views[q].name, name@),
        decreases sorted@.len() - p,
    {
        match compare_names(sorted[p].name().as_str(), name) {
            Precedence::Before => {
                p += 1;
            },
            Precedence::Same => {
                return (p, true);
            },
            Precedence::After => {
                proof {
                    assert forall|q: int| p <= q < views.len() implies name_before(
                        name@,
                        #[trigger] views[q].name,
                    ) by {
                        if q > p {
                            lemma_bytes_before_transitive(
                                encode_utf8(name@),
                                encode_utf8(views[p as int].name),
                                encode_utf8(views[q].name),
                            );
                        }
                    }
                }
                return (p, false);
            },
        }
    }
    (p, false)
}

/// Two files of one listing carry the same name, so no order of them is the
/// right one.
#[derive(Debug)]
pub struct DuplicateName {
    /// The name that occurs twice.
    pub name: String,
}

/// The migrations of one directory in the order in which they run: by name,
/// byte by byte, no name twice.
#[derive(Debug)]
pub struct Catalog {
    files: Vec<MigrationFile>,
}

impl View for Catalog {
    type V = Seq<FileView>;

    closed spec fn view(&self) -> Seq<FileView> {
        file_views(self.files@)
    }
}

impl Catalog {
    #[verifier::type_invariant]
    spec fn ordered(self) -> bool {
        sorted_by_name(file_views(self.files@))
    }

    /// Orders the files of a directory by name. Fails when two of them have
    /// the same name, and then names it.
    pub fn build(files: Vec<MigrationFile>) -> (result: Result<Catalog, DuplicateName>)
        ensures
            result is Ok <==> names_distinct(file_views(files@)),
            result matches Ok(catalog) ==> {
                &&& sorted_by_name(catalog@)
                &&& catalog@.len() == files@.len()
                &&& forall|k: int|
                    0 <= k < files@.len() ==> catalog@.contains(#[trigger] file_views(files@)[k])
                &&& forall|p: int|
                    0 <= p < catalog@.len() ==> file_views(files@).contains(#[trigger] catalog@[p])
            },
            result matches Err(duplicate) ==> exists|i: int, j: int|
                0 <= i < j < files@.len() && #[trigger] file_views(files@)[i].name == duplicate.name@
                    && #[trigger] file_views(files@)[j].name == duplicate.name@,
    {
        let ghost input = file_views(files@);
        let mut rest = files;
        let mut sorted: Vec<MigrationFile> = Vec::new();
        while rest.len() > 0
            invariant
                input == file_views(files@),
                rest@.len() <= input.len(),
                file_views(rest@) == input.take(rest@.len() as int),
                sorted@.len() + rest@.len() == input.len(),
                sorted_by_name(file_views(sorted@)),
                forall|k: int|
                    rest@.len() <= k < input.len() ==> file_views(sorted@).contains(
                        #[trigger] input[k],
                    ),
                forall|p: int|
                    0 <= p < sorted@.len() ==> occurs_from(
                        input,
                        rest@.len() as int,
                        #[trigger] file_views(sorted@)[p],
                    ),
                forall|i: int, j: int|
                    rest@.len() <= i < j < input.len() ==> input[i].name != input[j].name,
            decreases rest@.len(),
        {
            let ghost r = rest@.len() - 1;
            let ghost before = file_views(sorted@);
            let ghost rest_before = rest@;
            let file = rest.pop().unwrap();
            proof {
                assert(file_views(rest_before)[r] == rest_before[r]@);
                assert(file@ == input[r]);
                assert(file_views(rest@) =~= input.take(r));
            }
            let (p, taken) = insertion_point(&sorted, file.name().as_str());
            if taken {
                let name = file.name().clone();
                proof {
                    assert(occurs_from(input, r + 1, before[p as int]));
                    let k = choose|k: int|
                        r + 1 <= k < input.len() && #[trigger] input[k] == before[p as int];
                    assert(file_views(files@)[r].name == name@);
                    assert(file_views(files@)[k].name == name@);
                }
                return Err(DuplicateName { name });
            }
            proof {
                assert forall|k: int| r < k < input.len() implies input[k].name
                    != file@.name by {
                    let q = choose|q: int| 0 <= q < before.len() && before[q] == input[k];
                    lemma_bytes_before_irreflexive(encode_utf8(file@.name));
                }
            }
            sorted.insert(p, file);
            proof {
                let after = file_views(sorted@);
                assert(after =~= before.insert(p as int, file@));
                assert forall|i: int, j: int| 0 <= i < j < after.len() implies name_before(
                    #[trigger] after[i].name,
                    #[trigger] after[j].name,
                ) by {
                    if i < p && j > p {
                        assert(after[i] == before[i]);
                        assert(after[j] == before[j - 1]);
                    } else if i < p && j < p {
                        assert(after[i] == before[i]);
                        assert(after[j] == before[j]);
                    } else if i > p {
                        assert(after[i] == before[i - 1]);
                        assert(after[j] == before[j - 1]);
                    }
                }
                assert forall|k: int| r <= k < input.len() implies after.contains(
                    #[trigger] input[k],
                ) by {
                    if k == r {
                        assert(after[p as int] == input[r]);
                    } else {
                        let q = choose|q: int| 0 <= q < before.len() && before[q] == input[k];
                        if q < p {
                            assert(after[q] == input[k]);
                        } else {
                            assert(after[q + 1] == input[k]);
                        }
                    }
                }
                assert forall|q: int| 0 <= q < after.len() implies occurs_from(
                    input,
                    r,
                    #[trigger] after[q],
                ) by {
                    if q == p {
                        assert(input[r] == after[q]);
                    } else if q < p {
                        assert(after[q] == before[q]);
                        assert(occurs_from(input, r + 1, before[q]));
                        let k = choose|k: int|
                            r + 1 <= k < input.len() && #[trigger] input[k] == before[q];
                        assert(input[k] == after[q]);
                    } else {
                        assert(after[q] == before[q - 1]);
                        assert(occurs_from(input, r + 1, before[q - 1]));
                        let k = choose|k: int|
                            r + 1 <= k < input.len() && #[trigger] input[k] == before[q - 1];
                        assert(input[k] == after[q]);
                    }
                }
            }
        }
        proof {
            let done = file_views(sorted@);
            assert forall|p: int| 0 <= p < done.len() implies input.contains(
                #[trigger] done[p],
            ) by {
                assert(occurs_from(input, 0, done[p]));
                let k = choose|k: int| 0 <= k < input.len() && #[trigger] input[k] == done[p];
            }
        }
        Ok(Catalog { files: sorted })
    }

    /// The migrations in running order: always sorted by name.
    pub fn files(&self) -> (files: &Vec<MigrationFile>)
        ensures
            file_views(files@) == self@,
            sorted_by_name(self@),
    {
        proof {
            use_type_invariant(self);
        }
        &self.files
    }

    /// The number of migrations.
    pub fn len(&self) -> (n: usize)
        ensures
            n == self@.len(),
    {
        self.files.len()
    }

    /// The migration at `index` in running order.
    pub fn get(&self, index: usize) -> (file: &MigrationFile)
        requires
            index < self@.len(),
        ensures
            file@ == self@[index as int],
    {
        &self.files[index]
    }
}

} // verus!
