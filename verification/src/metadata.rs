//! The metadata loader: the checksum table and the list of configuration
//! files that a package manager recorded, read from the files of its
//! metadata directory.

use crate::detect::PackageManager;
use crate::records::{
    content_lines, law_blank_line_adds_nothing, lemma_well_formed_by_content, lines_of,
    malformed_at, read_content_lines, records_of, ChecksumRecord,
};
use crate::table::{
    lemma_table_of_finite, lemma_with_records_concat, lemma_with_records_overlays, table_of,
    ChecksumTable,
};
use crate::text::{chars_of, ends_with};
use vstd::prelude::*;

verus! {

/// One file of a metadata directory: its name and what it holds.
#[derive(Debug, PartialEq, Eq)]
pub struct MetadataFile {
    pub name: String,
    pub contents: String,
}

/// A metadata file as the contracts see it.
pub struct MetadataFileView {
    pub name: Seq<char>,
    pub contents: Seq<char>,
}

impl View for MetadataFile {
    type V = MetadataFileView;

    open spec fn view(&self) -> MetadataFileView {
        MetadataFileView { name: self.name@, contents: self.contents@ }
    }
}

impl DeepView for MetadataFile {
    type V = MetadataFileView;

    open spec fn deep_view(&self) -> MetadataFileView {
        self@
    }
}

/// Why nothing could be loaded.
#[derive(Clone, Copy, Debug, PartialEq, Eq, Structural)]
pub enum LoadError {
    /// Loading is not provided for the package manager of the host.
    UnsupportedPackageManager,
    /// A line of a checksum file is not a checksum, two spaces and a path:
    /// the first such line, by the index of its file among the files given
    /// and by its own index among the lines of that file, both from zero.
    MalformedRecord { file: usize, line: usize },
}

/// Loading is provided for `apt` alone.
pub open spec fn supports_metadata(manager: PackageManager) -> bool {
    manager == PackageManager::Apt
}

/// A file of this name holds checksum records.
pub open spec fn is_checksum_file(name: Seq<char>) -> bool {
    ".md5sums"@.is_suffix_of(name)
}

/// A file of this name lists configuration files.
pub open spec fn is_conffile_manifest(name: Seq<char>) -> bool {
    ".conffiles"@.is_suffix_of(name)
}

/// The records of the checksum files among `files`, file after file.
pub open spec fn checksum_records(files: Seq<MetadataFileView>) -> Seq<ChecksumRecord>
    decreases files.len(),
{
    if files.len() == 0 {
        Seq::empty()
    } else if is_checksum_file(files.last().name) {
        checksum_records(files.drop_last()) + records_of(files.last().contents)
    } else {
        checksum_records(files.drop_last())
    }
}

/// The content lines of the manifests among `files`, file after file.
pub open spec fn manifest_entries(files: Seq<MetadataFileView>) -> Seq<Seq<char>>
    decreases files.len(),
{
    if files.len() == 0 {
        Seq::empty()
    } else if is_conffile_manifest(files.last().name) {
        manifest_entries(files.drop_last()) + content_lines(files.last().contents)
    } else {
        manifest_entries(files.drop_last())
    }
}

/// Line `line` of file `file` belongs to a checksum file and is malformed.
pub open spec fn malformed_in(files: Seq<MetadataFileView>, file: int, line: int) -> bool {
    &&& 0 <= file < files.len()
    &&& is_checksum_file(files[file].name)
    &&& malformed_at(lines_of(files[file].contents), line)
}

/// `(file, line)` is the first malformed line in reading order.
pub open spec fn is_first_malformed(files: Seq<MetadataFileView>, file: int, line: int) -> bool {
    &&& malformed_in(files, file, line)
    &&& forall|f: int, l: int|
        (f < file || (f == file && l < line)) ==> !malformed_in(files, f, l)
}

/// The place of the first malformed line in reading order; meaningful only
/// where some line is malformed.
pub open spec fn first_malformed(files: Seq<MetadataFileView>) -> (int, int) {
    choose|file: int, line: int| is_first_malformed(files, file, line)
}

/// What loading the checksums comes to: nothing for a package manager that
/// is not supported; nothing where a checksum file holds a malformed line,
/// with the place of the first such line; else the table of all records.
pub open spec fn checksum_outcome(manager: PackageManager, files: Seq<MetadataFileView>) -> Result<
    Map<Seq<char>, Seq<char>>,
    LoadError,
> {
    if !supports_metadata(manager) {
        Err(LoadError::UnsupportedPackageManager)
    } else if exists|f: int, l: int| malformed_in(files, f, l) {
        let (file, line) = first_malformed(files);
        Err(LoadError::MalformedRecord { file: file as usize, line: line as usize })
    } else {
        Ok(table_of(checksum_records(files)))
    }
}

/// What loading the configuration files comes to: nothing for a package
/// manager that is not supported, else every entry of every manifest.
pub open spec fn conffile_outcome(manager: PackageManager, files: Seq<MetadataFileView>) -> Result<
    Seq<Seq<char>>,
    LoadError,
> {
    if !supports_metadata(manager) {
        Err(LoadError::UnsupportedPackageManager)
    } else {
        Ok(manifest_entries(files))
    }
}

/// There is at most one first malformed line, and `first_malformed` names it.
pub proof fn lemma_first_malformed_unique(files: Seq<MetadataFileView>, file: int, line: int)
    requires
        is_first_malformed(files, file, line),
    ensures
        first_malformed(files) == (file, line),
{
}

/// Whether a file of this name holds checksum records.
pub fn holds_checksums(name: &str) -> (held: bool)
    ensures
        held == is_checksum_file(name@),
{
    let spelled = chars_of(name);
    ends_with(spelled.as_slice(), chars_of(".md5sums").as_slice())
}

/// Whether a file of this name lists configuration files.
pub fn lists_conffiles(name: &str) -> (listed: bool)
    ensures
        listed == is_conffile_manifest(name@),
{
    let spelled = chars_of(name);
    ends_with(spelled.as_slice(), chars_of(".conffiles").as_slice())
}

/// The directory in which a package manager keeps its metadata files, for
/// the package managers that loading is provided for.
pub fn metadata_directory(manager: PackageManager) -> (directory: Option<&'static str>)
    ensures
        directory is Some <==> supports_metadata(manager),
        directory matches Some(path) ==> path@ == "/var/lib/dpkg/info"@,
{
    match manager {
        PackageManager::Apt => Some("/var/lib/dpkg/info"),
        _ => None,
    }
}

/// Loads the checksums that the package manager recorded from the files of
/// its metadata directory. Only files whose name ends in `.md5sums` are read;
/// where two records name one path, the later one stands.
pub fn load_md5s(manager: PackageManager, files: &[MetadataFile]) -> (loaded: Result<
    ChecksumTable,
    LoadError,
>)
    ensures
        checksum_outcome(manager, files.deep_view()) == (match loaded {
            Ok(table) => Ok(table@),
            Err(error) => Err(error),
        }),
        loaded matches Ok(table) ==> table@.dom().finite(),
{
    match manager {
        PackageManager::Apt => {},
        _ => {
            return Err(LoadError::UnsupportedPackageManager);
        },
    }
    let ghost given = files.deep_view();
    let mut table = ChecksumTable::new();
    let mut at: usize = 0;
    while at < files.len()
        invariant
            at <= files.len(),
            supports_metadata(manager),
            given == files.deep_view(),
            forall|f: int, l: int| f < at ==> !malformed_in(given, f, l),
            table@ == table_of(checksum_records(given.take(at as int))),
        decreases files.len() - at,
    {
        let ghost before = given.take(at as int);
        assert(given.take(at + 1).drop_last() =~= before);
        assert(given[at as int] == files[at as int]@);
        if holds_checksums(files[at].name.as_str()) {
            match table.insert_records(files[at].contents.as_str()) {
                Ok(()) => {
                    proof {
                        lemma_with_records_concat(
                            Map::empty(),
                            checksum_records(before),
                            records_of(given[at as int].contents),
                        );
                    }
                },
                Err(line) => {
                    proof {
                        assert(is_first_malformed(given, at as int, line as int));
                        lemma_first_malformed_unique(given, at as int, line as int);
                    }
                    return Err(LoadError::MalformedRecord { file: at, line });
                },
            }
        }
        at += 1;
    }
    proof {
        assert(given.take(at as int) =~= given);
        lemma_table_of_finite(checksum_records(given));
    }
    Ok(table)
}

/// Loads the paths of the configuration files that the package manager
/// recorded from the files of its metadata directory. Only files whose name
/// ends in `.conffiles` are read; each of their lines that is not blank is
/// one path, and the paths come in the order of the files and of their lines.
pub fn load_conffiles(manager: PackageManager, files: &[MetadataFile]) -> (loaded: Result<
    Vec<String>,
    LoadError,
>)
    ensures
        conffile_outcome(manager, files.deep_view()) == (match loaded {
            Ok(paths) => Ok(paths.deep_view()),
            Err(error) => Err(error),
        }),
{
    match manager {
        PackageManager::Apt => {},
        _ => {
            return Err(LoadError::UnsupportedPackageManager);
        },
    }
    let ghost given = files.deep_view();
    let mut paths: Vec<String> = Vec::new();
    let mut at: usize = 0;
    while at < files.len()
        invariant
            at <= files.len(),
            given == files.deep_view(),
            paths.deep_view() == manifest_entries(given.take(at as int)),
        decreases files.len() - at,
    {
        assert(given.take(at + 1).drop_last() =~= given.take(at as int));
        assert(given[at as int] == files[at as int]@);
        if lists_conffiles(files[at].name.as_str()) {
            let mut entries = read_content_lines(files[at].contents.as_str());
            paths.append(&mut entries);
        }
        at += 1;
    }
    assert(given.take(at as int) =~= given);
    Ok(paths)
}

/// The two loaders serve the same package managers: one reports that the
/// package manager is not supported exactly if the other does, whatever the
/// files hold, and the configuration files load for every package manager
/// that is supported.
pub proof fn law_unsupported_alike(
    manager: PackageManager,
    checksum_files: Seq<MetadataFileView>,
    manifest_files: Seq<MetadataFileView>,
)
    ensures
        checksum_outcome(manager, checksum_files) == Err::<Map<Seq<char>, Seq<char>>, _>(
            LoadError::UnsupportedPackageManager,
        ) <==> conffile_outcome(manager, manifest_files) == Err::<Seq<Seq<char>>, _>(
            LoadError::UnsupportedPackageManager,
        ),
        conffile_outcome(manager, manifest_files) is Ok <==> supports_metadata(manager),
        checksum_outcome(manager, checksum_files) is Ok ==> conffile_outcome(
            manager,
            manifest_files,
        ) is Ok,
{
}

/// On files without a malformed line the two loaders fare alike: both
/// succeed, or both report that the package manager is not supported.
pub proof fn law_loaders_agree(manager: PackageManager, files: Seq<MetadataFileView>)
    requires
        forall|file: int, line: int| !malformed_in(files, file, line),
    ensures
        ({
            &&& checksum_outcome(manager, files) is Ok
            &&& conffile_outcome(manager, files) is Ok
        }) || ({
            &&& checksum_outcome(manager, files) == Err::<Map<Seq<char>, Seq<char>>, _>(
                LoadError::UnsupportedPackageManager,
            )
            &&& conffile_outcome(manager, files) == Err::<Seq<Seq<char>>, _>(
                LoadError::UnsupportedPackageManager,
            )
        }),
{
}

/// No configuration file that is loaded has an empty path: a blank line of a
/// manifest is no entry.
pub proof fn law_entries_not_blank(files: Seq<MetadataFileView>, entry: int)
    requires
        0 <= entry < manifest_entries(files).len(),
    ensures
        manifest_entries(files)[entry].len() > 0,
    decreases files.len(),
{
    if files.len() > 0 && entry < manifest_entries(files.drop_last()).len() {
        law_entries_not_blank(files.drop_last(), entry);
    }
}

/// The files go by the same names, one by one, and hold the same content
/// lines.
pub open spec fn same_content(files: Seq<MetadataFileView>, others: Seq<MetadataFileView>) -> bool {
    &&& files.len() == others.len()
    &&& forall|file: int|
        0 <= file < files.len() ==> {
            &&& (#[trigger] files[file]).name == others[file].name
            &&& content_lines(files[file].contents) == content_lines(others[file].contents)
        }
}

/// Files of the same names and the same content lines hold the same entries
/// and the same records.
pub proof fn lemma_same_content_same_entries(
    files: Seq<MetadataFileView>,
    others: Seq<MetadataFileView>,
)
    requires
        same_content(files, others),
    ensures
        manifest_entries(files) == manifest_entries(others),
        checksum_records(files) == checksum_records(others),
    decreases files.len(),
{
    if files.len() > 0 {
        assert(files.last().name == others.last().name);
        lemma_same_content_same_entries(files.drop_last(), others.drop_last());
    }
}

/// Files of the same names and the same content lines hold a malformed line
/// together or not at all.
pub proof fn lemma_same_content_same_faults(
    files: Seq<MetadataFileView>,
    others: Seq<MetadataFileView>,
)
    requires
        same_content(files, others),
        exists|file: int, line: int| malformed_in(files, file, line),
    ensures
        exists|file: int, line: int| malformed_in(others, file, line),
{
    let (file, line) = choose|file: int, line: int| malformed_in(files, file, line);
    lemma_well_formed_by_content(files[file].contents);
    lemma_well_formed_by_content(others[file].contents);
    let fault = choose|fault: int| malformed_at(lines_of(others[file].contents), fault);
    assert(malformed_in(others, file, fault));
}

/// Only the content lines count: files that differ in nothing but their
/// blank lines load the same configuration files, and their checksums load
/// for the one exactly if they load for the other, into the same table.
pub proof fn law_only_content_lines_count(
    manager: PackageManager,
    files: Seq<MetadataFileView>,
    others: Seq<MetadataFileView>,
)
    requires
        same_content(files, others),
    ensures
        conffile_outcome(manager, files) == conffile_outcome(manager, others),
        checksum_outcome(manager, files) is Ok <==> checksum_outcome(manager, others) is Ok,
        checksum_outcome(manager, files) is Ok ==> checksum_outcome(manager, files)
            == checksum_outcome(manager, others),
{
    lemma_same_content_same_entries(files, others);
    if exists|file: int, line: int| malformed_in(files, file, line) {
        lemma_same_content_same_faults(files, others);
    }
    if exists|file: int, line: int| malformed_in(others, file, line) {
        lemma_same_content_same_faults(others, files);
    }
}

/// Blank lines are ignored: a blank line put into one of the files, between
/// two of its lines, changes neither the configuration files that are loaded
/// nor whether the checksums load, nor the table that they load into.
pub proof fn law_blank_lines_ignored(
    manager: PackageManager,
    files: Seq<MetadataFileView>,
    file: int,
    before: Seq<char>,
    after: Seq<char>,
)
    requires
        0 <= file < files.len(),
        files[file].contents == before + "\n"@ + after,
    ensures
        ({
            let padded = files.update(
                file,
                MetadataFileView {
                    name: files[file].name,
                    contents: before + "\n"@ + "\n"@ + after,
                },
            );
            &&& conffile_outcome(manager, padded) == conffile_outcome(manager, files)
            &&& checksum_outcome(manager, padded) is Ok <==> checksum_outcome(manager, files) is Ok
            &&& checksum_outcome(manager, files) is Ok ==> checksum_outcome(manager, padded)
                == checksum_outcome(manager, files)
        }),
{
    let padded = files.update(
        file,
        MetadataFileView { name: files[file].name, contents: before + "\n"@ + "\n"@ + after },
    );
    law_blank_line_adds_nothing(before, after);
    law_only_content_lines_count(manager, files, padded);
}

/// The records of `file` name `path`, and `file` holds checksums.
pub open spec fn names_path(file: MetadataFileView, path: Seq<char>) -> bool {
    is_checksum_file(file.name) && table_of(records_of(file.contents)).contains_key(path)
}

/// In the table of all records, the last file that names a path decides
/// what the table holds for it.
pub proof fn lemma_last_naming_file_decides(
    files: Seq<MetadataFileView>,
    file: int,
    path: Seq<char>,
)
    requires
        0 <= file < files.len(),
        names_path(files[file], path),
        forall|later: int| file < later < files.len() ==> !names_path(#[trigger] files[later], path),
    ensures
        table_of(checksum_records(files)).contains_key(path),
        table_of(checksum_records(files))[path] == table_of(records_of(files[file].contents))[path],
    decreases files.len(),
{
    let front = files.drop_last();
    let last = files.last();
    if is_checksum_file(last.name) {
        lemma_with_records_concat(Map::empty(), checksum_records(front), records_of(last.contents));
        lemma_with_records_overlays(table_of(checksum_records(front)), records_of(last.contents));
    }
    if file < files.len() - 1 {
        lemma_last_naming_file_decides(front, file, path);
    }
}

/// The file that is read last wins: where several checksum files name one
/// path, the table holds for it what the last of them says.
pub proof fn law_later_file_wins(
    manager: PackageManager,
    files: Seq<MetadataFileView>,
    file: int,
    path: Seq<char>,
)
    requires
        0 <= file < files.len(),
        names_path(files[file], path),
        forall|later: int| file < later < files.len() ==> !names_path(#[trigger] files[later], path),
    ensures
        checksum_outcome(manager, files) matches Ok(table) ==> {
            &&& table.contains_key(path)
            &&& table[path] == table_of(records_of(files[file].contents))[path]
        },
{
    lemma_last_naming_file_decides(files, file, path);
}

} // verus!
