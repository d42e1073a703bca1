//! The extraction transform: where an archive goes, and what writing it out
//! takes, entry by entry.
use crate::paths::{file_name, file_stem, file_stem_of, join, join_path};
use vstd::prelude::*;

verus! {

/// The zip crate's archive reader, carried opaque.
#[verifier::external_type_specification]
#[verifier::external_body]
#[verifier::reject_recursive_types(R)]
pub struct ExZipArchive<R>(zip::ZipArchive<R>);

/// std's in-memory reader, which the archive reader reads from.
#[verifier::external_type_specification]
#[verifier::external_body]
#[verifier::reject_recursive_types(T)]
pub struct ExCursor<T>(std::io::Cursor<T>);

/// The zip crate's error, carried opaque.
#[verifier::external_type_specification]
#[verifier::external_body]
pub struct ExZipError(zip::result::ZipError);

/// Whether the zip reader accepts these bytes as an archive.
pub uninterp spec fn zip_opens(data: Seq<u8>) -> bool;

/// How many entries the archive's central directory lists.
pub uninterp spec fn zip_entry_count(data: Seq<u8>) -> nat;

/// Whether entry `i` of the archive can be located, named and decompressed.
pub uninterp spec fn zip_entry_readable(data: Seq<u8>, i: int) -> bool;

/// The name that entry `i` of the archive records.
pub uninterp spec fn zip_entry_name(data: Seq<u8>, i: int) -> Seq<char>;

/// The decompressed contents of entry `i` of the archive.
pub uninterp spec fn zip_entry_data(data: Seq<u8>, i: int) -> Seq<u8>;

/// An archive opened over bytes held in memory.
struct Archive {
    reader: zip::ZipArchive<std::io::Cursor<Vec<u8>>>,
    source: Ghost<Seq<u8>>,
}

impl Archive {
    /// The bytes the archive was opened over.
    spec fn source(&self) -> Seq<u8> {
        self.source@
    }
}

/// One entry read out of an archive.
#[derive(Clone, Debug, PartialEq, Eq)]
pub struct ArchiveEntry {
    pub name: String,
    pub data: Vec<u8>,
}

/// Relies on zip::ZipArchive::new: it parses the central directory of the
/// bytes, and whether it succeeds depends on those bytes alone.
#[verifier::external_body]
fn open_archive(data: Vec<u8>) -> (r: Result<Archive, zip::result::ZipError>)
    ensures
        r.is_ok() == zip_opens(data@),
        r matches Ok(a) ==> a.source() == data@,
{
    let source = Ghost(data@);
    match zip::ZipArchive::new(std::io::Cursor::new(data)) {
        Ok(reader) => Ok(Archive { reader, source }),
        Err(e) => Err(e),
    }
}

/// Relies on zip::ZipArchive::len: the number of entries in the central
/// directory that `open_archive` parsed.
#[verifier::external_body]
fn entry_count(a: &Archive) -> (r: usize)
    ensures
        r == zip_entry_count(a.source()),
{
    a.reader.len()
}

/// Relies on zip::ZipArchive::by_index, on the entry's `name` and on its
/// std::io::Read::read_to_end: entry `i`'s recorded name and decompressed
/// bytes, or the reader's error; an index past the end is an error too.
#[verifier::external_body]
fn read_entry(a: &mut Archive, i: usize) -> (r: Result<ArchiveEntry, zip::result::ZipError>)
    ensures
        final(a).source() == old(a).source(),
        r.is_ok() == zip_entry_readable(old(a).source(), i as int),
        r matches Ok(e) ==> e.name@ == zip_entry_name(old(a).source(), i as int) && e.data@
            == zip_entry_data(old(a).source(), i as int),
{
    let mut file = a.reader.by_index(i)?;
    let name = file.name()?.into_owned();
    let mut data: Vec<u8> = Vec::new();
    std::io::Read::read_to_end(&mut file, &mut data)?;
    Ok(ArchiveEntry { name, data })
}

/// Relies on the Display of zip::result::ZipError, for a readable cause.
#[verifier::external_body]
fn zip_error_text(e: &zip::result::ZipError) -> String {
    e.to_string()
}

/// One step of writing an archive out.
#[derive(Clone, Debug, PartialEq, Eq)]
pub enum ExtractAction {
    /// Create this directory and any missing parents.
    CreateDir(String),
    /// Write these bytes to this file, creating its parent directories.
    WriteFile(String, Vec<u8>),
}

/// The contents of an `ExtractAction`.
pub enum ActionView {
    CreateDir(Seq<char>),
    WriteFile(Seq<char>, Seq<u8>),
}

impl View for ExtractAction {
    type V = ActionView;

    open spec fn view(&self) -> ActionView {
        match self {
            ExtractAction::CreateDir(p) => ActionView::CreateDir(p@),
            ExtractAction::WriteFile(p, d) => ActionView::WriteFile(p@, d@),
        }
    }
}

/// Why an archive could not be written out in full.
#[derive(Clone, Debug, PartialEq, Eq)]
pub enum ExtractFailure {
    /// The bytes are not a readable archive.
    UnreadableArchive(String),
    /// The entry at this index could not be read; the entries before it were.
    UnreadableEntry(usize, String),
    /// The entry at this index has this name, which is absolute or has a `..`
    /// part and so would leave the archive's folder; nothing of it is written.
    UnsafeEntryName(usize, String),
}

/// What extracting one archive takes: the steps for the entries that could be
/// read, in archive order, and the failure that stopped it, if any. Steps
/// before a failure are still carried out; nothing is cleaned up.
#[derive(Clone, Debug, PartialEq, Eq)]
pub struct ArchivePlan {
    pub actions: Vec<ExtractAction>,
    pub failure: Option<ExtractFailure>,
}

/// Whether `name` has a `..` part starting at position `i`.
pub open spec fn parent_part_at(name: Seq<char>, i: int) -> bool {
    &&& 0 <= i
    &&& i + 2 <= name.len()
    &&& name[i] == '.'
    &&& name[i + 1] == '.'
    &&& i == 0 || name[i - 1] == '/'
    &&& i + 2 == name.len() || name[i + 2] == '/'
}

/// An entry name that stays inside the folder it is extracted into: it is
/// relative, and none of its parts is `..`.
pub open spec fn is_safe_name(name: Seq<char>) -> bool {
    &&& !(name.len() > 0 && name[0] == '/')
    &&& forall|i: int| !parent_part_at(name, i)
}

/// The path that a step creates or writes.
pub open spec fn action_path(a: ActionView) -> Seq<char> {
    match a {
        ActionView::CreateDir(p) => p,
        ActionView::WriteFile(p, _) => p,
    }
}

/// `path` lies inside the folder `dir`: it is `dir` followed (after a
/// separator, unless `dir` is empty or ends in one) by a safe relative name.
pub open spec fn lies_under(dir: Seq<char>, path: Seq<char>) -> bool {
    exists|rest: Seq<char>|
        #![trigger is_safe_name(rest)]
        is_safe_name(rest) && ((path == dir + rest && (dir.len() == 0 || dir.last() == '/')) || (
        path == dir + seq!['/'] + rest))
}

/// `r` is the plan for extracting the archive `data` into `dir`: if the
/// bytes are no archive, no steps and that failure; otherwise one step per
/// entry, in order, up to the first entry that cannot be read or whose name
/// would leave `dir`, which is reported; with no such entry, a step for
/// every entry and no failure.
pub open spec fn is_unpack_plan(data: Seq<u8>, dir: Seq<char>, r: ArchivePlan) -> bool {
    &&& !zip_opens(data) ==> (r.actions@.len() == 0 && (r.failure matches Some(
        ExtractFailure::UnreadableArchive(_),
    )))
    &&& zip_opens(data) ==> {
        &&& r.actions@.len() <= zip_entry_count(data)
        &&& forall|k: int|
            0 <= k < r.actions@.len() ==> zip_entry_readable(data, k) && is_safe_name(
                zip_entry_name(data, k),
            ) && (#[trigger] r.actions@[k])@ == planned_action(
                dir,
                zip_entry_name(data, k),
                zip_entry_data(data, k),
            )
        &&& r.failure is None ==> r.actions@.len() == zip_entry_count(data)
        &&& r.failure matches Some(f) ==> r.actions@.len() < zip_entry_count(data) && ((
        f matches ExtractFailure::UnreadableEntry(i, _) && i == r.actions@.len()
            && !zip_entry_readable(data, i as int)) || (f matches ExtractFailure::UnsafeEntryName(
            i,
            n,
        ) && i == r.actions@.len() && zip_entry_readable(data, i as int) && n@ == zip_entry_name(
            data,
            i as int,
        ) && !is_safe_name(n@)))
    }
}

/// Containment law: every step of an extraction plan creates or writes a
/// path inside the archive's own folder; no entry name reaches outside it.
pub proof fn plan_stays_inside_target(data: Seq<u8>, dir: Seq<char>, r: ArchivePlan)
    requires
        is_unpack_plan(data, dir, r),
    ensures
        forall|k: int|
            0 <= k < r.actions@.len() ==> lies_under(dir, action_path((#[trigger] r.actions@[k])@)),
{
    assert forall|k: int| 0 <= k < r.actions@.len() implies lies_under(
        dir,
        action_path((#[trigger] r.actions@[k])@),
    ) by {
        let n = zip_entry_name(data, k);
        assert(zip_opens(data));
        assert(zip_entry_readable(data, k) && is_safe_name(n) && r.actions@[k]@ == planned_action(
            dir,
            n,
            zip_entry_data(data, k),
        ));
        assert(action_path(r.actions@[k]@) == join(dir, n));
        if dir.len() == 0 || dir.last() == '/' {
            assert(join(dir, n) == dir + n);
        } else {
            assert(join(dir, n) == dir + seq!['/'] + n);
        }
    }
}

/// Rerun law: two plans for the same archive bytes and target directory have
/// the same steps, and stop (or not) at the same entry; so extracting the
/// same batch again writes the same output.
pub proof fn unpacking_is_deterministic(data: Seq<u8>, dir: Seq<char>, a: ArchivePlan, b: ArchivePlan)
    requires
        is_unpack_plan(data, dir, a),
        is_unpack_plan(data, dir, b),
    ensures
        a.actions@.len() == b.actions@.len(),
        forall|k: int| 0 <= k < a.actions@.len() ==> (#[trigger] a.actions@[k])@ == b.actions@[k]@,
        a.failure is None <==> b.failure is None,
{
    if zip_opens(data) {
        if a.actions@.len() < b.actions@.len() {
            let i = a.actions@.len() as int;
            assert(is_safe_name(zip_entry_name(data, i)));
            assert(b.actions@[i]@ == planned_action(dir, zip_entry_name(data, i), zip_entry_data(data, i)));
        }
        if b.actions@.len() < a.actions@.len() {
            let i = b.actions@.len() as int;
            assert(is_safe_name(zip_entry_name(data, i)));
            assert(a.actions@[i]@ == planned_action(dir, zip_entry_name(data, i), zip_entry_data(data, i)));
        }
    }
}

/// The directory an archive is extracted into: its file name without the
/// extension, under the output root.
pub open spec fn target_dir(output_root: Seq<char>, archive_path: Seq<char>) -> Seq<char> {
    join(output_root, file_stem(file_name(archive_path)))
}

/// An entry whose name ends in a separator stands for a directory.
pub open spec fn is_dir_marker(name: Seq<char>) -> bool {
    name.len() > 0 && name.last() == '/'
}

/// The step that writes out one entry under `dir`.
pub open spec fn planned_action(dir: Seq<char>, name: Seq<char>, data: Seq<u8>) -> ActionView {
    if is_dir_marker(name) {
        ActionView::CreateDir(join(dir, name))
    } else {
        ActionView::WriteFile(join(dir, name), data)
    }
}

/// Whether an item is settled without any work: skipping is asked for and
/// its target directory is already there.
pub open spec fn skips(skip_existing: bool, target_exists: bool) -> bool {
    skip_existing && target_exists
}

/// The directory that the archive at `archive_path` is extracted into.
pub fn extract_target(output_root: &str, archive_path: &str) -> (r: String)
    ensures
        r@ == target_dir(output_root@, archive_path@),
{
    let stem = file_stem_of(archive_path);
    join_path(output_root, stem.as_str())
}

/// Whether extraction of an item is skipped: only when `skip_existing` is set
/// and the target directory exists, so that a second run over the same batch
/// reads no archive again.
pub fn skips_extraction(skip_existing: bool, target_exists: bool) -> (r: bool)
    ensures
        r == skips(skip_existing, target_exists),
{
    skip_existing && target_exists
}

/// Whether an entry name stays inside the folder it is extracted into.
pub fn safe_entry_name(name: &str) -> (r: bool)
    ensures
        r == is_safe_name(name@),
{
    let n = name.unicode_len();
    if n > 0 && name.get_char(0) == '/' {
        return false;
    }
    let mut i: usize = 0;
    while n >= 2 && i <= n - 2
        invariant
            n == name@.len(),
            i <= n,
            !(n > 0 && name@[0] == '/'),
            forall|k: int| 0 <= k < i ==> !parent_part_at(name@, k),
        decreases n - i,
    {
        let dots = name.get_char(i) == '.' && name.get_char(i + 1) == '.';
        let before = i == 0 || name.get_char(i - 1) == '/';
        let after = i + 2 == n || name.get_char(i + 2) == '/';
        if dots && before && after {
            assert(parent_part_at(name@, i as int));
            return false;
        }
        i = i + 1;
    }
    assert forall|k: int| !parent_part_at(name@, k) by {
        if 0 <= k < i {
        }
    }
    true
}

/// The step that writes out `entry` under `dir`.
pub fn action_for_entry(dir: &str, entry: ArchiveEntry) -> (r: ExtractAction)
    ensures
        r@ == planned_action(dir@, entry.name@, entry.data@),
{
    let path = join_path(dir, entry.name.as_str());
    let n = entry.name.as_str().unicode_len();
    if n > 0 && entry.name.as_str().get_char(n - 1) == '/' {
        ExtractAction::CreateDir(path)
    } else {
        ExtractAction::WriteFile(path, entry.data)
    }
}

/// Extraction of one archive, one entry at a time: each step is produced
/// from its entry alone, so a caller can write it out before the next entry
/// is decompressed.
pub struct Unpacker {
    archive: Archive,
    dir: String,
    next: usize,
    count: usize,
    stopped: bool,
}

impl Unpacker {
    /// The archive bytes being extracted.
    pub closed spec fn source(&self) -> Seq<u8> {
        self.archive.source()
    }

    /// The folder the archive is extracted into.
    pub closed spec fn target(&self) -> Seq<char> {
        self.dir@
    }

    /// How many entries have been turned into steps.
    pub closed spec fn position(&self) -> nat {
        self.next as nat
    }

    /// Whether a failure has ended the extraction.
    pub closed spec fn stopped(&self) -> bool {
        self.stopped
    }

    /// The entry count is the archive's, and the position does not pass it.
    pub closed spec fn wf(&self) -> bool {
        self.count == zip_entry_count(self.archive.source()) && self.next <= self.count
    }

    /// Whether the extraction is over: stopped, or past the last entry.
    pub open spec fn finished(&self) -> bool {
        self.stopped() || self.position() >= zip_entry_count(self.source())
    }

    /// Starts extracting the archive held in `data` into `dir`.
    pub fn start(data: Vec<u8>, dir: &str) -> (r: Result<Unpacker, ExtractFailure>)
        ensures
            r is Ok == zip_opens(data@),
            r matches Ok(u) ==> u.wf() && u.source() == data@ && u.target() == dir@ && u.position()
                == 0 && !u.stopped(),
            r matches Err(f) ==> f is UnreadableArchive,
    {
        match open_archive(data) {
            Ok(archive) => {
                let count = entry_count(&archive);
                Ok(Unpacker { archive, dir: String::from_str(dir), next: 0, count, stopped: false })
            },
            Err(e) => Err(ExtractFailure::UnreadableArchive(zip_error_text(&e))),
        }
    }

    /// The step for the next entry, the failure that ends the extraction, or
    /// `None` once it is over.
    pub fn next_step(&mut self) -> (r: Option<Result<ExtractAction, ExtractFailure>>)
        requires
            old(self).wf(),
        ensures
            final(self).wf(),
            final(self).source() == old(self).source(),
            final(self).target() == old(self).target(),
            old(self).finished() ==> r is None && final(self).position() == old(self).position()
                && final(self).stopped() == old(self).stopped(),
            !old(self).finished() ==> ({
                let i = old(self).position() as int;
                let data = old(self).source();
                let name = zip_entry_name(data, i);
                &&& zip_entry_readable(data, i) && is_safe_name(name) ==> (r matches Some(Ok(a))
                    && a@ == planned_action(old(self).target(), name, zip_entry_data(data, i))
                    && final(self).position() == i + 1 && !final(self).stopped())
                &&& !zip_entry_readable(data, i) ==> (r matches Some(Err(f)) && (f matches
                    ExtractFailure::UnreadableEntry(j, _) && j == i) && final(self).stopped())
                &&& zip_entry_readable(data, i) && !is_safe_name(name) ==> (r matches Some(Err(f))
                    && (f matches ExtractFailure::UnsafeEntryName(j, n) && j == i && n@ == name)
                    && final(self).stopped())
            }),
    {
        if self.stopped || self.next >= self.count {
            return None;
        }
        let i = self.next;
        match read_entry(&mut self.archive, i) {
            Ok(entry) => {
                if !safe_entry_name(entry.name.as_str()) {
                    self.stopped = true;
                    return Some(Err(ExtractFailure::UnsafeEntryName(i, entry.name)));
                }
                let act = action_for_entry(self.dir.as_str(), entry);
                self.next = i + 1;
                Some(Ok(act))
            },
            Err(e) => {
                self.stopped = true;
                Some(Err(ExtractFailure::UnreadableEntry(i, zip_error_text(&e))))
            },
        }
    }
}

/// The plan for extracting the archive held in `data` into `dir`: every entry
/// is read in order until one cannot be or would leave `dir`; each one read
/// becomes its step.
pub fn unpack_archive(data: Vec<u8>, dir: &str) -> (r: ArchivePlan)
    ensures
        is_unpack_plan(data@, dir@, r),
{
    let ghost bytes = data@;
    let mut actions: Vec<ExtractAction> = Vec::new();
    let mut u = match Unpacker::start(data, dir) {
        Ok(u) => u,
        Err(f) => {
            return ArchivePlan { actions, failure: Some(f) };
        },
    };
    loop
        invariant
            u.wf(),
            u.source() == bytes,
            u.target() == dir@,
            bytes == data@,
            zip_opens(bytes),
            !u.stopped(),
            actions@.len() == u.position(),
            u.position() <= zip_entry_count(bytes),
            forall|k: int|
                0 <= k < actions@.len() ==> zip_entry_readable(bytes, k) && is_safe_name(
                    zip_entry_name(bytes, k),
                ) && (#[trigger] actions@[k])@
                    == planned_action(dir@, zip_entry_name(bytes, k), zip_entry_data(bytes, k)),
        decreases zip_entry_count(bytes) - u.position(),
    {
        match u.next_step() {
            Some(Ok(a)) => {
                actions.push(a);
            },
            Some(Err(f)) => {
                return ArchivePlan { actions, failure: Some(f) };
            },
            None => {
                return ArchivePlan { actions, failure: None };
            },
        }
    }
}

} // verus!
