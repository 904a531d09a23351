//! Packing a directory tree into a zip archive and unpacking an archive into
//! a directory. The archive format is the work of the `zip` crate; what goes
//! into an archive, under which names, and where what comes out of one is
//! put, is decided here.

use crate::file_path::{join, path_join, sep};
use std::io::Cursor;
use std::io::Read;
use std::io::Write;
use vstd::prelude::*;
use zip::result::ZipError;
use zip::write::FileOptions;
use zip::CompressionMethod;
use zip::ZipArchive;
use zip::ZipWriter;

verus! {

/// A component of a path, as the walk of a directory gives it.
#[derive(Debug, Clone, PartialEq, Eq)]
pub enum PathPart {
    /// A drive or share, where the platform has them.
    Prefix(String),
    /// The root of the file system.
    RootDir,
    /// `.`
    CurDir,
    /// `..`
    ParentDir,
    /// The name of a file or a directory.
    Normal(String),
}

/// The mathematical value of a [`PathPart`].
pub enum PathPartView {
    Prefix(Seq<char>),
    RootDir,
    CurDir,
    ParentDir,
    Normal(Seq<char>),
}

impl View for PathPart {
    type V = PathPartView;

    open spec fn view(&self) -> PathPartView {
        match self {
            PathPart::Prefix(p) => PathPartView::Prefix(p@),
            PathPart::RootDir => PathPartView::RootDir,
            PathPart::CurDir => PathPartView::CurDir,
            PathPart::ParentDir => PathPartView::ParentDir,
            PathPart::Normal(n) => PathPartView::Normal(n@),
        }
    }
}

impl PathPart {
    /// A copy of this component.
    pub fn duplicate(&self) -> (r: PathPart)
        ensures
            r@ == self@,
    {
        match self {
            PathPart::Prefix(p) => PathPart::Prefix(p.clone()),
            PathPart::RootDir => PathPart::RootDir,
            PathPart::CurDir => PathPart::CurDir,
            PathPart::ParentDir => PathPart::ParentDir,
            PathPart::Normal(n) => PathPart::Normal(n.clone()),
        }
    }
}

/// The values of a run of path components.
pub open spec fn parts_view(parts: Seq<PathPart>) -> Seq<PathPartView> {
    Seq::new(parts.len(), |i: int| parts[i]@)
}

/// One entry of the walk of a directory: its path, whether it is a regular
/// file, and, for a regular file, its bytes.
#[derive(Debug, Clone, PartialEq, Eq)]
pub struct WalkEntry {
    pub path: Vec<PathPart>,
    pub is_file: bool,
    pub data: Vec<u8>,
}

/// The mathematical value of a [`WalkEntry`].
pub struct WalkEntryView {
    pub path: Seq<PathPartView>,
    pub is_file: bool,
    pub data: Seq<u8>,
}

impl View for WalkEntry {
    type V = WalkEntryView;

    open spec fn view(&self) -> WalkEntryView {
        WalkEntryView { path: parts_view(self.path@), is_file: self.is_file, data: self.data@ }
    }
}

/// The values of a run of walk entries.
pub open spec fn walk_view(entries: Seq<WalkEntry>) -> Seq<WalkEntryView> {
    Seq::new(entries.len(), |i: int| entries[i]@)
}

/// What is to go into an archive: a regular file with its bytes, or a
/// directory.
#[derive(Debug, Clone, PartialEq, Eq)]
pub struct ArchiveItem {
    pub name: String,
    pub is_dir: bool,
    pub data: Vec<u8>,
}

impl View for ArchiveItem {
    type V = (Seq<char>, bool, Seq<u8>);

    open spec fn view(&self) -> (Seq<char>, bool, Seq<u8>) {
        (self.name@, self.is_dir, self.data@)
    }
}

/// The values of a run of archive items.
pub open spec fn items_view(items: Seq<ArchiveItem>) -> Seq<(Seq<char>, bool, Seq<u8>)> {
    Seq::new(items.len(), |i: int| items[i]@)
}

/// What was read from an archive: the entry's name, the name again if it is
/// safe to use as a path below a directory, and the entry's bytes.
#[derive(Debug, Clone, PartialEq, Eq)]
pub struct ArchiveEntry {
    pub name: String,
    pub enclosed: Option<String>,
    pub data: Vec<u8>,
}

/// What there is to do at one path when an archive is unpacked: a directory
/// to make, or a file to write with its bytes.
#[derive(Debug, Clone, PartialEq, Eq)]
pub struct Extracted {
    pub path: String,
    pub is_dir: bool,
    pub data: Vec<u8>,
}

impl View for Extracted {
    type V = (Seq<char>, bool, Seq<u8>);

    open spec fn view(&self) -> (Seq<char>, bool, Seq<u8>) {
        (self.path@, self.is_dir, self.data@)
    }
}

/// The values of a run of things to do.
pub open spec fn extracted_view(files: Seq<Extracted>) -> Seq<(Seq<char>, bool, Seq<u8>)> {
    Seq::new(files.len(), |i: int| files[i]@)
}

/// How the entries of an archive are compressed.
#[derive(Debug, Clone, Copy, PartialEq, Eq, Structural)]
pub enum Compression {
    Stored,
    Deflated,
}

/// What the `zip` crate reported.
#[derive(Debug, Clone, PartialEq, Eq)]
pub enum ZipFault {
    Io(String),
    InvalidArchive(String),
    UnsupportedArchive(String),
    FileNotFound,
}

/// Why an archive was not packed or unpacked.
#[derive(Debug, Clone, PartialEq, Eq)]
pub enum ArchiveError {
    /// The walk entry at this index does not lie at or below the prefix.
    NotBelowPrefix(usize),
    /// The `zip` crate failed.
    Zip(ZipFault),
}

/// The mode bits of every entry that this library packs.
pub const ENTRY_MODE: u32 = 0o755;

/// `std::io::Cursor`, of which nothing is known here but that it is a type.
#[verifier::external_type_specification]
#[verifier::external_body]
#[verifier::reject_recursive_types(T)]
pub struct ExCursor<T>(Cursor<T>);

/// `zip::ZipArchive`, an archive that was opened. What it holds is known by
/// the name [`listed`] only.
#[verifier::external_type_specification]
#[verifier::external_body]
#[verifier::reject_recursive_types(R)]
pub struct ExZipArchive<R>(ZipArchive<R>);

/// `zip::result::ZipError`, which is carried from the `zip` crate to
/// [`ZipFault`] unopened.
#[verifier::external_type_specification]
#[verifier::external_body]
pub struct ExZipError(ZipError);

/// A `zip::ZipWriter` that writes into memory, with the
/// `zip::write::FileOptions` that it gives to every entry. What it holds is
/// known by the names [`written`] and [`settings`] only.
#[verifier::external_body]
pub struct ArchiveWriter {
    inner: ZipWriter<Cursor<Vec<u8>>>,
    options: FileOptions,
}

/// The entries that a writer has taken so far, each with the name under which
/// it is stored, whether it is a directory, and its bytes.
pub uninterp spec fn written(writer: ArchiveWriter) -> Seq<(Seq<char>, bool, Seq<u8>)>;

/// The options that a writer was made with: whether it deflates what it
/// stores, and the mode bits of its entries.
pub uninterp spec fn settings(writer: ArchiveWriter) -> (bool, u32);

/// Whether `zip::ZipWriter::start_file` takes a regular file of the given
/// name, on a writer that holds the given entries and has the given options.
pub uninterp spec fn starts(
    held: Seq<(Seq<char>, bool, Seq<u8>)>,
    deflated: bool,
    mode: u32,
    name: Seq<char>,
) -> bool;

/// Whether a writer that holds the given entries, the last of them a regular
/// file, and has the given options takes the given bytes for that file.
pub uninterp spec fn writes(
    held: Seq<(Seq<char>, bool, Seq<u8>)>,
    deflated: bool,
    mode: u32,
    data: Seq<u8>,
) -> bool;

/// Whether `zip::ZipWriter::add_directory` takes a directory of the given
/// name, on a writer that holds the given entries and has the given options.
pub uninterp spec fn adds(
    held: Seq<(Seq<char>, bool, Seq<u8>)>,
    deflated: bool,
    mode: u32,
    name: Seq<char>,
) -> bool;

/// The bytes of the archive that holds the given entries, as
/// `zip::ZipWriter::finish` gives them with the given options; nothing where
/// it fails.
pub uninterp spec fn archived(
    entries: Seq<(Seq<char>, bool, Seq<u8>)>,
    deflated: bool,
    mode: u32,
) -> Option<Seq<u8>>;

/// The entries of an archive that was opened, each with its name and with
/// the bytes that reading it gives; no bytes where reading it fails.
pub uninterp spec fn listed(archive: ZipArchive<Cursor<Vec<u8>>>) -> Seq<
    (Seq<char>, Option<Seq<u8>>),
>;

/// The entries that `zip::ZipArchive` finds in the given bytes; nothing where
/// it does not take the bytes for an archive.
pub uninterp spec fn unpacked(bytes: Seq<u8>) -> Option<Seq<(Seq<char>, Option<Seq<u8>>)>>;

/// Whether the character separates the components of a path where this
/// library runs.
pub uninterp spec fn target_splits_at(c: char) -> bool;

/// Whether `zip::read::ZipFile::enclosed_name` lets the name through, where
/// this library runs.
pub uninterp spec fn encloses(name: Seq<char>) -> bool;

/// The name is that of a directory: it ends in a separator.
pub open spec fn names_directory(name: Seq<char>) -> bool {
    name.len() > 0 && name.last() == sep()
}

/// The name with a separator at its end, unless it ends in one already.
pub open spec fn slash_ended(name: Seq<char>) -> Seq<char> {
    if names_directory(name) {
        name
    } else {
        name + seq![sep()]
    }
}

/// The name under which `zip::ZipWriter::add_directory` stores a directory:
/// the name that was given, with a separator at its end unless it ends in `/`
/// or `\` already.
pub open spec fn dir_name(name: Seq<char>) -> Seq<char> {
    if name.len() > 0 && (name.last() == '/' || name.last() == '\\') {
        name
    } else {
        name + seq![sep()]
    }
}

/// Whether the method deflates.
pub open spec fn deflates(method: Compression) -> bool {
    method == Compression::Deflated
}

/// Calls `zip::ZipWriter::new` on an empty buffer in memory, and builds the
/// `zip::write::FileOptions` for its entries from the defaults, with the
/// given compression method and permission bits, which are to be permission
/// bits and no others. The contract claims that the new writer holds no entry
/// and has the options that were asked for.
#[verifier::external_body]
fn writer_new(method: Compression, mode: u32) -> (writer: ArchiveWriter)
    requires
        mode <= 0o777,
    ensures
        written(writer) == Seq::<(Seq<char>, bool, Seq<u8>)>::empty(),
        settings(writer) == (deflates(method), mode),
{
    let method = match method {
        Compression::Stored => CompressionMethod::Stored,
        Compression::Deflated => CompressionMethod::Deflated,
    };
    let options = FileOptions::default().compression_method(method).unix_permissions(mode);
    ArchiveWriter { inner: ZipWriter::new(Cursor::new(Vec::new())), options }
}

/// Calls `zip::ZipWriter::start_file` with the writer's options, on a writer
/// on which no call has failed. The contract claims that whether it succeeds
/// is a matter of what the writer holds, of its options and of the name; and
/// that on success the writer holds one entry more: a regular file of the
/// given name, with no bytes yet.
#[verifier::external_body]
fn writer_start_file(writer: ArchiveWriter, name: &str) -> (r: Result<ArchiveWriter, ZipError>)
    ensures
        r is Ok <==> starts(written(writer), settings(writer).0, settings(writer).1, name@),
        r matches Ok(next) ==> settings(next) == settings(writer) && written(next) == written(
            writer,
        ).push((name@, false, Seq::<u8>::empty())),
{
    let mut writer = writer;
    writer.inner.start_file(name, writer.options)?;
    Ok(writer)
}

/// Calls `write_all` of the `std::io::Write` that `zip::ZipWriter` implements,
/// on a writer on which no call has failed and whose last entry is a regular
/// file. The contract claims that whether it succeeds is a matter of what the
/// writer holds, of its options and of the bytes; and that on success the
/// given bytes follow those that the last entry had.
#[verifier::external_body]
fn writer_write_all(writer: ArchiveWriter, data: &Vec<u8>) -> (r: Result<ArchiveWriter, ZipError>)
    requires
        written(writer).len() > 0,
        !written(writer).last().1,
    ensures
        r is Ok <==> writes(written(writer), settings(writer).0, settings(writer).1, data@),
        r matches Ok(next) ==> settings(next) == settings(writer) && written(next) == written(
            writer,
        ).drop_last().push(
            (written(writer).last().0, false, written(writer).last().2 + data@),
        ),
{
    let mut writer = writer;
    writer.inner.write_all(data.as_slice()).map_err(ZipError::Io)?;
    Ok(writer)
}

/// Calls `zip::ZipWriter::add_directory` with the writer's options, on a
/// writer on which no call has failed. The contract claims that whether it
/// succeeds is a matter of what the writer holds, of its options and of the
/// name; and that on success the writer holds one entry more: a directory,
/// stored under the given name with a separator at its end.
#[verifier::external_body]
fn writer_add_directory(writer: ArchiveWriter, name: &str) -> (r: Result<ArchiveWriter, ZipError>)
    ensures
        r is Ok <==> adds(written(writer), settings(writer).0, settings(writer).1, name@),
        r matches Ok(next) ==> settings(next) == settings(writer) && written(next) == written(
            writer,
        ).push((dir_name(name@), true, Seq::<u8>::empty())),
{
    let mut writer = writer;
    writer.inner.add_directory(name, writer.options)?;
    Ok(writer)
}

/// Calls `zip::ZipWriter::finish`, on a writer on which no call has failed,
/// and hands out the buffer. The contract claims that whether it succeeds,
/// and with which bytes, is a matter of the entries that the writer held and
/// of its options.
#[verifier::external_body]
fn writer_finish(writer: ArchiveWriter) -> (r: Result<Vec<u8>, ZipError>)
    ensures
        match r {
            Ok(bytes) => archived(written(writer), settings(writer).0, settings(writer).1)
                == Some(bytes@),
            Err(_) => archived(written(writer), settings(writer).0, settings(writer).1) is None,
        },
{
    let mut writer = writer;
    writer.inner.finish().map(|buffer| buffer.into_inner())
}

/// Calls `zip::ZipArchive::new` on bytes in memory. The contract claims that
/// whether the bytes are taken for an archive, and with which entries, is a
/// matter of the bytes.
#[verifier::external_body]
fn archive_open(bytes: Vec<u8>) -> (r: Result<ZipArchive<Cursor<Vec<u8>>>, ZipError>)
    ensures
        match r {
            Ok(archive) => unpacked(bytes@) == Some(listed(archive)),
            Err(_) => unpacked(bytes@) is None,
        },
{
    ZipArchive::new(Cursor::new(bytes))
}

/// Calls `zip::ZipArchive::len`. The contract claims that this is the number
/// of the archive's entries.
#[verifier::external_body]
fn archive_len(archive: &ZipArchive<Cursor<Vec<u8>>>) -> (n: usize)
    ensures
        n == listed(*archive).len(),
{
    archive.len()
}

/// Calls `std::path::is_separator`. The contract claims that the answer is a
/// matter of the character, for the platform that the library was built for.
#[verifier::external_body]
fn is_separator(c: char) -> (r: bool)
    ensures
        r == target_splits_at(c),
{
    std::path::is_separator(c)
}

/// Reads one entry: `zip::ZipArchive::by_index_decrypt` with no password,
/// then `name`, `enclosed_name` and `read_to_end` of the `zip::read::ZipFile`
/// that it gives; an entry that asks for a password is refused. The contract
/// claims that the archive's entries stay what they were; that the entry is
/// read exactly where the index is one of theirs and the entry has bytes to
/// give; that name and bytes are then those of the entry; that `enclosed_name`
/// gives the name itself or nothing, which of the two being a matter of the
/// name; and that, where `\` does not separate the components of a path, it
/// gives the name exactly where [`confined`] holds of it.
#[verifier::external_body]
fn archive_entry(archive: &mut ZipArchive<Cursor<Vec<u8>>>, index: usize) -> (r: Result<
    ArchiveEntry,
    ZipError,
>)
    ensures
        listed(*final(archive)) == listed(*old(archive)),
        r is Ok <==> index < listed(*old(archive)).len() && listed(
            *old(archive),
        )[index as int].1 is Some,
        r matches Ok(entry) ==> entry.name@ == listed(*old(archive))[index as int].0 && Some(
            entry.data@,
        ) == listed(*old(archive))[index as int].1 && sieved(entry.name@, entry.enclosed) && (
        !target_splits_at('\\') ==> encloses(entry.name@) == confined(entry.name@)),
{
    let mut file = match archive.by_index_decrypt(index, &[])? {
        Ok(file) => file,
        Err(_) => return Err(ZipError::UnsupportedArchive(ZipError::PASSWORD_REQUIRED)),
    };
    let name = file.name().to_string();
    let enclosed = file.enclosed_name().map(|path| path.to_string_lossy().into_owned());
    let mut data = Vec::new();
    file.read_to_end(&mut data)?;
    Ok(ArchiveEntry { name, enclosed, data })
}

/// Tells the variants of `zip::result::ZipError` apart. Nothing is claimed of
/// the result.
#[verifier::external_body]
fn zip_fault(error: ZipError) -> ZipFault {
    match error {
        ZipError::Io(inner) => ZipFault::Io(inner.to_string()),
        ZipError::InvalidArchive(message) => ZipFault::InvalidArchive(message.to_string()),
        ZipError::UnsupportedArchive(message) => ZipFault::UnsupportedArchive(message.to_string()),
        ZipError::FileNotFound => ZipFault::FileNotFound,
    }
}

/// Where the last segment of `name` begins: after its last separator, or at
/// its start if it has none.
pub open spec fn last_segment_start(name: Seq<char>) -> int
    decreases name.len(),
{
    if name.len() == 0 {
        0
    } else if name.last() == sep() {
        name.len() as int
    } else {
        last_segment_start(name.drop_last())
    }
}

/// How deep below the starting directory a walk is after one more segment of
/// a path, if it has not left the starting directory: an empty segment and
/// `.` stay where they are, `..` goes up, anything else goes down.
pub open spec fn depth_step(depth: int, segment: Seq<char>) -> Option<int> {
    if segment.len() == 0 || segment == seq!['.'] {
        Some(depth)
    } else if segment == seq!['.', '.'] {
        if depth == 0 {
            None
        } else {
            Some(depth - 1)
        }
    } else {
        Some(depth + 1)
    }
}

/// How deep below the starting directory the path `name` ends, if no prefix
/// of it leaves the starting directory.
pub open spec fn depth_after(name: Seq<char>) -> Option<int>
    decreases name.len(),
{
    if name.len() == 0 {
        Some(0)
    } else {
        let start = last_segment_start(name);
        let before = if 0 < start <= name.len() {
            name.take(start - 1)
        } else {
            Seq::<char>::empty()
        };
        match depth_after(before) {
            Some(depth) => depth_step(depth, name.skip(start)),
            None => None,
        }
    }
}

/// The name is safe to use as a path below a directory: it holds no NUL,
/// it is not absolute, and no prefix of it leads out of the directory.
pub open spec fn confined(name: Seq<char>) -> bool {
    &&& !name.contains('\0')
    &&& !(name.len() > 0 && name[0] == sep())
    &&& depth_after(name) is Some
}

/// `enclosed` is what the guard makes of `name`: the name itself where the
/// guard lets it through, and nothing where it does not.
pub open spec fn sieved(name: Seq<char>, enclosed: Option<String>) -> bool {
    match enclosed {
        Some(path) => encloses(name) && path@ == name,
        None => !encloses(name),
    }
}

/// The name of an archive entry for a path: its normal components, with a
/// separator between one and the next. Components of other kinds are left
/// out.
pub open spec fn slashed(parts: Seq<PathPartView>) -> Seq<char>
    decreases parts.len(),
{
    if parts.len() == 0 {
        Seq::empty()
    } else {
        let front = slashed(parts.drop_last());
        match parts.last() {
            PathPartView::Normal(name) => if front.len() == 0 {
                name
            } else {
                front + seq![sep()] + name
            },
            _ => front,
        }
    }
}

/// Builds the name of an archive entry for a path.
pub fn path_to_string(path: &Vec<PathPart>) -> (r: String)
    ensures
        r@ == slashed(parts_view(path@)),
{
    let mut out = String::new();
    let mut empty = true;
    let mut i: usize = 0;
    assert(parts_view(path@).take(0) =~= Seq::empty());
    while i < path.len()
        invariant
            i <= path.len(),
            out@ == slashed(parts_view(path@).take(i as int)),
            empty == (out@.len() == 0),
        decreases path.len() - i,
    {
        proof {
            let upto = parts_view(path@).take(i + 1);
            assert(upto.drop_last() =~= parts_view(path@).take(i as int));
            assert(upto.last() == path[i as int]@);
        }
        match &path[i] {
            PathPart::Normal(name) => {
                if !empty {
                    proof {
                        reveal_strlit("/");
                        assert("/"@ =~= seq![sep()]);
                    }
                    out.append("/");
                }
                out.append(name.as_str());
                empty = out.as_str().unicode_len() == 0;
            },
            _ => {},
        }
        i += 1;
    }
    assert(parts_view(path@).take(path.len() as int) =~= parts_view(path@));
    out
}

/// Whether two path components are the same.
pub fn same_part(a: &PathPart, b: &PathPart) -> (r: bool)
    ensures
        r == (a@ == b@),
{
    match (a, b) {
        (PathPart::Prefix(x), PathPart::Prefix(y)) => *x == *y,
        (PathPart::RootDir, PathPart::RootDir) => true,
        (PathPart::CurDir, PathPart::CurDir) => true,
        (PathPart::ParentDir, PathPart::ParentDir) => true,
        (PathPart::Normal(x), PathPart::Normal(y)) => *x == *y,
        _ => false,
    }
}

/// The components of `path` that follow `base`, if `path` begins with the
/// components of `base`.
pub open spec fn stripped_of(path: Seq<PathPartView>, base: Seq<PathPartView>) -> Option<
    Seq<PathPartView>,
> {
    if base.is_prefix_of(path) {
        Some(path.skip(base.len() as int))
    } else {
        None
    }
}

/// Takes the components of `base` off the front of `path`.
pub fn strip_prefix(path: &Vec<PathPart>, base: &Vec<PathPart>) -> (r: Option<Vec<PathPart>>)
    ensures
        match r {
            Some(rest) => stripped_of(parts_view(path@), parts_view(base@)) == Some(
                parts_view(rest@),
            ),
            None => stripped_of(parts_view(path@), parts_view(base@)) is None,
        },
{
    let ghost p = parts_view(path@);
    let ghost b = parts_view(base@);
    if base.len() > path.len() {
        return None;
    }
    let mut i: usize = 0;
    while i < base.len()
        invariant
            i <= base.len() <= path.len(),
            p == parts_view(path@),
            b == parts_view(base@),
            forall|j: int| 0 <= j < i ==> p[j] == b[j],
        decreases base.len() - i,
    {
        if !same_part(&path[i], &base[i]) {
            assert(p.subrange(0, b.len() as int)[i as int] != b[i as int]);
            return None;
        }
        i += 1;
    }
    assert(b =~= p.subrange(0, b.len() as int));
    let mut rest: Vec<PathPart> = Vec::new();
    let mut k: usize = base.len();
    while k < path.len()
        invariant
            base.len() <= k <= path.len(),
            p == parts_view(path@),
            rest.len() == k - base.len(),
            forall|j: int| 0 <= j < rest.len() ==> rest[j]@ == p[base.len() + j],
        decreases path.len() - k,
    {
        rest.push(path[k].duplicate());
        k += 1;
    }
    assert(parts_view(rest@) =~= p.skip(b.len() as int));
    Some(rest)
}

/// What packing makes of a walk entry that lies at or below the prefix: a
/// regular file goes in with its bytes, under the name that the components
/// after the prefix give; a directory goes in under such a name too, unless
/// it is the prefix itself, which is left out.
pub open spec fn item_of(entry: WalkEntryView, prefix: Seq<PathPartView>) -> Option<
    (Seq<char>, bool, Seq<u8>),
> {
    let rest = entry.path.skip(prefix.len() as int);
    if entry.is_file {
        Some((slashed(rest), false, entry.data))
    } else if rest.len() > 0 {
        Some((slashed(rest), true, Seq::empty()))
    } else {
        None
    }
}

/// Every walk entry lies at or below the prefix.
pub open spec fn all_below(entries: Seq<WalkEntryView>, prefix: Seq<PathPartView>) -> bool {
    forall|i: int| 0 <= i < entries.len() ==> prefix.is_prefix_of((#[trigger] entries[i]).path)
}

/// What goes into the archive of a walk, in the order of the walk.
pub open spec fn packed(entries: Seq<WalkEntryView>, prefix: Seq<PathPartView>) -> Seq<
    (Seq<char>, bool, Seq<u8>),
>
    decreases entries.len(),
{
    if entries.len() == 0 {
        Seq::empty()
    } else {
        let front = packed(entries.drop_last(), prefix);
        match item_of(entries.last(), prefix) {
            Some(item) => front.push(item),
            None => front,
        }
    }
}

/// Decides what goes into the archive of a walk. Fails at the first entry
/// that does not lie at or below the prefix.
pub fn plan_archive(entries: &Vec<WalkEntry>, prefix: &Vec<PathPart>) -> (r: Result<
    Vec<ArchiveItem>,
    ArchiveError,
>)
    ensures
        match r {
            Ok(items) => all_below(walk_view(entries@), parts_view(prefix@)) && items_view(items@)
                == packed(walk_view(entries@), parts_view(prefix@)),
            Err(e) => e matches ArchiveError::NotBelowPrefix(index) && index < entries.len()
                && !parts_view(prefix@).is_prefix_of(entries[index as int]@.path) && all_below(
                walk_view(entries@).take(index as int),
                parts_view(prefix@),
            ),
        },
{
    let ghost walk = walk_view(entries@);
    let ghost base = parts_view(prefix@);
    let mut items: Vec<ArchiveItem> = Vec::new();
    let mut i: usize = 0;
    assert(walk.take(0) =~= Seq::empty());
    while i < entries.len()
        invariant
            i <= entries.len(),
            walk == walk_view(entries@),
            base == parts_view(prefix@),
            all_below(walk.take(i as int), base),
            items_view(items@) == packed(walk.take(i as int), base),
        decreases entries.len() - i,
    {
        let entry = &entries[i];
        proof {
            assert(walk.take(i + 1).drop_last() =~= walk.take(i as int));
            assert(walk.take(i + 1).last() == entry@);
        }
        let rest = match strip_prefix(&entry.path, prefix) {
            Some(rest) => rest,
            None => {
                return Err(ArchiveError::NotBelowPrefix(i));
            },
        };
        let ghost before = items_view(items@);
        if entry.is_file {
            let item = ArchiveItem {
                name: path_to_string(&rest),
                is_dir: false,
                data: crate::tree::copy_bytes(&entry.data),
            };
            items.push(item);
            assert(items_view(items@) =~= before.push(item_of(entry@, base)->0));
        } else if rest.len() > 0 {
            let item = ArchiveItem { name: path_to_string(&rest), is_dir: true, data: Vec::new() };
            items.push(item);
            assert(items_view(items@) =~= before.push(item_of(entry@, base)->0));
        } else {
            assert(items_view(items@) =~= before);
        }
        proof {
            assert forall|j: int| 0 <= j < i + 1 implies base.is_prefix_of(
                (#[trigger] walk.take(i + 1)[j]).path,
            ) by {
                if j < i {
                    assert(walk.take(i + 1)[j] == walk.take(i as int)[j]);
                }
            }
        }
        i += 1;
    }
    assert(walk.take(entries.len() as int) =~= walk);
    Ok(items)
}

/// How an archive stores an item: a regular file under its name, with its
/// bytes; a directory under its name with a separator at the end, with no
/// bytes. The directory is handed to the archive with the separator at its
/// end, so that the archive adds nothing to its name.
pub open spec fn stored_form(item: (Seq<char>, bool, Seq<u8>)) -> (Seq<char>, bool, Seq<u8>) {
    if item.1 {
        (dir_name(slash_ended(item.0)), true, Seq::empty())
    } else {
        item
    }
}

/// How an archive stores a run of items.
pub open spec fn stored(items: Seq<(Seq<char>, bool, Seq<u8>)>) -> Seq<(Seq<char>, bool, Seq<u8>)> {
    Seq::new(items.len(), |i: int| stored_form(items[i]))
}

/// A fresh writer with the given options takes the given items, one after
/// the other: a directory by `add_directory`, a regular file by `start_file`
/// and then its bytes.
pub open spec fn fed(items: Seq<(Seq<char>, bool, Seq<u8>)>, deflated: bool, mode: u32) -> bool
    decreases items.len(),
{
    if items.len() == 0 {
        true
    } else {
        let held = stored(items.drop_last());
        let last = items.last();
        fed(items.drop_last(), deflated, mode) && if last.1 {
            adds(held, deflated, mode, slash_ended(last.0))
        } else {
            starts(held, deflated, mode, last.0) && writes(
                held.push((last.0, false, Seq::empty())),
                deflated,
                mode,
                last.2,
            )
        }
    }
}

/// The `zip` crate makes an archive of the given items with the given
/// options: it takes every item, and it finishes the archive.
pub open spec fn packs(items: Seq<(Seq<char>, bool, Seq<u8>)>, deflated: bool, mode: u32) -> bool {
    fed(items, deflated, mode) && archived(stored(items), deflated, mode) is Some
}

/// A writer that takes a run of items takes every run that the run begins
/// with.
pub proof fn lemma_fed_so_far(
    items: Seq<(Seq<char>, bool, Seq<u8>)>,
    deflated: bool,
    mode: u32,
    n: int,
)
    requires
        fed(items, deflated, mode),
        0 <= n <= items.len(),
    ensures
        fed(items.take(n), deflated, mode),
    decreases items.len(),
{
    if n == items.len() {
        assert(items.take(n) =~= items);
    } else {
        lemma_fed_so_far(items.drop_last(), deflated, mode, n);
        assert(items.drop_last().take(n) =~= items.take(n));
    }
}

/// The name with a separator at its end, unless it ends in one already.
pub fn with_slash(name: &str) -> (r: String)
    ensures
        r@ == slash_ended(name@),
{
    let mut out = String::from_str(name);
    if !is_directory_name(name) {
        proof {
            reveal_strlit("/");
            assert("/"@ =~= seq![sep()]);
        }
        out.append("/");
    }
    out
}

/// Writes the archive of the given items, in their order. Every entry gets
/// the compression method that was asked for and the mode bits
/// [`ENTRY_MODE`]. The archive is written exactly where the `zip` crate takes
/// every item and finishes the archive.
pub fn write_archive(items: &Vec<ArchiveItem>, method: Compression) -> (r: Result<
    Vec<u8>,
    ArchiveError,
>)
    ensures
        r is Ok <==> packs(items_view(items@), deflates(method), ENTRY_MODE),
        match r {
            Ok(bytes) => Some(bytes@) == archived(
                stored(items_view(items@)),
                deflates(method),
                ENTRY_MODE,
            ),
            Err(e) => e is Zip,
        },
{
    let ghost asked = items_view(items@);
    let ghost all = stored(asked);
    let ghost d = deflates(method);
    let mut writer = writer_new(method, ENTRY_MODE);
    let mut i: usize = 0;
    assert(all.take(0) =~= Seq::empty());
    assert(asked.take(0) =~= Seq::empty());
    while i < items.len()
        invariant
            i <= items.len(),
            asked == items_view(items@),
            all == stored(asked),
            d == deflates(method),
            written(writer) == all.take(i as int),
            settings(writer) == (d, ENTRY_MODE),
            fed(asked.take(i as int), d, ENTRY_MODE),
        decreases items.len() - i,
    {
        let item = &items[i];
        let ghost before = written(writer);
        proof {
            assert(asked.take(i + 1).drop_last() =~= asked.take(i as int));
            assert(asked.take(i + 1).last() == asked[i as int]);
            assert(stored(asked.take(i as int)) =~= all.take(i as int));
            assert(all.take(i + 1) =~= all.take(i as int).push(all[i as int]));
            if fed(asked, d, ENTRY_MODE) {
                lemma_fed_so_far(asked, d, ENTRY_MODE, i + 1);
            }
        }
        if item.is_dir {
            let name = with_slash(item.name.as_str());
            writer = match writer_add_directory(writer, name.as_str()) {
                Ok(next) => next,
                Err(e) => {
                    return Err(ArchiveError::Zip(zip_fault(e)));
                },
            };
        } else {
            writer = match writer_start_file(writer, item.name.as_str()) {
                Ok(next) => next,
                Err(e) => {
                    return Err(ArchiveError::Zip(zip_fault(e)));
                },
            };
            writer = match writer_write_all(writer, &item.data) {
                Ok(next) => next,
                Err(e) => {
                    return Err(ArchiveError::Zip(zip_fault(e)));
                },
            };
            assert(Seq::<u8>::empty() + item.data@ =~= item.data@);
            assert(before.push((item.name@, false, Seq::<u8>::empty())).drop_last() =~= before);
        }
        assert(written(writer) =~= all.take(i + 1));
        i += 1;
    }
    assert(all.take(items.len() as int) =~= all);
    assert(asked.take(items.len() as int) =~= asked);
    match writer_finish(writer) {
        Ok(bytes) => Ok(bytes),
        Err(e) => Err(ArchiveError::Zip(zip_fault(e))),
    }
}

/// Packs the walk of a directory tree into an archive. `entries` is the walk
/// and `prefix` the path of the tree's root: every entry goes in under the
/// name that its components after the prefix give, regular files with their
/// bytes, directories as entries of their own, the root left out.
///
/// The walk is looked through before anything is written: an entry that does
/// not lie at or below the prefix fails the packing, whatever the `zip` crate
/// would have said of the entries before it. Where every entry lies at or
/// below the prefix, the archive is written exactly where the `zip` crate
/// takes every item and finishes the archive.
pub fn zip_dir(entries: &Vec<WalkEntry>, prefix: &Vec<PathPart>, method: Compression) -> (r: Result<
    Vec<u8>,
    ArchiveError,
>)
    ensures
        r is Ok <==> all_below(walk_view(entries@), parts_view(prefix@)) && packs(
            packed(walk_view(entries@), parts_view(prefix@)),
            deflates(method),
            ENTRY_MODE,
        ),
        match r {
            Ok(bytes) => Some(bytes@) == archived(
                stored(packed(walk_view(entries@), parts_view(prefix@))),
                deflates(method),
                ENTRY_MODE,
            ),
            Err(ArchiveError::NotBelowPrefix(index)) => index < entries.len() && !parts_view(
                prefix@,
            ).is_prefix_of(entries[index as int]@.path) && all_below(
                walk_view(entries@).take(index as int),
                parts_view(prefix@),
            ),
            Err(ArchiveError::Zip(_)) => all_below(walk_view(entries@), parts_view(prefix@)),
        },
{
    let items = match plan_archive(entries, prefix) {
        Ok(items) => items,
        Err(e) => {
            proof {
                let index = e->NotBelowPrefix_0;
                assert(walk_view(entries@)[index as int] == entries[index as int]@);
            }
            return Err(e);
        },
    };
    write_archive(&items, method)
}

/// What reading gives for the entries of an archive: every entry in its
/// place, with its name and its bytes, and with what the guard makes of its
/// name. Where `\` does not separate the components of a path, the guard lets
/// through the names that are [`confined`].
pub open spec fn read_as(
    entries: Seq<ArchiveEntry>,
    listing: Seq<(Seq<char>, Option<Seq<u8>>)>,
) -> bool {
    &&& entries.len() == listing.len()
    &&& forall|i: int|
        0 <= i < entries.len() ==> (#[trigger] entries[i]).name@ == listing[i].0 && Some(
            entries[i].data@,
        ) == listing[i].1 && sieved(entries[i].name@, entries[i].enclosed) && (!target_splits_at(
            '\\',
        ) ==> encloses(entries[i].name@) == confined(entries[i].name@))
}

/// The `zip` crate takes the bytes for an archive and every entry of it has
/// bytes to give.
pub open spec fn readable(bytes: Seq<u8>) -> bool {
    unpacked(bytes) matches Some(listing) && forall|i: int|
        0 <= i < listing.len() ==> (#[trigger] listing[i]).1 is Some
}

/// Whether `\`, too, separates the components of a path where this library
/// runs.
pub fn backslash_separates() -> (r: bool)
    ensures
        r == target_splits_at('\\'),
{
    is_separator('\\')
}

/// Reads every entry of the archive in `bytes`. The entries are read exactly
/// where the `zip` crate takes the bytes for an archive and reads every entry
/// of it.
pub fn read_archive(bytes: Vec<u8>) -> (r: Result<Vec<ArchiveEntry>, ArchiveError>)
    ensures
        r is Ok <==> readable(bytes@),
        match r {
            Ok(entries) => read_as(entries@, unpacked(bytes@)->0),
            Err(e) => e is Zip,
        },
{
    let ghost all = bytes@;
    let mut archive = match archive_open(bytes) {
        Ok(archive) => archive,
        Err(e) => {
            return Err(ArchiveError::Zip(zip_fault(e)));
        },
    };
    let ghost listing = unpacked(all)->0;
    let n = archive_len(&archive);
    let mut entries: Vec<ArchiveEntry> = Vec::new();
    let mut i: usize = 0;
    while i < n
        invariant
            i <= n == listing.len(),
            all == bytes@,
            unpacked(all) == Some(listing),
            listed(archive) == listing,
            read_as(entries@, listing.take(i as int)),
            forall|j: int| 0 <= j < i ==> (#[trigger] listing[j]).1 is Some,
        decreases n - i,
    {
        let entry = match archive_entry(&mut archive, i) {
            Ok(entry) => entry,
            Err(e) => {
                assert(listing[i as int].1 is None);
                return Err(ArchiveError::Zip(zip_fault(e)));
            },
        };
        entries.push(entry);
        i += 1;
    }
    assert(listing.take(n as int) =~= listing);
    Ok(entries)
}

/// What there is to do when entries are unpacked into `dest`: for every entry
/// that the guard lets through, in order, a directory to make or a file to
/// write, at the entry's name adjoined to `dest`. An entry whose name is that
/// of a directory is a directory to make; any other is a file to write, with
/// the entry's bytes. An entry that the guard does not let through is passed
/// over.
pub open spec fn placed(dest: Seq<char>, entries: Seq<(Option<Seq<char>>, bool, Seq<u8>)>) -> Seq<
    (Seq<char>, bool, Seq<u8>),
>
    decreases entries.len(),
{
    if entries.len() == 0 {
        Seq::empty()
    } else {
        let front = placed(dest, entries.drop_last());
        match entries.last().0 {
            Some(path) => if entries.last().1 {
                front.push((join(dest, path), true, Seq::empty()))
            } else {
                front.push((join(dest, path), false, entries.last().2))
            },
            None => front,
        }
    }
}

/// What the guard let through of each entry, with whether the entry's name is
/// that of a directory, and the entry's bytes.
pub open spec fn enclosures(entries: Seq<ArchiveEntry>) -> Seq<(Option<Seq<char>>, bool, Seq<u8>)> {
    Seq::new(
        entries.len(),
        |i: int|
            (
                match entries[i].enclosed {
                    Some(path) => Some(path@),
                    None => None,
                },
                names_directory(entries[i].name@),
                entries[i].data@,
            ),
    )
}

/// Whether the name is that of a directory.
pub fn is_directory_name(name: &str) -> (r: bool)
    ensures
        r == names_directory(name@),
{
    let n = name.unicode_len();
    if n == 0 {
        return false;
    }
    name.get_char(n - 1) == '/'
}

/// Decides what there is to do, and where, when the given entries are
/// unpacked into `dest`.
pub fn plan_extraction(dest: &str, entries: &Vec<ArchiveEntry>) -> (r: Vec<Extracted>)
    ensures
        extracted_view(r@) == placed(dest@, enclosures(entries@)),
{
    let ghost all = enclosures(entries@);
    let mut files: Vec<Extracted> = Vec::new();
    let mut i: usize = 0;
    assert(all.take(0) =~= Seq::empty());
    while i < entries.len()
        invariant
            i <= entries.len(),
            all == enclosures(entries@),
            extracted_view(files@) == placed(dest@, all.take(i as int)),
        decreases entries.len() - i,
    {
        proof {
            assert(all.take(i + 1).drop_last() =~= all.take(i as int));
            assert(all.take(i + 1).last() == all[i as int]);
        }
        let ghost before = extracted_view(files@);
        match &entries[i].enclosed {
            Some(path) => {
                let is_dir = is_directory_name(entries[i].name.as_str());
                let data = if is_dir {
                    Vec::new()
                } else {
                    crate::tree::copy_bytes(&entries[i].data)
                };
                let ghost content = data@;
                files.push(Extracted { path: path_join(dest, path.as_str()), is_dir, data });
                assert(extracted_view(files@) =~= before.push(
                    (join(dest@, path@), is_dir, content),
                ));
            },
            None => {
                assert(extracted_view(files@) =~= before);
            },
        }
        i += 1;
    }
    assert(all.take(entries.len() as int) =~= all);
    files
}

/// The names and bytes of a listing whose every entry has bytes to give.
pub open spec fn readings(listing: Seq<(Seq<char>, Option<Seq<u8>>)>) -> Seq<(Seq<char>, Seq<u8>)> {
    Seq::new(listing.len(), |i: int| (listing[i].0, listing[i].1->0))
}

/// What the guard makes of every name of a listing, with whether the name is
/// that of a directory, and the entry's bytes.
pub open spec fn sifted(listing: Seq<(Seq<char>, Seq<u8>)>) -> Seq<
    (Option<Seq<char>>, bool, Seq<u8>),
> {
    Seq::new(
        listing.len(),
        |i: int|
            (
                if encloses(listing[i].0) {
                    Some(listing[i].0)
                } else {
                    None
                },
                names_directory(listing[i].0),
                listing[i].1,
            ),
    )
}

/// Every name of a listing that is [`confined`], with whether the name is
/// that of a directory, and the entry's bytes.
pub open spec fn screened(listing: Seq<(Seq<char>, Seq<u8>)>) -> Seq<
    (Option<Seq<char>>, bool, Seq<u8>),
> {
    Seq::new(
        listing.len(),
        |i: int|
            (
                if confined(listing[i].0) {
                    Some(listing[i].0)
                } else {
                    None
                },
                names_directory(listing[i].0),
                listing[i].1,
            ),
    )
}

/// Unpacks the archive in `bytes` into the directory `dest_folder`: says
/// which directories to make and which files to write. Every entry whose name
/// the guard lets through is a directory to make, if its name is that of a
/// directory, or else a file to write, at its name adjoined to the directory;
/// an entry whose name the guard does not let through is passed over, and the
/// unpacking goes on.
///
/// The archive is unpacked exactly where the `zip` crate takes the bytes for
/// an archive and reads every entry of it. Where `\` does not separate the
/// components of a path, the guard lets through the names that are
/// [`confined`].
pub fn unzip(bytes: Vec<u8>, dest_folder: &str) -> (r: Result<Vec<Extracted>, ArchiveError>)
    ensures
        r is Ok <==> readable(bytes@),
        match r {
            Ok(files) => extracted_view(files@) == placed(
                dest_folder@,
                sifted(readings(unpacked(bytes@)->0)),
            ) && (!target_splits_at('\\') ==> extracted_view(files@) == placed(
                dest_folder@,
                screened(readings(unpacked(bytes@)->0)),
            )),
            Err(e) => e is Zip,
        },
{
    let ghost all = bytes@;
    let entries = match read_archive(bytes) {
        Ok(entries) => entries,
        Err(e) => {
            return Err(e);
        },
    };
    proof {
        assert(enclosures(entries@) =~= sifted(readings(unpacked(all)->0)));
        if !target_splits_at('\\') {
            assert(enclosures(entries@) =~= screened(readings(unpacked(all)->0)));
        }
    }
    Ok(plan_extraction(dest_folder, &entries))
}

/// A name that a file or a directory can have: not empty, without a
/// separator and without NUL, and neither `.` nor `..`.
pub open spec fn proper_name(name: Seq<char>) -> bool {
    &&& name.len() > 0
    &&& !name.contains(sep())
    &&& !name.contains('\0')
    &&& name != seq!['.']
    &&& name != seq!['.', '.']
}

/// Every component is the proper name of a file or a directory.
pub open spec fn plain(parts: Seq<PathPartView>) -> bool {
    forall|i: int|
        0 <= i < parts.len() ==> is_proper(#[trigger] parts[i])
}

/// The component is the proper name of a file or a directory.
pub open spec fn is_proper(part: PathPartView) -> bool {
    part matches PathPartView::Normal(name) && proper_name(name)
}

/// How an archive lists what it stores: each entry with its name and its
/// bytes.
pub open spec fn listing_of(entries: Seq<(Seq<char>, bool, Seq<u8>)>) -> Seq<(Seq<char>, Seq<u8>)> {
    Seq::new(entries.len(), |i: int| (entries[i].0, entries[i].2))
}

/// What comes of a walk that is packed and unpacked again into `dest`: every
/// regular file is a file to write, with its bytes, at its place below
/// `dest`, and every directory below the root is a directory to make.
pub open spec fn unpacked_walk(
    dest: Seq<char>,
    entries: Seq<WalkEntryView>,
    prefix: Seq<PathPartView>,
) -> Seq<(Seq<char>, bool, Seq<u8>)>
    decreases entries.len(),
{
    if entries.len() == 0 {
        Seq::empty()
    } else {
        let front = unpacked_walk(dest, entries.drop_last(), prefix);
        let rest = entries.last().path.skip(prefix.len() as int);
        if entries.last().is_file {
            front.push((join(dest, slashed(rest)), false, entries.last().data))
        } else if rest.len() > 0 {
            front.push((join(dest, slash_ended(slashed(rest))), true, Seq::empty()))
        } else {
            front
        }
    }
}

/// The files to write among the things to do, each with its path and its
/// bytes, in their order.
pub open spec fn files_to_write(plan: Seq<(Seq<char>, bool, Seq<u8>)>) -> Seq<(Seq<char>, Seq<u8>)>
    decreases plan.len(),
{
    if plan.len() == 0 {
        Seq::empty()
    } else if plan.last().1 {
        files_to_write(plan.drop_last())
    } else {
        files_to_write(plan.drop_last()).push((plan.last().0, plan.last().2))
    }
}

/// The regular files of a walk, each with its place below `dest` and its
/// bytes, in the order of the walk.
pub open spec fn walk_files(
    dest: Seq<char>,
    entries: Seq<WalkEntryView>,
    prefix: Seq<PathPartView>,
) -> Seq<(Seq<char>, Seq<u8>)>
    decreases entries.len(),
{
    if entries.len() == 0 {
        Seq::empty()
    } else if entries.last().is_file {
        walk_files(dest, entries.drop_last(), prefix).push(
            (
                join(dest, slashed(entries.last().path.skip(prefix.len() as int))),
                entries.last().data,
            ),
        )
    } else {
        walk_files(dest, entries.drop_last(), prefix)
    }
}

/// The walk can make the round trip: below the prefix its paths are made of
/// proper names.
pub open spec fn round_trips(entries: Seq<WalkEntryView>, prefix: Seq<PathPartView>) -> bool {
    forall|i: int|
        0 <= i < entries.len() ==> plain((#[trigger] entries[i]).path.skip(prefix.len() as int))
}

/// A text without a separator is one segment.
pub proof fn lemma_one_segment(text: Seq<char>)
    requires
        !text.contains(sep()),
    ensures
        last_segment_start(text) == 0,
    decreases text.len(),
{
    if text.len() > 0 {
        assert(text[text.len() - 1] != sep());
        let front = text.drop_last();
        assert forall|i: int| 0 <= i < front.len() implies front[i] != sep() by {
            assert(front[i] == text[i]);
        }
        lemma_one_segment(front);
    }
}

/// The last segment of a text that ends in a separator and a name is the
/// name.
pub proof fn lemma_last_segment(front: Seq<char>, name: Seq<char>)
    requires
        !name.contains(sep()),
    ensures
        last_segment_start(front + seq![sep()] + name) == front.len() + 1,
    decreases name.len(),
{
    let text = front + seq![sep()] + name;
    if name.len() == 0 {
        assert(text.last() == sep());
    } else {
        assert(text.last() == name.last());
        assert(name[name.len() - 1] != sep());
        let shorter = name.drop_last();
        assert forall|i: int| 0 <= i < shorter.len() implies shorter[i] != sep() by {
            assert(shorter[i] == name[i]);
        }
        lemma_last_segment(front, shorter);
        assert(text.drop_last() =~= front + seq![sep()] + shorter);
    }
}

/// The entry name of a path of proper names is confined, ends in no
/// separator, and lies as deep as the path is long.
pub proof fn lemma_slashed_is_confined(parts: Seq<PathPartView>)
    requires
        plain(parts),
    ensures
        confined(slashed(parts)),
        depth_after(slashed(parts)) == Some(parts.len() as int),
        parts.len() > 0 ==> slashed(parts).len() > 0 && slashed(parts).last() != sep(),
        parts.len() == 0 ==> slashed(parts).len() == 0,
    decreases parts.len(),
{
    if parts.len() > 0 {
        let front_parts = parts.drop_last();
        assert forall|i: int| 0 <= i < front_parts.len() implies is_proper(
            #[trigger] front_parts[i],
        ) by {
            assert(front_parts[i] == parts[i]);
        }
        lemma_slashed_is_confined(front_parts);
        let front = slashed(front_parts);
        let name = parts.last()->Normal_0;
        assert(parts[parts.len() - 1] == parts.last());
        assert(is_proper(parts[parts.len() - 1]));
        assert(proper_name(name));
        let text = slashed(parts);
        assert(name[name.len() - 1] != sep());
        assert(name[0] != sep());
        if front.len() == 0 {
            assert(text == name);
            lemma_one_segment(name);
            assert(text.skip(0) =~= name);
        } else {
            assert(text == front + seq![sep()] + name);
            lemma_last_segment(front, name);
            assert(text.take(front.len() as int) =~= front);
            assert(text.skip(front.len() as int + 1) =~= name);
            assert(text[0] == front[0]);
            assert(text.last() == name.last());
            assert forall|i: int| 0 <= i < text.len() implies text[i] != '\0' by {
                if i < front.len() {
                    assert(text[i] == front[i]);
                } else if i > front.len() {
                    assert(text[i] == name[i - front.len() - 1]);
                }
            }
        }
    }
}

/// The name under which the directory of a path of proper names is stored is
/// the entry name of the path with a separator at its end, and it is
/// confined.
pub proof fn lemma_dir_name_is_confined(parts: Seq<PathPartView>)
    requires
        plain(parts),
        parts.len() > 0,
    ensures
        dir_name(slash_ended(slashed(parts))) == slash_ended(slashed(parts)),
        names_directory(slash_ended(slashed(parts))),
        confined(slash_ended(slashed(parts))),
{
    lemma_slashed_is_confined(parts);
    let name = slashed(parts);
    let stored = slash_ended(name);
    assert(stored == name + seq![sep()]);
    assert(stored.last() == sep());
    assert(last_segment_start(stored) == stored.len());
    assert(stored.take(stored.len() - 1) =~= name);
    assert(stored.skip(stored.len() as int) =~= Seq::<char>::empty());
    assert(stored[0] == name[0]);
    assert forall|i: int| 0 <= i < stored.len() implies stored[i] != '\0' by {
        if i < name.len() {
            assert(stored[i] == name[i]);
        }
    }
}

/// A walk that can make the round trip is packed; the archive lists what it
/// stores; the listing is unpacked into `dest`. Then there is a file to write
/// for every regular file of the walk, with its own bytes at its own place
/// below `dest`, a directory to make for every directory below the root, and
/// nothing else, all in the order of the walk.
pub proof fn lemma_round_trip(
    dest: Seq<char>,
    entries: Seq<WalkEntryView>,
    prefix: Seq<PathPartView>,
)
    requires
        round_trips(entries, prefix),
    ensures
        placed(dest, screened(listing_of(stored(packed(entries, prefix))))) == unpacked_walk(
            dest,
            entries,
            prefix,
        ),
    decreases entries.len(),
{
    if entries.len() > 0 {
        let front = entries.drop_last();
        let last = entries.last();
        assert(entries[entries.len() - 1] == last);
        assert forall|i: int| 0 <= i < front.len() implies plain(
            (#[trigger] front[i]).path.skip(prefix.len() as int),
        ) by {
            assert(front[i] == entries[i]);
        }
        lemma_round_trip(dest, front, prefix);
        let rest = last.path.skip(prefix.len() as int);
        let before = packed(front, prefix);
        let now = packed(entries, prefix);
        match item_of(last, prefix) {
            Some(item) => {
                assert(now == before.push(item));
                let kept = stored_form(item);
                assert(stored(now) =~= stored(before).push(kept));
                assert(listing_of(stored(now)) =~= listing_of(stored(before)).push(
                    (kept.0, kept.2),
                ));
                let verdict = if confined(kept.0) {
                    Some(kept.0)
                } else {
                    None
                };
                assert(screened(listing_of(stored(now))) =~= screened(
                    listing_of(stored(before)),
                ).push((verdict, names_directory(kept.0), kept.2)));
                assert(screened(listing_of(stored(now))).drop_last() =~= screened(
                    listing_of(stored(before)),
                ));
                lemma_slashed_is_confined(rest);
                if !last.is_file {
                    lemma_dir_name_is_confined(rest);
                }
            },
            None => {},
        }
    }
}

/// The files to write for a walk that was packed and unpacked are the
/// regular files of the walk.
pub proof fn lemma_walk_files(dest: Seq<char>, entries: Seq<WalkEntryView>, prefix: Seq<PathPartView>)
    ensures
        files_to_write(unpacked_walk(dest, entries, prefix)) == walk_files(dest, entries, prefix),
    decreases entries.len(),
{
    if entries.len() > 0 {
        let front = unpacked_walk(dest, entries.drop_last(), prefix);
        lemma_walk_files(dest, entries.drop_last(), prefix);
        let rest = entries.last().path.skip(prefix.len() as int);
        if entries.last().is_file {
            let file = (join(dest, slashed(rest)), false, entries.last().data);
            assert(front.push(file).drop_last() =~= front);
        } else if rest.len() > 0 {
            let dir = (join(dest, slash_ended(slashed(rest))), true, Seq::<u8>::empty());
            assert(front.push(dir).drop_last() =~= front);
        }
    }
}

/// Round trip. A walk that can make the round trip is packed; the archive
/// lists what it stores; the listing is unpacked into `dest`. Then the files
/// to write are the regular files of the walk, each with its own bytes at its
/// own place below `dest`, in the order of the walk, and no others.
pub proof fn lemma_files_come_back(
    dest: Seq<char>,
    entries: Seq<WalkEntryView>,
    prefix: Seq<PathPartView>,
)
    requires
        round_trips(entries, prefix),
    ensures
        files_to_write(placed(dest, screened(listing_of(stored(packed(entries, prefix))))))
            == walk_files(dest, entries, prefix),
{
    lemma_round_trip(dest, entries, prefix);
    lemma_walk_files(dest, entries, prefix);
}

} // verus!
