//! Reading and writing zip archives held in memory, through the `zip` crate.
use std::io::Cursor;
use vstd::prelude::*;
use zip::write::SimpleFileOptions;
use zip::ZipWriter;

verus! {

/// Why an entry could not be read out of an archive.
#[derive(Debug, Clone, Copy, PartialEq, Eq, Structural)]
pub enum ZipFailure {
    /// The bytes are not a zip archive.
    NotAnArchive,
    /// The archive has no entry of that name.
    MissingEntry,
    /// The entry could not be decompressed.
    Unreadable,
}

/// Reading an entry failed: how, and the `zip` crate's message.
pub struct ZipReadError {
    pub failure: ZipFailure,
    pub message: String,
}

/// Whether `ZipArchive::new` accepts the bytes as an archive.
pub uninterp spec fn zip_is_archive(data: Seq<u8>) -> bool;

/// What reading the entry `name` out of the archive `data` gives: its decompressed
/// contents, or how it fails and the crate's message.
pub uninterp spec fn zip_entry(data: Seq<u8>, name: Seq<char>) -> Result<Seq<u8>, (ZipFailure, Seq<char>)>;

/// The names of the entries of the archive `data`, in the order of its central directory:
/// what `ZipArchive::file_names` lists, and the names `ZipArchive::by_name` looks up.
pub uninterp spec fn zip_entry_names(data: Seq<u8>) -> Seq<Seq<char>>;

/// `ZipArchive::new` over the bytes, `ZipArchive::by_name`, then `Read::read_to_end` of
/// the entry. Trusted: the result is [`zip_entry`] of the arguments, the archive step
/// fails exactly when [`zip_is_archive`] does not hold (it does not look at the name), and
/// a name that is not among [`zip_entry_names`] is a missing entry.
#[verifier::external_body]
pub(crate) fn zip_read_entry(data: &[u8], name: &str) -> (r: Result<Vec<u8>, ZipReadError>)
    ensures
        match r {
            Ok(v) => zip_entry(data@, name@) == Ok::<Seq<u8>, (ZipFailure, Seq<char>)>(v@),
            Err(e) => zip_entry(data@, name@) == Err::<Seq<u8>, (ZipFailure, Seq<char>)>(
                (e.failure, e.message@),
            ),
        },
        zip_is_archive(data@) <==> !(r matches Err(e) && e.failure == ZipFailure::NotAnArchive),
        zip_is_archive(data@) && !zip_entry_names(data@).contains(name@)
            ==> !(r is Ok) && !(r matches Err(e) && e.failure != ZipFailure::MissingEntry),
{
    let mut archive = match zip::ZipArchive::new(Cursor::new(data)) {
        Ok(a) => a,
        Err(e) => return Err(ZipReadError { failure: ZipFailure::NotAnArchive, message: e.to_string() }),
    };
    let mut entry = match archive.by_name(name) {
        Ok(f) => f,
        Err(e) => return Err(ZipReadError { failure: ZipFailure::MissingEntry, message: e.to_string() }),
    };
    let mut out = Vec::new();
    match std::io::Read::read_to_end(&mut entry, &mut out) {
        Ok(_) => Ok(out),
        Err(e) => Err(ZipReadError { failure: ZipFailure::Unreadable, message: e.to_string() }),
    }
}

/// An in-memory zip archive being written (`zip::ZipWriter` over a `Cursor<Vec<u8>>`).
/// The writer's own generics carry I/O trait bounds, so it is held here opaquely.
#[verifier::external_body]
pub struct ZipBuffer {
    inner: ZipWriter<Cursor<Vec<u8>>>,
}

/// How an entry is compressed.
#[derive(Debug, Clone, Copy, PartialEq, Eq, Structural)]
pub enum ZipCompression {
    Stored,
    Deflated,
}

/// The entries written so far into an in-memory zip writer, as (name, contents).
pub uninterp spec fn zip_written(w: ZipBuffer) -> Seq<(Seq<char>, Seq<u8>)>;

/// Whether an entry of the writer is open for writing: its last entry.
pub uninterp spec fn zip_open(w: ZipBuffer) -> bool;

/// The entry size below which writing to memory never fails: the deflated form of such an
/// entry stays under the 4 GiB limit of an entry without the zip64 option.
pub open spec fn zip_small_entry(contents: Seq<u8>) -> bool {
    contents.len() <= 0x8000_0000
}

/// `ZipWriter::new` over an empty in-memory buffer. Trusted: nothing is written yet and no
/// entry is open.
#[verifier::external_body]
pub(crate) fn zip_writer_new() -> (w: ZipBuffer)
    ensures
        zip_written(w) == Seq::<(Seq<char>, Seq<u8>)>::empty(),
        !zip_open(w),
{
    ZipBuffer { inner: ZipWriter::new(Cursor::new(Vec::new())) }
}

/// `ZipWriter::start_file` with `SimpleFileOptions::default()` and the given compression
/// method (the name must fit the 16-bit name length of a zip header, which the crate
/// unwraps). Trusted, as the crate's source shows: it finishes the open entry, refuses a
/// name already written, and otherwise opens a new, empty entry of that name after the
/// entries written before. Writing to memory does not fail, and finishing an entry only
/// fails when its deflated form passes 4 GiB (the deflater falls back to stored blocks of
/// at most 5 bytes overhead), so a new name after small entries is accepted.
#[verifier::external_body]
pub(crate) fn zip_start_file(w: &mut ZipBuffer, name: &str, compression: ZipCompression) -> (r: Result<(), String>)
    requires
        name@.len() < 16384,
    ensures
        r is Ok ==> zip_written(*final(w)) == zip_written(*old(w)).push((name@, Seq::<u8>::empty())),
        r is Ok ==> zip_open(*final(w)),
        (forall|i: int| 0 <= i < zip_written(*old(w)).len() ==> #[trigger] zip_written(*old(w))[i].0 != name@)
            && (forall|i: int| 0 <= i < zip_written(*old(w)).len() ==> zip_small_entry(#[trigger] zip_written(*old(w))[i].1))
            ==> r is Ok,
{
    let method = match compression {
        ZipCompression::Stored => zip::CompressionMethod::Stored,
        ZipCompression::Deflated => zip::CompressionMethod::Deflated,
    };
    let options = SimpleFileOptions::default().compression_method(method);
    w.inner.start_file(name, options).map_err(|e| e.to_string())
}

/// `Write::write_all` into the open entry. Trusted, as the crate's `Write::write` and std's
/// `write_all` show: on success the bytes are appended to the last entry (an empty write
/// succeeds and changes nothing, open entry or not); a non-empty write needs an open entry;
/// with an open entry the write succeeds while the entry stays within 4 GiB.
#[verifier::external_body]
pub(crate) fn zip_write_all(w: &mut ZipBuffer, data: &[u8]) -> (r: Result<(), String>)
    ensures
        r is Ok ==> zip_written(*final(w)) == (if zip_written(*old(w)).len() > 0 {
            zip_written(*old(w)).drop_last().push(
                (zip_written(*old(w)).last().0, zip_written(*old(w)).last().1 + data@),
            )
        } else {
            zip_written(*old(w))
        }),
        r is Ok ==> zip_open(*final(w)) == zip_open(*old(w)),
        r is Ok && data@.len() > 0 ==> zip_open(*old(w)) && zip_written(*old(w)).len() > 0,
        zip_open(*old(w)) && zip_written(*old(w)).len() > 0 && zip_written(*old(w)).last().1.len()
            + data@.len() <= u32::MAX ==> r is Ok,
{
    std::io::Write::write_all(&mut w.inner, data).map_err(|e| e.to_string())
}

/// The names of the entries written so far, in order.
pub open spec fn written_names(w: ZipBuffer) -> Seq<Seq<char>> {
    zip_written(w).map_values(|e: (Seq<char>, Seq<u8>)| e.0)
}

/// `ZipWriter::finish`, then the buffer. Trusted, as the crate's reader and writer show:
/// the bytes are an archive whose central directory lists the written entries in the
/// order they were written (the writer keeps them in insertion order and the reader reads
/// the directory in order), every written entry (their names being distinct) reads back
/// with the contents written, and any other name is a missing entry; writing to memory
/// fails only when an entry's deflated form passes 4 GiB, which small entries do not
/// reach.
#[verifier::external_body]
pub(crate) fn zip_finish(w: ZipBuffer) -> (r: Result<Vec<u8>, String>)
    ensures
        r matches Ok(bytes) ==> zip_is_archive(bytes@),
        r matches Ok(bytes) ==> ((forall|i: int, j: int|
            0 <= i < j < zip_written(w).len() ==> zip_written(w)[i].0 != zip_written(w)[j].0)
            ==> zip_entry_names(bytes@) == written_names(w)),
        r matches Ok(bytes) ==> forall|name: Seq<char>|
            !zip_entry_names(bytes@).contains(name) ==> (#[trigger] zip_entry(bytes@, name) matches Err(
                (f, _),
            ) && f == ZipFailure::MissingEntry),
        r matches Ok(bytes) ==> ((forall|i: int, j: int|
            0 <= i < j < zip_written(w).len() ==> zip_written(w)[i].0 != zip_written(w)[j].0)
            ==> forall|i: int|
            0 <= i < zip_written(w).len() ==> #[trigger] zip_entry(bytes@, zip_written(w)[i].0)
                == Ok::<Seq<u8>, (ZipFailure, Seq<char>)>(zip_written(w)[i].1)),
        (forall|i: int| 0 <= i < zip_written(w).len() ==> zip_small_entry(#[trigger] zip_written(w)[i].1))
            ==> r is Ok,
{
    w.inner.finish().map(|c| c.into_inner()).map_err(|e| e.to_string())
}

} // verus!
