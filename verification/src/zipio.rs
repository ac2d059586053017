//! Trusted boundary to the `zip` crate: an in-memory archive writer and
//! reader.  Every contract here is believed, not proved; each states only
//! what the `zip` crate's source shows.

use vstd::prelude::*;
use vstd::utf8::encode_utf8;
use crate::names::{name_is_dir, with_slash};
use std::io::Cursor;
use std::io::Write;
use zip::read::ZipArchive;
use zip::write::ZipWriter;

verus! {

/// The in-progress archive writer.  `ZipWriter`'s declaration needs trait
/// bounds Verus does not resolve, so the writer lives in a hidden field.
#[verifier::external_body]
pub struct PakWriter {
    inner: ZipWriter<Cursor<Vec<u8>>>,
}

#[verifier::external_type_specification]
#[verifier::external_body]
#[verifier::reject_recursive_types(R)]
pub struct ExZipArchive<R>(ZipArchive<R>);

#[verifier::external_type_specification]
#[verifier::external_body]
#[verifier::reject_recursive_types(T)]
pub struct ExCursor<T>(Cursor<T>);

#[verifier::external_type_specification]
#[verifier::external_body]
pub struct ExZipError(zip::result::ZipError);

/// The entries an archive writer has taken so far, in order: each a stored
/// name and the payload written under it.
pub uninterp spec fn writer_entries(w: PakWriter) -> Seq<(Seq<char>, Seq<u8>)>;

/// The entries an opened archive lists, in index order: each a stored name
/// and the payload it decompresses to.
pub uninterp spec fn archive_entries(a: ZipArchive<Cursor<Vec<u8>>>) -> Seq<(Seq<char>, Seq<u8>)>;

/// The entries a finished archive's bytes parse back to, in index order.
pub uninterp spec fn stored_archive(bytes: Seq<u8>) -> Seq<(Seq<char>, Seq<u8>)>;

/// Whether the writer is in its ordinary state: every entry it holds was
/// accepted within the format's limits, so it can take further entries and
/// can finish.
pub uninterp spec fn writer_ok(w: PakWriter) -> bool;

/// Whether these bytes parse as an archive: the container's trailing central
/// directory is found and read whole.  Parsing is a deterministic function of
/// the bytes.
pub uninterp spec fn parses(bytes: Seq<u8>) -> bool;

/// Whether every entry of the parsed archive reads back whole: supported
/// compression, no encryption, and a payload that decompresses and passes its
/// integrity check.  Reading is deterministic in the bytes.
pub uninterp spec fn payloads_ok(bytes: Seq<u8>) -> bool;

/// [`payloads_ok`] of the bytes an archive was opened from, carried on the
/// opened archive.
pub uninterp spec fn archive_payloads_ok(a: ZipArchive<Cursor<Vec<u8>>>) -> bool;

/// Relies on zip::write::ZipWriter::new: a fresh writer holds no entries and
/// is in its ordinary state.
#[verifier::external_body]
pub(crate) fn writer_new() -> (w: PakWriter)
    ensures
        writer_entries(w) == Seq::<(Seq<char>, Seq<u8>)>::empty(),
        writer_ok(w),
{
    PakWriter { inner: ZipWriter::new(Cursor::new(Vec::new())) }
}

/// Relies on zip::write::ZipWriter::add_directory: on success it stores one
/// directory marker, under the given name with a trailing separator supplied
/// when the name lacks one, and with an empty payload.  On a writer in its
/// ordinary state the call's only failure conditions are a stored name that
/// duplicates an earlier one and a name beyond the format's 16-bit
/// name-length field, so outside those it is owed success.
#[verifier::external_body]
pub(crate) fn writer_add_directory(
    w: &mut PakWriter,
    name: &str,
) -> (r: Result<(), zip::result::ZipError>)
    ensures
        r is Ok ==> writer_entries(*final(w)) == writer_entries(*old(w)).push(
            (with_slash(name@), Seq::<u8>::empty()),
        ),
        ({
            &&& writer_ok(*old(w))
            &&& encode_utf8(with_slash(name@)).len() <= 65535
            &&& forall|k: int|
                0 <= k < writer_entries(*old(w)).len() ==> (#[trigger] writer_entries(
                    *old(w),
                )[k]).0 != with_slash(name@)
        }) ==> r is Ok && writer_ok(*final(w)),
{
    w.inner.add_directory::<&str, ()>(name, zip::write::SimpleFileOptions::default())
}

/// Relies on zip::write::ZipWriter::start_file and std::io::Write::write_all:
/// on success they store the given bytes as one deflate-compressed entry
/// under exactly the given name.  On a writer in its ordinary state the only
/// failure conditions are a duplicate stored name, a name beyond the format's
/// 16-bit name-length field, and a payload beyond its 32-bit size fields; the
/// payload bound below keeps a margin wide enough that even the compressed
/// form of an incompressible payload fits, so within it the call is owed
/// success.
#[verifier::external_body]
pub(crate) fn writer_add_file(
    w: &mut PakWriter,
    name: &str,
    data: &Vec<u8>,
) -> (r: Result<(), zip::result::ZipError>)
    ensures
        r is Ok ==> writer_entries(*final(w)) == writer_entries(*old(w)).push((name@, data@)),
        ({
            &&& writer_ok(*old(w))
            &&& encode_utf8(name@).len() <= 65535
            &&& data@.len() <= 0xFFE0_0000
            &&& forall|k: int|
                0 <= k < writer_entries(*old(w)).len() ==> (#[trigger] writer_entries(
                    *old(w),
                )[k]).0 != name@
        }) ==> r is Ok && writer_ok(*final(w)),
{
    let options = zip::write::SimpleFileOptions::default()
        .compression_method(zip::CompressionMethod::Deflated);
    w.inner.start_file::<&str, ()>(name, options)?;
    w.inner.write_all(data).map_err(zip::result::ZipError::Io)?;
    Ok(())
}

/// Relies on zip::write::ZipWriter::finish: it writes the central directory
/// (switching to the zip64 forms on its own where counts or offsets need
/// them), the finished bytes parse back to exactly the entries written, in
/// order, and every written entry reads back whole.  On a writer in its
/// ordinary state nothing is left that can fail over an in-memory buffer, so
/// finishing is owed success.
#[verifier::external_body]
pub(crate) fn writer_finish(w: PakWriter) -> (r: Result<
    Vec<u8>,
    zip::result::ZipError,
>)
    ensures
        r matches Ok(b) ==> stored_archive(b@) == writer_entries(w) && parses(b@) && payloads_ok(
            b@,
        ),
        writer_ok(w) ==> r is Ok,
{
    Ok(w.inner.finish()?.into_inner())
}

/// Relies on zip::read::ZipArchive::new: it succeeds exactly when the bytes
/// parse as an archive, and then lists exactly the entries the bytes store.
#[verifier::external_body]
pub(crate) fn archive_open(bytes: Vec<u8>) -> (r: Result<
    ZipArchive<Cursor<Vec<u8>>>,
    zip::result::ZipError,
>)
    ensures
        r is Ok <==> parses(bytes@),
        r matches Ok(a) ==> archive_entries(a) == stored_archive(bytes@) && archive_payloads_ok(a)
            == payloads_ok(bytes@),
{
    ZipArchive::new(Cursor::new(bytes))
}

/// Relies on zip::read::ZipArchive::len: the number of entries listed.
#[verifier::external_body]
pub(crate) fn archive_len(a: &ZipArchive<Cursor<Vec<u8>>>) -> (n: usize)
    ensures
        n == archive_entries(*a).len(),
{
    a.len()
}

/// Relies on zip::read::ZipArchive::by_index, ZipFile::name, ZipFile::is_dir
/// and std::io::Read::read_to_end: reading entry `i` leaves the listing
/// unchanged and, on success, returns its stored name, whether that name ends
/// in a separator, and its decompressed payload.  When every entry of the
/// archive reads back whole, so in particular does this one, and the call is
/// owed success.
#[verifier::external_body]
pub(crate) fn archive_entry_at(a: &mut ZipArchive<Cursor<Vec<u8>>>, i: usize) -> (r: Result<
    (String, bool, Vec<u8>),
    zip::result::ZipError,
>)
    requires
        i < archive_entries(*old(a)).len(),
    ensures
        archive_entries(*final(a)) == archive_entries(*old(a)),
        archive_payloads_ok(*final(a)) == archive_payloads_ok(*old(a)),
        archive_payloads_ok(*old(a)) ==> r is Ok,
        r matches Ok(e) ==> {
            &&& e.0@ == archive_entries(*old(a))[i as int].0
            &&& e.1 == name_is_dir(archive_entries(*old(a))[i as int].0)
            &&& e.2@ == archive_entries(*old(a))[i as int].1
        },
{
    let mut f = a.by_index(i)?;
    let name = f.name().to_string();
    let is_dir = f.is_dir();
    let mut data = Vec::new();
    std::io::Read::read_to_end(&mut f, &mut data).map_err(zip::result::ZipError::Io)?;
    Ok((name, is_dir, data))
}

} // verus!
