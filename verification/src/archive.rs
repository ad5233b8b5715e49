//! Packing a captured drive profile into a zip archive held in memory: which
//! files of the profile directory go in, and the archive of them.
use vstd::prelude::*;
use std::io::{Cursor, Write};
use crate::text::str_eq;

verus! {

#[verifier::external_type_specification]
#[verifier::external_body]
pub struct ExZipError(zip::result::ZipError);

#[verifier::external_type_specification]
#[verifier::external_body]
pub struct ExIoError(std::io::Error);

/// A zip archive being written to memory (`zip::ZipWriter` over a
/// `Cursor<Vec<u8>>`).
#[verifier::external_body]
pub struct ZipPack {
    inner: zip::ZipWriter<Cursor<Vec<u8>>>,
}

/// The entries written to a pack so far: each file's name and the data
/// written to it, in the order the files were started.
pub uninterp spec fn zip_entries(p: ZipPack) -> Seq<(Seq<char>, Seq<u8>)>;

/// Whether the pack has a file started and open for writing (its last
/// entry).
pub uninterp spec fn zip_writing(p: ZipPack) -> bool;

/// The entries that a zip reader lists in the archive `bytes`: each file's
/// name and uncompressed data, in the order of the central directory.
pub uninterp spec fn zip_listing(bytes: Seq<u8>) -> Seq<(Seq<char>, Seq<u8>)>;

/// The largest file data this library packs without the zip64 size fields:
/// below it, the data and its deflated form both stay under the 32-bit size
/// limit of a plain zip entry.
pub open spec fn small_data_limit() -> nat {
    0x8000_0000
}

/// A name whose local header (30 bytes and the name's UTF-8 bytes, at most
/// four per character) stays under the 64 KiB limit.
pub open spec fn short_name(name: Seq<char>) -> bool {
    4 * name.len() + 30 < 65535
}

/// `zip::ZipWriter::new` over an empty in-memory cursor: a pack with no
/// entries and no file open.
#[verifier::external_body]
fn zip_pack() -> (p: ZipPack)
    ensures
        zip_entries(p) == Seq::<(Seq<char>, Seq<u8>)>::empty(),
        !zip_writing(p),
{
    ZipPack { inner: zip::ZipWriter::new(Cursor::new(Vec::new())) }
}

/// `ZipWriter::start_file` with deflate compression. On success the pack
/// holds one more entry, named `name`, with no data yet, open for writing.
/// Writing to memory, it succeeds when the name is new and short enough and
/// the file still open (if any) is below the plain size limit; it fails on
/// a duplicate name or an oversized header. Nothing is stated of the pack
/// after an error.
#[verifier::external_body]
fn zip_start_file(p: &mut ZipPack, name: &str) -> (r: Result<(), zip::result::ZipError>)
    ensures
        r is Ok ==> zip_entries(*final(p)) == zip_entries(*old(p)).push((name@, Seq::empty()))
            && zip_writing(*final(p)),
        ((forall|k: int|
            0 <= k < zip_entries(*old(p)).len() ==> #[trigger] zip_entries(*old(p))[k].0 != name@)
            && short_name(name@) && (zip_writing(*old(p)) ==> zip_entries(*old(p)).len() > 0
            && zip_entries(*old(p)).last().1.len() < small_data_limit())) ==> r is Ok,
{
    let options = zip::write::SimpleFileOptions::default()
        .compression_method(zip::CompressionMethod::Deflated);
    p.inner.start_file(name, options)
}

/// `Write::write_all` on the writer: on success `data` is appended to the
/// entry being written (the last one), which stays open. Writing to memory,
/// it succeeds while a file is open and its data stays under the 32-bit
/// size limit. Nothing is stated of the pack after an error.
#[verifier::external_body]
fn zip_write_all(p: &mut ZipPack, data: &[u8]) -> (r: Result<(), std::io::Error>)
    requires
        zip_entries(*old(p)).len() > 0,
    ensures
        r is Ok ==> {
            let old_entries = zip_entries(*old(p));
            let last = old_entries.len() - 1;
            &&& zip_entries(*final(p)) == old_entries.update(
                last,
                (old_entries[last].0, old_entries[last].1 + data@),
            )
            &&& zip_writing(*final(p)) == zip_writing(*old(p))
        },
        zip_writing(*old(p)) && zip_entries(*old(p)).last().1.len() + data@.len()
            < 0xFFFF_FFFF ==> r is Ok,
{
    p.inner.write_all(data)
}

/// `ZipWriter::finish`, then the cursor's bytes: the finished archive, whose
/// listing is the entries written. Writing to memory, it succeeds when every
/// entry's data is below the plain size limit. The bytes themselves are not
/// stated.
#[verifier::external_body]
fn zip_finish(p: ZipPack) -> (r: Result<Vec<u8>, zip::result::ZipError>)
    ensures
        r matches Ok(b) ==> zip_listing(b@) == zip_entries(p),
        (forall|k: int|
            0 <= k < zip_entries(p).len() ==> #[trigger] zip_entries(p)[k].1.len()
                < small_data_limit()) ==> r is Ok,
{
    match p.inner.finish() {
        Ok(c) => Ok(c.into_inner()),
        Err(e) => Err(e),
    }
}

/// Why a profile could not be packed.
#[derive(Debug)]
pub enum ArchiveError {
    Zip(zip::result::ZipError),
    Io(std::io::Error),
}

/// Whether a file of the profile directory goes into its archive: every
/// file but an earlier `profile.zip`, so a repeated capture does not nest
/// the previous archive.
pub fn is_archive_member(name: &str) -> (r: bool)
    ensures
        r == (name@ != "profile.zip"@),
{
    !str_eq(name, "profile.zip")
}

pub open spec fn file_views(files: Seq<(String, Vec<u8>)>) -> Seq<(Seq<char>, Seq<u8>)> {
    files.map_values(|f: (String, Vec<u8>)| (f.0@, f.1@))
}

/// Files that a zip archive takes without error: distinct, short enough
/// names, and data below the plain size limit.
pub open spec fn packable(files: Seq<(Seq<char>, Seq<u8>)>) -> bool {
    &&& forall|i: int, j: int| 0 <= i < j < files.len() ==> files[i].0 != files[j].0
    &&& forall|k: int| 0 <= k < files.len() ==> short_name(#[trigger] files[k].0)
    &&& forall|k: int| 0 <= k < files.len() ==> #[trigger] files[k].1.len() < small_data_limit()
}

/// Pack `files` (name and contents), in order, into a zip archive. On
/// success a zip reader lists exactly these files with these contents;
/// packable files (distinct, short enough names, data below 2 GiB) always
/// succeed.
pub fn zip_files(files: &Vec<(String, Vec<u8>)>) -> (r: Result<Vec<u8>, ArchiveError>)
    ensures
        r matches Ok(b) ==> zip_listing(b@) == file_views(files@),
        packable(file_views(files@)) ==> r is Ok,
{
    let ghost fv = file_views(files@);
    let mut pack = zip_pack();
    let mut i: usize = 0;
    while i < files.len()
        invariant
            i <= files.len(),
            fv == file_views(files@),
            zip_entries(pack) == fv.take(i as int),
            i > 0 ==> zip_writing(pack),
            i == 0 ==> !zip_writing(pack),
        decreases files.len() - i,
    {
        let (name, data) = &files[i];
        let ghost before = zip_entries(pack);
        proof {
            assert(fv[i as int] == (name@, data@));
            if packable(fv) {
                assert forall|k: int| 0 <= k < before.len() implies #[trigger] before[k].0
                    != name@ by {
                    assert(before[k] == fv[k]);
                }
                assert(short_name(fv[i as int].0));
                assert(fv[i as int].1.len() < small_data_limit());
                if i > 0 {
                    assert(before.last() == fv[i - 1]);
                    assert(fv[i - 1].1.len() < small_data_limit());
                }
            }
        }
        match zip_start_file(&mut pack, name.as_str()) {
            Ok(()) => {},
            Err(e) => {
                return Err(ArchiveError::Zip(e));
            },
        }
        assert(zip_entries(pack).last().1 =~= Seq::<u8>::empty());
        match zip_write_all(&mut pack, data.as_slice()) {
            Ok(()) => {},
            Err(e) => {
                return Err(ArchiveError::Io(e));
            },
        }
        proof {
            assert(before.push((name@, Seq::<u8>::empty())).update(
                before.len() as int,
                (name@, Seq::<u8>::empty() + data@),
            ) =~= fv.take(i + 1));
        }
        i = i + 1;
    }
    assert(fv.take(files.len() as int) =~= fv);
    match zip_finish(pack) {
        Ok(b) => Ok(b),
        Err(e) => Err(ArchiveError::Zip(e)),
    }
}

} // verus!
