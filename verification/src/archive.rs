//! The archive reader: open a downloaded ZIP archive held in memory and
//! expose its entries as plain values (path bytes, directory flag,
//! decompressed content). The ZIP container format itself is handled by the
//! `zip` crate behind a few trusted declarations; everything downstream of
//! the raw entries is verified.

use vstd::prelude::*;
use std::io::Cursor;
use std::io::Read;
use crate::errors::PkgError;

verus! {

/// One logical record of an archive: its untrusted relative path, whether it
/// is a directory, and its decompressed bytes (empty for directories).
pub struct Entry {
    pub name: Vec<u8>,
    pub is_dir: bool,
    pub data: Vec<u8>,
}

/// The mathematical view of an archive entry.
pub ghost struct EntryV {
    pub name: Seq<u8>,
    pub is_dir: bool,
    pub data: Seq<u8>,
}

impl View for Entry {
    type V = EntryV;

    open spec fn view(&self) -> EntryV {
        EntryV { name: self.name@, is_dir: self.is_dir, data: self.data@ }
    }
}

/// The views of a sequence of entries.
pub open spec fn entry_views(es: Seq<Entry>) -> Seq<EntryV> {
    es.map_values(|e: Entry| e@)
}

#[verifier::external_type_specification]
#[verifier::external_body]
#[verifier::reject_recursive_types(T)]
pub struct ExCursor<T>(Cursor<T>);

#[verifier::external_type_specification]
#[verifier::external_body]
#[verifier::reject_recursive_types(R)]
pub struct ExZipArchive<R>(zip::ZipArchive<R>);

/// What a byte string holds as a ZIP archive: `Some` of the entry sequence,
/// in central-directory order, when the bytes are a fully valid archive —
/// container and every entry stream — and `None` otherwise. ZIP parsing and
/// decompression are deterministic, so this is a function of the bytes
/// alone.
pub uninterp spec fn zip_entries(bytes: Seq<u8>) -> Option<Seq<EntryV>>;

/// The bytes an open archive reader was built over.
pub uninterp spec fn archive_data(a: zip::ZipArchive<Cursor<Vec<u8>>>) -> Seq<u8>;

/// Relies on zip::ZipArchive::new: reading the central directory of a valid
/// archive succeeds, and the resulting reader ranges over exactly the given
/// bytes.
#[verifier::external_body]
fn open_archive(bytes: Vec<u8>) -> (r: Result<zip::ZipArchive<Cursor<Vec<u8>>>, PkgError>)
    ensures
        zip_entries(bytes@) is Some ==> r is Ok,
        r matches Ok(a) ==> archive_data(a) == bytes@,
        r matches Err(e) ==> e == PkgError::ArchiveRead,
{
    match zip::ZipArchive::new(Cursor::new(bytes)) {
        Ok(a) => Ok(a),
        Err(_) => Err(PkgError::ArchiveRead),
    }
}

/// Relies on zip::ZipArchive::len: the number of entries listed in the
/// archive's central directory.
#[verifier::external_body]
fn entry_count(a: &zip::ZipArchive<Cursor<Vec<u8>>>) -> (n: usize)
    ensures
        zip_entries(archive_data(*a)) matches Some(es) ==> n == es.len(),
{
    a.len()
}

/// Relies on zip::ZipArchive::by_index and the entry accessors `name_raw`,
/// `is_dir` and the entry's `Read` impl: on a valid archive, reading entry
/// `i` yields exactly that entry's stored path, kind and decompressed
/// bytes, and reading never changes what the archive holds.
#[verifier::external_body]
fn read_entry(a: &mut zip::ZipArchive<Cursor<Vec<u8>>>, i: usize) -> (r: Result<Entry, PkgError>)
    ensures
        archive_data(*final(a)) == archive_data(*old(a)),
        zip_entries(archive_data(*old(a))) is Some && i < zip_entries(
            archive_data(*old(a)),
        ).unwrap().len() ==> (r matches Ok(e) && e@ == zip_entries(
            archive_data(*old(a)),
        ).unwrap()[i as int]),
        r matches Err(e) ==> e == PkgError::ArchiveRead,
{
    let mut f = match a.by_index(i) {
        Ok(f) => f,
        Err(_) => return Err(PkgError::ArchiveRead),
    };
    let name = f.name_raw().to_vec();
    let is_dir = f.is_dir();
    let mut data = Vec::new();
    if f.read_to_end(&mut data).is_err() {
        return Err(PkgError::ArchiveRead);
    }
    Ok(Entry { name, is_dir, data })
}

/// Read every entry of a downloaded archive held in memory, in the order of
/// the archive's central directory. On a fully valid archive this returns
/// exactly the archive's entries; any failure of the container or of an
/// entry stream is reported as `ArchiveRead`.
#[verifier::loop_isolation(false)]
pub fn read_archive_entries(bytes: Vec<u8>) -> (r: Result<Vec<Entry>, PkgError>)
    ensures
        zip_entries(bytes@) is Some ==> r is Ok && entry_views(r->Ok_0@) == zip_entries(
            bytes@,
        )->Some_0,
        r is Err ==> r->Err_0 == PkgError::ArchiveRead,
{
    let ghost bs = bytes@;
    let mut a = match open_archive(bytes) {
        Ok(a) => a,
        Err(e) => return Err(e),
    };
    let n = entry_count(&a);
    let mut out: Vec<Entry> = Vec::new();
    let mut i: usize = 0;
    proof {
        if zip_entries(bs) is Some {
            assert(entry_views(out@) =~= zip_entries(bs).unwrap().take(0));
        }
    }
    while i < n
        invariant
            i <= n,
            archive_data(a) == bs,
            zip_entries(bs) matches Some(es) ==> n == es.len() && entry_views(out@) == es.take(
                i as int,
            ),
        decreases n - i,
    {
        let ghost pre_out = out@;
        let e = match read_entry(&mut a, i) {
            Ok(e) => e,
            Err(err) => return Err(err),
        };
        out.push(e);
        proof {
            if zip_entries(bs) is Some {
                let es = zip_entries(bs).unwrap();
                assert(entry_views(out@) =~= entry_views(pre_out).push(e@));
                assert(es.take(i + 1) =~= es.take(i as int).push(es[i as int]));
            }
        }
        i = i + 1;
    }
    proof {
        if zip_entries(bs) is Some {
            let es = zip_entries(bs).unwrap();
            assert(es.take(n as int) =~= es);
        }
    }
    Ok(out)
}

} // verus!
