//! The package store: pure derivation of a package's download URL and its
//! on-disk locations (`<base>/<package>` and `<base>/<name>.zip`), and the
//! removal state machine. Paths and URLs are handled as byte strings; the
//! caller turns them into whatever its platform wants.

use vstd::prelude::*;
use crate::errors::{PkgState, RemoveOutcome};

verus! {

/// The byte `/`.
pub open spec fn slash() -> Seq<u8> {
    seq![47u8]
}

/// The bytes of the suffix `.zip`.
pub open spec fn zip_ext() -> Seq<u8> {
    seq![46u8, 122u8, 105u8, 112u8]
}

/// The bytes of the fixed URL route segment `/zujian/`.
pub open spec fn route_seg() -> Seq<u8> {
    seq![47u8, 122u8, 117u8, 106u8, 105u8, 97u8, 110u8, 47u8]
}

/// Append `s` to `out`.
pub fn append_bytes(out: &mut Vec<u8>, s: &[u8])
    ensures
        final(out)@ == old(out)@ + s@,
{
    assert(old(out)@ + s@.take(0) =~= old(out)@);
    let mut i: usize = 0;
    while i < s.len()
        invariant
            i <= s@.len(),
            out@ == old(out)@ + s@.take(i as int),
        decreases s@.len() - i,
    {
        out.push(s[i]);
        assert(out@ =~= old(out)@ + s@.take(i + 1));
        i = i + 1;
    }
    assert(out@ =~= old(out)@ + s@);
}

/// The default archive file name for a package: `<package>.zip`.
pub fn default_zip_name(package: &[u8]) -> (r: Vec<u8>)
    ensures
        r@ == package@ + zip_ext(),
{
    let mut r: Vec<u8> = Vec::new();
    append_bytes(&mut r, package);
    r.push(46);
    r.push(122);
    r.push(105);
    r.push(112);
    assert(r@ =~= package@ + zip_ext());
    r
}

/// Join a name onto the base directory: `<base>/<name>`.
pub fn join_base(base: &[u8], name: &[u8]) -> (r: Vec<u8>)
    ensures
        r@ == base@ + slash() + name@,
{
    let mut r: Vec<u8> = Vec::new();
    append_bytes(&mut r, base);
    r.push(47);
    append_bytes(&mut r, name);
    assert(r@ =~= base@ + slash() + name@);
    r
}

/// Where a package lives on disk: its install directory and the location of
/// its downloaded archive.
pub struct PackageLocation {
    pub install_dir: Vec<u8>,
    pub archive_path: Vec<u8>,
}

/// Derive both on-disk locations of a package from the base directory and
/// the package name alone: `<base>/<package>` and `<base>/<package>.zip`.
pub fn locations_for(base: &[u8], package: &[u8]) -> (r: PackageLocation)
    ensures
        r.install_dir@ == base@ + slash() + package@,
        r.archive_path@ == base@ + slash() + package@ + zip_ext(),
{
    let install_dir = join_base(base, package);
    let zip_name = default_zip_name(package);
    let archive_path = join_base(base, zip_name.as_slice());
    assert(archive_path@ =~= base@ + slash() + package@ + zip_ext());
    PackageLocation { install_dir, archive_path }
}

/// The URL the archive is fetched from:
/// `<host>/zujian/<package>/<zip_name>`.
pub fn download_url(host: &[u8], package: &[u8], zip_name: &[u8]) -> (r: Vec<u8>)
    ensures
        r@ == host@ + route_seg() + package@ + slash() + zip_name@,
{
    let mut r: Vec<u8> = Vec::new();
    append_bytes(&mut r, host);
    r.push(47);
    r.push(122);
    r.push(117);
    r.push(106);
    r.push(105);
    r.push(97);
    r.push(110);
    r.push(47);
    append_bytes(&mut r, package);
    r.push(47);
    append_bytes(&mut r, zip_name);
    assert(r@ =~= host@ + route_seg() + package@ + slash() + zip_name@);
    r
}

/// The archive file name a `get` works with: the caller's override when one
/// was given, `<package>.zip` otherwise.
pub open spec fn chosen_zip_name(package: Seq<u8>, file: Option<Seq<u8>>) -> Seq<u8> {
    match file {
        Some(f) => f,
        None => package + zip_ext(),
    }
}

/// Everything a `get` must know before it touches the network or the disk:
/// the URL to fetch, where to store the downloaded archive, and where the
/// package will be installed.
pub struct InstallRequest {
    pub url: Vec<u8>,
    pub archive_path: Vec<u8>,
    pub install_dir: Vec<u8>,
}

/// Derive a full install request from the host, the base directory, the
/// package name and an optional archive file name override.
pub fn install_request(host: &[u8], base: &[u8], package: &[u8], file: Option<&Vec<u8>>) -> (r:
    InstallRequest)
    ensures
        r.url@ == host@ + route_seg() + package@ + slash() + chosen_zip_name(
            package@,
            match file {
                Some(f) => Some(f@),
                None => None,
            },
        ),
        r.archive_path@ == base@ + slash() + chosen_zip_name(
            package@,
            match file {
                Some(f) => Some(f@),
                None => None,
            },
        ),
        r.install_dir@ == base@ + slash() + package@,
{
    let zip_name: Vec<u8> = match file {
        Some(f) => {
            let mut zn: Vec<u8> = Vec::new();
            append_bytes(&mut zn, f.as_slice());
            assert(zn@ =~= f@);
            zn
        },
        None => default_zip_name(package),
    };
    let url = download_url(host, package, zip_name.as_slice());
    let archive_path = join_base(base, zip_name.as_slice());
    let install_dir = join_base(base, package);
    InstallRequest { url, archive_path, install_dir }
}

/// What one `remove` does to a package's state, and what it reports:
/// an installed package becomes absent and is reported removed; an absent
/// package stays absent and is reported not found.
pub open spec fn spec_remove_step(s: PkgState) -> (PkgState, RemoveOutcome) {
    match s {
        PkgState::Installed => (PkgState::Absent, RemoveOutcome::Removed),
        PkgState::Absent => (PkgState::Absent, RemoveOutcome::NotFound),
    }
}

/// Decide what `remove` does, from the observed state of the package.
/// The caller performs the recursive deletion only when the outcome is
/// `Removed`; on `NotFound` it mutates nothing.
pub fn remove_step(s: PkgState) -> (r: (PkgState, RemoveOutcome))
    ensures
        r == spec_remove_step(s),
        r.0 is Absent,
        r.1 is Removed <==> s is Installed,
        s is Absent ==> r.0 == s,
{
    match s {
        PkgState::Installed => (PkgState::Absent, RemoveOutcome::Removed),
        PkgState::Absent => (PkgState::Absent, RemoveOutcome::NotFound),
    }
}

/// Removing a package that has no install directory reports `NotFound` and
/// leaves the state exactly as it was.
pub proof fn lemma_remove_absent_is_noop()
    ensures
        spec_remove_step(PkgState::Absent) == (PkgState::Absent, RemoveOutcome::NotFound),
{
}

/// After any `remove`, a second `remove` of the same package always reports
/// `NotFound`: the first one left the package absent.
pub proof fn lemma_remove_then_remove(s: PkgState)
    ensures
        spec_remove_step(spec_remove_step(s).0).1 is NotFound,
{
}

} // verus!
