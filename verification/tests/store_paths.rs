use pkgfetch::errors::{PkgError, PkgState, RemoveOutcome};
use pkgfetch::paths::normalize_name;
use pkgfetch::store::{
    default_zip_name, download_url, install_request, join_base, locations_for, remove_step,
};

fn b(s: &str) -> Vec<u8> {
    s.as_bytes().to_vec()
}

fn segs(r: Option<pkgfetch::paths::RelPath>) -> Option<Vec<Vec<u8>>> {
    r.map(|p| p.segs)
}

#[test]
fn locations_for_demo() {
    let loc = locations_for(b"packages", b"demo");
    assert_eq!(loc.install_dir, b("packages/demo"));
    assert_eq!(loc.archive_path, b("packages/demo.zip"));
}

#[test]
fn join_base_appends_one_separator() {
    assert_eq!(join_base(b"./packages", b"demo.zip"), b("./packages/demo.zip"));
}

#[test]
fn default_zip_name_appends_extension() {
    assert_eq!(default_zip_name(b"mypkg"), b("mypkg.zip"));
}

#[test]
fn download_url_shape() {
    let url = download_url(b"https://aokege.github.io/zhucechu", b"demo", b"demo.zip");
    assert_eq!(
        url,
        b("https://aokege.github.io/zhucechu/zujian/demo/demo.zip")
    );
}

#[test]
fn download_url_with_overridden_file() {
    let url = download_url(b"http://h", b"p", b"other.zip");
    assert_eq!(url, b("http://h/zujian/p/other.zip"));
}

#[test]
fn install_request_with_default_name() {
    let req = install_request(
        b"https://aokege.github.io/zhucechu",
        b"./packages",
        b"demo",
        None,
    );
    assert_eq!(
        req.url,
        b("https://aokege.github.io/zhucechu/zujian/demo/demo.zip")
    );
    assert_eq!(req.archive_path, b("./packages/demo.zip"));
    assert_eq!(req.install_dir, b("./packages/demo"));
}

#[test]
fn install_request_with_overridden_name() {
    let file = b("special.zip");
    let req = install_request(b"http://h", b"base", b"demo", Some(&file));
    assert_eq!(req.url, b("http://h/zujian/demo/special.zip"));
    assert_eq!(req.archive_path, b("base/special.zip"));
    assert_eq!(req.install_dir, b("base/demo"));
}

#[test]
fn remove_absent_reports_not_found() {
    let r = remove_step(PkgState::Absent);
    assert_eq!(r.0, PkgState::Absent);
    assert_eq!(r.1, RemoveOutcome::NotFound);
}

#[test]
fn remove_installed_then_again() {
    let first = remove_step(PkgState::Installed);
    assert_eq!(first.0, PkgState::Absent);
    assert_eq!(first.1, RemoveOutcome::Removed);
    let second = remove_step(first.0);
    assert_eq!(second.1, RemoveOutcome::NotFound);
}

#[test]
fn normalize_plain_path() {
    let r = segs(normalize_name(b"a/b/c.txt")).unwrap();
    assert_eq!(r, vec![b("a"), b("b"), b("c.txt")]);
}

#[test]
fn normalize_drops_empty_and_dot_segments() {
    let r = segs(normalize_name(b"a//./b/")).unwrap();
    assert_eq!(r, vec![b("a"), b("b")]);
}

#[test]
fn normalize_dotdot_pops_inside_root() {
    let r = segs(normalize_name(b"a/../b")).unwrap();
    assert_eq!(r, vec![b("b")]);
}

#[test]
fn normalize_rejects_escape_above_root() {
    assert!(normalize_name(b"../../evil.txt").is_none());
    assert!(normalize_name(b"a/../../evil.txt").is_none());
}

#[test]
fn normalize_rejects_absolute_path() {
    assert!(normalize_name(b"/etc/passwd").is_none());
}

#[test]
fn error_descriptions() {
    assert_eq!(PkgError::Network.describe(), "network request failed");
    assert_eq!(PkgError::ArchiveRead.describe(), "could not read archive");
    assert_eq!(PkgError::FilesystemWrite.describe(), "could not write to filesystem");
    assert_eq!(
        PkgError::PathTraversal.describe(),
        "archive entry escapes the target directory"
    );
    assert_eq!(PkgError::NotFound.describe(), "package not found");
}

#[test]
fn normalize_empty_name_is_root() {
    let r = segs(normalize_name(b"")).unwrap();
    assert!(r.is_empty());
}
