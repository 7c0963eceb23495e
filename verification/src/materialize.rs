//! The filesystem materializer. Archive entries are turned into an
//! extraction plan — the directories to create and the files to write under
//! the target root — after every entry path has been normalized and checked.
//! The plan is computed in full before anything touches the disk, so an
//! unsafe path fails the whole extraction and nothing is written (fail
//! closed, not per-entry skip).

use vstd::prelude::*;
use crate::archive::{Entry, EntryV, entry_views, read_archive_entries, zip_entries};
use crate::errors::PkgError;
use crate::paths::{RelPath, normalize_name, normalize_path, segs_view};

verus! {

/// The mathematical model of the extraction target: which directories exist
/// under the root, and which files with which bytes. The root itself is
/// implicit; every path is a sequence of segments relative to it.
#[verifier::ext_equal]
pub ghost struct FsModel {
    pub dirs: Set<Seq<Seq<u8>>>,
    pub files: Map<Seq<Seq<u8>>, Seq<u8>>,
}

/// The model of an empty target directory.
pub open spec fn empty_fs() -> FsModel {
    FsModel { dirs: Set::empty(), files: Map::empty() }
}

/// The first `n` non-empty prefixes of a path: `p.take(1)` up to
/// `p.take(n)`.
pub open spec fn prefixes(p: Seq<Seq<u8>>, n: int) -> Set<Seq<Seq<u8>>>
    decreases n,
{
    if n <= 0 {
        Set::empty()
    } else {
        prefixes(p, n - 1).insert(p.take(n))
    }
}

/// Whether an entry may be extracted at all: its path must normalize (so it
/// is not absolute and does not resolve above the root), and a file entry
/// must keep at least one segment — a file cannot be written over the root
/// itself.
pub open spec fn entry_ok(e: EntryV) -> bool {
    &&& normalize_path(e.name) is Some
    &&& (e.is_dir || normalize_path(e.name)->Some_0.len() > 0)
}

/// Every entry of the sequence is safe to extract.
pub open spec fn entries_ok(es: Seq<EntryV>) -> bool {
    forall|i: int| 0 <= i < es.len() ==> entry_ok(#[trigger] es[i])
}

/// What materializing one entry does to the target: a directory entry
/// creates the named directory and all its ancestors; a file entry creates
/// the ancestors of its path and writes (or overwrites) the file.
pub open spec fn apply_entry(m: FsModel, e: EntryV) -> FsModel {
    let p = normalize_path(e.name)->Some_0;
    if e.is_dir {
        FsModel { dirs: m.dirs.union(prefixes(p, p.len() as int)), files: m.files }
    } else {
        FsModel {
            dirs: m.dirs.union(prefixes(p, p.len() - 1)),
            files: m.files.insert(p, e.data),
        }
    }
}

/// Materializing a sequence of entries, in archive order.
pub open spec fn apply_entries(m: FsModel, es: Seq<EntryV>) -> FsModel
    decreases es.len(),
{
    if es.len() == 0 {
        m
    } else {
        apply_entries(apply_entry(m, es[0]), es.drop_first())
    }
}

/// The tree a sequence of safe entries extracts to, starting from an empty
/// target.
pub open spec fn extraction_model(es: Seq<EntryV>) -> FsModel {
    apply_entries(empty_fs(), es)
}

/// The views of a sequence of normalized paths.
pub open spec fn paths_view(s: Seq<RelPath>) -> Seq<Seq<Seq<u8>>> {
    s.map_values(|rp: RelPath| rp@)
}

/// The file map described by a plan's file list: later writes win.
pub open spec fn files_map_of(s: Seq<(RelPath, Vec<u8>)>) -> Map<Seq<Seq<u8>>, Seq<u8>>
    decreases s.len(),
{
    if s.len() == 0 {
        Map::empty()
    } else {
        files_map_of(s.drop_last()).insert(s.last().0@, s.last().1@)
    }
}

/// What extraction will do on disk, computed and checked before any write:
/// the directories to create under the target root (each directory listed
/// together with its ancestors), and the files to write, in archive order.
pub struct ExtractPlan {
    pub dirs: Vec<RelPath>,
    pub files: Vec<(RelPath, Vec<u8>)>,
}

impl ExtractPlan {
    /// The set of directories the plan creates.
    pub open spec fn dirs_set(&self) -> Set<Seq<Seq<u8>>> {
        paths_view(self.dirs@).to_set()
    }

    /// The files the plan writes, as a map from path to content.
    pub open spec fn files_map(&self) -> Map<Seq<Seq<u8>>, Seq<u8>> {
        files_map_of(self.files@)
    }
}

/// Copy a byte vector.
fn clone_bytes(v: &Vec<u8>) -> (r: Vec<u8>)
    ensures
        r@ == v@,
{
    let mut r: Vec<u8> = Vec::new();
    assert(r@ =~= v@.take(0));
    let mut i: usize = 0;
    while i < v.len()
        invariant
            i <= v@.len(),
            r@ == v@.take(i as int),
        decreases v@.len() - i,
    {
        r.push(v[i]);
        assert(r@ =~= v@.take(i + 1));
        i = i + 1;
    }
    assert(r@ =~= v@);
    r
}

/// The path made of the first `k` segments of `p`.
fn path_prefix(p: &RelPath, k: usize) -> (r: RelPath)
    requires
        k <= p.segs@.len(),
    ensures
        r@ == p@.take(k as int),
{
    let mut segs: Vec<Vec<u8>> = Vec::new();
    assert(segs_view(segs@) =~= p@.take(0));
    let mut j: usize = 0;
    while j < k
        invariant
            j <= k,
            k <= p.segs@.len(),
            segs_view(segs@) == p@.take(j as int),
        decreases k - j,
    {
        let c = clone_bytes(&p.segs[j]);
        let ghost pre = segs@;
        segs.push(c);
        proof {
            assert(segs_view(segs@) =~= segs_view(pre).push(c@));
            assert(c@ == p@[j as int]);
            assert(segs_view(pre).push(c@) =~= p@.take(j + 1));
        }
        j = j + 1;
    }
    RelPath { segs }
}

/// A sequence followed by one more element holds, as a set, one more value.
proof fn lemma_push_to_set<A>(s: Seq<A>, x: A)
    ensures
        s.push(x).to_set() == s.to_set().insert(x),
{
    assert forall|y: A| #[trigger] s.push(x).to_set().contains(y) <==> s.to_set().contains(y) || y
        == x by {
        if s.push(x).to_set().contains(y) {
            let i = choose|i: int| 0 <= i < s.push(x).len() && s.push(x)[i] == y;
            if i < s.len() {
                assert(s[i] == y);
                assert(s.contains(y));
            }
        }
        if s.to_set().contains(y) {
            let i = choose|i: int| 0 <= i < s.len() && s[i] == y;
            assert(s.push(x)[i] == y);
            assert(s.push(x).contains(y));
        }
        if y == x {
            assert(s.push(x)[s.len() as int] == y);
            assert(s.push(x).contains(y));
        }
    };
    assert(s.push(x).to_set() =~= s.to_set().insert(x));
}

/// Record in `dirs` the first `n` prefixes of `p`: afterwards the set of
/// recorded paths has grown by exactly those prefixes.
#[verifier::loop_isolation(false)]
fn push_prefixes(dirs: &mut Vec<RelPath>, p: &RelPath, n: usize)
    requires
        n <= p.segs@.len(),
    ensures
        paths_view(final(dirs)@).to_set() == paths_view(old(dirs)@).to_set().union(
            prefixes(p@, n as int),
        ),
{
    assert(paths_view(dirs@).to_set().union(prefixes(p@, 0)) =~= paths_view(dirs@).to_set());
    let mut k: usize = 0;
    while k < n
        invariant
            k <= n,
            paths_view(dirs@).to_set() == paths_view(old(dirs)@).to_set().union(
                prefixes(p@, k as int),
            ),
        decreases n - k,
    {
        let pre = path_prefix(p, k + 1);
        let ghost pre_seq = dirs@;
        dirs.push(pre);
        proof {
            assert(paths_view(dirs@) =~= paths_view(pre_seq).push(pre@));
            lemma_push_to_set(paths_view(pre_seq), pre@);
            assert(paths_view(dirs@).to_set() =~= paths_view(old(dirs)@).to_set().union(
                prefixes(p@, k + 1),
            ));
        }
        k = k + 1;
    }
}

/// Turn archive entries into an extraction plan. This fails closed: if any
/// entry's path is absolute, resolves outside the target root, or names the
/// root itself as a file, the whole extraction fails with `PathTraversal`
/// and there is no plan, so nothing at all is written. On safe entries the
/// plan's directories and files are exactly the extraction model of the
/// entries over an empty target.
#[verifier::loop_isolation(false)]
pub fn materialize(entries: &Vec<Entry>) -> (r: Result<ExtractPlan, PkgError>)
    ensures
        r is Ok <==> entries_ok(entry_views(entries@)),
        r is Ok ==> r->Ok_0.dirs_set() == extraction_model(entry_views(entries@)).dirs,
        r is Ok ==> r->Ok_0.files_map() == extraction_model(entry_views(entries@)).files,
        r is Err ==> r->Err_0 == PkgError::PathTraversal,
{
    let ghost vs = entry_views(entries@);
    let mut dir_list: Vec<RelPath> = Vec::new();
    let mut file_list: Vec<(RelPath, Vec<u8>)> = Vec::new();
    let mut i: usize = 0;
    proof {
        assert(vs.take(0) =~= Seq::<EntryV>::empty());
        assert(paths_view(dir_list@).to_set() =~= empty_fs().dirs);
        assert(files_map_of(file_list@) =~= empty_fs().files);
    }
    while i < entries.len()
        invariant
            i <= entries@.len(),
            entries_ok(vs.take(i as int)),
            paths_view(dir_list@).to_set() == apply_entries(empty_fs(), vs.take(i as int)).dirs,
            files_map_of(file_list@) == apply_entries(empty_fs(), vs.take(i as int)).files,
        decreases entries@.len() - i,
    {
        let ghost m_pre = apply_entries(empty_fs(), vs.take(i as int));
        let e = &entries[i];
        proof {
            assert(vs[i as int] == e@);
        }
        let rp = match normalize_name(e.name.as_slice()) {
            Some(rp) => rp,
            None => {
                proof {
                    assert(!entry_ok(vs[i as int]));
                }
                return Err(PkgError::PathTraversal);
            },
        };
        proof {
            assert(rp@ == normalize_path(vs[i as int].name)->Some_0);
            assert(rp@.len() == rp.segs@.len());
        }
        if e.is_dir {
            push_prefixes(&mut dir_list, &rp, rp.segs.len());
        } else {
            if rp.segs.len() == 0 {
                proof {
                    assert(!entry_ok(vs[i as int]));
                }
                return Err(PkgError::PathTraversal);
            }
            push_prefixes(&mut dir_list, &rp, rp.segs.len() - 1);
            let data = clone_bytes(&e.data);
            let ghost pre_files = file_list@;
            file_list.push((rp, data));
            proof {
                assert(file_list@.drop_last() =~= pre_files);
                assert(files_map_of(file_list@) == files_map_of(pre_files).insert(
                    file_list@.last().0@,
                    file_list@.last().1@,
                ));
            }
        }
        proof {
            assert(entry_ok(vs[i as int]));
            assert(vs.take(i + 1) =~= vs.take(i as int).push(vs[i as int]));
            lemma_apply_entries_snoc(empty_fs(), vs.take(i as int), vs[i as int]);
            assert forall|j: int| 0 <= j < i + 1 implies entry_ok(#[trigger] vs.take(i + 1)[j]) by {
                assert(vs.take(i + 1)[j] == vs[j]);
                if j < i {
                    assert(entry_ok(vs.take(i as int)[j]));
                }
            };
        }
        i = i + 1;
    }
    proof {
        assert(vs.take(entries@.len() as int) =~= vs);
    }
    Ok(ExtractPlan { dirs: dir_list, files: file_list })
}

/// Materializing `es.push(e)` is materializing `es`, then `e`.
proof fn lemma_apply_entries_snoc(m: FsModel, es: Seq<EntryV>, e: EntryV)
    ensures
        apply_entries(m, es.push(e)) == apply_entry(apply_entries(m, es), e),
    decreases es.len(),
{
    if es.len() == 0 {
        assert(es.push(e)[0] == e);
        assert(es.push(e).drop_first() =~= Seq::<EntryV>::empty());
        assert(apply_entries(apply_entry(m, e), Seq::<EntryV>::empty()) == apply_entry(m, e));
        assert(apply_entries(m, es) == m);
    } else {
        assert(es.push(e)[0] == es[0]);
        assert(es.push(e).drop_first() =~= es.drop_first().push(e));
        lemma_apply_entries_snoc(apply_entry(m, es[0]), es.drop_first(), e);
        assert(apply_entries(m, es.push(e)) == apply_entries(
            apply_entry(m, es[0]),
            es.drop_first().push(e),
        ));
        assert(apply_entries(m, es) == apply_entries(apply_entry(m, es[0]), es.drop_first()));
    }
}

/// Read a downloaded archive held in memory and compute its extraction
/// plan. On a fully valid archive whose entries are all safe, the result is
/// exactly the extraction model of the archive's entries; a valid archive
/// with any unsafe path fails with `PathTraversal`; anything unreadable
/// fails with `ArchiveRead`.
pub fn extract_archive(bytes: Vec<u8>) -> (r: Result<ExtractPlan, PkgError>)
    ensures
        zip_entries(bytes@) is Some && entries_ok(zip_entries(bytes@)->Some_0) ==> r is Ok
            && r->Ok_0.dirs_set() == extraction_model(zip_entries(bytes@)->Some_0).dirs
            && r->Ok_0.files_map() == extraction_model(zip_entries(bytes@)->Some_0).files,
        zip_entries(bytes@) is Some && !entries_ok(zip_entries(bytes@)->Some_0) ==> r is Err
            && r->Err_0 == PkgError::PathTraversal,
        r is Err ==> r->Err_0 == PkgError::PathTraversal || r->Err_0 == PkgError::ArchiveRead,
{
    let entries = match read_archive_entries(bytes) {
        Ok(v) => v,
        Err(e) => return Err(e),
    };
    materialize(&entries)
}

/// The extract command, decided from what is on disk: `None` stands for a
/// package whose archive was never downloaded, and fails with `NotFound`
/// before anything is created; with the archive's bytes in hand it behaves
/// as `extract_archive`.
pub fn extract_command(archive: Option<Vec<u8>>) -> (r: Result<ExtractPlan, PkgError>)
    ensures
        archive is None ==> r is Err && r->Err_0 == PkgError::NotFound,
        archive is Some && zip_entries(archive->Some_0@) is Some && entries_ok(
            zip_entries(archive->Some_0@)->Some_0,
        ) ==> r is Ok && r->Ok_0.dirs_set() == extraction_model(
            zip_entries(archive->Some_0@)->Some_0,
        ).dirs && r->Ok_0.files_map() == extraction_model(
            zip_entries(archive->Some_0@)->Some_0,
        ).files,
        archive is Some && zip_entries(archive->Some_0@) is Some && !entries_ok(
            zip_entries(archive->Some_0@)->Some_0,
        ) ==> r is Err && r->Err_0 == PkgError::PathTraversal,
{
    match archive {
        None => Err(PkgError::NotFound),
        Some(bytes) => extract_archive(bytes),
    }
}

/// Joining a target's state with an extraction's own contribution: the
/// directory sets unite, and the extraction's files overwrite the target's.
pub open spec fn fs_join(m: FsModel, c: FsModel) -> FsModel {
    FsModel { dirs: m.dirs.union(c.dirs), files: m.files.union_prefer_right(c.files) }
}

/// One entry applied to any target is the target joined with what the entry
/// does to an empty target.
proof fn lemma_apply_entry_join(m: FsModel, e: EntryV)
    ensures
        apply_entry(m, e) == fs_join(m, apply_entry(empty_fs(), e)),
{
    assert(apply_entry(m, e) =~= fs_join(m, apply_entry(empty_fs(), e)));
}

/// `fs_join` is associative.
proof fn lemma_fs_join_assoc(a: FsModel, b: FsModel, c: FsModel)
    ensures
        fs_join(fs_join(a, b), c) == fs_join(a, fs_join(b, c)),
{
    assert(fs_join(fs_join(a, b), c) =~= fs_join(a, fs_join(b, c)));
}

/// Materializing entries into any target joins the target with the
/// extraction model of the entries.
pub proof fn lemma_apply_entries_join(m: FsModel, es: Seq<EntryV>)
    ensures
        apply_entries(m, es) == fs_join(m, extraction_model(es)),
    decreases es.len(),
{
    if es.len() == 0 {
        assert(fs_join(m, empty_fs()) =~= m);
    } else {
        let e = es[0];
        let rest = es.drop_first();
        lemma_apply_entries_join(apply_entry(m, e), rest);
        lemma_apply_entries_join(apply_entry(empty_fs(), e), rest);
        lemma_apply_entry_join(m, e);
        lemma_fs_join_assoc(m, apply_entry(empty_fs(), e), extraction_model(rest));
    }
}

/// The paths at which a sequence of entries writes files: exactly the
/// normalized paths of its file entries.
pub open spec fn file_paths(es: Seq<EntryV>) -> Set<Seq<Seq<u8>>> {
    Set::new(
        |p: Seq<Seq<u8>>|
            exists|i: int|
                0 <= i < es.len() && !(#[trigger] es[i]).is_dir && normalize_path(
                    es[i].name,
                )->Some_0 == p,
    )
}

/// Materialization writes a file at exactly the normalized paths of the
/// file entries — nothing extra appears, and every file entry lands.
pub proof fn lemma_files_are_exactly_file_entries(m: FsModel, es: Seq<EntryV>)
    ensures
        apply_entries(m, es).files.dom() == m.files.dom().union(file_paths(es)),
    decreases es.len(),
{
    if es.len() == 0 {
        assert forall|p: Seq<Seq<u8>>| !file_paths(es).contains(p) by {};
        assert(apply_entries(m, es).files.dom() =~= m.files.dom().union(file_paths(es)));
    } else {
        let e = es[0];
        let rest = es.drop_first();
        lemma_files_are_exactly_file_entries(apply_entry(m, e), rest);
        let p0 = normalize_path(e.name)->Some_0;
        assert forall|p: Seq<Seq<u8>>| #[trigger]
            file_paths(es).contains(p) <==> ((!e.is_dir && p == p0) || file_paths(
                rest,
            ).contains(p)) by {
            if file_paths(es).contains(p) {
                let i = choose|i: int|
                    0 <= i < es.len() && !(#[trigger] es[i]).is_dir && normalize_path(
                        es[i].name,
                    )->Some_0 == p;
                if i > 0 {
                    assert(rest[i - 1] == es[i]);
                    assert(file_paths(rest).contains(p));
                }
            }
            if !e.is_dir && p == p0 {
                assert(es[0] == e);
                assert(file_paths(es).contains(p));
            }
            if file_paths(rest).contains(p) {
                let i = choose|i: int|
                    0 <= i < rest.len() && !(#[trigger] rest[i]).is_dir && normalize_path(
                        rest[i].name,
                    )->Some_0 == p;
                assert(es[i + 1] == rest[i]);
                assert(file_paths(es).contains(p));
            }
        };
        assert(apply_entries(m, es).files.dom() =~= m.files.dom().union(file_paths(es)));
    }
}

/// The directories one entry asks for: a directory entry names itself and
/// all its ancestors, a file entry the proper ancestors of its path.
pub open spec fn entry_dirs(e: EntryV) -> Set<Seq<Seq<u8>>> {
    let q = normalize_path(e.name)->Some_0;
    if e.is_dir {
        prefixes(q, q.len() as int)
    } else {
        prefixes(q, q.len() - 1)
    }
}

/// The directories a sequence of entries asks for.
pub open spec fn dir_paths(es: Seq<EntryV>) -> Set<Seq<Seq<u8>>> {
    Set::new(
        |p: Seq<Seq<u8>>|
            exists|i: int| 0 <= i < es.len() && entry_dirs(#[trigger] es[i]).contains(p),
    )
}

/// Materialization creates exactly the directories the entries ask for:
/// each named directory with its ancestors, and the ancestors of each file.
pub proof fn lemma_dirs_are_exactly_entry_dirs(m: FsModel, es: Seq<EntryV>)
    ensures
        apply_entries(m, es).dirs == m.dirs.union(dir_paths(es)),
    decreases es.len(),
{
    if es.len() == 0 {
        assert forall|p: Seq<Seq<u8>>| !dir_paths(es).contains(p) by {};
        assert(apply_entries(m, es).dirs =~= m.dirs.union(dir_paths(es)));
    } else {
        let e = es[0];
        let rest = es.drop_first();
        lemma_dirs_are_exactly_entry_dirs(apply_entry(m, e), rest);
        assert forall|p: Seq<Seq<u8>>| #[trigger]
            dir_paths(es).contains(p) <==> (entry_dirs(e).contains(p) || dir_paths(
                rest,
            ).contains(p)) by {
            if dir_paths(es).contains(p) {
                let i = choose|i: int|
                    0 <= i < es.len() && entry_dirs(#[trigger] es[i]).contains(p);
                if i > 0 {
                    assert(rest[i - 1] == es[i]);
                    assert(dir_paths(rest).contains(p));
                }
            }
            if entry_dirs(e).contains(p) {
                assert(es[0] == e);
                assert(dir_paths(es).contains(p));
            }
            if dir_paths(rest).contains(p) {
                let i = choose|i: int|
                    0 <= i < rest.len() && entry_dirs(#[trigger] rest[i]).contains(p);
                assert(es[i + 1] == rest[i]);
                assert(dir_paths(es).contains(p));
            }
        };
        assert(apply_entries(m, es).dirs =~= m.dirs.union(dir_paths(es)));
    }
}

/// Entries that write no file at `p` leave the file at `p` — present or
/// absent, and its bytes — exactly as it was.
pub proof fn lemma_untouched_file_preserved(m: FsModel, es: Seq<EntryV>, p: Seq<Seq<u8>>)
    requires
        !file_paths(es).contains(p),
    ensures
        apply_entries(m, es).files.dom().contains(p) == m.files.dom().contains(p),
        m.files.dom().contains(p) ==> apply_entries(m, es).files[p] == m.files[p],
    decreases es.len(),
{
    if es.len() > 0 {
        let e = es[0];
        let rest = es.drop_first();
        assert(es[0] == e);
        assert(!(!e.is_dir && normalize_path(e.name)->Some_0 == p));
        assert forall|i: int|
            0 <= i < rest.len() implies !(!(#[trigger] rest[i]).is_dir && normalize_path(
            rest[i].name,
        )->Some_0 == p) by {
            assert(es[i + 1] == rest[i]);
        };
        lemma_untouched_file_preserved(apply_entry(m, e), rest, p);
    }
}

/// What a materialized file holds: if entry `i` writes a file at `p` and no
/// later entry writes at `p` again, the extracted file at `p` holds exactly
/// entry `i`'s bytes — the last write wins, byte for byte.
pub proof fn lemma_file_content_is_last_write(m: FsModel, es: Seq<EntryV>, i: int)
    requires
        0 <= i < es.len(),
        !es[i].is_dir,
        forall|j: int|
            i < j < es.len() ==> (es[j].is_dir || normalize_path(
                #[trigger] es[j].name,
            )->Some_0 != normalize_path(es[i].name)->Some_0),
    ensures
        apply_entries(m, es).files.dom().contains(normalize_path(es[i].name)->Some_0),
        apply_entries(m, es).files[normalize_path(es[i].name)->Some_0] == es[i].data,
    decreases es.len(),
{
    let e = es[0];
    let rest = es.drop_first();
    let p = normalize_path(es[i].name)->Some_0;
    if i == 0 {
        assert(apply_entry(m, e).files.dom().contains(p));
        assert(apply_entry(m, e).files[p] == e.data);
        assert forall|k: int|
            0 <= k < rest.len() implies !(!(#[trigger] rest[k]).is_dir && normalize_path(
            rest[k].name,
        )->Some_0 == p) by {
            assert(es[k + 1] == rest[k]);
        };
        assert(!file_paths(rest).contains(p));
        lemma_untouched_file_preserved(apply_entry(m, e), rest, p);
    } else {
        assert(rest[i - 1] == es[i]);
        assert forall|j: int|
            i - 1 < j < rest.len() implies ((#[trigger] rest[j]).is_dir || normalize_path(
            rest[j].name,
        )->Some_0 != normalize_path(rest[i - 1].name)->Some_0) by {
            assert(es[j + 1] == rest[j]);
        };
        lemma_file_content_is_last_write(apply_entry(m, e), rest, i - 1);
    }
}

/// Extraction is idempotent: materializing the entries of a valid archive
/// into a target that already holds exactly their extraction leaves the
/// target unchanged — files are overwritten with identical bytes, and no
/// new directory or file appears.
pub proof fn lemma_extraction_idempotent(es: Seq<EntryV>)
    requires
        entries_ok(es),
    ensures
        apply_entries(extraction_model(es), es) == extraction_model(es),
{
    lemma_apply_entries_join(extraction_model(es), es);
    assert(fs_join(extraction_model(es), extraction_model(es)) =~= extraction_model(es));
}

} // verus!
