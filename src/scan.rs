//! The scan of a directory tree for the files whose extension matches.
//!
//! A tree is given as the entries of its root directory, each with its name,
//! its kind and, for a directory that was read, its own entries, in the order
//! in which the listing gave them. A directory that could not be read is
//! given with no entries, so that it contributes nothing to a scan.
use vstd::prelude::*;
use crate::extension::name_matches;

verus! {

/// What a directory entry is, as its metadata reports it.
#[derive(PartialEq, Eq, Structural, Clone, Copy, Debug)]
pub enum EntryKind {
    /// A regular file.
    File,
    /// A directory.
    Directory,
    /// Anything else, including an entry whose metadata could not be read.
    Other,
}

/// One entry of a directory listing.
pub struct Entry {
    pub name: String,
    pub kind: EntryKind,
    /// The entries of a directory, where it was read; empty otherwise.
    pub children: Vec<Entry>,
}

/// A path relative to the root of the scan, as its components.
pub type RelPath = Vec<String>;

/// Each path with `name` put in front of it.
pub open spec fn under(name: Seq<char>, paths: Seq<Seq<Seq<char>>>) -> Seq<Seq<Seq<char>>> {
    Seq::new(paths.len(), |i: int| seq![name] + paths[i])
}

/// The paths that a scan collects from a listing, in order: each matching
/// regular file, and, in recursive mode, what the scan of each directory
/// collects, at the place where the directory stands.
pub open spec fn scan_spec(entries: Seq<Entry>, ext: Seq<char>, recursive: bool) -> Seq<Seq<Seq<char>>>
    decreases entries,
{
    if entries.len() == 0 {
        seq![]
    } else {
        let e = entries[entries.len() - 1];
        let front = scan_spec(entries.subrange(0, entries.len() - 1), ext, recursive);
        match e.kind {
            EntryKind::File => if name_matches(e.name@, ext) {
                front.push(seq![e.name@])
            } else {
                front
            },
            EntryKind::Directory => if recursive {
                front + under(e.name@, scan_spec(e.children@, ext, recursive))
            } else {
                front
            },
            EntryKind::Other => front,
        }
    }
}

/// `path` leads from a listing through directories to a regular file whose
/// name matches `ext`; only a file of the listing itself unless `recursive`.
pub open spec fn has_matching_file(entries: Seq<Entry>, path: Seq<Seq<char>>, ext: Seq<char>, recursive: bool) -> bool
    decreases path.len(), 1int,
{
    exists|i: int| 0 <= i < entries.len() && entry_leads_to(#[trigger] entries[i], path, ext, recursive)
}

/// `path` leads from the entry `e` to a matching regular file: `e` is that
/// file, or, in recursive mode, a directory from whose listing the rest of
/// the path leads to one.
pub open spec fn entry_leads_to(e: Entry, path: Seq<Seq<char>>, ext: Seq<char>, recursive: bool) -> bool
    decreases path.len(), 0int,
{
    if path.len() == 0 || e.name@ != path[0] {
        false
    } else if path.len() == 1 {
        e.kind == EntryKind::File && name_matches(e.name@, ext)
    } else {
        recursive && e.kind == EntryKind::Directory
            && has_matching_file(e.children@, path.drop_first(), ext, recursive)
    }
}

/// Every path that a scan collects has at least one component.
pub proof fn lemma_scan_paths_nonempty(entries: Seq<Entry>, ext: Seq<char>, recursive: bool)
    ensures
        forall|k: int| 0 <= k < scan_spec(entries, ext, recursive).len()
            ==> (#[trigger] scan_spec(entries, ext, recursive)[k]).len() > 0,
    decreases entries,
{
    if entries.len() > 0 {
        let n = entries.len() - 1;
        lemma_scan_paths_nonempty(entries.subrange(0, n), ext, recursive);
        lemma_scan_paths_nonempty(entries[n].children@, ext, recursive);
        let front = scan_spec(entries.subrange(0, n), ext, recursive);
        let sub = scan_spec(entries[n].children@, ext, recursive);
        let all = scan_spec(entries, ext, recursive);
        assert forall|k: int| 0 <= k < all.len() implies (#[trigger] all[k]).len() > 0 by {
            if k >= front.len() && entries[n].kind == EntryKind::Directory && recursive {
                let added = under(entries[n].name@, sub);
                assert(all == front + added);
                assert(all[k] == seq![entries[n].name@] + sub[k - front.len()]);
            } else if k < front.len() {
                assert(all[k] == front[k]);
            }
        }
    }
}

/// A scan collects exactly the paths that lead to a matching regular file:
/// in recursive mode those anywhere in the tree, otherwise those of the
/// listing's own files.
pub proof fn lemma_scan_exact(entries: Seq<Entry>, path: Seq<Seq<char>>, ext: Seq<char>, recursive: bool)
    ensures
        scan_spec(entries, ext, recursive).contains(path) <==> has_matching_file(entries, path, ext, recursive),
    decreases entries,
{
    if entries.len() == 0 {
        return;
    }
    let n = entries.len() - 1;
    let e = entries[n];
    let rest = entries.subrange(0, n);
    let front = scan_spec(rest, ext, recursive);
    lemma_scan_exact(rest, path, ext, recursive);
    assert(has_matching_file(entries, path, ext, recursive)
        <==> (has_matching_file(rest, path, ext, recursive) || entry_leads_to(e, path, ext, recursive))) by {
        if has_matching_file(entries, path, ext, recursive) {
            let i = choose|i: int| 0 <= i < entries.len() && entry_leads_to(#[trigger] entries[i], path, ext, recursive);
            if i < n {
                assert(rest[i] == entries[i]);
            }
        }
        if has_matching_file(rest, path, ext, recursive) {
            let i = choose|i: int| 0 <= i < rest.len() && entry_leads_to(#[trigger] rest[i], path, ext, recursive);
            assert(entries[i] == rest[i]);
        }
    }
    match e.kind {
        EntryKind::File => {
            if name_matches(e.name@, ext) {
                let whole = front.push(seq![e.name@]);
                assert(scan_spec(entries, ext, recursive) == whole);
                if whole.contains(path) {
                    let k = choose|k: int| 0 <= k < whole.len() && whole[k] == path;
                    if k < front.len() {
                        assert(front[k] == path);
                    }
                }
                if front.contains(path) {
                    let k = choose|k: int| 0 <= k < front.len() && front[k] == path;
                    assert(whole[k] == path);
                }
                if entry_leads_to(e, path, ext, recursive) {
                    assert(path =~= seq![e.name@]);
                    assert(whole[front.len() as int] == path);
                }
            }
        },
        EntryKind::Directory => {
            if recursive {
                let sub = scan_spec(e.children@, ext, recursive);
                let added = under(e.name@, sub);
                assert(scan_spec(entries, ext, recursive) == front + added);
                assert((front + added).contains(path) <==> (front.contains(path) || added.contains(path))) by {
                    if (front + added).contains(path) {
                        let k = choose|k: int| 0 <= k < (front + added).len() && (front + added)[k] == path;
                        if k >= front.len() {
                            assert(added[k - front.len()] == path);
                        }
                    }
                    if front.contains(path) {
                        let k = choose|k: int| 0 <= k < front.len() && front[k] == path;
                        assert((front + added)[k] == path);
                    }
                    if added.contains(path) {
                        let k = choose|k: int| 0 <= k < added.len() && added[k] == path;
                        assert((front + added)[front.len() + k] == path);
                    }
                }
                if added.contains(path) {
                    let j = choose|j: int| 0 <= j < added.len() && added[j] == path;
                    let q = sub[j];
                    assert(path == seq![e.name@] + q);
                    lemma_scan_exact(e.children@, q, ext, recursive);
                    lemma_scan_exact(e.children@, Seq::<Seq<char>>::empty(), ext, recursive);
                    assert(sub.contains(q));
                    if q.len() == 0 {
                        assert(q =~= Seq::<Seq<char>>::empty());
                        assert(!has_matching_file(e.children@, Seq::<Seq<char>>::empty(), ext, recursive));
                    }
                    assert(path.drop_first() =~= q);
                    assert(entry_leads_to(e, path, ext, recursive));
                }
                if entry_leads_to(e, path, ext, recursive) {
                    let q = path.drop_first();
                    lemma_scan_exact(e.children@, q, ext, recursive);
                    let j = choose|j: int| 0 <= j < sub.len() && sub[j] == q;
                    assert(added[j] =~= path);
                    assert(added.contains(path));
                }
            }
        },
        EntryKind::Other => {},
    }
}

/// The path `name`, then the components of `p`.
fn prefixed(name: &String, p: &RelPath) -> (r: RelPath)
    ensures
        r.deep_view() == seq![name@] + p.deep_view(),
{
    let mut r: RelPath = Vec::new();
    r.push(name.clone());
    let mut i: usize = 0;
    while i < p.len()
        invariant
            0 <= i <= p.len(),
            r.deep_view() =~= seq![name@] + p.deep_view().subrange(0, i as int),
        decreases p.len() - i,
    {
        let ghost before = r.deep_view();
        r.push(p[i].clone());
        assert(r.deep_view() =~= before.push(p.deep_view()[i as int]));
        assert(p.deep_view().subrange(0, i + 1) =~= p.deep_view().subrange(0, i as int).push(p.deep_view()[i as int]));
        i = i + 1;
    }
    assert(p.deep_view().subrange(0, p.len() as int) =~= p.deep_view());
    r
}

/// The paths, relative to the listing, of the regular files whose extension
/// matches `ext` up to ASCII case, in the order of the listing. In recursive
/// mode a directory's files are collected where the directory stands, before
/// the entries that follow it; otherwise only the listing's own files are.
pub fn scan(entries: &Vec<Entry>, ext: &str, recursive: bool) -> (r: Vec<RelPath>)
    ensures
        r.deep_view() == scan_spec(entries@, ext@, recursive),
        forall|k: int| 0 <= k < r.len() ==> #[trigger] r[k].len() > 0,
    decreases entries,
{
    proof { lemma_scan_paths_nonempty(entries@, ext@, recursive); }
    let mut out: Vec<RelPath> = Vec::new();
    let mut i: usize = 0;
    assert(entries@.subrange(0, 0) =~= Seq::<Entry>::empty());
    while i < entries.len()
        invariant
            0 <= i <= entries.len(),
            out.deep_view() == scan_spec(entries@.subrange(0, i as int), ext@, recursive),
        decreases entries.len() - i,
    {
        let e = &entries[i];
        let ghost done = entries@.subrange(0, i as int);
        let ghost next = entries@.subrange(0, i + 1);
        assert(next.subrange(0, i as int) =~= done);
        assert(next[i as int] == *e);
        match e.kind {
            EntryKind::File => {
                if crate::extension::matches(e.name.as_str(), ext) {
                    let mut p: RelPath = Vec::new();
                    p.push(e.name.clone());
                    assert(p.deep_view() =~= seq![e.name@]);
                    out.push(p);
                    assert(out.deep_view() =~= scan_spec(done, ext@, recursive).push(seq![e.name@]));
                }
            },
            EntryKind::Directory => {
                if recursive {
                    let sub = scan(&e.children, ext, recursive);
                    let ghost before = out.deep_view();
                    let mut j: usize = 0;
                    while j < sub.len()
                        invariant
                            0 <= j <= sub.len(),
                            out.deep_view() =~= before + under(e.name@, sub.deep_view().subrange(0, j as int)),
                        decreases sub.len() - j,
                    {
                        let p = prefixed(&e.name, &sub[j]);
                        let ghost prev = out.deep_view();
                        out.push(p);
                        assert(out.deep_view() =~= prev.push(seq![e.name@] + sub.deep_view()[j as int]));
                        assert(under(e.name@, sub.deep_view().subrange(0, j + 1)) =~= under(e.name@, sub.deep_view().subrange(0, j as int)).push(seq![e.name@] + sub.deep_view()[j as int]));
                        j = j + 1;
                    }
                    assert(sub.deep_view().subrange(0, sub.len() as int) =~= sub.deep_view());
                }
            },
            EntryKind::Other => {},
        }
        i = i + 1;
    }
    assert(entries@.subrange(0, entries.len() as int) =~= entries@);
    assert forall|k: int| 0 <= k < out.len() implies #[trigger] out[k].len() > 0 by {
        assert(out.deep_view()[k].len() == out[k].len());
    }
    out
}

/// The matching regular files among the direct entries of a listing.
pub fn find_files_non_recursive(entries: &Vec<Entry>, from_ext: &str) -> (r: Vec<RelPath>)
    ensures
        r.deep_view() == scan_spec(entries@, from_ext@, false),
{
    scan(entries, from_ext, false)
}

/// The matching regular files anywhere in the tree, depth first.
pub fn find_files_recursive(entries: &Vec<Entry>, from_ext: &str) -> (r: Vec<RelPath>)
    ensures
        r.deep_view() == scan_spec(entries@, from_ext@, true),
{
    scan(entries, from_ext, true)
}

} // verus!
