//! An in-memory file tree that the materializer applies a plan to.
//!
//! The tree is modelled by [`MemFsModel`]: a map from file paths to their
//! bytes and a set of directory paths. Every operation's contract states its
//! exact effect on that model.

use vstd::prelude::*;
use vstd::string::StrSliceExecFns;
use vstd::string::StringExecFns;

verus! {

/// An in-memory file tree: file paths with their bytes, and directory paths.
pub struct MemFs {
    /// Files by `/`-joined path, each path held once.
    pub files: Vec<(String, Vec<u8>)>,
    /// Directories by `/`-joined path.
    pub dirs: Vec<String>,
}

/// The mathematical model of a file tree.
#[verifier::ext_equal]
pub struct MemFsModel {
    /// The bytes of each existing file, keyed by path.
    pub files: Map<Seq<char>, Seq<u8>>,
    /// The paths at which a directory exists.
    pub dirs: Set<Seq<char>>,
}

/// The file map described by an association list, later entries winning.
pub open spec fn files_map(l: Seq<(String, Vec<u8>)>) -> Map<Seq<char>, Seq<u8>>
    decreases l.len(),
{
    if l.len() == 0 {
        Map::empty()
    } else {
        files_map(l.drop_last()).insert(l.last().0@, l.last().1@)
    }
}

/// The directory set described by a list of paths.
pub open spec fn dirs_set(l: Seq<String>) -> Set<Seq<char>>
    decreases l.len(),
{
    if l.len() == 0 {
        Set::empty()
    } else {
        dirs_set(l.drop_last()).insert(l.last()@)
    }
}

impl View for MemFs {
    type V = MemFsModel;

    open spec fn view(&self) -> MemFsModel {
        MemFsModel { files: files_map(self.files@), dirs: dirs_set(self.dirs@) }
    }
}

/// Well-formedness of the representation: each file path is held once, so
/// the association list and the map agree entry for entry.
pub open spec fn fs_wf(fs: MemFs) -> bool {
    forall|i: int, j: int|
        0 <= i < j < fs.files@.len() ==> fs.files@[i].0@ != fs.files@[j].0@
}

/// Whether `p` lies strictly inside the directory `d`.
pub open spec fn under_dir(d: Seq<char>, p: Seq<char>) -> bool {
    p.len() > d.len() + 1 && p.take(d.len() as int) == d && p[d.len() as int] == '/'
}

/// The prefixes of `p` that end just before one of its first `n`
/// characters that is a `/`.
pub open spec fn partial_closure(p: Seq<char>, n: int) -> Set<Seq<char>> {
    Set::new(
        |q: Seq<char>| exists|k: int| 0 <= k < n && p[k] == '/' && q == p.take(k),
    )
}

/// The directories that creating `p` brings into existence: `p` itself and
/// every prefix of `p` that ends just before a `/`.
pub open spec fn dir_closure(p: Seq<char>) -> Set<Seq<char>> {
    Set::new(
        |q: Seq<char>|
            q == p || (exists|k: int| 0 <= k < p.len() && p[k] == '/' && q == p.take(k)),
    )
}

/// The tree after removing the directory at `p` with everything inside it.
/// When no directory exists at `p` the files are untouched; a file at `p`
/// itself is also untouched (it is not inside the directory).
pub open spec fn rm_tree_model(m: MemFsModel, p: Seq<char>) -> MemFsModel {
    MemFsModel {
        files: if m.dirs.contains(p) {
            Map::new(
                |k: Seq<char>| m.files.dom().contains(k) && !under_dir(p, k),
                |k: Seq<char>| m.files[k],
            )
        } else {
            m.files
        },
        dirs: Set::new(|d: Seq<char>| m.dirs.contains(d) && !(d == p || under_dir(p, d))),
    }
}

/// Reports whether two strings hold the same characters.
pub fn str_eq(a: &str, b: &str) -> (r: bool)
    ensures
        r == (a@ == b@),
{
    let na = a.unicode_len();
    let nb = b.unicode_len();
    if na != nb {
        return false;
    }
    let mut i: usize = 0;
    while i < na
        invariant
            0 <= i <= na,
            na == a@.len(),
            nb == b@.len(),
            na == nb,
            forall|j: int| 0 <= j < i ==> a@[j] == b@[j],
        decreases na - i,
    {
        if a.get_char(i) != b.get_char(i) {
            return false;
        }
        i = i + 1;
    }
    proof {
        assert(a@ =~= b@);
    }
    true
}

/// Reports whether `p` equals `q` or lies inside the directory `q`.
fn same_or_under(p: &str, q: &str) -> (r: bool)
    ensures
        r == (p@ == q@ || under_dir(q@, p@)),
{
    let np = p.unicode_len();
    let nq = q.unicode_len();
    if np < nq {
        return false;
    }
    let mut i: usize = 0;
    while i < nq
        invariant
            0 <= i <= nq,
            np == p@.len(),
            nq == q@.len(),
            np >= nq,
            forall|j: int| 0 <= j < i ==> p@[j] == q@[j],
        decreases nq - i,
    {
        if p.get_char(i) != q.get_char(i) {
            proof {
                assert(p@ != q@);
                assert(p@.take(nq as int)[i as int] != q@[i as int]);
            }
            return false;
        }
        i = i + 1;
    }
    if np == nq {
        proof {
            assert(p@ =~= q@);
        }
        return true;
    }
    let r = np > nq + 1 && p.get_char(nq) == '/';
    proof {
        if p@ == q@ {
            assert(false);
        }
        assert(p@.take(nq as int) =~= q@);
    }
    r
}

/// The entries of an association list whose paths do not lie inside `p`.
pub open spec fn keep_files_outside(l: Seq<(String, Vec<u8>)>, p: Seq<char>) -> Seq<
    (String, Vec<u8>),
>
    decreases l.len(),
{
    if l.len() == 0 {
        l
    } else {
        let rest = keep_files_outside(l.drop_last(), p);
        if under_dir(p, l.last().0@) {
            rest
        } else {
            rest.push(l.last())
        }
    }
}

/// The directory paths of a list that neither equal `p` nor lie inside it.
pub open spec fn keep_dirs_outside(l: Seq<String>, p: Seq<char>) -> Seq<String>
    decreases l.len(),
{
    if l.len() == 0 {
        l
    } else {
        let rest = keep_dirs_outside(l.drop_last(), p);
        if l.last()@ == p || under_dir(p, l.last()@) {
            rest
        } else {
            rest.push(l.last())
        }
    }
}

/// An entry of a well-formed list is in the map with its own bytes.
proof fn lemma_files_map_index(l: Seq<(String, Vec<u8>)>, i: int)
    requires
        0 <= i < l.len(),
        forall|a: int, b: int| 0 <= a < b < l.len() ==> l[a].0@ != l[b].0@,
    ensures
        files_map(l).contains_key(l[i].0@),
        files_map(l)[l[i].0@] == l[i].1@,
    decreases l.len(),
{
    if i < l.len() - 1 {
        lemma_files_map_index(l.drop_last(), i);
        assert(l.drop_last()[i] == l[i]);
        assert(l[i].0@ != l.last().0@);
    }
}

/// A path named by no entry is not in the map.
proof fn lemma_files_map_absent(l: Seq<(String, Vec<u8>)>, k: Seq<char>)
    requires
        forall|i: int| 0 <= i < l.len() ==> l[i].0@ != k,
    ensures
        !files_map(l).contains_key(k),
    decreases l.len(),
{
    if l.len() > 0 {
        lemma_files_map_absent(l.drop_last(), k);
    }
}

/// Removing a well-formed list's entry removes its path from the map.
proof fn lemma_files_map_remove(l: Seq<(String, Vec<u8>)>, i: int)
    requires
        0 <= i < l.len(),
        forall|a: int, b: int| 0 <= a < b < l.len() ==> l[a].0@ != l[b].0@,
    ensures
        files_map(l.remove(i)) == files_map(l).remove(l[i].0@),
    decreases l.len(),
{
    let k = l[i].0@;
    if i == l.len() - 1 {
        assert(l.remove(i) =~= l.drop_last());
        assert(forall|j: int| 0 <= j < l.drop_last().len() ==> l.drop_last()[j].0@ != k);
        lemma_files_map_absent(l.drop_last(), k);
        assert(files_map(l.drop_last()) =~= files_map(l.drop_last()).remove(k));
        assert(files_map(l).remove(k) =~= files_map(l.drop_last()).remove(k));
    } else {
        lemma_files_map_remove(l.drop_last(), i);
        assert(l.remove(i).drop_last() =~= l.drop_last().remove(i));
        assert(l.remove(i).last() == l.last());
        assert(k != l.last().0@);
        assert(files_map(l.remove(i)) =~= files_map(l.drop_last()).remove(k).insert(
            l.last().0@,
            l.last().1@,
        ));
        assert(files_map(l.drop_last()).remove(k).insert(l.last().0@, l.last().1@) =~= files_map(
            l,
        ).remove(k));
    }
}

/// A path in the list's set is named by some entry.
proof fn lemma_dirs_set_member(l: Seq<String>, k: Seq<char>)
    requires
        dirs_set(l).contains(k),
    ensures
        exists|i: int| 0 <= i < l.len() && l[i]@ == k,
    decreases l.len(),
{
    if l.len() > 0 {
        if l.last()@ == k {
            assert(l[l.len() - 1]@ == k);
        } else {
            lemma_dirs_set_member(l.drop_last(), k);
            let i = choose|i: int| 0 <= i < l.drop_last().len() && l.drop_last()[i]@ == k;
            assert(l[i]@ == k);
        }
    }
}

/// Every entry's path is in the list's set.
proof fn lemma_dirs_set_index(l: Seq<String>, i: int)
    requires
        0 <= i < l.len(),
    ensures
        dirs_set(l).contains(l[i]@),
    decreases l.len(),
{
    if i < l.len() - 1 {
        lemma_dirs_set_index(l.drop_last(), i);
        assert(l.drop_last()[i] == l[i]);
    }
}

/// Keeping the entries outside `p` removes exactly the paths inside `p`
/// from the map, and preserves well-formedness.
proof fn lemma_keep_files(l: Seq<(String, Vec<u8>)>, p: Seq<char>)
    ensures
        files_map(keep_files_outside(l, p)) =~= Map::new(
            |k: Seq<char>| files_map(l).dom().contains(k) && !under_dir(p, k),
            |k: Seq<char>| files_map(l)[k],
        ),
        forall|m: int|
            #![trigger keep_files_outside(l, p)[m]]
            0 <= m < keep_files_outside(l, p).len() ==> (exists|i: int|
                0 <= i < l.len() && keep_files_outside(l, p)[m] == #[trigger] l[i]),
        (forall|a: int, b: int| 0 <= a < b < l.len() ==> l[a].0@ != l[b].0@) ==> (forall|
            a: int,
            b: int,
        |
            0 <= a < b < keep_files_outside(l, p).len() ==> keep_files_outside(l, p)[a].0@
                != keep_files_outside(l, p)[b].0@),
    decreases l.len(),
{
    if l.len() > 0 {
        lemma_keep_files(l.drop_last(), p);
        let kept = keep_files_outside(l, p);
        let rest = keep_files_outside(l.drop_last(), p);
        let fm_l = files_map(l);
        let fm_dl = files_map(l.drop_last());
        let goal = Map::new(
            |k: Seq<char>| fm_l.dom().contains(k) && !under_dir(p, k),
            |k: Seq<char>| fm_l[k],
        );
        let goal_dl = Map::new(
            |k: Seq<char>| fm_dl.dom().contains(k) && !under_dir(p, k),
            |k: Seq<char>| fm_dl[k],
        );
        if under_dir(p, l.last().0@) {
            assert(goal =~= goal_dl);
            assert(files_map(kept) =~= goal);
        } else {
            assert(kept.drop_last() =~= rest);
            assert(kept.last() == l.last());
            assert(files_map(kept) =~= files_map(rest).insert(l.last().0@, l.last().1@));
            assert(goal =~= goal_dl.insert(l.last().0@, l.last().1@));
            assert(files_map(kept) =~= goal);
        }
        assert(forall|m: int|
            #![trigger rest[m]]
            0 <= m < rest.len() ==> (exists|i: int|
                0 <= i < l.drop_last().len() && rest[m] == #[trigger] l.drop_last()[i]));
        assert forall|m: int| #![trigger kept[m]] 0 <= m < kept.len() implies (exists|i: int|
            0 <= i < l.len() && kept[m] == #[trigger] l[i]) by {
            if m < rest.len() {
                let i = choose|i: int| 0 <= i < l.drop_last().len() && rest[m] == l.drop_last()[i];
                assert(kept[m] == l[i]);
            } else {
                assert(kept[m] == l[l.len() - 1]);
            }
        }
        if forall|a: int, b: int| 0 <= a < b < l.len() ==> l[a].0@ != l[b].0@ {
            assert(forall|a: int, b: int|
                0 <= a < b < l.drop_last().len() ==> l.drop_last()[a].0@ != l.drop_last()[b].0@);
            if !under_dir(p, l.last().0@) {
                assert forall|a: int, b: int| 0 <= a < b < kept.len() implies kept[a].0@
                    != kept[b].0@ by {
                    if b == kept.len() - 1 {
                        let i = choose|i: int|
                            0 <= i < l.drop_last().len() && rest[a] == l.drop_last()[i];
                        assert(kept[a] == l[i]);
                        assert(l[i].0@ != l[l.len() - 1].0@);
                    }
                }
            }
        }
    }
}

/// Keeping the directory paths outside `p` removes exactly `p` and the
/// paths inside it from the set.
proof fn lemma_keep_dirs(l: Seq<String>, p: Seq<char>)
    ensures
        dirs_set(keep_dirs_outside(l, p)) =~= Set::new(
            |d: Seq<char>| dirs_set(l).contains(d) && !(d == p || under_dir(p, d)),
        ),
    decreases l.len(),
{
    if l.len() > 0 {
        lemma_keep_dirs(l.drop_last(), p);
        let kept = keep_dirs_outside(l, p);
        let rest = keep_dirs_outside(l.drop_last(), p);
        let goal = Set::new(
            |d: Seq<char>| dirs_set(l).contains(d) && !(d == p || under_dir(p, d)),
        );
        let goal_dl = Set::new(
            |d: Seq<char>| dirs_set(l.drop_last()).contains(d) && !(d == p || under_dir(p, d)),
        );
        if l.last()@ == p || under_dir(p, l.last()@) {
            assert(goal =~= goal_dl);
            assert(dirs_set(kept) =~= goal);
        } else {
            assert(kept.drop_last() =~= rest);
            assert(kept.last() == l.last());
            assert(dirs_set(kept) =~= dirs_set(rest).insert(l.last()@));
            assert(goal =~= goal_dl.insert(l.last()@));
            assert(dirs_set(kept) =~= goal);
        }
    }
}

impl MemFs {
    /// An empty file tree.
    pub fn new() -> (fs: Self)
        ensures
            fs@ == (MemFsModel { files: Map::<Seq<char>, Seq<u8>>::empty(), dirs: Set::<
                Seq<char>,
            >::empty() }),
            fs_wf(fs),
    {
        let fs = MemFs { files: Vec::new(), dirs: Vec::new() };
        proof {
            assert(fs@ =~~= (MemFsModel {
                files: Map::<Seq<char>, Seq<u8>>::empty(),
                dirs: Set::<Seq<char>>::empty(),
            }));
        }
        fs
    }

    /// The bytes of the file at `path`, if one exists.
    pub fn read(&self, path: &str) -> (r: Option<&Vec<u8>>)
        requires
            fs_wf(*self),
        ensures
            match r {
                Some(b) => self@.files.contains_key(path@) && b@ == self@.files[path@],
                None => !self@.files.contains_key(path@),
            },
    {
        let mut i: usize = 0;
        let n = self.files.len();
        while i < n
            invariant
                0 <= i <= n,
                n == self.files@.len(),
                fs_wf(*self),
                forall|j: int| 0 <= j < i ==> self.files@[j].0@ != path@,
            decreases n - i,
        {
            if str_eq(self.files[i].0.as_str(), path) {
                proof {
                    lemma_files_map_index(self.files@, i as int);
                }
                return Some(&self.files[i].1);
            }
            i = i + 1;
        }
        proof {
            lemma_files_map_absent(self.files@, path@);
        }
        None
    }

    /// Whether a directory exists at `path`.
    pub fn is_dir(&self, path: &str) -> (r: bool)
        ensures
            r == self@.dirs.contains(path@),
    {
        let mut i: usize = 0;
        let n = self.dirs.len();
        while i < n
            invariant
                0 <= i <= n,
                n == self.dirs@.len(),
                forall|j: int| 0 <= j < i ==> self.dirs@[j]@ != path@,
            decreases n - i,
        {
            if str_eq(self.dirs[i].as_str(), path) {
                proof {
                    lemma_dirs_set_index(self.dirs@, i as int);
                }
                return true;
            }
            i = i + 1;
        }
        proof {
            if self@.dirs.contains(path@) {
                lemma_dirs_set_member(self.dirs@, path@);
            }
        }
        false
    }

    /// Removes the file at `path`; a missing file is not an error.
    pub fn rm_file(&mut self, path: &str)
        requires
            fs_wf(*old(self)),
        ensures
            fs_wf(*final(self)),
            final(self)@ == (MemFsModel {
                files: old(self)@.files.remove(path@),
                ..old(self)@
            }),
            forall|i: int|
                0 <= i < final(self).files@.len() ==> final(self).files@[i].0@ != path@,
            final(self).dirs == old(self).dirs,
    {
        let mut i: usize = 0;
        let n = self.files.len();
        while i < n
            invariant
                0 <= i <= n,
                n == self.files@.len(),
                fs_wf(*self),
                *self == *old(self),
                forall|j: int| 0 <= j < i ==> self.files@[j].0@ != path@,
            decreases n - i,
        {
            if str_eq(self.files[i].0.as_str(), path) {
                let _ = self.files.remove(i);
                proof {
                    lemma_files_map_remove(old(self).files@, i as int);
                    assert(final(self)@ =~~= (MemFsModel {
                        files: old(self)@.files.remove(path@),
                        ..old(self)@
                    }));
                }
                return ;
            }
            i = i + 1;
        }
        proof {
            lemma_files_map_absent(self.files@, path@);
            assert(old(self)@.files.remove(path@) =~= old(self)@.files);
            assert(final(self)@ =~~= (MemFsModel {
                files: old(self)@.files.remove(path@),
                ..old(self)@
            }));
        }
    }

    /// Creates or overwrites the file at `path` with `content`.
    pub fn write_file(&mut self, path: String, content: Vec<u8>)
        requires
            fs_wf(*old(self)),
        ensures
            fs_wf(*final(self)),
            final(self)@ == (MemFsModel {
                files: old(self)@.files.insert(path@, content@),
                ..old(self)@
            }),
    {
        self.rm_file(path.as_str());
        let ghost mid = self.files@;
        self.files.push((path, content));
        proof {
            assert(self.files@.drop_last() =~= mid);
            assert(final(self)@.files =~= files_map(mid).insert(path@, content@));
            assert(final(self)@.files =~= old(self)@.files.insert(path@, content@));
            assert(final(self)@ =~~= (MemFsModel {
                files: old(self)@.files.insert(path@, content@),
                ..old(self)@
            }));
        }
    }

    /// Records a directory at `path` and at each of its ancestors.
    pub fn mkdir_all(&mut self, path: &str)
        requires
            fs_wf(*old(self)),
        ensures
            fs_wf(*final(self)),
            final(self)@ == (MemFsModel {
                dirs: old(self)@.dirs.union(dir_closure(path@)),
                ..old(self)@
            }),
            final(self).files == old(self).files,
    {
        let n = path.unicode_len();
        let mut i: usize = 0;
        proof {
            assert(dirs_set(self.dirs@) =~= dirs_set(old(self).dirs@).union(
                partial_closure(path@, 0),
            ));
        }
        while i < n
            invariant
                0 <= i <= n,
                n == path@.len(),
                self.files == old(self).files,
                dirs_set(self.dirs@) =~= dirs_set(old(self).dirs@).union(
                    partial_closure(path@, i as int),
                ),
            decreases n - i,
        {
            let ghost before = self.dirs@;
            if path.get_char(i) == '/' {
                let prefix = path.substring_char(0, i);
                if !self.is_dir(prefix) {
                    self.dirs.push(String::from_str(prefix));
                    proof {
                        assert(self.dirs@.drop_last() =~= before);
                        assert(dirs_set(self.dirs@) =~= dirs_set(before).insert(path@.take(
                            i as int,
                        )));
                    }
                }
                proof {
                    assert(dirs_set(self.dirs@).contains(path@.take(i as int)));
                    assert forall|q: Seq<char>|
                        partial_closure(path@, i + 1).contains(q) implies partial_closure(
                        path@,
                        i as int,
                    ).contains(q) || q == path@.take(i as int) by {
                        let k = choose|k: int|
                            0 <= k < i + 1 && path@[k] == '/' && q == path@.take(k);
                        if k < i {
                            assert(partial_closure(path@, i as int).contains(q));
                        }
                    }
                    assert(dirs_set(self.dirs@) =~= dirs_set(old(self).dirs@).union(
                        partial_closure(path@, i + 1),
                    ));
                }
            } else {
                proof {
                    assert forall|q: Seq<char>|
                        partial_closure(path@, i + 1).contains(q) implies partial_closure(
                        path@,
                        i as int,
                    ).contains(q) by {
                        let k = choose|k: int|
                            0 <= k < i + 1 && path@[k] == '/' && q == path@.take(k);
                        assert(k < i);
                    }
                    assert(dirs_set(self.dirs@) =~= dirs_set(old(self).dirs@).union(
                        partial_closure(path@, i + 1),
                    ));
                }
            }
            i = i + 1;
        }
        let ghost before_last = self.dirs@;
        if !self.is_dir(path) {
            self.dirs.push(String::from_str(path));
            proof {
                assert(self.dirs@.drop_last() =~= before_last);
            }
        }
        proof {
            assert(dirs_set(self.dirs@).contains(path@));
            assert forall|q: Seq<char>| dir_closure(path@).contains(q) implies partial_closure(
                path@,
                n as int,
            ).contains(q) || q == path@ by {}
            assert(final(self)@.dirs =~= old(self)@.dirs.union(dir_closure(path@)));
            assert(final(self)@ =~~= (MemFsModel {
                dirs: old(self)@.dirs.union(dir_closure(path@)),
                ..old(self)@
            }));
        }
    }

    /// Removes the directory at `path` and everything inside it, files and
    /// directories alike; a missing directory is not an error, and a file
    /// at `path` itself is left in place.
    pub fn rm_tree(&mut self, path: &str)
        requires
            fs_wf(*old(self)),
        ensures
            fs_wf(*final(self)),
            final(self)@ == rm_tree_model(old(self)@, path@),
    {
        let dir_here = self.is_dir(path);
        if dir_here {
            let mut drained = self.files.split_off(0);
            let ghost orig = drained@;
            let total = drained.len();
            proof {
                assert(orig =~= old(self).files@);
                assert(self.files@ =~= keep_files_outside(orig.take(0), path@));
            }
            let mut done_count: usize = 0;
            while drained.len() > 0
                invariant
                    total == orig.len(),
                    0 <= done_count <= total,
                    drained@ =~= orig.skip(done_count as int),
                    self.files@ =~= keep_files_outside(orig.take(done_count as int), path@),
                    self.dirs == old(self).dirs,
                decreases drained@.len(),
            {
                proof {
                    assert(done_count < total);
                }
                let e = drained.remove(0);
                proof {
                    assert(e == orig[done_count as int]);
                    assert(orig.take(done_count + 1 as int).drop_last() =~= orig.take(
                        done_count as int,
                    ));
                    assert(orig.take(done_count + 1 as int).last() == e);
                }
                let keep = !(same_or_under(e.0.as_str(), path) && !str_eq(e.0.as_str(), path));
                proof {
                    assert(keep == !under_dir(path@, e.0@));
                }
                if keep {
                    self.files.push(e);
                }
                proof {
                    assert(self.files@ =~= keep_files_outside(
                        orig.take(done_count + 1 as int),
                        path@,
                    ));
                    assert(drained@ =~= orig.skip(done_count + 1 as int));
                }
                done_count = done_count + 1;
            }
            proof {
                assert(orig.take(done_count as int) =~= orig);
                lemma_keep_files(orig, path@);
            }
        }
        let ghost fmid = self.files@;
        let mut drained_dirs = self.dirs.split_off(0);
        let ghost dorig = drained_dirs@;
        let dtotal = drained_dirs.len();
        let mut ddone: usize = 0;
        proof {
            assert(dorig =~= old(self).dirs@);
            assert(self.dirs@ =~= keep_dirs_outside(dorig.take(0), path@));
        }
        while drained_dirs.len() > 0
            invariant
                dtotal == dorig.len(),
                0 <= ddone <= dtotal,
                drained_dirs@ =~= dorig.skip(ddone as int),
                self.dirs@ =~= keep_dirs_outside(dorig.take(ddone as int), path@),
                self.files@ =~= fmid,
            decreases drained_dirs@.len(),
        {
            proof {
                assert(ddone < dtotal);
            }
            let d = drained_dirs.remove(0);
            proof {
                assert(d == dorig[ddone as int]);
                assert(dorig.take(ddone + 1 as int).drop_last() =~= dorig.take(ddone as int));
                assert(dorig.take(ddone + 1 as int).last() == d);
            }
            if !same_or_under(d.as_str(), path) {
                self.dirs.push(d);
            }
            proof {
                assert(self.dirs@ =~= keep_dirs_outside(dorig.take(ddone + 1 as int), path@));
                assert(drained_dirs@ =~= dorig.skip(ddone + 1 as int));
            }
            ddone = ddone + 1;
        }
        proof {
            assert(dorig.take(ddone as int) =~= dorig);
            lemma_keep_dirs(dorig, path@);
            assert(final(self)@.dirs =~= rm_tree_model(old(self)@, path@).dirs);
            assert(final(self)@.files =~= rm_tree_model(old(self)@, path@).files);
            assert(final(self)@ =~~= rm_tree_model(old(self)@, path@));
        }
    }
}

} // verus!
