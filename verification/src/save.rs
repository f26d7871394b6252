//! The materializer: applies a planned operation list to a file tree.
//!
//! [`save_root`] walks a serializer's planned records in order and performs
//! them against an in-memory [`MemFs`]: directory creation, file writes, and
//! stale-artifact deletion. Its contract equates the resulting tree with the
//! specification fold [`apply_plan`], so together with the traversal
//! engine's contracts the whole tree produced by a save is pinned down.

use vstd::prelude::*;
use vstd::string::StrSliceExecFns;
use vstd::string::StringExecFns;

use crate::fileserializer::File;
use crate::fileserializer::FileModel;
use crate::fileserializer::FileOperationHint;
use crate::fileserializer::FileSerializer;
use crate::fileserializer::SerializerError;
use crate::fileserializer::ser_val;
use crate::fileserializer::advance_s;
use crate::fileserializer::initial_model;
use crate::fileserializer::lemma_ser_some_iff;
use crate::fileserializer::set_last_hint;
use crate::fileserializer::write_s;
use crate::fileserializer::value_suffix_chars;
use crate::memfs::MemFs;
use crate::memfs::MemFsModel;
use crate::memfs::dir_closure;
use crate::memfs::fs_wf;
use crate::memfs::rm_tree_model;
use crate::memfs::str_eq;
use crate::value::Value;

verus! {

/// Which base directory a save targets; resolution of the actual directory
/// is owned by the embedding program.
#[derive(Clone, Debug, PartialEq, Eq, Structural)]
pub enum RootType {
    /// A fast, ephemeral base directory.
    InMemory,
    /// A durable, user-scoped base directory.
    Persistent,
}

/// Errors raised while saving a value as a file tree.
#[derive(Debug)]
pub enum SaveError {
    /// A directory could not be created at the given path.
    CreateDirectoryError(String),
    /// A file could not be created at the given path.
    CreateFileError(String),
    /// A file could not be deleted at the given path.
    DeleteFileError(String),
    /// A file could not be written at the given path.
    WriteFileError(String),
    /// The value violated the serialization contract.
    SerializeError(SerializerError),
    /// The base directory could not be resolved.
    RootLocationError(String),
}

/// A path with its trailing `/` characters removed.
pub open spec fn trim_end_s(s: Seq<char>) -> Seq<char>
    decreases s.len(),
{
    if s.len() > 0 && s.last() == '/' {
        trim_end_s(s.drop_last())
    } else {
        s
    }
}

/// A path with its leading `/` characters removed.
pub open spec fn trim_start_s(s: Seq<char>) -> Seq<char>
    decreases s.len(),
{
    if s.len() > 0 && s.first() == '/' {
        trim_start_s(s.drop_first())
    } else {
        s
    }
}

/// A path with `/` characters removed from both ends.
pub open spec fn trim_s(s: Seq<char>) -> Seq<char> {
    trim_start_s(trim_end_s(s))
}

/// Two path pieces joined with `/`; an empty piece is absent.
pub open spec fn join_s(a: Seq<char>, b: Seq<char>) -> Seq<char> {
    if b.len() == 0 {
        a
    } else if a.len() == 0 {
        b
    } else {
        a + seq!['/'] + b
    }
}

/// Everything before a path's last `/`, or the empty path.
pub open spec fn parent_s(s: Seq<char>) -> Seq<char>
    decreases s.len(),
{
    if s.len() == 0 {
        s
    } else if s.last() == '/' {
        s.drop_last()
    } else {
        parent_s(s.drop_last())
    }
}

/// Trimming trailing slashes keeps the prefix before them.
proof fn lemma_trim_end_chars(s: Seq<char>, to: int)
    requires
        0 <= to <= s.len(),
        forall|j: int| to <= j < s.len() ==> s[j] == '/',
        to > 0 ==> s[to - 1] != '/',
    ensures
        trim_end_s(s) == s.take(to),
    decreases s.len(),
{
    if s.len() == to {
        assert(s.take(to) =~= s);
    } else {
        lemma_trim_end_chars(s.drop_last(), to);
        assert(s.drop_last().take(to) =~= s.take(to));
    }
}

/// Trimming leading slashes keeps the suffix after them.
proof fn lemma_trim_start_chars(s: Seq<char>, from: int)
    requires
        0 <= from <= s.len(),
        forall|j: int| 0 <= j < from ==> s[j] == '/',
        from < s.len() ==> s[from] != '/',
    ensures
        trim_start_s(s) == s.skip(from),
    decreases s.len(),
{
    if from == 0 {
        assert(s.skip(0) =~= s);
    } else {
        lemma_trim_start_chars(s.drop_first(), from - 1);
        assert(s.drop_first().skip(from - 1) =~= s.skip(from));
    }
}

/// The prefix before the last slash is the parent.
proof fn lemma_parent_chars(s: Seq<char>, cut: int)
    requires
        0 <= cut <= s.len(),
        forall|j: int| cut < j < s.len() ==> s[j] != '/',
        cut == 0 || (cut < s.len() && s[cut] == '/'),
    ensures
        parent_s(s) == s.take(cut),
    decreases s.len(),
{
    if s.len() == 0 {
        assert(s.take(0) =~= s);
    } else if s.last() == '/' {
        assert(cut == s.len() - 1);
        assert(s.take(cut) =~= s.drop_last());
    } else {
        lemma_parent_chars(s.drop_last(), cut);
        assert(s.drop_last().take(cut) =~= s.take(cut));
    }
}

/// Trims `/` characters from both ends of a path.
fn trim_slashes(s: &str) -> (r: String)
    ensures
        r@ == trim_s(s@),
{
    let n = s.unicode_len();
    let mut from: usize = 0;
    while from < n && s.get_char(from) == '/'
        invariant
            0 <= from <= n,
            n == s@.len(),
            forall|j: int| 0 <= j < from ==> s@[j] == '/',
        decreases n - from,
    {
        from = from + 1;
    }
    let mut to: usize = n;
    while to > from && s.get_char(to - 1) == '/'
        invariant
            from <= to <= n,
            n == s@.len(),
            forall|j: int| to <= j < n ==> s@[j] == '/',
        decreases to,
    {
        to = to - 1;
    }
    let r = String::from_str(s.substring_char(from, to));
    proof {
        if to == from {
            assert(from == n);
            lemma_trim_end_chars(s@, 0);
            assert(trim_start_s(Seq::<char>::empty()) =~= Seq::<char>::empty());
            assert(r@ =~= s@.subrange(from as int, to as int));
            assert(trim_s(s@) =~= r@);
        } else {
            lemma_trim_end_chars(s@, to as int);
            lemma_trim_start_chars(s@.take(to as int), from as int);
            assert(s@.take(to as int).skip(from as int) =~= s@.subrange(from as int, to as int));
        }
    }
    r
}

/// Trims `/` characters from the end of a path.
fn trim_end_slashes(s: &str) -> (r: String)
    ensures
        r@ == trim_end_s(s@),
{
    let n = s.unicode_len();
    let mut to: usize = n;
    while to > 0 && s.get_char(to - 1) == '/'
        invariant
            0 <= to <= n,
            n == s@.len(),
            forall|j: int| to <= j < n ==> s@[j] == '/',
        decreases to,
    {
        to = to - 1;
    }
    let r = String::from_str(s.substring_char(0, to));
    proof {
        lemma_trim_end_chars(s@, to as int);
    }
    r
}

/// Appends the `.value` suffix that marks an enum variant's payload sibling.
fn with_value_extension(s: &str) -> (r: String)
    ensures
        r@ == s@ + seq!['.'] + value_suffix_chars(),
{
    let mut out = String::from_str(s);
    out.append(".value");
    proof {
        reveal_strlit(".value");
        assert(".value"@ =~= seq!['.'] + value_suffix_chars());
        assert(out@ =~= s@ + seq!['.'] + value_suffix_chars());
    }
    out
}

/// Joins two path pieces with `/`, treating an empty piece as absent.
fn join_paths(a: &str, b: &str) -> (r: String)
    ensures
        r@ == join_s(a@, b@),
{
    if b.is_empty() {
        String::from_str(a)
    } else if a.is_empty() {
        String::from_str(b)
    } else {
        let mut out = String::from_str(a);
        out.append("/");
        out.append(b);
        proof {
            reveal_strlit("/");
            assert(out@ =~= a@ + seq!['/'] + b@);
        }
        out
    }
}

/// The directory holding a path's last segment: everything before the last
/// `/`, or the empty path.
fn parent_of(s: &str) -> (r: String)
    ensures
        r@ == parent_s(s@),
{
    let n = s.unicode_len();
    let mut cut: usize = 0;
    let mut i: usize = 0;
    while i < n
        invariant
            0 <= i <= n,
            0 <= cut <= i,
            n == s@.len(),
            forall|j: int| cut < j < i ==> s@[j] != '/',
            cut == 0 || (cut < n && s@[cut as int] == '/'),
            cut == 0 && i > 0 ==> s@[0int] != '/' || cut == 0,
        decreases n - i,
    {
        if s.get_char(i) == '/' {
            cut = i;
        }
        i = i + 1;
    }
    let r = String::from_str(s.substring_char(0, cut));
    proof {
        lemma_parent_chars(s@, cut as int);
    }
    r
}

/// Removes the directory tree at `path`; a missing target is not an error.
fn rmdir(fs: &mut MemFs, path: &str) -> (r: Result<(), SaveError>)
    requires
        fs_wf(*old(fs)),
    ensures
        r.is_ok(),
        fs_wf(*final(fs)),
        final(fs)@ == rm_tree_model(old(fs)@, path@),
{
    fs.rm_tree(path);
    Ok(())
}

/// Removes the file at `path`; a missing target is not an error.
fn rm(fs: &mut MemFs, path: &str) -> (r: Result<(), SaveError>)
    requires
        fs_wf(*old(fs)),
    ensures
        r.is_ok(),
        fs_wf(*final(fs)),
        final(fs)@ == (MemFsModel { files: old(fs)@.files.remove(path@), ..old(fs)@ }),
{
    fs.rm_file(path);
    Ok(())
}

/// Creates or overwrites the file at `path` with `contents`.
fn save_to(fs: &mut MemFs, path: String, contents: Vec<u8>) -> (r: Result<(), SaveError>)
    requires
        fs_wf(*old(fs)),
    ensures
        r.is_ok(),
        fs_wf(*final(fs)),
        final(fs)@ == (MemFsModel {
            files: old(fs)@.files.insert(path@, contents@),
            ..old(fs)@
        }),
{
    fs.write_file(path, contents);
    Ok(())
}

/// The base path a planned record targets: the save root, suffixed with
/// `.folder_variant` for children of a top-level variant payload.
pub open spec fn record_base(f: FileModel, root: Seq<char>) -> Seq<char> {
    match f.folder_variant {
        Some(sfx) => trim_end_s(root) + seq!['.'] + sfx,
        None => trim_end_s(root),
    }
}

/// The full path a planned record targets: the base joined with the
/// record's open-scope path and its own name.
pub open spec fn record_path(f: FileModel, root: Seq<char>) -> Seq<char> {
    let rel = trim_s(f.path);
    let rel2 = match f.name {
        Some(nm) => join_s(rel, nm),
        None => rel,
    };
    join_s(record_base(f, root), rel2)
}

/// A record's target with its `.variant` suffix appended, as written.
pub open spec fn record_target(f: FileModel, root: Seq<char>) -> Seq<char> {
    let fp = record_path(f, root);
    match f.variant {
        Some(e) => trim_end_s(fp) + seq!['.'] + e,
        None => trim_end_s(fp),
    }
}

/// The tree after performing one planned record, following the
/// materializer's four cases: remove the stale `.value` sibling on the
/// delete-payload hint; create the directory for a directory marker; remove
/// the file on the delete hint; otherwise ensure the parent directory and
/// write the record's bytes.
pub open spec fn apply_record(f: FileModel, root: Seq<char>, m: MemFsModel) -> MemFsModel {
    let base = record_base(f, root);
    let fp = record_path(f, root);
    let m1 = if f.hint == FileOperationHint::DeleteValue {
        let target = fp + seq!['.'] + value_suffix_chars();
        let mt = rm_tree_model(m, target);
        MemFsModel { files: mt.files.remove(target), ..mt }
    } else {
        m
    };
    if !f.is_path {
        let m2 = if fp != base {
            MemFsModel { dirs: m1.dirs.union(dir_closure(base)), ..m1 }
        } else {
            let par = parent_s(fp);
            if par.len() > 0 {
                MemFsModel { dirs: m1.dirs.union(dir_closure(par)), ..m1 }
            } else {
                m1
            }
        };
        if f.hint == FileOperationHint::Delete {
            MemFsModel { files: m2.files.remove(fp), ..m2 }
        } else {
            MemFsModel { files: m2.files.insert(record_target(f, root), f.output), ..m2 }
        }
    } else {
        MemFsModel { dirs: m1.dirs.union(dir_closure(record_target(f, root))), ..m1 }
    }
}

/// The tree after performing a whole plan, record by record, in order.
pub open spec fn apply_plan(plan: Seq<FileModel>, root: Seq<char>, m: MemFsModel) -> MemFsModel
    decreases plan.len(),
{
    if plan.len() == 0 {
        m
    } else {
        apply_plan(plan.drop_first(), root, apply_record(plan.first(), root, m))
    }
}

/// Unfolds one step of [`apply_plan`] at position `i`.
pub proof fn lemma_apply_plan_unfold(plan: Seq<FileModel>, i: int, root: Seq<char>, m: MemFsModel)
    requires
        0 <= i < plan.len(),
    ensures
        apply_plan(plan.skip(i), root, m) == apply_plan(
            plan.skip(i + 1),
            root,
            apply_record(plan[i], root, m),
        ),
{
    assert(plan.skip(i).first() == plan[i]);
    assert(plan.skip(i).drop_first() =~= plan.skip(i + 1));
}

/// Applies a serializer's planned operations, in order, under the `root`
/// directory of the given file tree, exactly as [`apply_plan`] describes.
#[verifier::rlimit(100)]
#[verifier::spinoff_prover]
pub fn save_root(serializer: FileSerializer, root: &str, fs: &mut MemFs) -> (r: Result<
    (),
    SaveError,
>)
    requires
        fs_wf(*old(fs)),
    ensures
        r.is_ok(),
        fs_wf(*final(fs)),
        final(fs)@ == apply_plan(serializer@.output, root@, old(fs)@),
{
    let files: Vec<File> = serializer.output;
    let ghost plan = serializer@.output;
    proof {
        assert(plan =~= files@.map_values(|f: File| f@));
        assert(plan.skip(0) =~= plan);
    }
    let n = files.len();
    let mut i: usize = 0;
    while i < n
        invariant
            0 <= i <= n,
            n == files@.len(),
            fs_wf(*fs),
            plan =~= files@.map_values(|f: File| f@),
            apply_plan(plan, root@, old(fs)@) == apply_plan(plan.skip(i as int), root@, fs@),
        decreases n - i,
    {
        let ghost pre = fs@;
        let ghost f = plan[i as int];
        proof {
            assert(f == files@[i as int]@);
            lemma_apply_plan_unfold(plan, i as int, root@, pre);
        }
        let file = &files[i];
        let base = {
            let trimmed = trim_end_slashes(root);
            match &file.folder_variant {
                Some(suffix) => {
                    let mut b = trimmed;
                    b.append(".");
                    b.append(suffix.as_str());
                    proof {
                        reveal_strlit(".");
                        assert(b@ =~= trim_end_s(root@) + seq!['.'] + suffix@);
                    }
                    b
                }
                None => trimmed,
            }
        };
        proof {
            assert(base@ == record_base(f, root@));
        }
        let rel = trim_slashes(file.path.as_str());
        let rel2 = match &file.name {
            Some(name) => join_paths(rel.as_str(), name.as_str()),
            None => rel,
        };
        let file_path = join_paths(base.as_str(), rel2.as_str());
        proof {
            assert(file_path@ == record_path(f, root@));
        }
        if file.hint == FileOperationHint::DeleteValue {
            let target = with_value_extension(file_path.as_str());
            rmdir(fs, target.as_str())?;
            rm(fs, target.as_str())?;
        }
        let ghost m1 = fs@;
        if !file.is_path {
            if !str_eq(file_path.as_str(), base.as_str()) {
                fs.mkdir_all(base.as_str());
            } else {
                let parent = parent_of(file_path.as_str());
                if !parent.as_str().is_empty() {
                    fs.mkdir_all(parent.as_str());
                }
            }
            let ghost m2 = fs@;
            if file.hint == FileOperationHint::Delete {
                rm(fs, file_path.as_str())?;
            } else {
                let filename = {
                    let mut fnm = trim_end_slashes(file_path.as_str());
                    match &file.variant {
                        Some(ext) => {
                            fnm.append(".");
                            fnm.append(ext.as_str());
                            proof {
                                reveal_strlit(".");
                                assert(fnm@ =~= trim_end_s(file_path@) + seq!['.'] + ext@);
                            }
                        }
                        None => {}
                    }
                    fnm
                };
                proof {
                    assert(filename@ == record_target(f, root@));
                }
                let mut contents: Vec<u8> = Vec::new();
                let m = file.output.len();
                let mut k: usize = 0;
                while k < m
                    invariant
                        0 <= k <= m,
                        m == file.output@.len(),
                        contents@ =~= file.output@.take(k as int),
                    decreases m - k,
                {
                    contents.push(file.output[k]);
                    proof {
                        assert(contents@ =~= file.output@.take(k + 1 as int));
                    }
                    k = k + 1;
                }
                proof {
                    assert(contents@ =~= file.output@);
                }
                save_to(fs, filename, contents)?;
            }
        } else {
            let dirname = {
                let mut d = trim_end_slashes(file_path.as_str());
                match &file.variant {
                    Some(ext) => {
                        d.append(".");
                        d.append(ext.as_str());
                        proof {
                            reveal_strlit(".");
                            assert(d@ =~= trim_end_s(file_path@) + seq!['.'] + ext@);
                        }
                    }
                    None => {}
                }
                d
            };
            proof {
                assert(dirname@ == record_target(f, root@));
            }
            fs.mkdir_all(dirname.as_str());
        }
        proof {
            assert(fs@ =~~= apply_record(f, root@, pre));
        }
        i = i + 1;
    }
    proof {
        assert(plan.skip(n as int) =~= Seq::<FileModel>::empty());
    }
    Ok(())
}

/// Whether a plan carries no stale-payload deletion hint.
pub open spec fn no_delete_value(plan: Seq<FileModel>) -> bool {
    forall|i: int| 0 <= i < plan.len() ==> plan[i].hint != FileOperationHint::DeleteValue
}

/// What one record without a stale-payload hint does to the file at `k`:
/// `None` when it leaves it alone, `Some(None)` when it removes it,
/// `Some(Some(b))` when it writes it with bytes `b`.
pub open spec fn record_file_effect(f: FileModel, root: Seq<char>, k: Seq<char>) -> Option<
    Option<Seq<u8>>,
> {
    if f.is_path {
        None
    } else if f.hint == FileOperationHint::Delete {
        if k == record_path(f, root) {
            Some(None)
        } else {
            None
        }
    } else if f.hint == FileOperationHint::Normal {
        if k == record_target(f, root) {
            Some(Some(f.output))
        } else {
            None
        }
    } else {
        None
    }
}

/// The last effect a plan has on the file at `k`.
pub open spec fn plan_file_effect(plan: Seq<FileModel>, root: Seq<char>, k: Seq<char>) -> Option<
    Option<Seq<u8>>,
>
    decreases plan.len(),
{
    if plan.len() == 0 {
        None
    } else {
        match record_file_effect(plan.last(), root, k) {
            Some(e) => Some(e),
            None => plan_file_effect(plan.drop_last(), root, k),
        }
    }
}

/// The directories one record creates.
pub open spec fn record_dirs_added(f: FileModel, root: Seq<char>) -> Set<Seq<char>> {
    let base = record_base(f, root);
    let fp = record_path(f, root);
    if f.is_path {
        dir_closure(record_target(f, root))
    } else if fp != base {
        dir_closure(base)
    } else if parent_s(fp).len() > 0 {
        dir_closure(parent_s(fp))
    } else {
        Set::<Seq<char>>::empty()
    }
}

/// The directories a whole plan creates.
pub open spec fn plan_dirs_added(plan: Seq<FileModel>, root: Seq<char>) -> Set<Seq<char>>
    decreases plan.len(),
{
    if plan.len() == 0 {
        Set::<Seq<char>>::empty()
    } else {
        plan_dirs_added(plan.drop_last(), root).union(record_dirs_added(plan.last(), root))
    }
}

/// Unfolds [`plan_file_effect`] at the plan's first record.
proof fn lemma_effect_front(plan: Seq<FileModel>, root: Seq<char>, k: Seq<char>)
    requires
        plan.len() > 0,
    ensures
        plan_file_effect(plan, root, k) == (match plan_file_effect(plan.drop_first(), root, k) {
            Some(e) => Some(e),
            None => record_file_effect(plan.first(), root, k),
        }),
    decreases plan.len(),
{
    if plan.len() == 1 {
        assert(plan.drop_first() =~= Seq::<FileModel>::empty());
        assert(plan.last() == plan.first());
        assert(plan.drop_last() =~= Seq::<FileModel>::empty());
    } else {
        lemma_effect_front(plan.drop_last(), root, k);
        assert(plan.drop_first().drop_last() =~= plan.drop_last().drop_first());
        assert(plan.drop_first().last() == plan.last());
        assert(plan.drop_last().first() == plan.first());
    }
}

/// Unfolds [`plan_dirs_added`] at the plan's first record.
proof fn lemma_dirs_added_front(plan: Seq<FileModel>, root: Seq<char>)
    requires
        plan.len() > 0,
    ensures
        plan_dirs_added(plan, root) =~= record_dirs_added(plan.first(), root).union(
            plan_dirs_added(plan.drop_first(), root),
        ),
    decreases plan.len(),
{
    if plan.len() == 1 {
        assert(plan.drop_first() =~= Seq::<FileModel>::empty());
        assert(plan.last() == plan.first());
        assert(plan.drop_last() =~= Seq::<FileModel>::empty());
    } else {
        lemma_dirs_added_front(plan.drop_last(), root);
        assert(plan.drop_first().drop_last() =~= plan.drop_last().drop_first());
        assert(plan.drop_first().last() == plan.last());
        assert(plan.drop_last().first() == plan.first());
    }
}

/// One record without a stale-payload hint acts pointwise: it adds its
/// directories and applies its file effect, leaving every other path alone.
proof fn lemma_apply_record_pointwise(f: FileModel, root: Seq<char>, m: MemFsModel)
    requires
        f.hint != FileOperationHint::DeleteValue,
    ensures
        apply_record(f, root, m).dirs =~= m.dirs.union(record_dirs_added(f, root)),
        forall|k: Seq<char>|
            match #[trigger] record_file_effect(f, root, k) {
                Some(e) => match e {
                    Some(b) => apply_record(f, root, m).files.contains_key(k) && apply_record(
                        f,
                        root,
                        m,
                    ).files[k] == b,
                    None => !apply_record(f, root, m).files.contains_key(k),
                },
                None => apply_record(f, root, m).files.contains_key(k) == m.files.contains_key(k)
                    && (m.files.contains_key(k) ==> apply_record(f, root, m).files[k]
                    == m.files[k]),
            },
{
}

/// A plan without stale-payload hints acts pointwise on the tree: it adds
/// its directories, and each file path holds the plan's last write for it,
/// is absent if last deleted, and keeps its prior state if untouched.
proof fn lemma_apply_plan_pointwise(plan: Seq<FileModel>, root: Seq<char>, m: MemFsModel)
    requires
        no_delete_value(plan),
    ensures
        apply_plan(plan, root, m).dirs =~= m.dirs.union(plan_dirs_added(plan, root)),
        forall|k: Seq<char>|
            match #[trigger] plan_file_effect(plan, root, k) {
                Some(e) => match e {
                    Some(b) => apply_plan(plan, root, m).files.contains_key(k) && apply_plan(
                        plan,
                        root,
                        m,
                    ).files[k] == b,
                    None => !apply_plan(plan, root, m).files.contains_key(k),
                },
                None => apply_plan(plan, root, m).files.contains_key(k) == m.files.contains_key(k)
                    && (m.files.contains_key(k) ==> apply_plan(plan, root, m).files[k]
                    == m.files[k]),
            },
    decreases plan.len(),
{
    if plan.len() > 0 {
        let f = plan.first();
        let m1 = apply_record(f, root, m);
        let rest = plan.drop_first();
        assert(f.hint != FileOperationHint::DeleteValue);
        assert(forall|i: int| 0 <= i < rest.len() ==> rest[i] == plan[i + 1]);
        lemma_apply_record_pointwise(f, root, m);
        lemma_apply_plan_pointwise(rest, root, m1);
        lemma_dirs_added_front(plan, root);
        assert(apply_plan(plan, root, m) == apply_plan(rest, root, m1));
        assert forall|k: Seq<char>|
            match #[trigger] plan_file_effect(plan, root, k) {
                Some(e) => match e {
                    Some(b) => apply_plan(plan, root, m).files.contains_key(k) && apply_plan(
                        plan,
                        root,
                        m,
                    ).files[k] == b,
                    None => !apply_plan(plan, root, m).files.contains_key(k),
                },
                None => apply_plan(plan, root, m).files.contains_key(k) == m.files.contains_key(k)
                    && (m.files.contains_key(k) ==> apply_plan(plan, root, m).files[k]
                    == m.files[k]),
            } by {
            lemma_effect_front(plan, root, k);
        }
    }
}

/// Re-applying a plan that deletes no stale payload changes nothing: the
/// second application removes the same absent files and rewrites every
/// artifact with the same bytes. (A plan with stale-payload deletion can
/// differ on a tree that holds a file inside a path that only the first
/// application turns into a directory.)
pub proof fn lemma_apply_plan_idempotent(plan: Seq<FileModel>, root: Seq<char>, m: MemFsModel)
    requires
        no_delete_value(plan),
    ensures
        apply_plan(plan, root, apply_plan(plan, root, m)) == apply_plan(plan, root, m),
{
    let m1 = apply_plan(plan, root, m);
    let m2 = apply_plan(plan, root, m1);
    lemma_apply_plan_pointwise(plan, root, m);
    lemma_apply_plan_pointwise(plan, root, m1);
    assert(m2.dirs =~= m1.dirs);
    assert forall|k: Seq<char>|
        #![trigger m1.files.dom().contains(k)]
        #![trigger m2.files.dom().contains(k)]
        m2.files.dom().contains(k) == m1.files.dom().contains(k) && (m1.files.dom().contains(k)
            ==> m2.files[k] == m1.files[k]) by {
        match plan_file_effect(plan, root, k) {
            Some(e) => match e {
                Some(b) => {
                    assert(m1.files.contains_key(k) && m1.files[k] == b);
                    assert(m2.files.contains_key(k) && m2.files[k] == b);
                }
                None => {
                    assert(!m1.files.contains_key(k));
                    assert(!m2.files.contains_key(k));
                }
            },
            None => {
                assert(m2.files.contains_key(k) == m1.files.contains_key(k));
            }
        }
    }
    assert(m2.files.dom() =~= m1.files.dom());
    assert(m2.files =~= m1.files);
    assert(m2 =~~= m1);
}

/// An absent optional value is a deletion intent, not a write: saving it
/// removes the file at the save root's own path, creates no file, and
/// leaves every other file untouched.
pub proof fn lemma_absent_save_deletes(root: Seq<char>, m: MemFsModel)
    ensures
        ser_val(Value::Absent, initial_model()).is_some(),
        match ser_val(Value::Absent, initial_model()) {
            Some(s) => {
                &&& !apply_plan(s.output, root, m).files.contains_key(trim_end_s(root))
                &&& forall|k: Seq<char>|
                    apply_plan(s.output, root, m).files.contains_key(k) ==> m.files.contains_key(
                        k,
                    ) && apply_plan(s.output, root, m).files[k] == m.files[k]
            },
            None => false,
        },
{
    let init = initial_model();
    let s1 = set_last_hint(
        write_s(advance_s(init), Seq::<u8>::empty()),
        FileOperationHint::Delete,
    );
    assert(ser_val(Value::Absent, init) == Some(s1));
    assert(s1.output.len() == 1);
    let f = s1.output[0];
    assert(f.path =~= Seq::<char>::empty());
    assert(f.name is None);
    assert(f.folder_variant is None);
    assert(f.hint == FileOperationHint::Delete);
    assert(!f.is_path);
    assert(s1.output.first() == f);
    assert(s1.output.drop_first() =~= Seq::<FileModel>::empty());
    let after = apply_plan(s1.output, root, m);
    assert(after == apply_record(f, root, m)) by {
        reveal_with_fuel(apply_plan, 2);
    }
    assert(trim_end_s(f.path) =~= Seq::<char>::empty());
    assert(trim_s(f.path) =~= Seq::<char>::empty());
    assert(record_base(f, root) == trim_end_s(root));
    assert(record_path(f, root) == trim_end_s(root));
    assert(after.files == apply_record(f, root, m).files);
    assert(!after.files.contains_key(trim_end_s(root)));
}

impl Value {
    /// Serializes this value and applies the planned operations under the
    /// `root` directory of the given file tree. Fails, leaving the tree
    /// untouched, exactly when the value holds a map key of an invalid
    /// kind; on success the resulting tree is the plan's materialization.
    pub fn save(&self, root: &str, fs: &mut MemFs) -> (r: Result<(), SaveError>)
        requires
            fs_wf(*old(fs)),
        ensures
            fs_wf(*final(fs)),
            r.is_ok() == crate::value::keys_ok(*self),
            match r {
                Err(e) => (e is SerializeError),
                Ok(_) => true,
            },
            match ser_val(*self, initial_model()) {
                Some(s) => final(fs)@ == apply_plan(s.output, root@, old(fs)@),
                None => *final(fs) == *old(fs),
            },
    {
        proof {
            lemma_ser_some_iff(*self, initial_model());
        }
        let mut serializer = FileSerializer::new();
        match serializer.serialize(self) {
            Err(e) => Err(SaveError::SerializeError(e)),
            Ok(_) => save_root(serializer, root, fs),
        }
    }
}

} // verus!
