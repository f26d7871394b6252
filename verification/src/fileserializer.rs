//! The traversal engine: walks a [`Value`] and plans file operations.
//!
//! [`FileSerializer`] is the path builder and plan accumulator. A call to
//! [`FileSerializer::serialize`] walks one value and appends one [`File`]
//! record per planned artifact: a file write, a directory marker, or a
//! deletion intent. The whole behaviour is mirrored, step for step, by the
//! specification function [`ser_val`], so every contract here pins the exact
//! plan produced for a given value.

use vstd::prelude::*;
use vstd::string::StrSliceExecFns;
use vstd::string::StringExecFns;
use vstd::utf8::decode_utf8;
use vstd::utf8::encode_utf8;
use vstd::utf8::valid_utf8;

use crate::render::dec_chars;
use crate::render::int_chars;
use crate::render::i64_to_string;
use crate::render::u64_to_string;
use crate::render::usize_to_string;
use crate::render::char_to_string;
use crate::render::bytes_to_string;
use crate::value::Value;
use crate::value::key_ok;
use crate::value::is_valid_key;

verus! {

/// Errors raised while planning the file operations for a value.
#[derive(Debug)]
pub enum SerializerError {
    /// A message describing the contract violation.
    Message(String),
}

impl SerializerError {
    /// Wraps a message as a serializer error.
    pub fn custom(msg: String) -> (e: Self)
        ensures
            e == SerializerError::Message(msg),
    {
        SerializerError::Message(msg)
    }

    /// The message carried by the error.
    pub fn message(&self) -> (m: &String)
        ensures
            *self == SerializerError::Message(*m),
    {
        match self {
            SerializerError::Message(m) => m,
        }
    }
}

/// How the materializer must treat one planned record.
#[derive(Clone, Copy, Debug, PartialEq, Eq, Structural)]
pub enum FileOperationHint {
    /// An ordinary write (or directory creation).
    Normal,
    /// Remove the file at the target path; the value is absent.
    Delete,
    /// Remove the stale `.value` sibling of the target before writing.
    DeleteValue,
}

/// One planned filesystem artifact.
#[derive(Clone, Debug, PartialEq)]
pub struct File {
    /// `/`-joined path of the directory holding the artifact, relative to the
    /// save root; empty means the root itself.
    pub path: String,
    /// The artifact's own name; `None` means the artifact sits at `path`.
    pub name: Option<String>,
    /// A suffix rendered as `.suffix` after the artifact's name, used for an
    /// enum variant's payload sibling.
    pub variant: Option<String>,
    /// The bytes to write.
    pub output: Vec<u8>,
    /// Whether the artifact is a directory rather than a file.
    pub is_path: bool,
    /// The deletion intent attached to this record.
    pub hint: FileOperationHint,
    /// A suffix rendered as `.suffix` after the save root itself, used for
    /// children of a top-level variant payload directory.
    pub folder_variant: Option<String>,
}

/// The mathematical model of a planned [`File`] record.
#[verifier::ext_equal]
pub struct FileModel {
    /// Model of [`File::path`].
    pub path: Seq<char>,
    /// Model of [`File::name`].
    pub name: Option<Seq<char>>,
    /// Model of [`File::variant`].
    pub variant: Option<Seq<char>>,
    /// Model of [`File::output`].
    pub output: Seq<u8>,
    /// Model of [`File::is_path`].
    pub is_path: bool,
    /// Model of [`File::hint`].
    pub hint: FileOperationHint,
    /// Model of [`File::folder_variant`].
    pub folder_variant: Option<Seq<char>>,
}

/// The view of an optional string.
pub open spec fn view_opt(o: Option<String>) -> Option<Seq<char>> {
    match o {
        Some(s) => Some(s@),
        None => None,
    }
}

impl View for File {
    type V = FileModel;

    open spec fn view(&self) -> FileModel {
        FileModel {
            path: self.path@,
            name: view_opt(self.name),
            variant: view_opt(self.variant),
            output: self.output@,
            is_path: self.is_path,
            hint: self.hint,
            folder_variant: view_opt(self.folder_variant),
        }
    }
}

/// The path builder and plan accumulator threaded through one traversal.
#[derive(Debug, PartialEq)]
pub struct FileSerializer {
    /// A pending artifact name; retained for parity with the planned-file
    /// naming rules, though field names travel through `root` instead.
    pub name: Option<String>,
    /// `/`-joined path segments of the currently open struct or map scope.
    pub root: String,
    /// Number of currently open sequence/tuple scopes.
    pub seq_level: usize,
    /// One element counter per open sequence scope that has begun naming
    /// elements; the counter holds the current element's index.
    pub seq: Vec<usize>,
    /// Whether a map key is being rendered: its text becomes the next name
    /// and nothing is written for the key itself.
    pub is_key: bool,
    /// The rendered key or field name to append to `root` for the next value.
    pub future_name: Option<String>,
    /// When set, the next written file's name gains this `.suffix`.
    pub variant: Option<String>,
    /// The plan accumulated so far, in execution order.
    pub output: Vec<File>,
    /// When set, records written now target the save root suffixed with
    /// `.suffix`; used for children of a top-level variant payload.
    pub folder_variant: Option<String>,
}

/// The mathematical model of the serializer state.
#[verifier::ext_equal]
pub struct SerializerModel {
    /// Model of [`FileSerializer::name`].
    pub name: Option<Seq<char>>,
    /// Model of [`FileSerializer::root`].
    pub root: Seq<char>,
    /// Model of [`FileSerializer::seq_level`].
    pub seq_level: int,
    /// Model of [`FileSerializer::seq`].
    pub seq: Seq<usize>,
    /// Model of [`FileSerializer::is_key`].
    pub is_key: bool,
    /// Model of [`FileSerializer::future_name`].
    pub future_name: Option<Seq<char>>,
    /// Model of [`FileSerializer::variant`].
    pub variant: Option<Seq<char>>,
    /// Model of [`FileSerializer::output`].
    pub output: Seq<FileModel>,
    /// Model of [`FileSerializer::folder_variant`].
    pub folder_variant: Option<Seq<char>>,
}

impl View for FileSerializer {
    type V = SerializerModel;

    open spec fn view(&self) -> SerializerModel {
        SerializerModel {
            name: view_opt(self.name),
            root: self.root@,
            seq_level: self.seq_level as int,
            seq: self.seq@,
            is_key: self.is_key,
            future_name: view_opt(self.future_name),
            variant: view_opt(self.variant),
            output: self.output@.map_values(|f: File| f@),
            folder_variant: view_opt(self.folder_variant),
        }
    }
}

/// Structural well-formedness of the serializer state: at most one sequence
/// scope is pending its first element, and every element counter is below
/// the number of planned records, which bounds it by the machine word.
pub open spec fn ser_wf(s: SerializerModel) -> bool {
    &&& s.seq_level == s.seq.len() || s.seq_level == s.seq.len() + 1
    &&& s.seq_level == s.seq.len() + 1 ==> s.output.len() > s.seq.len()
    &&& s.seq.len() > 0 ==> s.seq.len() < s.output.len()
    &&& forall|i: int| 0 <= i < s.seq.len() ==> (s.seq[i] as int) < s.output.len()
}

/// The characters of the literal `true`.
pub open spec fn true_chars() -> Seq<char> {
    seq!['t', 'r', 'u', 'e']
}

/// The characters of the literal `false`.
pub open spec fn false_chars() -> Seq<char> {
    seq!['f', 'a', 'l', 's', 'e']
}

/// The rendering of an absent optional map key.
pub open spec fn none_name_chars() -> Seq<char> {
    seq!['_', '_', 'N', 'O', 'N', 'E', '_', '_']
}

/// The rendering of a unit map key.
pub open spec fn unit_name_chars() -> Seq<char> {
    seq!['_', '_', 'U', 'N', 'I', 'T', '_', '_']
}

/// The suffix distinguishing an enum variant's payload artifact.
pub open spec fn value_suffix_chars() -> Seq<char> {
    seq!['v', 'a', 'l', 'u', 'e']
}

/// The counters of the enclosing sequence scopes: all but the innermost.
pub open spec fn enclosing_counters(s: Seq<usize>) -> Seq<usize> {
    if s.len() == 0 {
        s
    } else {
        s.drop_last()
    }
}

/// `/`-joined decimal renderings of a stack of element counters.
pub open spec fn join_counters(s: Seq<usize>) -> Seq<char>
    decreases s.len(),
{
    if s.len() == 0 {
        Seq::empty()
    } else if s.len() == 1 {
        dec_chars(s[0] as int)
    } else {
        join_counters(s.drop_last()) + seq!['/'] + dec_chars(s.last() as int)
    }
}

/// Effect of [`FileSerializer::advance`]: clears the pending name.
pub open spec fn advance_s(s: SerializerModel) -> SerializerModel {
    SerializerModel { name: None, ..s }
}

/// Effect of [`FileSerializer::write`].
///
/// In key mode the rendered bytes become the pending key name and nothing is
/// planned. Otherwise, inside a sequence scope the element counter advances
/// (or starts at zero for the scope's first element) and names the record;
/// the record's path joins the open scope path with the enclosing counters.
pub open spec fn write_s(s0: SerializerModel, data: Seq<u8>) -> SerializerModel {
    if s0.is_key {
        SerializerModel { future_name: Some(decode_utf8(data)), ..s0 }
    } else {
        let s1 = if s0.seq_level > 0 {
            if s0.seq_level == s0.seq.len() + 1 {
                SerializerModel { seq: s0.seq.push(0), ..s0 }
            } else {
                SerializerModel {
                    seq: s0.seq.update(s0.seq.len() - 1, (s0.seq.last() + 1) as usize),
                    ..s0
                }
            }
        } else {
            s0
        };
        let nm = if s0.seq_level > 0 {
            Some(dec_chars(s1.seq.last() as int))
        } else {
            s0.name
        };
        let sp = join_counters(enclosing_counters(s1.seq));
        let path = if sp.len() == 0 {
            s0.root
        } else if s0.root.len() == 0 {
            sp
        } else {
            s0.root + seq!['/'] + sp
        };
        SerializerModel {
            output: s1.output.push(
                FileModel {
                    path,
                    name: nm,
                    variant: s0.variant,
                    output: data,
                    is_path: false,
                    hint: FileOperationHint::Normal,
                    folder_variant: s0.folder_variant,
                },
            ),
            ..s1
        }
    }
}

/// Replaces the hint of the most recently planned record.
pub open spec fn set_last_hint(s: SerializerModel, h: FileOperationHint) -> SerializerModel
    recommends
        s.output.len() > 0,
{
    let i = s.output.len() - 1;
    SerializerModel { output: s.output.update(i, FileModel { hint: h, ..s.output[i] }), ..s }
}

/// Marks the most recently planned record as a directory.
pub open spec fn set_last_path(s: SerializerModel) -> SerializerModel
    recommends
        s.output.len() > 0,
{
    let i = s.output.len() - 1;
    SerializerModel {
        output: s.output.update(i, FileModel { is_path: true, ..s.output[i] }),
        ..s
    }
}

/// Effect of [`FileSerializer::destruct_seq`]: closes the innermost sequence
/// scope, discarding its counter if one was started.
pub open spec fn destruct_s(s: SerializerModel) -> SerializerModel
    recommends
        s.seq_level >= 1,
{
    if s.seq.len() == s.seq_level {
        SerializerModel { seq: s.seq.drop_last(), seq_level: s.seq_level - 1, ..s }
    } else {
        SerializerModel { seq_level: s.seq_level - 1, ..s }
    }
}

/// The state of a fresh serializer: everything empty or cleared.
pub open spec fn initial_model() -> SerializerModel {
    SerializerModel {
        name: None,
        root: Seq::<char>::empty(),
        seq_level: 0int,
        seq: Seq::<usize>::empty(),
        is_key: false,
        future_name: None,
        variant: None,
        output: Seq::<FileModel>::empty(),
        folder_variant: None,
    }
}

impl FileSerializer {
    /// A fresh serializer with an empty plan, rooted at the save root.
    pub fn new() -> (s: Self)
        ensures
            s@ == initial_model(),
            ser_wf(s@),
    {
        let s = FileSerializer {
            name: None,
            root: String::new(),
            seq_level: 0,
            seq: Vec::new(),
            is_key: false,
            future_name: None,
            variant: None,
            output: Vec::new(),
            folder_variant: None,
        };
        proof {
            assert(s@.output =~= Seq::<FileModel>::empty());
            assert(s@ =~= initial_model());
        }
        s
    }

    /// Clears the pending artifact name before planning the next record.
    pub fn advance(&mut self)
        ensures
            final(self)@ == advance_s(old(self)@),
    {
        self.name = None;
        proof {
            assert(final(self)@ =~= advance_s(old(self)@));
        }
    }

    /// Adds `by` to the innermost element counter and returns its new value.
    pub fn inc_seq(&mut self, by: usize) -> (n: usize)
        requires
            old(self)@.seq_level >= 1,
            old(self)@.seq.len() >= old(self)@.seq_level,
            old(self)@.seq[old(self)@.seq_level - 1] + by <= usize::MAX,
        ensures
            final(self)@ == (SerializerModel {
                seq: old(self)@.seq.update(
                    old(self)@.seq_level - 1,
                    (old(self)@.seq[old(self)@.seq_level - 1] + by) as usize,
                ),
                ..old(self)@
            }),
            n == old(self)@.seq[old(self)@.seq_level - 1] + by,
    {
        let i = self.seq_level - 1;
        let cur = self.seq[i];
        self.seq.set(i, cur + by);
        proof {
            assert(final(self)@ =~= SerializerModel {
                seq: old(self)@.seq.update(
                    old(self)@.seq_level - 1,
                    (old(self)@.seq[old(self)@.seq_level - 1] + by) as usize,
                ),
                ..old(self)@
            });
        }
        cur + by
    }

    /// Opens a sequence scope. The scope's directory marker must already be
    /// planned, and no other scope may still await its first element.
    pub fn construct_seq(&mut self)
        requires
            ser_wf(old(self)@),
            old(self)@.seq_level == old(self)@.seq.len(),
            old(self)@.output.len() > old(self)@.seq.len(),
        ensures
            final(self)@ == (SerializerModel { seq_level: old(self)@.seq_level + 1, ..old(self)@ }),
            ser_wf(final(self)@),
    {
        let olen = self.output.len();
        assert(self.seq_level < olen);
        self.seq_level = self.seq_level + 1;
        proof {
            assert(final(self)@ =~= SerializerModel {
                seq_level: old(self)@.seq_level + 1,
                ..old(self)@
            });
        }
    }

    /// Closes the innermost sequence scope.
    pub fn destruct_seq(&mut self)
        requires
            ser_wf(old(self)@),
            old(self)@.seq_level >= 1,
        ensures
            final(self)@ == destruct_s(old(self)@),
            ser_wf(final(self)@),
    {
        if self.seq.len() == self.seq_level {
            let _ = self.seq.pop();
        }
        self.seq_level = self.seq_level - 1;
        proof {
            assert(final(self)@ =~= destruct_s(old(self)@));
        }
    }

    /// The `/`-joined decimal rendering of the enclosing element counters:
    /// every open counter except the innermost one.
    pub fn seq_to_path(&self) -> (s: String)
        ensures
            s@ == join_counters(enclosing_counters(self@.seq)),
    {
        let mut s = String::new();
        let n = self.seq.len();
        if n == 0 {
            return s;
        }
        let ghost pref = enclosing_counters(self@.seq);
        let mut i: usize = 0;
        while i + 1 < n
            invariant
                n == self@.seq.len(),
                n >= 1,
                0 <= i <= n - 1,
                pref == enclosing_counters(self@.seq),
                s@ == join_counters(pref.take(i as int)),
            decreases n - i,
        {
            if i > 0 {
                s.append("/");
            }
            let num = usize_to_string(self.seq[i]);
            s.append(num.as_str());
            proof {
                reveal_strlit("/");
                let t = pref.take(i + 1 as int);
                assert(t.drop_last() =~= pref.take(i as int));
                assert(t.last() == pref[i as int]);
                assert(pref[i as int] == self@.seq[i as int]);
                if i == 0 {
                    assert(t.len() == 1);
                    assert(s@ =~= join_counters(t));
                } else {
                    assert(s@ =~= join_counters(t.drop_last()) + seq!['/'] + dec_chars(
                        t.last() as int,
                    ));
                    assert(s@ =~= join_counters(t));
                }
            }
            i = i + 1;
        }
        proof {
            assert(pref.take(n - 1 as int) =~= pref);
        }
        s
    }

    /// Plans one record for rendered bytes, or, in key mode, retains the
    /// bytes' text as the pending key name. Key bytes must be valid UTF-8,
    /// which holds of every rendered key kind.
    pub fn write(&mut self, data: Vec<u8>)
        requires
            old(self)@.is_key ==> valid_utf8(data@),
            !old(self)@.is_key ==> ser_wf(old(self)@),
        ensures
            final(self)@ == write_s(old(self)@, data@),
            !old(self)@.is_key ==> ser_wf(final(self)@),
    {
        if self.is_key {
            match bytes_to_string(&data) {
                Some(s) => {
                    self.future_name = Some(s);
                }
                None => {
                    proof {
                        assert(false);
                    }
                }
            }
            proof {
                assert(final(self)@ =~= write_s(old(self)@, data@));
            }
            return;
        }
        let olen = self.output.len();
        let nm: Option<String>;
        if self.seq_level > 0 {
            if self.seq_level == self.seq.len() + 1 {
                self.seq.push(0);
            } else {
                let i = self.seq.len() - 1;
                let cur = self.seq[i];
                assert((cur as int) < olen as int);
                self.seq.set(i, cur + 1);
            }
            let last = self.seq[self.seq.len() - 1];
            nm = Some(usize_to_string(last));
        } else {
            nm = match &self.name {
                Some(s) => Some(s.clone()),
                None => None,
            };
        }
        let seqpath = self.seq_to_path();
        let path: String = if seqpath.as_str().is_empty() {
            self.root.clone()
        } else if self.root.as_str().is_empty() {
            seqpath
        } else {
            let mut p = self.root.clone();
            p.append("/");
            p.append(seqpath.as_str());
            proof {
                reveal_strlit("/");
                assert(p@ =~= old(self)@.root + seq!['/'] + join_counters(self@.seq.drop_last()));
            }
            p
        };
        let variant = match &self.variant {
            Some(s) => Some(s.clone()),
            None => None,
        };
        let folder_variant = match &self.folder_variant {
            Some(s) => Some(s.clone()),
            None => None,
        };
        let file = File {
            path,
            name: nm,
            variant,
            output: data,
            is_path: false,
            hint: FileOperationHint::Normal,
            folder_variant,
        };
        self.output.push(file);
        proof {
            assert(self@.output =~= old(self)@.output.push(file@));
            assert(final(self)@ =~~= write_s(old(self)@, data@));
        }
    }

    /// A mutable borrow of the most recently planned record.
    pub fn prev(&mut self) -> (r: &mut File)
        requires
            old(self).output.len() > 0,
        ensures
            *r == old(self).output[old(self).output.len() - 1],
            final(self).output@ == old(self).output@.update(
                old(self).output.len() - 1,
                *final(r),
            ),
            final(self).name == old(self).name,
            final(self).root == old(self).root,
            final(self).seq_level == old(self).seq_level,
            final(self).seq == old(self).seq,
            final(self).is_key == old(self).is_key,
            final(self).future_name == old(self).future_name,
            final(self).variant == old(self).variant,
            final(self).folder_variant == old(self).folder_variant,
    {
        let i = self.output.len() - 1;
        &mut self.output[i]
    }
}

/// Plans the tag file naming an enum variant, as a sibling sharing the path
/// and name of the most recently planned record (the payload's artifact).
pub open spec fn push_tag(s: SerializerModel, n: Seq<char>) -> SerializerModel
    recommends
        s.output.len() > 0,
{
    let last = s.output.last();
    SerializerModel {
        output: s.output.push(
            FileModel {
                path: last.path,
                name: last.name,
                variant: None,
                output: encode_utf8(n),
                is_path: false,
                hint: FileOperationHint::Normal,
                folder_variant: s.folder_variant,
            },
        ),
        ..s
    }
}

/// Effect of opening a map or struct scope: plan the directory marker.
pub open spec fn ser_map_open(s: SerializerModel) -> SerializerModel {
    set_last_path(write_s(advance_s(s), Seq::<u8>::empty()))
}

/// Effect of opening a sequence scope: plan the directory marker and open
/// one more nesting level.
pub open spec fn ser_seq_open(s: SerializerModel) -> SerializerModel {
    let sm = ser_map_open(s);
    SerializerModel { seq_level: sm.seq_level + 1, ..sm }
}

/// Effect of opening an enum variant with a payload: plan the payload
/// directory marker carrying the `.value` suffix and the stale-payload
/// deletion hint, then the tag file at the bare path.
pub open spec fn ser_variant_open(n: Seq<char>, s: SerializerModel) -> SerializerModel {
    let sa = SerializerModel { variant: Some(value_suffix_chars()), ..advance_s(s) };
    let sb = set_last_hint(set_last_path(write_s(sa, Seq::<u8>::empty())), FileOperationHint::DeleteValue);
    let sc = SerializerModel { variant: None, name: None, ..sb };
    push_tag(sc, n)
}

/// Effect of opening an enum variant with a sequence-shaped payload: the
/// variant marker and tag, then one more nesting level for the elements.
pub open spec fn ser_var_seq_open(n: Seq<char>, s: SerializerModel) -> SerializerModel {
    let so = ser_variant_open(n, s);
    SerializerModel { seq_level: so.seq_level + 1, ..so }
}

/// Effect of serializing one value, mirrored by [`FileSerializer::serialize`].
///
/// `None` reports a contract violation: a map key of a kind that does not
/// render to text. Scalars plan one record of their canonical bytes; in key
/// mode their text instead becomes the pending key name. An absent option
/// plans a deletion intent. Sequences and tuples plan a directory marker and
/// one numerically named child per element. Maps and structs plan a marker
/// and recurse with the rendered key appended to the open path. Variants
/// plan a stale-payload deletion, the payload under the `.value` suffix, and
/// the tag file holding the variant name.
pub open spec fn ser_val(v: Value, s: SerializerModel) -> Option<SerializerModel>
    decreases v, 0int,
{
    match v {
        Value::Bool(b) => Some(
            write_s(advance_s(s), encode_utf8(if b {
                true_chars()
            } else {
                false_chars()
            })),
        ),
        Value::Int(n) => Some(write_s(advance_s(s), encode_utf8(int_chars(n as int)))),
        Value::Uint(n) => Some(write_s(advance_s(s), encode_utf8(dec_chars(n as int)))),
        Value::Float(t) => Some(write_s(advance_s(s), encode_utf8(t@))),
        Value::Chr(c) => Some(write_s(advance_s(s), encode_utf8(seq![c]))),
        Value::Text(t) => Some(write_s(advance_s(s), encode_utf8(t@))),
        Value::Bytes(b) => if s.is_key {
            None
        } else {
            Some(write_s(advance_s(s), b@))
        },
        Value::Unit => Some(
            write_s(advance_s(s), if s.is_key {
                encode_utf8(unit_name_chars())
            } else {
                Seq::<u8>::empty()
            }),
        ),
        Value::Absent => Some(
            if s.is_key {
                write_s(advance_s(s), encode_utf8(none_name_chars()))
            } else {
                set_last_hint(write_s(advance_s(s), Seq::<u8>::empty()), FileOperationHint::Delete)
            },
        ),
        Value::Present(p) => ser_val(*p, s),
        Value::List(es) => match ser_items(es@, ser_seq_open(s)) {
            Some(s1) => Some(destruct_s(s1)),
            None => None,
        },
        Value::Tuple(es) => match ser_items(es@, ser_seq_open(s)) {
            Some(s1) => Some(destruct_s(s1)),
            None => None,
        },
        Value::Dict(kvs) => ser_entries(kvs@, ser_map_open(s)),
        Value::Record(fs) => ser_fields(fs@, ser_map_open(s)),
        Value::UnitVariant(n) => Some(
            set_last_hint(
                write_s(advance_s(s), encode_utf8(n@)),
                FileOperationHint::DeleteValue,
            ),
        ),
        Value::NewtypeVariant(n, p) => match *p {
            Value::List(es) => match ser_var_items(es@, ser_var_seq_open(n@, s)) {
                Some(s1) => Some(destruct_s(s1)),
                None => None,
            },
            Value::Tuple(es) => match ser_var_items(es@, ser_var_seq_open(n@, s)) {
                Some(s1) => Some(destruct_s(s1)),
                None => None,
            },
            Value::Record(fs) => ser_var_fields(fs@, ser_variant_open(n@, s)),
            Value::Dict(kvs) => ser_var_entries(kvs@, ser_variant_open(n@, s)),
            _ => match ser_val(*p, (SerializerModel {
                variant: Some(value_suffix_chars()),
                ..s
            })) {
                Some(s1) => Some(
                    push_tag(
                        (SerializerModel {
                            variant: None,
                            name: None,
                            ..set_last_hint(s1, FileOperationHint::DeleteValue)
                        }),
                        n@,
                    ),
                ),
                None => None,
            },
        },
        Value::TupleVariant(n, es) => match ser_var_items(es@, ser_var_seq_open(n@, s)) {
            Some(s1) => Some(destruct_s(s1)),
            None => None,
        },
        Value::RecordVariant(n, fs) => ser_var_fields(fs@, ser_variant_open(n@, s)),
    }
}

/// Effect of serializing sequence elements in order.
pub open spec fn ser_items(es: Seq<Value>, s: SerializerModel) -> Option<SerializerModel>
    decreases es, 0int,
{
    if es.len() == 0 {
        Some(s)
    } else {
        match ser_val(es.first(), s) {
            Some(s1) => ser_items(es.drop_first(), s1),
            None => None,
        }
    }
}

/// Effect of serializing a map value, mirrored by
/// [`FileSerializer::serialize_value`]: leave key mode, descend into the
/// scope named by the pending key, and restore the path afterwards.
pub open spec fn ser_map_value(v: Value, s: SerializerModel) -> Option<SerializerModel>
    decreases v, 1int,
{
    let s2 = SerializerModel { is_key: false, ..s };
    let s3 = match s2.future_name {
        Some(f) => SerializerModel { root: s2.root + seq!['/'] + f, ..s2 },
        None => s2,
    };
    match ser_val(v, s3) {
        Some(s4) => Some(SerializerModel { root: s2.root, ..s4 }),
        None => None,
    }
}

/// Effect of one map entry: validate and render the key, then the value.
pub open spec fn ser_entry(kv: (Value, Value), s: SerializerModel) -> Option<SerializerModel>
    decreases kv, 2int,
{
    if !key_ok(kv.0) {
        None
    } else {
        match ser_val(kv.0, SerializerModel { is_key: true, ..s }) {
            Some(s1) => ser_map_value(kv.1, s1),
            None => None,
        }
    }
}

/// Effect of serializing map entries in order.
pub open spec fn ser_entries(kvs: Seq<(Value, Value)>, s: SerializerModel) -> Option<
    SerializerModel,
>
    decreases kvs, 0int,
{
    if kvs.len() == 0 {
        Some(s)
    } else {
        match ser_entry(kvs.first(), s) {
            Some(s1) => ser_entries(kvs.drop_first(), s1),
            None => None,
        }
    }
}

/// Effect of one struct field: render the field name, then the value.
pub open spec fn ser_field(name: Seq<char>, v: Value, s: SerializerModel) -> Option<
    SerializerModel,
>
    decreases v, 2int,
{
    let s1 = write_s(advance_s(SerializerModel { is_key: true, ..s }), encode_utf8(name));
    ser_map_value(v, s1)
}

/// Effect of serializing struct fields in order.
pub open spec fn ser_fields(fs: Seq<(String, Value)>, s: SerializerModel) -> Option<
    SerializerModel,
>
    decreases fs, 0int,
{
    if fs.len() == 0 {
        Some(s)
    } else {
        match ser_field(fs.first().0@, fs.first().1, s) {
            Some(s1) => ser_fields(fs.drop_first(), s1),
            None => None,
        }
    }
}

/// Effect of serializing a value inside a variant payload scope: the record
/// targets the `.value`-suffixed payload directory, and the open path is
/// restored afterwards.
pub open spec fn ser_var_value(v: Value, s: SerializerModel) -> Option<SerializerModel>
    decreases v, 1int,
{
    let s2 = SerializerModel { is_key: false, ..s };
    let s3 = match s2.future_name {
        Some(f) => SerializerModel { root: s2.root + seq!['/'] + f, ..s2 },
        None => s2,
    };
    let s4 = SerializerModel { folder_variant: Some(value_suffix_chars()), ..s3 };
    match ser_val(v, s4) {
        Some(s5) => Some(
            SerializerModel { root: s2.root, folder_variant: None, ..s5 },
        ),
        None => None,
    }
}

/// Effect of one element of a tuple-variant payload.
pub open spec fn ser_var_item(v: Value, s: SerializerModel) -> Option<SerializerModel>
    decreases v, 1int,
{
    let s1 = SerializerModel { folder_variant: Some(value_suffix_chars()), ..s };
    match ser_val(v, s1) {
        Some(s2) => Some(SerializerModel { folder_variant: None, ..s2 }),
        None => None,
    }
}

/// Effect of serializing tuple-variant payload elements in order.
pub open spec fn ser_var_items(es: Seq<Value>, s: SerializerModel) -> Option<SerializerModel>
    decreases es, 0int,
{
    if es.len() == 0 {
        Some(s)
    } else {
        match ser_var_item(es.first(), s) {
            Some(s1) => ser_var_items(es.drop_first(), s1),
            None => None,
        }
    }
}

/// Effect of one field of a record-variant payload.
pub open spec fn ser_var_field(name: Seq<char>, v: Value, s: SerializerModel) -> Option<
    SerializerModel,
>
    decreases v, 2int,
{
    let s1 = write_s(advance_s(SerializerModel { is_key: true, ..s }), encode_utf8(name));
    ser_var_value(v, s1)
}

/// Effect of serializing record-variant payload fields in order.
pub open spec fn ser_var_fields(fs: Seq<(String, Value)>, s: SerializerModel) -> Option<
    SerializerModel,
>
    decreases fs, 0int,
{
    if fs.len() == 0 {
        Some(s)
    } else {
        match ser_var_field(fs.first().0@, fs.first().1, s) {
            Some(s1) => ser_var_fields(fs.drop_first(), s1),
            None => None,
        }
    }
}

/// Effect of one entry of a map carried as a variant payload.
pub open spec fn ser_var_entry(kv: (Value, Value), s: SerializerModel) -> Option<SerializerModel>
    decreases kv, 2int,
{
    if !key_ok(kv.0) {
        None
    } else {
        match ser_val(kv.0, SerializerModel { is_key: true, ..s }) {
            Some(s1) => ser_var_value(kv.1, s1),
            None => None,
        }
    }
}

/// Effect of serializing the entries of a map carried as a variant payload.
pub open spec fn ser_var_entries(kvs: Seq<(Value, Value)>, s: SerializerModel) -> Option<
    SerializerModel,
>
    decreases kvs, 0int,
{
    if kvs.len() == 0 {
        Some(s)
    } else {
        match ser_var_entry(kvs.first(), s) {
            Some(s1) => ser_var_entries(kvs.drop_first(), s1),
            None => None,
        }
    }
}

/// Serializing a value keeps the sequence nesting level; outside key mode
/// it leaves key mode off and plans at least one new record, and in key mode
/// a valid key changes nothing but the pending key name.
#[verifier::rlimit(60)]
pub proof fn lemma_ser_effects(v: Value, s: SerializerModel)
    ensures
        match ser_val(v, s) {
            Some(s1) => {
                &&& s1.seq_level == s.seq_level
                &&& !s.is_key ==> s1.is_key == false && s1.output.len() > s.output.len()
                &&& s.is_key && key_ok(v) ==> s1.output == s.output && s1.is_key == s.is_key
            },
            None => true,
        },
    decreases v, 0int,
{
    match v {
        Value::Present(p) => {
            lemma_ser_effects(*p, s);
        }
        Value::List(es) => {
            lemma_ser_items_effects(es@, ser_seq_open(s));
        }
        Value::Tuple(es) => {
            lemma_ser_items_effects(es@, ser_seq_open(s));
        }
        Value::Dict(kvs) => {
            lemma_ser_entries_effects(kvs@, ser_map_open(s));
        }
        Value::Record(fs) => {
            lemma_ser_fields_effects(fs@, ser_map_open(s));
        }
        Value::NewtypeVariant(n, p) => {
            match *p {
                Value::List(es) => {
                    lemma_ser_var_items_effects(es@, ser_var_seq_open(n@, s));
                }
                Value::Tuple(es) => {
                    lemma_ser_var_items_effects(es@, ser_var_seq_open(n@, s));
                }
                Value::Record(fs) => {
                    lemma_ser_var_fields_effects(fs@, ser_variant_open(n@, s));
                }
                Value::Dict(kvs) => {
                    lemma_ser_var_entries_effects(kvs@, ser_variant_open(n@, s));
                }
                _ => {
                    lemma_ser_effects(
                        *p,
                        (SerializerModel { variant: Some(value_suffix_chars()), ..s }),
                    );
                }
            }
        }
        Value::TupleVariant(n, es) => {
            lemma_ser_var_items_effects(es@, ser_var_seq_open(n@, s));
        }
        Value::RecordVariant(n, fs) => {
            lemma_ser_var_fields_effects(fs@, ser_variant_open(n@, s));
        }
        _ => {}
    }
}

/// Serializing sequence elements keeps the nesting level; outside key mode
/// it leaves key mode off and never drops planned records.
pub proof fn lemma_ser_items_effects(es: Seq<Value>, s: SerializerModel)
    ensures
        match ser_items(es, s) {
            Some(s1) => {
                &&& s1.seq_level == s.seq_level
                &&& !s.is_key ==> s1.is_key == false && s1.output.len() >= s.output.len()
            },
            None => true,
        },
    decreases es, 0int,
{
    if es.len() > 0 {
        lemma_ser_effects(es.first(), s);
        match ser_val(es.first(), s) {
            Some(s1) => {
                lemma_ser_items_effects(es.drop_first(), s1);
            }
            None => {}
        }
    }
}

/// Serializing map entries keeps the nesting level; outside key mode it
/// leaves key mode off and never drops planned records.
pub proof fn lemma_ser_entries_effects(kvs: Seq<(Value, Value)>, s: SerializerModel)
    ensures
        match ser_entries(kvs, s) {
            Some(s1) => {
                &&& s1.seq_level == s.seq_level
                &&& !s.is_key ==> s1.is_key == false && s1.output.len() >= s.output.len()
            },
            None => true,
        },
    decreases kvs, 0int,
{
    if kvs.len() > 0 {
        lemma_ser_entry_effects(kvs.first(), s);
        match ser_entry(kvs.first(), s) {
            Some(s1) => {
                lemma_ser_entries_effects(kvs.drop_first(), s1);
            }
            None => {}
        }
    }
}

/// One map entry keeps the nesting level; outside key mode it leaves key
/// mode off and never drops planned records.
pub proof fn lemma_ser_entry_effects(kv: (Value, Value), s: SerializerModel)
    ensures
        match ser_entry(kv, s) {
            Some(s1) => {
                &&& s1.seq_level == s.seq_level
                &&& !s.is_key ==> s1.is_key == false && s1.output.len() >= s.output.len()
            },
            None => true,
        },
    decreases kv, 2int,
{
    if key_ok(kv.0) {
        lemma_ser_effects(kv.0, SerializerModel { is_key: true, ..s });
        match ser_val(kv.0, SerializerModel { is_key: true, ..s }) {
            Some(s1) => {
                lemma_ser_map_value_effects(kv.1, s1);
            }
            None => {}
        }
    }
}

/// Descending into a map value keeps the nesting level, leaves key mode off
/// and plans at least one record.
pub proof fn lemma_ser_map_value_effects(v: Value, s: SerializerModel)
    ensures
        match ser_map_value(v, s) {
            Some(s1) => {
                &&& s1.seq_level == s.seq_level
                &&& s1.is_key == false
                &&& s1.output.len() > s.output.len()
            },
            None => true,
        },
    decreases v, 1int,
{
    let s2 = SerializerModel { is_key: false, ..s };
    let s3 = match s2.future_name {
        Some(f) => SerializerModel { root: s2.root + seq!['/'] + f, ..s2 },
        None => s2,
    };
    lemma_ser_effects(v, s3);
}

/// One struct field keeps the nesting level, leaves key mode off and never
/// drops planned records.
pub proof fn lemma_ser_field_effects(name: Seq<char>, v: Value, s: SerializerModel)
    ensures
        match ser_field(name, v, s) {
            Some(s1) => {
                &&& s1.seq_level == s.seq_level
                &&& s1.is_key == false
                &&& s1.output.len() >= s.output.len()
            },
            None => true,
        },
    decreases v, 2int,
{
    let s1 = write_s(advance_s(SerializerModel { is_key: true, ..s }), encode_utf8(name));
    lemma_ser_map_value_effects(v, s1);
}

/// Serializing struct fields keeps the nesting level; outside key mode it
/// leaves key mode off and never drops planned records.
pub proof fn lemma_ser_fields_effects(fs: Seq<(String, Value)>, s: SerializerModel)
    ensures
        match ser_fields(fs, s) {
            Some(s1) => {
                &&& s1.seq_level == s.seq_level
                &&& !s.is_key ==> s1.is_key == false && s1.output.len() >= s.output.len()
            },
            None => true,
        },
    decreases fs, 0int,
{
    if fs.len() > 0 {
        lemma_ser_field_effects(fs.first().0@, fs.first().1, s);
        match ser_field(fs.first().0@, fs.first().1, s) {
            Some(s1) => {
                lemma_ser_fields_effects(fs.drop_first(), s1);
            }
            None => {}
        }
    }
}

/// Descending into a variant payload value keeps the nesting level, leaves
/// key mode off and plans at least one record.
pub proof fn lemma_ser_var_value_effects(v: Value, s: SerializerModel)
    ensures
        match ser_var_value(v, s) {
            Some(s1) => {
                &&& s1.seq_level == s.seq_level
                &&& s1.is_key == false
                &&& s1.output.len() > s.output.len()
            },
            None => true,
        },
    decreases v, 1int,
{
    let s2 = SerializerModel { is_key: false, ..s };
    let s3 = match s2.future_name {
        Some(f) => SerializerModel { root: s2.root + seq!['/'] + f, ..s2 },
        None => s2,
    };
    let s4 = SerializerModel { folder_variant: Some(value_suffix_chars()), ..s3 };
    lemma_ser_effects(v, s4);
}

/// One tuple-variant payload element keeps the nesting level; outside key
/// mode it leaves key mode off and plans at least one record.
pub proof fn lemma_ser_var_item_effects(v: Value, s: SerializerModel)
    ensures
        match ser_var_item(v, s) {
            Some(s1) => {
                &&& s1.seq_level == s.seq_level
                &&& !s.is_key ==> s1.is_key == false && s1.output.len() > s.output.len()
            },
            None => true,
        },
    decreases v, 1int,
{
    lemma_ser_effects(v, SerializerModel { folder_variant: Some(value_suffix_chars()), ..s });
}

/// Serializing tuple-variant payload elements keeps the nesting level;
/// outside key mode it leaves key mode off and never drops planned records.
pub proof fn lemma_ser_var_items_effects(es: Seq<Value>, s: SerializerModel)
    ensures
        match ser_var_items(es, s) {
            Some(s1) => {
                &&& s1.seq_level == s.seq_level
                &&& !s.is_key ==> s1.is_key == false && s1.output.len() >= s.output.len()
            },
            None => true,
        },
    decreases es, 0int,
{
    if es.len() > 0 {
        lemma_ser_var_item_effects(es.first(), s);
        match ser_var_item(es.first(), s) {
            Some(s1) => {
                lemma_ser_var_items_effects(es.drop_first(), s1);
            }
            None => {}
        }
    }
}

/// One record-variant payload field keeps the nesting level, leaves key
/// mode off and never drops planned records.
pub proof fn lemma_ser_var_field_effects(name: Seq<char>, v: Value, s: SerializerModel)
    ensures
        match ser_var_field(name, v, s) {
            Some(s1) => {
                &&& s1.seq_level == s.seq_level
                &&& s1.is_key == false
                &&& s1.output.len() >= s.output.len()
            },
            None => true,
        },
    decreases v, 2int,
{
    let s1 = write_s(advance_s(SerializerModel { is_key: true, ..s }), encode_utf8(name));
    lemma_ser_var_value_effects(v, s1);
}

/// Serializing record-variant payload fields keeps the nesting level;
/// outside key mode it leaves key mode off and never drops planned records.
pub proof fn lemma_ser_var_fields_effects(fs: Seq<(String, Value)>, s: SerializerModel)
    ensures
        match ser_var_fields(fs, s) {
            Some(s1) => {
                &&& s1.seq_level == s.seq_level
                &&& !s.is_key ==> s1.is_key == false && s1.output.len() >= s.output.len()
            },
            None => true,
        },
    decreases fs, 0int,
{
    if fs.len() > 0 {
        lemma_ser_var_field_effects(fs.first().0@, fs.first().1, s);
        match ser_var_field(fs.first().0@, fs.first().1, s) {
            Some(s1) => {
                lemma_ser_var_fields_effects(fs.drop_first(), s1);
            }
            None => {}
        }
    }
}

/// One entry of a map payload keeps the nesting level, leaves key mode off
/// and never drops planned records.
pub proof fn lemma_ser_var_entry_effects(kv: (Value, Value), s: SerializerModel)
    ensures
        match ser_var_entry(kv, s) {
            Some(s1) => {
                &&& s1.seq_level == s.seq_level
                &&& !s.is_key ==> s1.is_key == false && s1.output.len() >= s.output.len()
            },
            None => true,
        },
    decreases kv, 2int,
{
    if key_ok(kv.0) {
        lemma_ser_effects(kv.0, SerializerModel { is_key: true, ..s });
        match ser_val(kv.0, SerializerModel { is_key: true, ..s }) {
            Some(s1) => {
                lemma_ser_var_value_effects(kv.1, s1);
            }
            None => {}
        }
    }
}

/// Serializing the entries of a map payload keeps the nesting level;
/// outside key mode it leaves key mode off and never drops planned records.
pub proof fn lemma_ser_var_entries_effects(kvs: Seq<(Value, Value)>, s: SerializerModel)
    ensures
        match ser_var_entries(kvs, s) {
            Some(s1) => {
                &&& s1.seq_level == s.seq_level
                &&& !s.is_key ==> s1.is_key == false && s1.output.len() >= s.output.len()
            },
            None => true,
        },
    decreases kvs, 0int,
{
    if kvs.len() > 0 {
        lemma_ser_var_entry_effects(kvs.first(), s);
        match ser_var_entry(kvs.first(), s) {
            Some(s1) => {
                lemma_ser_var_entries_effects(kvs.drop_first(), s1);
            }
            None => {}
        }
    }
}


/// In key mode, a valid key always renders.
pub proof fn lemma_key_mode_some(v: Value, s: SerializerModel)
    requires
        s.is_key,
        key_ok(v),
    ensures
        ser_val(v, s).is_some(),
    decreases v, 0int,
{
    match v {
        Value::Present(p) => {
            lemma_key_mode_some(*p, s);
        }
        _ => {}
    }
}

/// Serializing a value succeeds exactly when every map key inside it is of
/// a valid kind.
pub proof fn lemma_ser_some_iff(v: Value, s: SerializerModel)
    requires
        !s.is_key,
    ensures
        ser_val(v, s).is_some() <==> crate::value::keys_ok(v),
    decreases v, 0int,
{
    match v {
        Value::Present(p) => {
            lemma_ser_some_iff(*p, s);
        }
        Value::List(es) => {
            lemma_items_some_iff(es@, ser_seq_open(s));
        }
        Value::Tuple(es) => {
            lemma_items_some_iff(es@, ser_seq_open(s));
        }
        Value::Dict(kvs) => {
            lemma_entries_some_iff(kvs@, ser_map_open(s));
        }
        Value::Record(fs) => {
            lemma_fields_some_iff(fs@, ser_map_open(s));
        }
        Value::NewtypeVariant(n, p) => {
            reveal_with_fuel(crate::value::keys_ok, 2);
            match *p {
                Value::List(es) => {
                    lemma_var_items_some_iff(es@, ser_var_seq_open(n@, s));
                }
                Value::Tuple(es) => {
                    lemma_var_items_some_iff(es@, ser_var_seq_open(n@, s));
                }
                Value::Record(fs) => {
                    lemma_var_fields_some_iff(fs@, ser_variant_open(n@, s));
                }
                Value::Dict(kvs) => {
                    lemma_var_entries_some_iff(kvs@, ser_variant_open(n@, s));
                }
                _ => {
                    lemma_ser_some_iff(
                        *p,
                        (SerializerModel { variant: Some(value_suffix_chars()), ..s }),
                    );
                }
            }
        }
        Value::TupleVariant(n, es) => {
            lemma_var_items_some_iff(es@, ser_var_seq_open(n@, s));
        }
        Value::RecordVariant(n, fs) => {
            lemma_var_fields_some_iff(fs@, ser_variant_open(n@, s));
        }
        _ => {}
    }
}

/// Serializing sequence elements succeeds exactly when their keys are valid.
pub proof fn lemma_items_some_iff(es: Seq<Value>, s: SerializerModel)
    requires
        !s.is_key,
    ensures
        ser_items(es, s).is_some() <==> crate::value::items_keys_ok(es),
    decreases es, 0int,
{
    if es.len() > 0 {
        lemma_ser_some_iff(es.first(), s);
        lemma_ser_effects(es.first(), s);
        match ser_val(es.first(), s) {
            Some(s1) => {
                lemma_items_some_iff(es.drop_first(), s1);
            }
            None => {}
        }
    }
}

/// Serializing a map value succeeds exactly when its keys are valid.
pub proof fn lemma_map_value_some_iff(v: Value, s: SerializerModel)
    ensures
        ser_map_value(v, s).is_some() <==> crate::value::keys_ok(v),
    decreases v, 1int,
{
    let s2 = SerializerModel { is_key: false, ..s };
    let s3 = match s2.future_name {
        Some(f) => SerializerModel { root: s2.root + seq!['/'] + f, ..s2 },
        None => s2,
    };
    lemma_ser_some_iff(v, s3);
}

/// Serializing a variant payload value succeeds exactly when its keys are
/// valid.
pub proof fn lemma_var_value_some_iff(v: Value, s: SerializerModel)
    ensures
        ser_var_value(v, s).is_some() <==> crate::value::keys_ok(v),
    decreases v, 1int,
{
    let s2 = SerializerModel { is_key: false, ..s };
    let s3 = match s2.future_name {
        Some(f) => SerializerModel { root: s2.root + seq!['/'] + f, ..s2 },
        None => s2,
    };
    let s4 = SerializerModel { folder_variant: Some(value_suffix_chars()), ..s3 };
    lemma_ser_some_iff(v, s4);
}

/// One map entry succeeds exactly when its key kind is valid and the
/// value's keys are valid.
pub proof fn lemma_entry_some_iff(kv: (Value, Value), s: SerializerModel)
    ensures
        ser_entry(kv, s).is_some() <==> (key_ok(kv.0) && crate::value::keys_ok(kv.1)),
    decreases kv, 2int,
{
    if key_ok(kv.0) {
        lemma_key_mode_some(kv.0, SerializerModel { is_key: true, ..s });
        match ser_val(kv.0, SerializerModel { is_key: true, ..s }) {
            Some(s1) => {
                lemma_map_value_some_iff(kv.1, s1);
            }
            None => {}
        }
    }
}

/// Serializing map entries succeeds exactly when every key kind is valid
/// and every value's keys are valid.
pub proof fn lemma_entries_some_iff(kvs: Seq<(Value, Value)>, s: SerializerModel)
    ensures
        ser_entries(kvs, s).is_some() <==> crate::value::entries_keys_ok(kvs),
    decreases kvs, 0int,
{
    if kvs.len() > 0 {
        lemma_entry_some_iff(kvs.first(), s);
        match ser_entry(kvs.first(), s) {
            Some(s1) => {
                lemma_entries_some_iff(kvs.drop_first(), s1);
            }
            None => {}
        }
    }
}

/// One struct field succeeds exactly when its value's keys are valid.
pub proof fn lemma_field_some_iff(name: Seq<char>, v: Value, s: SerializerModel)
    ensures
        ser_field(name, v, s).is_some() <==> crate::value::keys_ok(v),
    decreases v, 2int,
{
    let s1 = write_s(advance_s(SerializerModel { is_key: true, ..s }), encode_utf8(name));
    lemma_map_value_some_iff(v, s1);
}

/// Serializing struct fields succeeds exactly when every value's keys are
/// valid.
pub proof fn lemma_fields_some_iff(fs: Seq<(String, Value)>, s: SerializerModel)
    ensures
        ser_fields(fs, s).is_some() <==> crate::value::fields_keys_ok(fs),
    decreases fs, 0int,
{
    if fs.len() > 0 {
        lemma_field_some_iff(fs.first().0@, fs.first().1, s);
        match ser_field(fs.first().0@, fs.first().1, s) {
            Some(s1) => {
                lemma_fields_some_iff(fs.drop_first(), s1);
            }
            None => {}
        }
    }
}

/// One tuple-variant payload element succeeds exactly when its keys are
/// valid.
pub proof fn lemma_var_item_some_iff(v: Value, s: SerializerModel)
    requires
        !s.is_key,
    ensures
        ser_var_item(v, s).is_some() <==> crate::value::keys_ok(v),
    decreases v, 1int,
{
    lemma_ser_some_iff(v, SerializerModel { folder_variant: Some(value_suffix_chars()), ..s });
}

/// Serializing tuple-variant payload elements succeeds exactly when their
/// keys are valid.
pub proof fn lemma_var_items_some_iff(es: Seq<Value>, s: SerializerModel)
    requires
        !s.is_key,
    ensures
        ser_var_items(es, s).is_some() <==> crate::value::items_keys_ok(es),
    decreases es, 0int,
{
    if es.len() > 0 {
        lemma_var_item_some_iff(es.first(), s);
        lemma_ser_var_item_effects(es.first(), s);
        match ser_var_item(es.first(), s) {
            Some(s1) => {
                lemma_var_items_some_iff(es.drop_first(), s1);
            }
            None => {}
        }
    }
}

/// One record-variant payload field succeeds exactly when its value's keys
/// are valid.
pub proof fn lemma_var_field_some_iff(name: Seq<char>, v: Value, s: SerializerModel)
    ensures
        ser_var_field(name, v, s).is_some() <==> crate::value::keys_ok(v),
    decreases v, 2int,
{
    let s1 = write_s(advance_s(SerializerModel { is_key: true, ..s }), encode_utf8(name));
    lemma_var_value_some_iff(v, s1);
}

/// Serializing record-variant payload fields succeeds exactly when every
/// value's keys are valid.
pub proof fn lemma_var_fields_some_iff(fs: Seq<(String, Value)>, s: SerializerModel)
    ensures
        ser_var_fields(fs, s).is_some() <==> crate::value::fields_keys_ok(fs),
    decreases fs, 0int,
{
    if fs.len() > 0 {
        lemma_var_field_some_iff(fs.first().0@, fs.first().1, s);
        match ser_var_field(fs.first().0@, fs.first().1, s) {
            Some(s1) => {
                lemma_var_fields_some_iff(fs.drop_first(), s1);
            }
            None => {}
        }
    }
}

/// One entry of a map-shaped payload succeeds exactly when its key kind is
/// valid and the value's keys are valid.
pub proof fn lemma_var_entry_some_iff(kv: (Value, Value), s: SerializerModel)
    ensures
        ser_var_entry(kv, s).is_some() <==> (key_ok(kv.0) && crate::value::keys_ok(kv.1)),
    decreases kv, 2int,
{
    if key_ok(kv.0) {
        lemma_key_mode_some(kv.0, SerializerModel { is_key: true, ..s });
        match ser_val(kv.0, SerializerModel { is_key: true, ..s }) {
            Some(s1) => {
                lemma_var_value_some_iff(kv.1, s1);
            }
            None => {}
        }
    }
}

/// Serializing the entries of a map-shaped payload succeeds exactly when
/// every key kind is valid and every value's keys are valid.
pub proof fn lemma_var_entries_some_iff(kvs: Seq<(Value, Value)>, s: SerializerModel)
    ensures
        ser_var_entries(kvs, s).is_some() <==> crate::value::entries_keys_ok(kvs),
    decreases kvs, 0int,
{
    if kvs.len() > 0 {
        lemma_var_entry_some_iff(kvs.first(), s);
        match ser_var_entry(kvs.first(), s) {
            Some(s1) => {
                lemma_var_entries_some_iff(kvs.drop_first(), s1);
            }
            None => {}
        }
    }
}

/// A present optional value serializes exactly as its payload does: the
/// option adds no path segment and plans the same records.
pub proof fn lemma_present_transparent(v: Value, s: SerializerModel)
    ensures
        ser_val(Value::Present(Box::new(v)), s) == ser_val(v, s),
{
}

/// Unfolds one step of [`ser_items`] at position `i`.
pub proof fn lemma_ser_items_unfold(es: Seq<Value>, i: int, s: SerializerModel)
    requires
        0 <= i < es.len(),
    ensures
        ser_items(es.skip(i), s) == (match ser_val(es[i], s) {
            Some(s1) => ser_items(es.skip(i + 1), s1),
            None => None,
        }),
{
    assert(es.skip(i).first() == es[i]);
    assert(es.skip(i).drop_first() =~= es.skip(i + 1));
}

/// Unfolds one step of [`ser_entries`] at position `i`.
pub proof fn lemma_ser_entries_unfold(kvs: Seq<(Value, Value)>, i: int, s: SerializerModel)
    requires
        0 <= i < kvs.len(),
    ensures
        ser_entries(kvs.skip(i), s) == (match ser_entry(kvs[i], s) {
            Some(s1) => ser_entries(kvs.skip(i + 1), s1),
            None => None,
        }),
{
    assert(kvs.skip(i).first() == kvs[i]);
    assert(kvs.skip(i).drop_first() =~= kvs.skip(i + 1));
}

/// Unfolds one step of [`ser_fields`] at position `i`.
pub proof fn lemma_ser_fields_unfold(fs: Seq<(String, Value)>, i: int, s: SerializerModel)
    requires
        0 <= i < fs.len(),
    ensures
        ser_fields(fs.skip(i), s) == (match ser_field(fs[i].0@, fs[i].1, s) {
            Some(s1) => ser_fields(fs.skip(i + 1), s1),
            None => None,
        }),
{
    assert(fs.skip(i).first() == fs[i]);
    assert(fs.skip(i).drop_first() =~= fs.skip(i + 1));
}

/// Unfolds one step of [`ser_var_items`] at position `i`.
pub proof fn lemma_ser_var_items_unfold(es: Seq<Value>, i: int, s: SerializerModel)
    requires
        0 <= i < es.len(),
    ensures
        ser_var_items(es.skip(i), s) == (match ser_var_item(es[i], s) {
            Some(s1) => ser_var_items(es.skip(i + 1), s1),
            None => None,
        }),
{
    assert(es.skip(i).first() == es[i]);
    assert(es.skip(i).drop_first() =~= es.skip(i + 1));
}

/// Unfolds one step of [`ser_var_fields`] at position `i`.
pub proof fn lemma_ser_var_fields_unfold(fs: Seq<(String, Value)>, i: int, s: SerializerModel)
    requires
        0 <= i < fs.len(),
    ensures
        ser_var_fields(fs.skip(i), s) == (match ser_var_field(fs[i].0@, fs[i].1, s) {
            Some(s1) => ser_var_fields(fs.skip(i + 1), s1),
            None => None,
        }),
{
    assert(fs.skip(i).first() == fs[i]);
    assert(fs.skip(i).drop_first() =~= fs.skip(i + 1));
}

/// Unfolds one step of [`ser_var_entries`] at position `i`.
pub proof fn lemma_ser_var_entries_unfold(kvs: Seq<(Value, Value)>, i: int, s: SerializerModel)
    requires
        0 <= i < kvs.len(),
    ensures
        ser_var_entries(kvs.skip(i), s) == (match ser_var_entry(kvs[i], s) {
            Some(s1) => ser_var_entries(kvs.skip(i + 1), s1),
            None => None,
        }),
{
    assert(kvs.skip(i).first() == kvs[i]);
    assert(kvs.skip(i).drop_first() =~= kvs.skip(i + 1));
}

/// One successful struct-field step extends the fold.
pub proof fn lemma_fields_step_ok(
    fs: Seq<(String, Value)>,
    i: int,
    pre: SerializerModel,
    post: SerializerModel,
    base: SerializerModel,
)
    requires
        0 <= i < fs.len(),
        ser_fields(fs.skip(i), pre) == ser_fields(fs, base),
        ser_field(fs[i].0@, fs[i].1, pre) == Some(post),
    ensures
        ser_fields(fs.skip(i + 1), post) == ser_fields(fs, base),
{
    lemma_ser_fields_unfold(fs, i, pre);
}

/// One failing struct-field step fails the fold.
pub proof fn lemma_fields_step_err(
    fs: Seq<(String, Value)>,
    i: int,
    pre: SerializerModel,
    base: SerializerModel,
)
    requires
        0 <= i < fs.len(),
        ser_fields(fs.skip(i), pre) == ser_fields(fs, base),
        ser_field(fs[i].0@, fs[i].1, pre) is None,
    ensures
        ser_fields(fs, base) is None,
{
    lemma_ser_fields_unfold(fs, i, pre);
}

/// Composes a rendered key and a serialized value into one map entry.
pub proof fn lemma_entry_compose(
    kv: (Value, Value),
    pre: SerializerModel,
    skey: SerializerModel,
    post: Option<SerializerModel>,
)
    requires
        key_ok(kv.0),
        ser_val(kv.0, (SerializerModel { is_key: true, ..pre })) == Some(skey),
        ser_map_value(kv.1, skey) == post,
    ensures
        ser_entry(kv, pre) == post,
{
}

/// An invalid or unserializable key fails the whole map entry.
pub proof fn lemma_entry_key_fails(kv: (Value, Value), pre: SerializerModel)
    requires
        !key_ok(kv.0) || ser_val(kv.0, (SerializerModel { is_key: true, ..pre })) is None,
    ensures
        ser_entry(kv, pre) is None,
{
}

/// Composes a rendered key and a serialized value into one payload entry.
pub proof fn lemma_var_entry_compose(
    kv: (Value, Value),
    pre: SerializerModel,
    skey: SerializerModel,
    post: Option<SerializerModel>,
)
    requires
        key_ok(kv.0),
        ser_val(kv.0, (SerializerModel { is_key: true, ..pre })) == Some(skey),
        ser_var_value(kv.1, skey) == post,
    ensures
        ser_var_entry(kv, pre) == post,
{
}

/// An invalid or unserializable key fails the whole payload entry.
pub proof fn lemma_var_entry_key_fails(kv: (Value, Value), pre: SerializerModel)
    requires
        !key_ok(kv.0) || ser_val(kv.0, (SerializerModel { is_key: true, ..pre })) is None,
    ensures
        ser_var_entry(kv, pre) is None,
{
}

/// One successful map-entry step extends the fold.
pub proof fn lemma_entries_step_ok(
    kvs: Seq<(Value, Value)>,
    i: int,
    pre: SerializerModel,
    post: SerializerModel,
    base: SerializerModel,
)
    requires
        0 <= i < kvs.len(),
        ser_entries(kvs.skip(i), pre) == ser_entries(kvs, base),
        ser_entry(kvs[i], pre) == Some(post),
    ensures
        ser_entries(kvs.skip(i + 1), post) == ser_entries(kvs, base),
{
    lemma_ser_entries_unfold(kvs, i, pre);
}

/// One failing map-entry step fails the fold.
pub proof fn lemma_entries_step_err(
    kvs: Seq<(Value, Value)>,
    i: int,
    pre: SerializerModel,
    base: SerializerModel,
)
    requires
        0 <= i < kvs.len(),
        ser_entries(kvs.skip(i), pre) == ser_entries(kvs, base),
        ser_entry(kvs[i], pre) is None,
    ensures
        ser_entries(kvs, base) is None,
{
    lemma_ser_entries_unfold(kvs, i, pre);
}

/// One successful payload-field step extends the fold.
pub proof fn lemma_var_fields_step_ok(
    fs: Seq<(String, Value)>,
    i: int,
    pre: SerializerModel,
    post: SerializerModel,
    base: SerializerModel,
)
    requires
        0 <= i < fs.len(),
        ser_var_fields(fs.skip(i), pre) == ser_var_fields(fs, base),
        ser_var_field(fs[i].0@, fs[i].1, pre) == Some(post),
    ensures
        ser_var_fields(fs.skip(i + 1), post) == ser_var_fields(fs, base),
{
    lemma_ser_var_fields_unfold(fs, i, pre);
}

/// One failing payload-field step fails the fold.
pub proof fn lemma_var_fields_step_err(
    fs: Seq<(String, Value)>,
    i: int,
    pre: SerializerModel,
    base: SerializerModel,
)
    requires
        0 <= i < fs.len(),
        ser_var_fields(fs.skip(i), pre) == ser_var_fields(fs, base),
        ser_var_field(fs[i].0@, fs[i].1, pre) is None,
    ensures
        ser_var_fields(fs, base) is None,
{
    lemma_ser_var_fields_unfold(fs, i, pre);
}

/// One successful payload-entry step extends the fold.
pub proof fn lemma_var_entries_step_ok(
    kvs: Seq<(Value, Value)>,
    i: int,
    pre: SerializerModel,
    post: SerializerModel,
    base: SerializerModel,
)
    requires
        0 <= i < kvs.len(),
        ser_var_entries(kvs.skip(i), pre) == ser_var_entries(kvs, base),
        ser_var_entry(kvs[i], pre) == Some(post),
    ensures
        ser_var_entries(kvs.skip(i + 1), post) == ser_var_entries(kvs, base),
{
    lemma_ser_var_entries_unfold(kvs, i, pre);
}

/// One failing payload-entry step fails the fold.
pub proof fn lemma_var_entries_step_err(
    kvs: Seq<(Value, Value)>,
    i: int,
    pre: SerializerModel,
    base: SerializerModel,
)
    requires
        0 <= i < kvs.len(),
        ser_var_entries(kvs.skip(i), pre) == ser_var_entries(kvs, base),
        ser_var_entry(kvs[i], pre) is None,
    ensures
        ser_var_entries(kvs, base) is None,
{
    lemma_ser_var_entries_unfold(kvs, i, pre);
}

/// One successful payload-element step extends the fold.
pub proof fn lemma_var_items_step_ok(
    es: Seq<Value>,
    i: int,
    pre: SerializerModel,
    post: SerializerModel,
    base: SerializerModel,
)
    requires
        0 <= i < es.len(),
        ser_var_items(es.skip(i), pre) == ser_var_items(es, base),
        ser_var_item(es[i], pre) == Some(post),
    ensures
        ser_var_items(es.skip(i + 1), post) == ser_var_items(es, base),
{
    lemma_ser_var_items_unfold(es, i, pre);
}

/// One failing payload-element step fails the fold.
pub proof fn lemma_var_items_step_err(
    es: Seq<Value>,
    i: int,
    pre: SerializerModel,
    base: SerializerModel,
)
    requires
        0 <= i < es.len(),
        ser_var_items(es.skip(i), pre) == ser_var_items(es, base),
        ser_var_item(es[i], pre) is None,
    ensures
        ser_var_items(es, base) is None,
{
    lemma_ser_var_items_unfold(es, i, pre);
}

/// Clones an optional string.
fn clone_opt(o: &Option<String>) -> (r: Option<String>)
    ensures
        r == *o,
{
    match o {
        Some(s) => Some(s.clone()),
        None => None,
    }
}

/// Copies a byte vector.
fn copy_bytes(b: &Vec<u8>) -> (r: Vec<u8>)
    ensures
        r@ == b@,
{
    let mut r: Vec<u8> = Vec::new();
    let mut i: usize = 0;
    while i < b.len()
        invariant
            0 <= i <= b@.len(),
            r@ == b@.take(i as int),
        decreases b@.len() - i,
    {
        r.push(b[i]);
        proof {
            assert(r@ =~= b@.take(i + 1 as int));
        }
        i = i + 1;
    }
    proof {
        assert(b@.take(b@.len() as int) =~= b@);
    }
    r
}

impl FileSerializer {
    /// Plans the canonical record for a boolean: the text `true` or `false`.
    pub fn serialize_bool(&mut self, v: bool)
        requires
            !old(self)@.is_key ==> ser_wf(old(self)@),
        ensures
            Some(final(self)@) == ser_val(Value::Bool(v), old(self)@),
            !old(self)@.is_key ==> ser_wf(final(self)@),
    {
        broadcast use vstd::utf8::encode_utf8_valid_utf8;

        self.advance();
        proof {
            reveal_strlit("true");
            reveal_strlit("false");
            assert("true"@ =~= true_chars());
            assert("false"@ =~= false_chars());
        }
        if v {
            self.write("true".as_bytes_vec());
        } else {
            self.write("false".as_bytes_vec());
        }
    }

    /// Plans the canonical record for a signed integer: decimal text.
    pub fn serialize_i64(&mut self, v: i64)
        requires
            !old(self)@.is_key ==> ser_wf(old(self)@),
        ensures
            Some(final(self)@) == ser_val(Value::Int(v), old(self)@),
            !old(self)@.is_key ==> ser_wf(final(self)@),
    {
        broadcast use vstd::utf8::encode_utf8_valid_utf8;

        self.advance();
        let t = i64_to_string(v);
        self.write(t.as_str().as_bytes_vec());
    }

    /// Plans the canonical record for an unsigned integer: decimal text.
    pub fn serialize_u64(&mut self, v: u64)
        requires
            !old(self)@.is_key ==> ser_wf(old(self)@),
        ensures
            Some(final(self)@) == ser_val(Value::Uint(v), old(self)@),
            !old(self)@.is_key ==> ser_wf(final(self)@),
    {
        broadcast use vstd::utf8::encode_utf8_valid_utf8;

        self.advance();
        let t = u64_to_string(v);
        self.write(t.as_str().as_bytes_vec());
    }

    /// Plans the canonical record for a character: its UTF-8 bytes.
    pub fn serialize_char(&mut self, v: char)
        requires
            !old(self)@.is_key ==> ser_wf(old(self)@),
        ensures
            Some(final(self)@) == ser_val(Value::Chr(v), old(self)@),
            !old(self)@.is_key ==> ser_wf(final(self)@),
    {
        broadcast use vstd::utf8::encode_utf8_valid_utf8;

        self.advance();
        let t = char_to_string(v);
        self.write(t.as_str().as_bytes_vec());
    }

    /// Plans the canonical record for borrowed text: its UTF-8 bytes.
    pub fn serialize_str(&mut self, v: &str)
        requires
            !old(self)@.is_key ==> ser_wf(old(self)@),
        ensures
            final(self)@ == write_s(advance_s(old(self)@), encode_utf8(v@)),
            !old(self)@.is_key ==> ser_wf(final(self)@),
    {
        broadcast use vstd::utf8::encode_utf8_valid_utf8;

        self.advance();
        self.write(v.as_bytes_vec());
    }

    /// Plans the record for a byte sequence, written verbatim; byte
    /// sequences are rejected as map keys.
    pub fn serialize_bytes(&mut self, v: &Vec<u8>) -> (r: Result<(), SerializerError>)
        requires
            !old(self)@.is_key ==> ser_wf(old(self)@),
        ensures
            match ser_val(Value::Bytes(*v), old(self)@) {
                Some(s1) => r.is_ok() && final(self)@ == s1,
                None => r.is_err() && final(self)@ == old(self)@,
            },
            !old(self)@.is_key ==> ser_wf(final(self)@),
    {
        if self.is_key {
            return Err(
                SerializerError::custom(String::from_str("a byte sequence cannot name a map key")),
            );
        }
        self.advance();
        self.write(copy_bytes(v));
        Ok(())
    }

    /// Plans the record for an absent optional value: a deletion intent. As
    /// a map key, an absent value is rendered as the name `__NONE__`.
    pub fn serialize_none(&mut self)
        requires
            !old(self)@.is_key ==> ser_wf(old(self)@),
        ensures
            Some(final(self)@) == ser_val(Value::Absent, old(self)@),
            !old(self)@.is_key ==> ser_wf(final(self)@),
    {
        broadcast use vstd::utf8::encode_utf8_valid_utf8;

        self.advance();
        if self.is_key {
            proof {
                reveal_strlit("__NONE__");
                assert("__NONE__"@ =~= none_name_chars());
            }
            self.write("__NONE__".as_bytes_vec());
        } else {
            self.write(Vec::new());
            let p = self.prev();
            p.hint = FileOperationHint::Delete;
            proof {
                assert(final(self)@ =~~= set_last_hint(
                    write_s(advance_s(old(self)@), Seq::<u8>::empty()),
                    FileOperationHint::Delete,
                ));
            }
        }
    }

    /// Plans the record for the unit value: an empty file. As a map key,
    /// the unit value is rendered as the name `__UNIT__`.
    pub fn serialize_unit(&mut self)
        requires
            !old(self)@.is_key ==> ser_wf(old(self)@),
        ensures
            Some(final(self)@) == ser_val(Value::Unit, old(self)@),
            !old(self)@.is_key ==> ser_wf(final(self)@),
    {
        broadcast use vstd::utf8::encode_utf8_valid_utf8;

        self.advance();
        if self.is_key {
            proof {
                reveal_strlit("__UNIT__");
                assert("__UNIT__"@ =~= unit_name_chars());
            }
            self.write("__UNIT__".as_bytes_vec());
        } else {
            self.write(Vec::new());
        }
    }

    /// Plans the record for an enum variant without a payload: the tag file
    /// holding the variant name, with the stale-payload deletion hint.
    pub fn serialize_unit_variant(&mut self, variant: &str)
        requires
            ser_wf(old(self)@),
            !old(self)@.is_key,
        ensures
            final(self)@ == (set_last_hint(
                write_s(advance_s(old(self)@), encode_utf8(variant@)),
                FileOperationHint::DeleteValue,
            )),
            ser_wf(final(self)@),
    {
        self.advance();
        self.write(variant.as_bytes_vec());
        let p = self.prev();
        p.hint = FileOperationHint::DeleteValue;
        proof {
            assert(final(self)@ =~~= set_last_hint(
                write_s(advance_s(old(self)@), encode_utf8(variant@)),
                FileOperationHint::DeleteValue,
            ));
        }
    }

    /// Opens a sequence scope: plans the directory marker and pushes one
    /// nesting level.
    pub fn serialize_seq(&mut self)
        requires
            ser_wf(old(self)@),
            !old(self)@.is_key,
        ensures
            final(self)@ == ser_seq_open(old(self)@),
            ser_wf(final(self)@),
    {
        self.serialize_map();
        self.construct_seq();
    }

    /// Opens a map or struct scope: plans the directory marker.
    pub fn serialize_map(&mut self)
        requires
            ser_wf(old(self)@),
            !old(self)@.is_key,
        ensures
            final(self)@ == ser_map_open(old(self)@),
            ser_wf(final(self)@),
            final(self)@.seq_level == final(self)@.seq.len(),
            final(self)@.output.len() > final(self)@.seq.len(),
    {
        self.advance();
        self.write(Vec::new());
        let p = self.prev();
        p.is_path = true;
        proof {
            assert(final(self)@ =~~= ser_map_open(old(self)@));
        }
    }

    /// Opens an enum variant with a payload: plans the `.value`-suffixed
    /// payload marker carrying the stale-payload deletion hint, then the
    /// tag file at the bare path.
    pub fn serialize_struct_variant(&mut self, variant: &str)
        requires
            ser_wf(old(self)@),
            !old(self)@.is_key,
        ensures
            final(self)@ == ser_variant_open(variant@, old(self)@),
            ser_wf(final(self)@),
            final(self)@.seq_level == final(self)@.seq.len(),
            final(self)@.output.len() > final(self)@.seq.len(),
    {
        self.variant = Some(String::from_str("value"));
        proof {
            reveal_strlit("value");
            assert("value"@ =~= value_suffix_chars());
        }
        self.advance();
        self.write(Vec::new());
        let p = self.prev();
        p.hint = FileOperationHint::DeleteValue;
        p.is_path = true;
        self.variant = None;
        self.name = None;
        let i = self.output.len() - 1;
        let tag_path = self.output[i].path.clone();
        let tag_name = clone_opt(&self.output[i].name);
        let tag_folder = clone_opt(&self.folder_variant);
        let tag = File {
            path: tag_path,
            name: tag_name,
            variant: None,
            output: variant.as_bytes_vec(),
            is_path: false,
            hint: FileOperationHint::Normal,
            folder_variant: tag_folder,
        };
        self.output.push(tag);
        proof {
            assert(final(self)@.output =~~= ser_variant_open(variant@, old(self)@).output);
            assert(final(self)@ =~~= ser_variant_open(variant@, old(self)@));
        }
    }

    /// Opens an enum variant with a sequence-shaped payload: the variant
    /// marker and tag, then one nesting level for the elements.
    pub fn serialize_tuple_variant(&mut self, variant: &str)
        requires
            ser_wf(old(self)@),
            !old(self)@.is_key,
        ensures
            final(self)@ == ser_var_seq_open(variant@, old(self)@),
            ser_wf(final(self)@),
    {
        self.serialize_struct_variant(variant);
        self.construct_seq();
    }

    /// Validates and renders a map key; its text becomes the pending name
    /// for the entry's value. An invalid key kind is reported before
    /// anything is planned.
    #[verifier::rlimit(100)]
    #[verifier::spinoff_prover]
    pub fn serialize_key(&mut self, key: &Value) -> (r: Result<(), SerializerError>)
        requires
            ser_wf(old(self)@),
            !old(self)@.is_key,
        ensures
            ser_wf(final(self)@),
            !key_ok(*key) ==> r.is_err() && final(self)@ == old(self)@,
            key_ok(*key) ==> match ser_val(
                *key,
                (SerializerModel { is_key: true, ..old(self)@ }),
            ) {
                Some(s1) => r.is_ok() && final(self)@ == s1,
                None => r.is_err(),
            },
        decreases *key, 2int,
    {
        if !is_valid_key(key) {
            return Err(
                SerializerError::custom(
                    String::from_str("a map key must be a scalar or an option of a scalar"),
                ),
            );
        }
        self.is_key = true;
        proof {
            assert(self@ =~~= (SerializerModel { is_key: true, ..old(self)@ }));
        }
        self.serialize(key)
    }

    /// Serializes a map entry's value under the path named by the pending
    /// key, restoring the enclosing path afterwards.
    #[verifier::rlimit(100)]
    #[verifier::spinoff_prover]
    pub fn serialize_value(&mut self, v: &Value) -> (r: Result<(), SerializerError>)
        requires
            ser_wf(old(self)@),
        ensures
            ser_wf(final(self)@),
            match ser_map_value(*v, old(self)@) {
                Some(s1) => r.is_ok() && final(self)@ == s1,
                None => r.is_err(),
            },
        decreases *v, 2int,
    {
        self.is_key = false;
        let saved = self.root.clone();
        let ghost s2 = SerializerModel { is_key: false, ..old(self)@ };
        let ghost s3 = (match s2.future_name {
            Some(f) => SerializerModel { root: s2.root + seq!['/'] + f, ..s2 },
            None => s2,
        });
        match clone_opt(&self.future_name) {
            Some(f) => {
                self.root.append("/");
                self.root.append(f.as_str());
            }
            None => {}
        }
        proof {
            reveal_strlit("/");
            assert(self@ =~~= s3);
        }
        let r = self.serialize(v);
        match r {
            Err(e) => Err(e),
            Ok(_) => {
                self.root = saved;
                proof {
                    match ser_val(*v, s3) {
                        Some(s4) => {
                            assert(final(self)@ =~~= (SerializerModel { root: s2.root, ..s4 }));
                        }
                        None => {}
                    }
                }
                Ok(())
            }
        }
    }

    /// Serializes one struct field: the field name becomes the pending
    /// name, then the value is serialized under it.
    #[verifier::rlimit(100)]
    #[verifier::spinoff_prover]
    pub fn serialize_field(&mut self, key: &str, v: &Value) -> (r: Result<(), SerializerError>)
        requires
            ser_wf(old(self)@),
            !old(self)@.is_key,
        ensures
            ser_wf(final(self)@),
            match ser_field(key@, *v, old(self)@) {
                Some(s1) => r.is_ok() && final(self)@ == s1,
                None => r.is_err(),
            },
        decreases *v, 3int,
    {
        broadcast use vstd::utf8::encode_utf8_valid_utf8;

        self.is_key = true;
        self.advance();
        self.write(key.as_bytes_vec());
        self.serialize_value(v)
    }

    /// Serializes a variant payload value: like a map value, but records
    /// target the `.value`-suffixed payload directory.
    #[verifier::rlimit(100)]
    #[verifier::spinoff_prover]
    fn serialize_variant_value(&mut self, v: &Value) -> (r: Result<(), SerializerError>)
        requires
            ser_wf(old(self)@),
        ensures
            ser_wf(final(self)@),
            match ser_var_value(*v, old(self)@) {
                Some(s1) => r.is_ok() && final(self)@ == s1,
                None => r.is_err(),
            },
        decreases *v, 2int,
    {
        self.is_key = false;
        let saved = self.root.clone();
        let ghost s2 = SerializerModel { is_key: false, ..old(self)@ };
        let ghost s3 = (match s2.future_name {
            Some(f) => SerializerModel { root: s2.root + seq!['/'] + f, ..s2 },
            None => s2,
        });
        let ghost s4 = SerializerModel { folder_variant: Some(value_suffix_chars()), ..s3 };
        match clone_opt(&self.future_name) {
            Some(f) => {
                self.root.append("/");
                self.root.append(f.as_str());
            }
            None => {}
        }
        self.folder_variant = Some(String::from_str("value"));
        proof {
            reveal_strlit("/");
            reveal_strlit("value");
            assert("value"@ =~= value_suffix_chars());
            assert(self@ =~~= s4);
        }
        let r = self.serialize(v);
        match r {
            Err(e) => Err(e),
            Ok(_) => {
                self.root = saved;
                self.folder_variant = None;
                proof {
                    match ser_val(*v, s4) {
                        Some(s5) => {
                            assert(final(self)@ =~~= (SerializerModel {
                                root: s2.root,
                                folder_variant: None,
                                ..s5
                            }));
                        }
                        None => {}
                    }
                }
                Ok(())
            }
        }
    }

    /// Serializes one field of a record-shaped variant payload.
    #[verifier::rlimit(100)]
    #[verifier::spinoff_prover]
    fn serialize_variant_field(&mut self, key: &str, v: &Value) -> (r: Result<
        (),
        SerializerError,
    >)
        requires
            ser_wf(old(self)@),
            !old(self)@.is_key,
        ensures
            ser_wf(final(self)@),
            match ser_var_field(key@, *v, old(self)@) {
                Some(s1) => r.is_ok() && final(self)@ == s1,
                None => r.is_err(),
            },
        decreases *v, 3int,
    {
        broadcast use vstd::utf8::encode_utf8_valid_utf8;

        self.is_key = true;
        self.advance();
        self.write(key.as_bytes_vec());
        self.serialize_variant_value(v)
    }

    /// Walks one value and appends its planned file operations, exactly as
    /// [`ser_val`] describes. Fails, before planning anything for the
    /// offending subtree, on a map key of an invalid kind; in key mode the
    /// value must itself be a valid key.
    #[verifier::rlimit(100)]
    #[verifier::spinoff_prover]
    pub fn serialize(&mut self, v: &Value) -> (r: Result<(), SerializerError>)
        requires
            ser_wf(old(self)@),
            old(self)@.is_key ==> key_ok(*v),
        ensures
            ser_wf(final(self)@),
            match ser_val(*v, old(self)@) {
                Some(s1) => r.is_ok() && final(self)@ == s1,
                None => r.is_err(),
            },
        decreases *v, 1int,
    {
        match v {
            Value::Bool(b) => {
                self.serialize_bool(*b);
                Ok(())
            }
            Value::Int(n) => {
                self.serialize_i64(*n);
                Ok(())
            }
            Value::Uint(n) => {
                self.serialize_u64(*n);
                Ok(())
            }
            Value::Float(t) => {
                self.serialize_str(t.as_str());
                Ok(())
            }
            Value::Chr(c) => {
                self.serialize_char(*c);
                Ok(())
            }
            Value::Text(t) => {
                self.serialize_str(t.as_str());
                Ok(())
            }
            Value::Bytes(b) => self.serialize_bytes(b),
            Value::Unit => {
                self.serialize_unit();
                Ok(())
            }
            Value::Absent => {
                self.serialize_none();
                Ok(())
            }
            Value::Present(p) => {
                proof {
                    assert(decreases_to!(*v => **p));
                }
                self.serialize(&**p)
            }
            Value::List(es) => {
                proof {
                    assert(decreases_to!(*v => *es));
                }
                self.serialize_elements(es)
            }
            Value::Tuple(es) => {
                proof {
                    assert(decreases_to!(*v => *es));
                }
                self.serialize_elements(es)
            }
            Value::Dict(kvs) => {
                proof {
                    assert(decreases_to!(*v => *kvs));
                }
                self.serialize_entries(kvs)
            }
            Value::Record(fs) => {
                proof {
                    assert(decreases_to!(*v => *fs));
                }
                self.serialize_fields(fs)
            }
            Value::UnitVariant(n) => {
                self.serialize_unit_variant(n.as_str());
                Ok(())
            }
            Value::NewtypeVariant(n, p) => {
                match &**p {
                    Value::List(es) => {
                        proof {
                            assert(decreases_to!(*v => **p));
                            assert(decreases_to!(**p => *es));
                        }
                        self.serialize_variant_elements(n.as_str(), es)
                    }
                    Value::Tuple(es) => {
                        proof {
                            assert(decreases_to!(*v => **p));
                            assert(decreases_to!(**p => *es));
                        }
                        self.serialize_variant_elements(n.as_str(), es)
                    }
                    Value::Record(fs) => {
                        proof {
                            assert(decreases_to!(*v => **p));
                            assert(decreases_to!(**p => *fs));
                        }
                        self.serialize_variant_fields(n.as_str(), fs)
                    }
                    Value::Dict(kvs) => {
                        proof {
                            assert(decreases_to!(*v => **p));
                            assert(decreases_to!(**p => *kvs));
                        }
                        self.serialize_variant_entries(n.as_str(), kvs)
                    }
                    _ => {
                        self.variant = Some(String::from_str("value"));
                        proof {
                            reveal_strlit("value");
                            assert("value"@ =~= value_suffix_chars());
                            assert(decreases_to!(*v => **p));
                        }
                        let r = self.serialize(&**p);
                        match r {
                            Err(e) => Err(e),
                            Ok(_) => {
                                proof {
                                    lemma_ser_effects(
                                        **p,
                                        (SerializerModel {
                                            variant: Some(value_suffix_chars()),
                                            ..old(self)@
                                        }),
                                    );
                                }
                                let q = self.prev();
                                q.hint = FileOperationHint::DeleteValue;
                                self.variant = None;
                                self.name = None;
                                let i = self.output.len() - 1;
                                let tag_path = self.output[i].path.clone();
                                let tag_name = clone_opt(&self.output[i].name);
                                let tag_folder = clone_opt(&self.folder_variant);
                                let tag = File {
                                    path: tag_path,
                                    name: tag_name,
                                    variant: None,
                                    output: n.as_bytes_vec(),
                                    is_path: false,
                                    hint: FileOperationHint::Normal,
                                    folder_variant: tag_folder,
                                };
                                self.output.push(tag);
                                proof {
                                    let sv = ser_val(
                                        **p,
                                        (SerializerModel {
                                            variant: Some(value_suffix_chars()),
                                            ..old(self)@
                                        }),
                                    );
                                    match sv {
                                        Some(s1) => {
                                            let s3 = SerializerModel {
                                                variant: None,
                                                name: None,
                                                ..set_last_hint(
                                                    s1,
                                                    FileOperationHint::DeleteValue,
                                                )
                                            };
                                            assert(final(self)@.output =~~= push_tag(
                                                s3,
                                                n@,
                                            ).output);
                                            assert(final(self)@ =~~= push_tag(s3, n@));
                                        }
                                        None => {}
                                    }
                                }
                                Ok(())
                            }
                        }
                    }
                }
            }
            Value::TupleVariant(n, es) => {
                proof {
                    assert(decreases_to!(*v => *es));
                }
                self.serialize_variant_elements(n.as_str(), es)
            }
            Value::RecordVariant(n, fs) => {
                proof {
                    assert(decreases_to!(*v => *fs));
                }
                self.serialize_variant_fields(n.as_str(), fs)
            }
        }
    }

    /// Serializes a sequence or tuple body: the scope marker, then one
    /// record per element named by its index, then closes the scope.
    #[verifier::rlimit(100)]
    #[verifier::spinoff_prover]
    fn serialize_elements(&mut self, es: &Vec<Value>) -> (r: Result<(), SerializerError>)
        requires
            ser_wf(old(self)@),
            !old(self)@.is_key,
        ensures
            ser_wf(final(self)@),
            match ser_items(es@, ser_seq_open(old(self)@)) {
                Some(s1) => r.is_ok() && final(self)@ == destruct_s(s1),
                None => r.is_err(),
            },
        decreases *es, 0int,
    {
        self.serialize_seq();
        let ghost so = self@;
        proof {
            assert(es@.skip(0int) =~= es@);
        }
        let n = es.len();
        let mut i: usize = 0;
        while i < n
            invariant
                ser_wf(self@),
                self@.is_key == false,
                self@.seq_level == so.seq_level,
                0 <= i <= n,
                n == es@.len(),
                so == ser_seq_open(old(self)@),
                ser_items(es@.skip(i as int), self@) == ser_items(es@, so),
            decreases n - i,
        {
            let ghost pre = self@;
            proof {
                lemma_ser_items_unfold(es@, i as int, pre);
                assert(decreases_to!(*es => es@));
                assert(decreases_to!(es@ => es@[i as int]));
            }
            let r = self.serialize(&es[i]);
            proof {
                lemma_ser_effects(es@[i as int], pre);
            }
            match r {
                Err(e) => {
                    proof {
                        assert(ser_items(es@, so) is None);
                    }
                    return Err(e);
                }
                Ok(_) => {}
            }
            i = i + 1;
        }
        proof {
            assert(es@.skip(n as int) =~= Seq::<Value>::empty());
        }
        self.destruct_seq();
        Ok(())
    }

    /// Serializes one map entry: the key names the value's path.
    #[verifier::rlimit(100)]
    #[verifier::spinoff_prover]
    fn serialize_entry(&mut self, kv: &(Value, Value)) -> (r: Result<(), SerializerError>)
        requires
            ser_wf(old(self)@),
            !old(self)@.is_key,
        ensures
            ser_wf(final(self)@),
            match ser_entry(*kv, old(self)@) {
                Some(s1) => r.is_ok() && final(self)@ == s1,
                None => r.is_err(),
            },
        decreases *kv, 3int,
    {
        proof {
            assert(decreases_to!(*kv => kv.0));
            assert(decreases_to!(*kv => kv.1));
        }
        let r1 = self.serialize_key(&kv.0);
        match r1 {
            Err(e) => {
                proof {
                    lemma_entry_key_fails(*kv, old(self)@);
                }
                return Err(e);
            }
            Ok(_) => {}
        }
        let ghost skey = self@;
        let r2 = self.serialize_value(&kv.1);
        proof {
            lemma_entry_compose(*kv, old(self)@, skey, ser_map_value(kv.1, skey));
        }
        r2
    }

    /// Serializes one entry of a map-shaped variant payload.
    #[verifier::rlimit(100)]
    #[verifier::spinoff_prover]
    fn serialize_variant_entry(&mut self, kv: &(Value, Value)) -> (r: Result<
        (),
        SerializerError,
    >)
        requires
            ser_wf(old(self)@),
            !old(self)@.is_key,
        ensures
            ser_wf(final(self)@),
            match ser_var_entry(*kv, old(self)@) {
                Some(s1) => r.is_ok() && final(self)@ == s1,
                None => r.is_err(),
            },
        decreases *kv, 3int,
    {
        proof {
            assert(decreases_to!(*kv => kv.0));
            assert(decreases_to!(*kv => kv.1));
        }
        let r1 = self.serialize_key(&kv.0);
        match r1 {
            Err(e) => {
                proof {
                    lemma_var_entry_key_fails(*kv, old(self)@);
                }
                return Err(e);
            }
            Ok(_) => {}
        }
        let ghost skey = self@;
        let r2 = self.serialize_variant_value(&kv.1);
        proof {
            lemma_var_entry_compose(*kv, old(self)@, skey, ser_var_value(kv.1, skey));
        }
        r2
    }

    /// Serializes a map body: the scope marker, then each key and value in
    /// order.
    #[verifier::rlimit(100)]
    #[verifier::spinoff_prover]
    fn serialize_entries(&mut self, kvs: &Vec<(Value, Value)>) -> (r: Result<
        (),
        SerializerError,
    >)
        requires
            ser_wf(old(self)@),
            !old(self)@.is_key,
        ensures
            ser_wf(final(self)@),
            match ser_entries(kvs@, ser_map_open(old(self)@)) {
                Some(s1) => r.is_ok() && final(self)@ == s1,
                None => r.is_err(),
            },
        decreases *kvs, 0int,
    {
        self.serialize_map();
        let ghost so = self@;
        proof {
            assert(kvs@.skip(0int) =~= kvs@);
        }
        let n = kvs.len();
        let mut i: usize = 0;
        while i < n
            invariant
                ser_wf(self@),
                self@.is_key == false,
                0 <= i <= n,
                n == kvs@.len(),
                so == ser_map_open(old(self)@),
                ser_entries(kvs@.skip(i as int), self@) == ser_entries(kvs@, so),
            decreases n - i,
        {
            let ghost pre = self@;
            proof {
                assert(decreases_to!(*kvs => kvs@));
                assert(decreases_to!(kvs@ => kvs@[i as int]));
            }
            let r = self.serialize_entry(&kvs[i]);
            proof {
                lemma_ser_entry_effects(kvs@[i as int], pre);
            }
            match r {
                Err(e) => {
                    proof {
                        lemma_entries_step_err(kvs@, i as int, pre, so);
                    }
                    return Err(e);
                }
                Ok(_) => {}
            }
            proof {
                lemma_entries_step_ok(kvs@, i as int, pre, self@, so);
            }
            i = i + 1;
        }
        proof {
            assert(kvs@.skip(n as int) =~= Seq::<(Value, Value)>::empty());
        }
        Ok(())
    }

    /// Serializes a struct body: the scope marker, then each named field in
    /// order.
    #[verifier::rlimit(100)]
    #[verifier::spinoff_prover]
    #[verifier::loop_isolation(false)]
    fn serialize_fields(&mut self, fs: &Vec<(String, Value)>) -> (r: Result<
        (),
        SerializerError,
    >)
        requires
            ser_wf(old(self)@),
            !old(self)@.is_key,
        ensures
            ser_wf(final(self)@),
            match ser_fields(fs@, ser_map_open(old(self)@)) {
                Some(s1) => r.is_ok() && final(self)@ == s1,
                None => r.is_err(),
            },
        decreases *fs, 0int,
    {
        self.serialize_map();
        let ghost so = self@;
        proof {
            assert(fs@.skip(0int) =~= fs@);
        }
        let n = fs.len();
        let mut i: usize = 0;
        while i < n
            invariant
                ser_wf(self@),
                self@.is_key == false,
                0 <= i <= n,
                n == fs@.len(),
                ser_fields(fs@.skip(i as int), self@) == ser_fields(fs@, so),
            decreases n - i,
        {
            let ghost pre = self@;
            proof {
                assert(decreases_to!(*fs => fs@));
                assert(decreases_to!(fs@ => fs@[i as int]));
                assert(decreases_to!(fs@[i as int] => fs@[i as int].1));
            }
            let r = self.serialize_field(fs[i].0.as_str(), &fs[i].1);
            proof {
                lemma_ser_field_effects(fs@[i as int].0@, fs@[i as int].1, pre);
            }
            match r {
                Err(e) => {
                    proof {
                        lemma_fields_step_err(fs@, i as int, pre, so);
                    }
                    return Err(e);
                }
                Ok(_) => {}
            }
            proof {
                lemma_fields_step_ok(fs@, i as int, pre, self@, so);
            }
            i = i + 1;
        }
        proof {
            assert(fs@.skip(n as int) =~= Seq::<(String, Value)>::empty());
        }
        Ok(())
    }

    /// Serializes a sequence-shaped variant payload: the variant marker and
    /// tag, then each element into the `.value` sibling.
    #[verifier::rlimit(100)]
    #[verifier::spinoff_prover]
    #[verifier::loop_isolation(false)]
    fn serialize_variant_elements(&mut self, variant: &str, es: &Vec<Value>) -> (r: Result<
        (),
        SerializerError,
    >)
        requires
            ser_wf(old(self)@),
            !old(self)@.is_key,
        ensures
            ser_wf(final(self)@),
            match ser_var_items(es@, ser_var_seq_open(variant@, old(self)@)) {
                Some(s1) => r.is_ok() && final(self)@ == destruct_s(s1),
                None => r.is_err(),
            },
        decreases *es, 0int,
    {
        self.serialize_tuple_variant(variant);
        let ghost so = self@;
        proof {
            assert(es@.skip(0int) =~= es@);
        }
        let n = es.len();
        let mut i: usize = 0;
        while i < n
            invariant
                ser_wf(self@),
                self@.is_key == false,
                self@.seq_level == so.seq_level,
                0 <= i <= n,
                n == es@.len(),
                ser_var_items(es@.skip(i as int), self@) == ser_var_items(es@, so),
            decreases n - i,
        {
            let ghost pre = self@;
            self.folder_variant = Some(String::from_str("value"));
            proof {
                reveal_strlit("value");
                assert("value"@ =~= value_suffix_chars());
                assert(self@ =~~= (SerializerModel {
                    folder_variant: Some(value_suffix_chars()),
                    ..pre
                }));
                assert(decreases_to!(*es => es@));
                assert(decreases_to!(es@ => es@[i as int]));
            }
            let ghost mid = self@;
            let r = self.serialize(&es[i]);
            proof {
                lemma_ser_effects(es@[i as int], mid);
            }
            match r {
                Err(e) => {
                    proof {
                        assert(ser_var_item(es@[i as int], pre) is None);
                        lemma_var_items_step_err(es@, i as int, pre, so);
                    }
                    return Err(e);
                }
                Ok(_) => {}
            }
            self.folder_variant = None;
            proof {
                match ser_var_item(es@[i as int], pre) {
                    Some(s1) => {
                        assert(self@ =~~= s1);
                        lemma_var_items_step_ok(es@, i as int, pre, self@, so);
                    }
                    None => {}
                }
            }
            i = i + 1;
        }
        proof {
            assert(es@.skip(n as int) =~= Seq::<Value>::empty());
        }
        self.destruct_seq();
        Ok(())
    }

    /// Serializes a record-shaped variant payload: the variant marker and
    /// tag, then each field into the `.value` sibling.
    #[verifier::rlimit(100)]
    #[verifier::spinoff_prover]
    #[verifier::loop_isolation(false)]
    fn serialize_variant_fields(&mut self, variant: &str, fs: &Vec<(String, Value)>) -> (r:
        Result<(), SerializerError>)
        requires
            ser_wf(old(self)@),
            !old(self)@.is_key,
        ensures
            ser_wf(final(self)@),
            match ser_var_fields(fs@, ser_variant_open(variant@, old(self)@)) {
                Some(s1) => r.is_ok() && final(self)@ == s1,
                None => r.is_err(),
            },
        decreases *fs, 0int,
    {
        self.serialize_struct_variant(variant);
        let ghost so = self@;
        proof {
            assert(fs@.skip(0int) =~= fs@);
        }
        let n = fs.len();
        let mut i: usize = 0;
        while i < n
            invariant
                ser_wf(self@),
                self@.is_key == false,
                0 <= i <= n,
                n == fs@.len(),
                ser_var_fields(fs@.skip(i as int), self@) == ser_var_fields(fs@, so),
            decreases n - i,
        {
            let ghost pre = self@;
            proof {
                assert(decreases_to!(*fs => fs@));
                assert(decreases_to!(fs@ => fs@[i as int]));
                assert(decreases_to!(fs@[i as int] => fs@[i as int].1));
            }
            let r = self.serialize_variant_field(fs[i].0.as_str(), &fs[i].1);
            proof {
                lemma_ser_var_field_effects(fs@[i as int].0@, fs@[i as int].1, pre);
            }
            match r {
                Err(e) => {
                    proof {
                        lemma_var_fields_step_err(fs@, i as int, pre, so);
                    }
                    return Err(e);
                }
                Ok(_) => {}
            }
            proof {
                lemma_var_fields_step_ok(fs@, i as int, pre, self@, so);
            }
            i = i + 1;
        }
        proof {
            assert(fs@.skip(n as int) =~= Seq::<(String, Value)>::empty());
        }
        Ok(())
    }

    /// Serializes a map-shaped variant payload: the variant marker and tag,
    /// then each entry into the `.value` sibling.
    #[verifier::rlimit(100)]
    #[verifier::spinoff_prover]
    fn serialize_variant_entries(&mut self, variant: &str, kvs: &Vec<(Value, Value)>) -> (r:
        Result<(), SerializerError>)
        requires
            ser_wf(old(self)@),
            !old(self)@.is_key,
        ensures
            ser_wf(final(self)@),
            match ser_var_entries(kvs@, ser_variant_open(variant@, old(self)@)) {
                Some(s1) => r.is_ok() && final(self)@ == s1,
                None => r.is_err(),
            },
        decreases *kvs, 0int,
    {
        self.serialize_struct_variant(variant);
        let ghost so = self@;
        proof {
            assert(kvs@.skip(0int) =~= kvs@);
        }
        let n = kvs.len();
        let mut i: usize = 0;
        while i < n
            invariant
                ser_wf(self@),
                self@.is_key == false,
                0 <= i <= n,
                n == kvs@.len(),
                so == ser_variant_open(variant@, old(self)@),
                ser_var_entries(kvs@.skip(i as int), self@) == ser_var_entries(kvs@, so),
            decreases n - i,
        {
            let ghost pre = self@;
            proof {
                assert(decreases_to!(*kvs => kvs@));
                assert(decreases_to!(kvs@ => kvs@[i as int]));
            }
            let r = self.serialize_variant_entry(&kvs[i]);
            proof {
                lemma_ser_var_entry_effects(kvs@[i as int], pre);
            }
            match r {
                Err(e) => {
                    proof {
                        lemma_var_entries_step_err(kvs@, i as int, pre, so);
                    }
                    return Err(e);
                }
                Ok(_) => {}
            }
            proof {
                lemma_var_entries_step_ok(kvs@, i as int, pre, self@, so);
            }
            i = i + 1;
        }
        proof {
            assert(kvs@.skip(n as int) =~= Seq::<(Value, Value)>::empty());
        }
        Ok(())
    }
}

} // verus!
