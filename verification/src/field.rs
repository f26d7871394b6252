//! A single named field that can be saved under its own name.

use vstd::prelude::*;
use vstd::string::StringExecFns;

use crate::fileserializer::FileSerializer;
use crate::fileserializer::SerializerModel;
use crate::fileserializer::initial_model;
use crate::fileserializer::lemma_ser_some_iff;
use crate::fileserializer::ser_val;
use crate::memfs::MemFs;
use crate::save::SaveError;
use crate::save::apply_plan;
use crate::save::save_root;
use crate::value::Value;

verus! {

/// One named field of a larger structure, saved under `<root>/<name>`.
pub struct BinrootsField {
    /// The field's name, used as its path segment under the save root.
    pub name: String,
    /// The field's value.
    pub value: Value,
}

/// The serializer state a field save starts from: a fresh serializer whose
/// open path is already `/<name>`.
pub open spec fn field_start(name: Seq<char>) -> SerializerModel {
    SerializerModel { root: seq!['/'] + name, ..initial_model() }
}

impl BinrootsField {
    /// Wraps a value as a named field.
    pub fn new(name: String, value: Value) -> (f: Self)
        ensures
            f.name == name,
            f.value == value,
    {
        BinrootsField { name, value }
    }

    /// The field's name.
    pub fn name(&self) -> (n: &String)
        ensures
            n == &self.name,
    {
        &self.name
    }

    /// Serializes the field's value with the open path pre-set to
    /// `/<name>`, so every planned artifact lands under `<root>/<name>`,
    /// and applies the plan to the given file tree. Fails, leaving the tree
    /// untouched, exactly when the value holds a map key of an invalid
    /// kind; on success the resulting tree is the plan's materialization.
    pub fn save(&self, root: &str, fs: &mut MemFs) -> (r: Result<(), SaveError>)
        requires
            crate::memfs::fs_wf(*old(fs)),
        ensures
            crate::memfs::fs_wf(*final(fs)),
            r.is_ok() == crate::value::keys_ok(self.value),
            match r {
                Err(e) => (e is SerializeError),
                Ok(_) => true,
            },
            match ser_val(self.value, field_start(self.name@)) {
                Some(s) => final(fs)@ == apply_plan(s.output, root@, old(fs)@),
                None => *final(fs) == *old(fs),
            },
    {
        proof {
            lemma_ser_some_iff(self.value, field_start(self.name@));
        }
        let mut serializer = FileSerializer::new();
        let mut prefix = String::from_str("/");
        prefix.append(self.name.as_str());
        serializer.root = prefix;
        proof {
            reveal_strlit("/");
            assert(serializer@ =~~= field_start(self.name@));
        }
        match serializer.serialize(&self.value) {
            Err(e) => Err(SaveError::SerializeError(e)),
            Ok(_) => save_root(serializer, root, fs),
        }
    }
}

} // verus!
