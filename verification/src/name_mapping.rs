//! Name mappings: field ids for the columns of files that carry none.

use vstd::prelude::*;

verus! {

/// The names under which one field may appear in a file.
#[derive(Debug)]
pub struct MappedField {
    pub field_id: Option<i32>,
    pub names: Vec<String>,
    pub fields: Vec<MappedField>,
}

/// The mapping of a table, top-level fields first.
#[derive(Debug)]
pub struct NameMapping {
    pub fields: Vec<MappedField>,
}

/// Whether `field` lists `name`.
pub open spec fn lists_name(field: MappedField, name: Seq<char>) -> bool {
    exists|k: int| 0 <= k < field.names@.len() && (#[trigger] field.names@[k])@ == name
}

/// The id of the first of `fields` that lists `name`. There is none where no field lists the
/// name, and none where the first one that does has no id.
pub open spec fn mapped_id(fields: Seq<MappedField>, name: Seq<char>) -> Option<i32>
    decreases fields.len(),
{
    if fields.len() == 0 {
        None
    } else if lists_name(fields[0], name) {
        fields[0].field_id
    } else {
        mapped_id(fields.skip(1), name)
    }
}

impl MappedField {
    pub fn new(field_id: Option<i32>, names: Vec<String>, fields: Vec<MappedField>) -> (field:
        MappedField)
        ensures
            field.field_id == field_id,
            field.names == names,
            field.fields == fields,
    {
        MappedField { field_id, names, fields }
    }

    fn lists(&self, name: &String) -> (found: bool)
        ensures
            found == lists_name(*self, name@),
    {
        let mut k: usize = 0;
        while k < self.names.len()
            invariant
                k <= self.names.len(),
                forall|j: int| 0 <= j < k ==> (#[trigger] self.names@[j])@ != name@,
            decreases self.names.len() - k,
        {
            if self.names[k] == *name {
                return true;
            }
            k = k + 1;
        }
        false
    }
}

impl NameMapping {
    pub fn new(fields: Vec<MappedField>) -> (mapping: NameMapping)
        ensures
            mapping.fields == fields,
    {
        NameMapping { fields }
    }

    /// The field id that this mapping gives to a top-level column of the name `name`.
    pub fn field_id_of(&self, name: &String) -> (id: Option<i32>)
        ensures
            id == mapped_id(self.fields@, name@),
    {
        let mut k: usize = 0;
        assert(self.fields@.skip(0) =~= self.fields@);
        while k < self.fields.len()
            invariant
                k <= self.fields.len(),
                mapped_id(self.fields@, name@) == mapped_id(self.fields@.skip(k as int), name@),
            decreases self.fields.len() - k,
        {
            if self.fields[k].lists(name) {
                return self.fields[k].field_id;
            }
            assert(self.fields@.skip(k as int).skip(1) =~= self.fields@.skip(k + 1));
            k = k + 1;
        }
        None
    }
}

} // verus!
