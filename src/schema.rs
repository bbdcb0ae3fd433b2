//! The schema of a record type and the shapes generated from it: the field
//! enumeration, its name lookup, and the names of the generated types.
use vstd::prelude::*;

use crate::names::{pascal_of, to_pascal_case};

verus! {

/// One field of a record: its name and the name of its type, which is carried
/// along and never interpreted.
#[derive(Clone, Debug)]
pub struct FieldSchema {
    pub name: String,
    pub type_ref: String,
}

/// An ordered list of uniquely named fields, with the name of the record type
/// that they describe. The order fixes the order of the field enumeration and
/// of every report.
#[derive(Clone, Debug)]
pub struct RecordSchema {
    pub name: String,
    pub fields: Vec<FieldSchema>,
}

/// Why a list of fields cannot form a schema.
#[derive(Clone, Copy, Debug, PartialEq, Eq)]
pub enum SchemaError {
    /// The field at `index` has an empty name.
    EmptyFieldName { index: usize },
    /// The field at `second` repeats the name of the field at `first`.
    DuplicateFieldName { first: usize, second: usize },
}

/// A variant of the field enumeration: the field at position `index` of the
/// schema. Fields are ordered as the schema lists them.
#[derive(Clone, Copy, Debug, PartialEq, Eq, Structural, PartialOrd, Ord, Hash)]
pub struct Field {
    pub index: usize,
}

/// A name that matches no field of the schema.
#[derive(Clone, Debug, PartialEq, Eq)]
pub struct UnknownFieldError {
    pub given: String,
}

/// The names that generation gives to the artifacts of one schema.
#[derive(Clone, Debug, PartialEq, Eq)]
pub struct Artifacts {
    pub partial_type_name: String,
    pub field_enum_name: String,
    pub missing_error_name: String,
    /// One variant name per field, in schema order.
    pub variant_names: Vec<String>,
    /// The fields' own names, in schema order; `to_name` of each variant.
    pub field_names: Vec<String>,
}

/// The field names of a list of fields, in order.
pub open spec fn names_of(fields: Seq<FieldSchema>) -> Seq<Seq<char>> {
    fields.map_values(|f: FieldSchema| f.name@)
}

/// The field at `k` is the first that keeps the list from being a schema: its
/// name is empty or repeats an earlier one.
pub open spec fn is_bad_at(names: Seq<Seq<char>>, k: int) -> bool {
    names[k].len() == 0 || exists|j: int| 0 <= j < k && names[j] == names[k]
}

/// Every name is non-empty, and no two are equal.
pub open spec fn valid_names(names: Seq<Seq<char>>) -> bool {
    &&& forall|k: int| 0 <= k < names.len() ==> names[k].len() > 0
    &&& forall|j: int, k: int| 0 <= j < k < names.len() ==> names[j] != names[k]
}

impl RecordSchema {
    /// The field names, in schema order.
    pub open spec fn names(&self) -> Seq<Seq<char>> {
        names_of(self.fields@)
    }

    /// Number of fields.
    pub open spec fn len(&self) -> nat {
        self.fields@.len()
    }

    /// Field names are non-empty and unique.
    pub open spec fn wf(&self) -> bool {
        valid_names(self.names())
    }

    /// Whether `f` is a variant of this schema's field enumeration.
    pub open spec fn has_field(&self, f: Field) -> bool {
        f.index < self.len()
    }

    /// Builds the schema of the record type `name` with the given fields.
    /// The first field (in order) whose name is empty, or repeats an earlier
    /// name, is reported.
    pub fn new(name: String, fields: Vec<FieldSchema>) -> (r: Result<RecordSchema, SchemaError>)
        ensures
            r is Ok <==> valid_names(names_of(fields@)),
            r matches Ok(s) ==> s.name == name && s.fields@ == fields@ && s.wf(),
            r matches Err(SchemaError::EmptyFieldName { index }) ==> {
                &&& index < fields@.len()
                &&& names_of(fields@)[index as int].len() == 0
                &&& valid_names(names_of(fields@).take(index as int))
            },
            r matches Err(SchemaError::DuplicateFieldName { first, second }) ==> {
                &&& first < second < fields@.len()
                &&& names_of(fields@)[second as int].len() > 0
                &&& names_of(fields@)[first as int] == names_of(fields@)[second as int]
                &&& valid_names(names_of(fields@).take(second as int))
            },
    {
        let ghost names = names_of(fields@);
        let mut k: usize = 0;
        while k < fields.len()
            invariant
                k <= fields@.len(),
                names == names_of(fields@),
                valid_names(names.take(k as int)),
            decreases fields@.len() - k,
        {
            assert(names[k as int] == fields@[k as int].name@);
            if fields[k].name.unicode_len() == 0 {
                assert(!valid_names(names));
                return Err(SchemaError::EmptyFieldName { index: k });
            }
            let mut j: usize = 0;
            while j < k
                invariant
                    j <= k < fields@.len(),
                    names == names_of(fields@),
                    forall|m: int| 0 <= m < j ==> names[m] != names[k as int],
                    names[k as int] == fields@[k as int].name@,
                    names[k as int].len() > 0,
                    valid_names(names.take(k as int)),
                decreases k - j,
            {
                assert(names[j as int] == fields@[j as int].name@);
                if fields[j].name == fields[k].name {
                    assert(names[j as int] == names[k as int]);
                    assert(!valid_names(names));
                    return Err(SchemaError::DuplicateFieldName { first: j, second: k });
                }
                j = j + 1;
            }
            let ghost nk = names.take(k + 1);
            let ghost nj = names.take(k as int);
            assert forall|a: int, b: int| 0 <= a < b < k + 1 implies #[trigger] nk[a] != #[trigger] nk[b] by {
                if b < k {
                    assert(nj[a] != nj[b]);
                }
            }
            assert forall|a: int| 0 <= a < k + 1 implies #[trigger] nk[a].len() > 0 by {
                if a < k {
                    assert(nj[a].len() > 0);
                }
            }
            k = k + 1;
        }
        assert(names.take(fields@.len() as int) =~= names);
        Ok(RecordSchema { name, fields })
    }

    /// Name of the generated partial record type: `Partial` and the record's
    /// name.
    pub fn partial_type_name(&self) -> (r: String)
        ensures
            r@ == "Partial"@ + self.name@,
    {
        let mut r = String::from_str("Partial");
        r.append(self.name.as_str());
        r
    }

    /// Name of the generated field enumeration: the record's name and `Field`.
    pub fn field_enum_name(&self) -> (r: String)
        ensures
            r@ == self.name@ + "Field"@,
    {
        let mut r = self.name.clone();
        r.append("Field");
        r
    }

    /// Name of the generated missing-fields error: `Missing`, the record's
    /// name and `FieldsErr`.
    pub fn missing_error_name(&self) -> (r: String)
        ensures
            r@ == "Missing"@ + self.name@ + "FieldsErr"@,
    {
        let mut r = String::from_str("Missing");
        r.append(self.name.as_str());
        r.append("FieldsErr");
        r
    }

    /// The variants of the field enumeration, in schema order.
    pub fn fields_in_order(&self) -> (r: Vec<Field>)
        ensures
            r@.len() == self.len(),
            forall|i: int| 0 <= i < r@.len() ==> r@[i].index == i,
    {
        let mut r: Vec<Field> = Vec::new();
        let mut i: usize = 0;
        while i < self.fields.len()
            invariant
                i <= self.fields@.len(),
                r@.len() == i,
                forall|k: int| 0 <= k < i ==> r@[k].index == k,
            decreases self.fields@.len() - i,
        {
            r.push(Field { index: i });
            i = i + 1;
        }
        r
    }

    /// The variant names of the field enumeration, in schema order: each
    /// field's name under the name transform.
    pub fn variant_names(&self) -> (r: Vec<String>)
        ensures
            r@.len() == self.len(),
            forall|i: int| 0 <= i < r@.len() ==> r@[i]@ == pascal_of(self.names()[i]),
    {
        let mut r: Vec<String> = Vec::new();
        let mut i: usize = 0;
        while i < self.fields.len()
            invariant
                i <= self.fields@.len(),
                r@.len() == i,
                forall|k: int| 0 <= k < i ==> r@[k]@ == pascal_of(self.names()[k]),
            decreases self.fields@.len() - i,
        {
            r.push(to_pascal_case(self.fields[i].name.as_str()));
            i = i + 1;
        }
        r
    }
}

impl RecordSchema {
    /// The fields' own names, in schema order.
    pub fn field_names(&self) -> (r: Vec<String>)
        ensures
            r@.len() == self.len(),
            forall|i: int| 0 <= i < r@.len() ==> r@[i]@ == self.names()[i],
    {
        let mut r: Vec<String> = Vec::new();
        let mut i: usize = 0;
        while i < self.fields.len()
            invariant
                i <= self.fields@.len(),
                r@.len() == i,
                forall|k: int| 0 <= k < i ==> r@[k]@ == self.names()[k],
            decreases self.fields@.len() - i,
        {
            r.push(self.fields[i].name.clone());
            i = i + 1;
        }
        r
    }

    /// Generates the names of every artifact of this schema: the three
    /// generated types, and the field enumeration's variants with the field
    /// names they stand for.
    pub fn generate(&self) -> (r: Artifacts)
        ensures
            r.partial_type_name@ == "Partial"@ + self.name@,
            r.field_enum_name@ == self.name@ + "Field"@,
            r.missing_error_name@ == "Missing"@ + self.name@ + "FieldsErr"@,
            r.variant_names@.len() == self.len(),
            forall|i: int| 0 <= i < self.len() ==> r.variant_names@[i]@ == pascal_of(self.names()[i]),
            r.field_names@.len() == self.len(),
            forall|i: int| 0 <= i < self.len() ==> r.field_names@[i]@ == self.names()[i],
    {
        Artifacts {
            partial_type_name: self.partial_type_name(),
            field_enum_name: self.field_enum_name(),
            missing_error_name: self.missing_error_name(),
            variant_names: self.variant_names(),
            field_names: self.field_names(),
        }
    }
}

impl Field {
    /// The field's own name (not its variant name).
    pub fn to_name(self, schema: &RecordSchema) -> (r: String)
        requires
            schema.has_field(self),
        ensures
            r@ == schema.names()[self.index as int],
    {
        schema.fields[self.index].name.clone()
    }

    /// The name of this field's variant: its name under the name transform.
    pub fn variant_name(self, schema: &RecordSchema) -> (r: String)
        requires
            schema.has_field(self),
        ensures
            r@ == pascal_of(schema.names()[self.index as int]),
    {
        to_pascal_case(schema.fields[self.index].name.as_str())
    }

    /// The field whose own name is `s`, or `UnknownFieldError` holding
    /// `s` where no field has that name.
    pub fn from_name(schema: &RecordSchema, s: &str) -> (r: Result<Field, UnknownFieldError>)
        ensures
            r matches Ok(f) ==> schema.has_field(f) && schema.names()[f.index as int] == s@,
            r matches Err(e) ==> e.given@ == s@ && !schema.names().contains(s@),
            r is Ok <==> schema.names().contains(s@),
    {
        let given = String::from_str(s);
        let mut i: usize = 0;
        while i < schema.fields.len()
            invariant
                i <= schema.fields@.len(),
                given@ == s@,
                forall|k: int| 0 <= k < i ==> schema.names()[k] != s@,
            decreases schema.fields@.len() - i,
        {
            if schema.fields[i].name == given {
                assert(schema.names()[i as int] == s@);
                return Ok(Field { index: i });
            }
            i = i + 1;
        }
        Err(UnknownFieldError { given })
    }

    /// Looking a field up by its own name finds that field: in a schema, no
    /// other field carries the name of `f`, and the name is among the
    /// schema's names.
    pub proof fn lemma_name_inverse(schema: &RecordSchema, f: Field, g: Field)
        requires
            schema.wf(),
            schema.has_field(f),
            schema.has_field(g),
            schema.names()[g.index as int] == schema.names()[f.index as int],
        ensures
            g == f,
            schema.names().contains(schema.names()[f.index as int]),
    {
        if g.index < f.index {
            assert(schema.names()[g.index as int] != schema.names()[f.index as int]);
        } else if f.index < g.index {
            assert(schema.names()[f.index as int] != schema.names()[g.index as int]);
        }
        assert(schema.names()[f.index as int] == schema.names()[f.index as int]);
    }
}

impl UnknownFieldError {
    /// Human-readable rendering: `Unknown field: ` and the given name.
    pub fn message(&self) -> (r: String)
        ensures
            r@ == "Unknown field: "@ + self.given@,
    {
        let mut r = String::from_str("Unknown field: ");
        r.append(self.given.as_str());
        r
    }
}

} // verus!
