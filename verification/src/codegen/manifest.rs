//! The manifest value types produced by extraction, with their mathematical
//! views. All are immutable value objects owning their nested structures
//! outright.

use vstd::prelude::*;

use crate::order::{lex_le, seq_view, str_le, Named};

verus! {

broadcast use vstd::std_specs::vec::axiom_vec_index_decreases, vstd::seq::axiom_seq_index_decreases, vstd::std_specs::vec::axiom_vec_decreases_to_view;

/// The closed set of field-type variants a schema fragment can resolve to.
#[derive(Debug, PartialEq)]
pub enum FieldType {
    String,
    Integer,
    Number,
    Boolean,
    /// Ordered homogeneous collection.
    Array { items: Box<FieldType> },
    /// Named reference to another schema definition, by name only.
    Object { schema: String },
    /// Anonymous composite declared through `properties`.
    InlineObject { fields: Vec<FieldDef> },
    /// Free-form key-value container: an `object` with no `properties`.
    FreeMap { value: Box<FieldType> },
}

/// One field of a composite type. `enum_values`, `nullable` and `format` are
/// reserved forward-compatibility slots; extraction never fills them.
#[derive(Debug, PartialEq)]
pub struct FieldDef {
    pub name: String,
    pub field_type: FieldType,
    pub required: bool,
    pub description: Option<String>,
    pub enum_values: Option<Vec<String>>,
    pub nullable: bool,
    pub format: Option<String>,
}

/// One named schema: its fields stand sorted by name.
#[derive(Debug, PartialEq)]
pub struct SchemaDef {
    pub name: String,
    pub description: Option<String>,
    pub fields: Vec<FieldDef>,
}

/// One tool parameter: its type is a flat primitive type-name string.
#[derive(Debug, PartialEq)]
pub struct McpParamDef {
    pub name: String,
    pub luau_type: String,
    pub required: bool,
    pub description: Option<String>,
}

/// Mathematical model of a `FieldType`.
#[verifier::ext_equal]
pub enum FieldTypeV {
    String,
    Integer,
    Number,
    Boolean,
    Array { items: Seq<FieldTypeV> },
    Object { schema: Seq<char> },
    InlineObject { fields: Seq<FieldDefV> },
    FreeMap { value: Seq<FieldTypeV> },
}

/// Mathematical model of a `FieldDef`.
#[verifier::ext_equal]
pub struct FieldDefV {
    pub name: Seq<char>,
    pub field_type: FieldTypeV,
    pub required: bool,
    pub description: Option<Seq<char>>,
    pub enum_values: Option<Seq<Seq<char>>>,
    pub nullable: bool,
    pub format: Option<Seq<char>>,
}

/// Mathematical model of a `SchemaDef`.
#[verifier::ext_equal]
pub struct SchemaDefV {
    pub name: Seq<char>,
    pub description: Option<Seq<char>>,
    pub fields: Seq<FieldDefV>,
}

/// Mathematical model of an `McpParamDef`.
#[verifier::ext_equal]
pub struct McpParamDefV {
    pub name: Seq<char>,
    pub luau_type: Seq<char>,
    pub required: bool,
    pub description: Option<Seq<char>>,
}

pub open spec fn opt_str_view(s: Option<String>) -> Option<Seq<char>> {
    match s {
        Some(s) => Some(s@),
        None => None,
    }
}

pub open spec fn opt_strs_view(s: Option<Vec<String>>) -> Option<Seq<Seq<char>>> {
    match s {
        Some(v) => Some(Seq::new(v@.len(), |i: int| v@[i]@)),
        None => None,
    }
}

/// Mathematical view of a field type.
pub open spec fn field_type_view(t: FieldType) -> FieldTypeV
    decreases t, 1int,
        via field_type_view_dec
{
    match t {
        FieldType::String => FieldTypeV::String,
        FieldType::Integer => FieldTypeV::Integer,
        FieldType::Number => FieldTypeV::Number,
        FieldType::Boolean => FieldTypeV::Boolean,
        FieldType::Array { items } => FieldTypeV::Array { items: seq![field_type_view(*items)] },
        FieldType::Object { schema } => FieldTypeV::Object { schema: schema@ },
        FieldType::InlineObject { fields } => FieldTypeV::InlineObject {
            fields: fields_view(fields@),
        },
        FieldType::FreeMap { value } => FieldTypeV::FreeMap {
            value: seq![field_type_view(*value)],
        },
    }
}

/// Mathematical view of a field definition.
pub open spec fn field_def_view(d: FieldDef) -> FieldDefV
    decreases d, 2int,
{
    FieldDefV {
        name: d.name@,
        field_type: field_type_view(d.field_type),
        required: d.required,
        description: opt_str_view(d.description),
        enum_values: opt_strs_view(d.enum_values),
        nullable: d.nullable,
        format: opt_str_view(d.format),
    }
}

/// Element-wise view of a field list.
pub open spec fn fields_view(s: Seq<FieldDef>) -> Seq<FieldDefV>
    decreases s, 0int,
{
    if s.len() == 0 {
        Seq::empty()
    } else {
        fields_view(s.drop_last()).push(field_def_view(s.last()))
    }
}

#[via_fn]
proof fn field_type_view_dec(t: FieldType) {
    match t {
        FieldType::InlineObject { fields } => {
            assert(decreases_to!(t => fields));
            assert(decreases_to!(fields => fields@));
        },
        _ => {},
    }
}

pub proof fn lemma_fields_view_index(s: Seq<FieldDef>)
    ensures
        fields_view(s).len() == s.len(),
        forall|i: int| 0 <= i < s.len() ==> #[trigger] fields_view(s)[i] == field_def_view(s[i]),
    decreases s.len(),
{
    if s.len() > 0 {
        lemma_fields_view_index(s.drop_last());
    }
}

impl View for FieldType {
    type V = FieldTypeV;

    open spec fn view(&self) -> FieldTypeV {
        field_type_view(*self)
    }
}

impl View for FieldDef {
    type V = FieldDefV;

    open spec fn view(&self) -> FieldDefV {
        field_def_view(*self)
    }
}

impl View for SchemaDef {
    type V = SchemaDefV;

    open spec fn view(&self) -> SchemaDefV {
        SchemaDefV {
            name: self.name@,
            description: opt_str_view(self.description),
            fields: fields_view(self.fields@),
        }
    }
}

impl View for McpParamDef {
    type V = McpParamDefV;

    open spec fn view(&self) -> McpParamDefV {
        McpParamDefV {
            name: self.name@,
            luau_type: self.luau_type@,
            required: self.required,
            description: opt_str_view(self.description),
        }
    }
}

/// The recursive field-list view and the element-wise one agree.
pub proof fn lemma_fields_view_is_seq_view(s: Seq<FieldDef>)
    ensures
        fields_view(s) == seq_view(s),
{
    lemma_fields_view_index(s);
    assert(fields_view(s) =~= seq_view(s));
}

impl Named for FieldDef {
    open spec fn vkey(v: FieldDefV) -> Seq<char> {
        v.name
    }

    fn le_by_name(&self, other: &Self) -> (r: bool) {
        str_le(self.name.as_str(), other.name.as_str())
    }
}

impl Named for SchemaDef {
    open spec fn vkey(v: SchemaDefV) -> Seq<char> {
        v.name
    }

    fn le_by_name(&self, other: &Self) -> (r: bool) {
        str_le(self.name.as_str(), other.name.as_str())
    }
}

impl Named for McpParamDef {
    open spec fn vkey(v: McpParamDefV) -> Seq<char> {
        v.name
    }

    fn le_by_name(&self, other: &Self) -> (r: bool) {
        str_le(self.name.as_str(), other.name.as_str())
    }
}

} // verus!
