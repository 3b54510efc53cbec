//! Shared JSON-Schema to Luau type conversion: the type mapper, the
//! field-type resolver, the schema-definition extractor and the parameter
//! extractor, each proved equal to its spec-level model. Every function is
//! total: malformed fragments fall back to the documented defaults instead
//! of failing.

use vstd::prelude::*;
use vstd::string::StringExecFns;

use crate::fragment::{frag_get, frag_get_str, lemma_frag_get_decreases, str_eq, Fragment};
use crate::order::{last_segment, last_segment_of, map_seq, seq_view, sort_by_key, sort_by_name, Named};

verus! {

broadcast use vstd::std_specs::vec::axiom_vec_index_decreases, vstd::seq::axiom_seq_index_decreases, vstd::std_specs::vec::axiom_vec_decreases_to_view, vstd::seq::axiom_seq_subrange_decreases;

use crate::codegen::manifest::{field_type_view, fields_view, lemma_fields_view_is_seq_view,
    FieldDef, FieldDefV, FieldType, FieldTypeV, McpParamDef, McpParamDefV, SchemaDef, SchemaDefV};

/// One when an item fragment is present; orders the mapper's recursion.
pub open spec fn items_rank(items: Option<Fragment>) -> int {
    match items {
        Some(_) => 1,
        None => 0,
    }
}

/// The fragment behind an optional borrow, as the mapper's model sees it.
pub open spec fn opt_frag(items: Option<&Fragment>) -> Option<Fragment> {
    match items {
        Some(f) => Some(*f),
        None => None,
    }
}

/// Model of the type mapper: primitive tags map to Luau type names, both
/// numeric tags collapse to `number`, and any other tag is `any`. An `array`
/// tag with an item fragment wraps the one-level mapping of the item's own
/// `type` tag; with no item information at all it is `any` too.
pub open spec fn spec_luau_type(t: Seq<char>, items: Option<Fragment>) -> Seq<char>
    decreases items_rank(items),
{
    if t == "string"@ {
        "string"@
    } else if t == "integer"@ || t == "number"@ {
        "number"@
    } else if t == "boolean"@ {
        "boolean"@
    } else if t == "array"@ {
        match items {
            Some(f) => {
                let inner = match frag_get_str(f, "type"@) {
                    Some(it) => spec_luau_type(it, None),
                    None => "any"@,
                };
                "{"@ + inner + "}"@
            },
            None => "any"@,
        }
    } else {
        "any"@
    }
}

/// The names listed under a `required` array; entries that are not text are
/// passed over.
pub open spec fn text_items(s: Seq<Fragment>) -> Seq<Seq<char>>
    decreases s.len(),
{
    if s.len() == 0 {
        Seq::empty()
    } else {
        text_items(s.drop_last()) + match s.last() {
            Fragment::Text(t) => seq![t@],
            _ => Seq::empty(),
        }
    }
}

/// The required-name set of a fragment, read from its own `required` array.
/// Absence of the array means nothing is required.
pub open spec fn spec_required(f: Fragment) -> Seq<Seq<char>> {
    match frag_get(f, "required"@) {
        Some(Fragment::List(xs)) => text_items(xs@),
        _ => Seq::empty(),
    }
}

/// Model of the field-type resolver: total over every fragment shape. A
/// `$ref` string wins over any `type` tag; an absent or unrecognized tag
/// falls back to `String`; an array without `items` holds `String` elements.
pub open spec fn spec_resolve(f: Fragment) -> FieldTypeV
    decreases f, 2int,
        via spec_resolve_dec
{
    if frag_get_str(f, "$ref"@) is Some {
        FieldTypeV::Object { schema: last_segment(frag_get_str(f, "$ref"@)->Some_0) }
    } else {
        match frag_get_str(f, "type"@) {
            Some(t) => if t == "integer"@ {
                FieldTypeV::Integer
            } else if t == "number"@ {
                FieldTypeV::Number
            } else if t == "boolean"@ {
                FieldTypeV::Boolean
            } else if t == "array"@ {
                match frag_get(f, "items"@) {
                    Some(child) => FieldTypeV::Array { items: seq![spec_resolve(child)] },
                    None => FieldTypeV::Array { items: seq![FieldTypeV::String] },
                }
            } else if t == "object"@ {
                spec_object_type(f)
            } else {
                FieldTypeV::String
            },
            None => FieldTypeV::String,
        }
    }
}

/// Model of the composite-object rule: `properties` makes an inline object
/// with name-sorted fields; a bare object is a free-form map of strings.
pub open spec fn spec_object_type(f: Fragment) -> FieldTypeV
    decreases f, 1int,
        via spec_object_type_dec
{
    match frag_get(f, "properties"@) {
        Some(Fragment::Object(props)) => FieldTypeV::InlineObject {
            fields: sort_by_key(spec_fields_of(props@, spec_required(f)), (|fd: FieldDefV| fd.name)),
        },
        _ => FieldTypeV::FreeMap { value: seq![FieldTypeV::String] },
    }
}

/// One field definition built from a property entry, under the enclosing
/// fragment's required-name set. The reserved slots stay unset.
pub open spec fn spec_field_def(name: Seq<char>, prop: Fragment, req: Seq<Seq<char>>) -> FieldDefV
    decreases prop, 3int,
{
    FieldDefV {
        name: name,
        field_type: spec_resolve(prop),
        required: req.contains(name),
        description: frag_get_str(prop, "description"@),
        enum_values: None,
        nullable: false,
        format: None,
    }
}

/// The field definitions of a property list, in entry order, before sorting.
pub open spec fn spec_fields_of(es: Seq<(String, Fragment)>, req: Seq<Seq<char>>) -> Seq<FieldDefV>
    decreases es, 0int,
{
    if es.len() == 0 {
        Seq::empty()
    } else {
        spec_fields_of(es.drop_last(), req).push(spec_field_def(es.last().0@, es.last().1, req))
    }
}

#[via_fn]
proof fn spec_resolve_dec(f: Fragment) {
    if frag_get_str(f, "$ref"@) is None {
        if frag_get(f, "items"@) is Some {
            lemma_frag_get_decreases(f, "items"@);
        }
    }
}

#[via_fn]
proof fn spec_object_type_dec(f: Fragment) {
    if frag_get(f, "properties"@) is Some {
        lemma_frag_get_decreases(f, "properties"@);
        let child = frag_get(f, "properties"@)->Some_0;
        if child is Object {
            let props = child->Object_0;
            assert(decreases_to!(child => props));
            assert(decreases_to!(props => props@));
        }
    }
}

/// One tool-parameter descriptor built from a property entry. Parameters use
/// the flat type mapper, never the structured resolver.
pub open spec fn spec_param_def(name: Seq<char>, prop: Fragment, req: Seq<Seq<char>>)
    -> McpParamDefV {
    McpParamDefV {
        name: name,
        luau_type: spec_luau_type(
            match frag_get_str(prop, "type"@) {
                Some(t) => t,
                None => "any"@,
            },
            frag_get(prop, "items"@),
        ),
        required: req.contains(name),
        description: frag_get_str(prop, "description"@),
    }
}

/// The parameter descriptors of a property list, in entry order.
pub open spec fn spec_params_of(es: Seq<(String, Fragment)>, req: Seq<Seq<char>>)
    -> Seq<McpParamDefV> {
    map_seq(es, (|e: (String, Fragment)| spec_param_def(e.0@, e.1, req)))
}

/// Model of the parameter extractor: the name-sorted parameter list of an
/// object fragment, empty when it declares no `properties` map.
pub open spec fn spec_params(f: Fragment) -> Seq<McpParamDefV> {
    match frag_get(f, "properties"@) {
        Some(Fragment::Object(es)) => sort_by_key(
            spec_params_of(es@, spec_required(f)),
            (|p: McpParamDefV| p.name),
        ),
        _ => Seq::empty(),
    }
}

/// The named-schema table of a document: `$defs` first, else `definitions`;
/// empty when neither is an object.
pub open spec fn spec_def_entries(doc: Fragment) -> Seq<(String, Fragment)> {
    match frag_get(doc, "$defs"@) {
        Some(d) => match d {
            Fragment::Object(es) => es@,
            _ => Seq::empty(),
        },
        None => match frag_get(doc, "definitions"@) {
            Some(d) => match d {
                Fragment::Object(es) => es@,
                _ => Seq::empty(),
            },
            None => Seq::empty(),
        },
    }
}

/// One named schema definition: name-sorted fields from the entry's own
/// `properties` and `required`, description copied when present.
pub open spec fn spec_schema_def(name: Seq<char>, def: Fragment) -> SchemaDefV {
    SchemaDefV {
        name: name,
        description: frag_get_str(def, "description"@),
        fields: sort_by_key(
            match frag_get(def, "properties"@) {
                Some(Fragment::Object(es)) => spec_fields_of(es@, spec_required(def)),
                _ => Seq::empty(),
            },
            (|fd: FieldDefV| fd.name),
        ),
    }
}

/// The schema definitions of a named-schema table, in entry order.
pub open spec fn spec_defs_of(es: Seq<(String, Fragment)>) -> Seq<SchemaDefV> {
    map_seq(es, (|e: (String, Fragment)| spec_schema_def(e.0@, e.1)))
}

/// Model of the schema-definition extractor: the name-sorted definition list
/// of a document's named-schema table.
pub open spec fn spec_schema_defs(doc: Fragment) -> Seq<SchemaDefV> {
    sort_by_key(spec_defs_of(spec_def_entries(doc)), (|d: SchemaDefV| d.name))
}

/// Convert a JSON Schema type string to the corresponding Luau type name.
///
/// When `type_str` is `"array"`, the optional `items` fragment is inspected
/// to determine the element type, producing e.g. `"{number}"`; an array with
/// no item information at all maps to `"any"`.
pub fn json_schema_type_to_luau(type_str: &str, items: Option<&Fragment>) -> (r: String)
    ensures
        r@ == spec_luau_type(type_str@, opt_frag(items)),
    decreases items_rank(opt_frag(items)),
{
    if str_eq(type_str, "string") {
        "string".to_owned()
    } else if str_eq(type_str, "integer") || str_eq(type_str, "number") {
        "number".to_owned()
    } else if str_eq(type_str, "boolean") {
        "boolean".to_owned()
    } else if str_eq(type_str, "array") {
        match items {
            Some(f) => {
                let inner: String = match f.get_str("type") {
                    Some(t) => json_schema_type_to_luau(t.as_str(), None),
                    None => "any".to_owned(),
                };
                let mut out = "{".to_owned();
                out.append(inner.as_str());
                out.append("}");
                out
            },
            None => "any".to_owned(),
        }
    } else {
        "any".to_owned()
    }
}

/// The names of a fragment's `required` array, in order.
fn required_names(f: &Fragment) -> (r: Vec<String>)
    ensures
        seq_view(r@) == spec_required(*f),
{
    let ro = f.get("required");
    match ro {
        Some(rf) => match rf {
            Fragment::List(xs) => {
                let mut out: Vec<String> = Vec::new();
                let n = xs.len();
                proof {
                    assert(seq_view(out@) =~= Seq::<Seq<char>>::empty());
                    assert(xs@.take(0) =~= Seq::<Fragment>::empty());
                }
                for i in 0..n
                    invariant
                        n == xs@.len(),
                        spec_required(*f) == text_items(xs@),
                        seq_view(out@) == text_items(xs@.take(i as int)),
                {
                    let ghost prev = out@;
                    match &xs[i] {
                        Fragment::Text(t) => {
                            out.push(t.clone());
                        },
                        _ => {},
                    }
                    proof {
                        let tk = xs@.take(i + 1);
                        assert(tk.drop_last() =~= xs@.take(i as int));
                        assert(tk.last() == xs@[i as int]);
                        if xs@[i as int] is Text {
                            assert(seq_view(out@) =~= seq_view(prev) + seq![
                                xs@[i as int]->Text_0@,
                            ]);
                        } else {
                            assert(out@ == prev);
                            assert(seq_view(out@) =~= seq_view(prev) + Seq::<Seq<char>>::empty());
                        }
                    }
                }
                proof {
                    assert(xs@.take(n as int) =~= xs@);
                }
                out
            },
            _ => {
                proof {
                    assert(seq_view(Seq::<String>::empty()) =~= Seq::<Seq<char>>::empty());
                }
                Vec::new()
            },
        },
        None => {
            proof {
                assert(seq_view(Seq::<String>::empty()) =~= Seq::<Seq<char>>::empty());
            }
            Vec::new()
        },
    }
}

/// Membership of a name in a required-name list.
fn contains_name(names: &Vec<String>, n: &str) -> (r: bool)
    ensures
        r == seq_view(names@).contains(n@),
{
    let ln = names.len();
    for i in 0..ln
        invariant
            ln == names@.len(),
            forall|j: int| 0 <= j < i ==> seq_view(names@)[j] != n@,
    {
        if str_eq(names[i].as_str(), n) {
            proof {
                assert(seq_view(names@)[i as int] == n@);
            }
            return true;
        }
    }
    proof {
        assert forall|j: int| 0 <= j < seq_view(names@).len() implies seq_view(names@)[j] != n@
            by {}
    }
    false
}

/// Convert a single JSON Schema property fragment into a [`FieldType`].
///
/// Handles `$ref`, primitive types, arrays, and objects with or without
/// explicit `properties`.
pub fn json_schema_prop_to_field_type(prop: &Fragment) -> (r: FieldType)
    ensures
        r@ == spec_resolve(*prop),
    decreases *prop, 2int,
{
    if let Some(ref_str) = prop.get_str("$ref") {
        let schema = last_segment_of(ref_str.as_str());
        return FieldType::Object { schema };
    }
    match prop.get_str("type") {
        Some(t) => {
            if str_eq(t.as_str(), "integer") {
                FieldType::Integer
            } else if str_eq(t.as_str(), "number") {
                FieldType::Number
            } else if str_eq(t.as_str(), "boolean") {
                FieldType::Boolean
            } else if str_eq(t.as_str(), "array") {
                match prop.get("items") {
                    Some(child) => {
                        proof {
                            lemma_frag_get_decreases(*prop, "items"@);
                        }
                        let items_type = json_schema_prop_to_field_type(child);
                        let rr = FieldType::Array { items: Box::new(items_type) };
                        proof {
                            assert(seq![field_type_view(items_type)] =~= seq![
                                spec_resolve(*child),
                            ]);
                            assert(rr@ =~= spec_resolve(*prop));
                        }
                        rr
                    },
                    None => {
                        let rr = FieldType::Array { items: Box::new(FieldType::String) };
                        proof {
                            assert(field_type_view(FieldType::String) == FieldTypeV::String);
                            assert(seq![field_type_view(FieldType::String)] =~= seq![
                                FieldTypeV::String,
                            ]);
                            assert(rr@ =~= spec_resolve(*prop));
                        }
                        rr
                    },
                }
            } else if str_eq(t.as_str(), "object") {
                object_field_type(prop)
            } else {
                FieldType::String
            }
        },
        None => FieldType::String,
    }
}

/// Build a [`FieldType`] for an `"object"`-typed fragment, distinguishing
/// objects with explicit `properties` from bare free-form objects.
fn object_field_type(prop: &Fragment) -> (r: FieldType)
    ensures
        r@ == spec_object_type(*prop),
    decreases *prop, 1int,
{
    let po = prop.get("properties");
    match po {
        Some(pf) => match pf {
            Fragment::Object(props) => {
                proof {
                    lemma_frag_get_decreases(*prop, "properties"@);
                    assert(decreases_to!(*pf => *props));
                }
                let required = required_names(prop);
                let raw = build_field_defs(props, &required);
                let sorted = sort_by_name(raw);
                proof {
                    lemma_fields_view_is_seq_view(sorted@);
                    assert((|x: FieldDefV| FieldDef::vkey(x)) =~= (|fd: FieldDefV| fd.name));
                }
                FieldType::InlineObject { fields: sorted }
            },
            _ => {
                let rr = FieldType::FreeMap { value: Box::new(FieldType::String) };
                proof {
                    assert(field_type_view(FieldType::String) == FieldTypeV::String);
                    assert(seq![field_type_view(FieldType::String)] =~= seq![
                        FieldTypeV::String,
                    ]);
                    assert(rr@ =~= spec_object_type(*prop));
                }
                rr
            },
        },
        None => {
            let rr = FieldType::FreeMap { value: Box::new(FieldType::String) };
            proof {
                assert(field_type_view(FieldType::String) == FieldTypeV::String);
                assert(seq![field_type_view(FieldType::String)] =~= seq![FieldTypeV::String]);
                assert(rr@ =~= spec_object_type(*prop));
            }
            rr
        },
    }
}

/// The field definitions of a property list, in entry order.
fn build_field_defs(props: &Vec<(String, Fragment)>, required: &Vec<String>) -> (r: Vec<FieldDef>)
    ensures
        seq_view(r@) == spec_fields_of(props@, seq_view(required@)),
    decreases *props, 0int,
{
    let mut out: Vec<FieldDef> = Vec::new();
    let n = props.len();
    proof {
        assert(seq_view(out@) =~= Seq::<FieldDefV>::empty());
        assert(props@.take(0) =~= Seq::<(String, Fragment)>::empty());
    }
    for i in 0..n
        invariant
            n == props@.len(),
            seq_view(out@) == spec_fields_of(props@.take(i as int), seq_view(required@)),
    {
        let name = props[i].0.clone();
        let fprop = &props[i].1;
        proof {
            assert(decreases_to!(props@ => props@[i as int]));
            assert(decreases_to!(props@[i as int] => props@[i as int].1));
        }
        let field_type = json_schema_prop_to_field_type(fprop);
        let description = match fprop.get_str("description") {
            Some(d) => Some(d.clone()),
            None => None,
        };
        let required_flag = contains_name(required, name.as_str());
        let ghost prev = out@;
        let fd = FieldDef {
            name,
            field_type,
            required: required_flag,
            description,
            enum_values: None,
            nullable: false,
            format: None,
        };
        out.push(fd);
        proof {
            let req = seq_view(required@);
            let tk = props@.take(i + 1);
            assert(tk.drop_last() =~= props@.take(i as int));
            assert(tk.last() == props@[i as int]);
            assert(out@.last()@ == spec_field_def(props@[i as int].0@, props@[i as int].1, req));
            assert(seq_view(out@) =~= seq_view(prev).push(out@.last()@));
        }
    }
    proof {
        assert(props@.take(n as int) =~= props@);
    }
    out
}

/// Convert a JSON Schema object fragment (with `properties` / `required`)
/// into a list of [`McpParamDef`] entries, sorted by name for deterministic
/// output.
pub fn json_schema_to_params(schema: &Fragment) -> (r: Vec<McpParamDef>)
    ensures
        seq_view(r@) == spec_params(*schema),
{
    let po = schema.get("properties");
    match po {
        Some(pf) => match pf {
            Fragment::Object(props) => {
                let required = required_names(schema);
                let mut params: Vec<McpParamDef> = Vec::new();
                let n = props.len();
                proof {
                    assert(seq_view(params@) =~= Seq::<McpParamDefV>::empty());
                    assert(props@.take(0) =~= Seq::<(String, Fragment)>::empty());
                }
                for i in 0..n
                    invariant
                        n == props@.len(),
                        seq_view(required@) == spec_required(*schema),
                        seq_view(params@) == spec_params_of(
                            props@.take(i as int),
                            seq_view(required@),
                        ),
                {
                    let name = props[i].0.clone();
                    let prop = &props[i].1;
                    let items = prop.get("items");
                    let luau_type = match prop.get_str("type") {
                        Some(t) => json_schema_type_to_luau(t.as_str(), items),
                        None => json_schema_type_to_luau("any", items),
                    };
                    let description = match prop.get_str("description") {
                        Some(d) => Some(d.clone()),
                        None => None,
                    };
                    let required_flag = contains_name(&required, name.as_str());
                    let ghost prev = params@;
                    params.push(
                        McpParamDef { name, luau_type, required: required_flag, description },
                    );
                    proof {
                        let req = seq_view(required@);
                        let tk = props@.take(i + 1);
                        assert(tk.drop_last() =~= props@.take(i as int));
                        assert(tk.last() == props@[i as int]);
                        assert(opt_frag(items) == frag_get(props@[i as int].1, "items"@));
                        assert(params@.last()@ == spec_param_def(
                            props@[i as int].0@,
                            props@[i as int].1,
                            req,
                        ));
                        assert(seq_view(params@) =~= seq_view(prev).push(params@.last()@));
                    }
                }
                proof {
                    assert(props@.take(n as int) =~= props@);
                }
                let sorted = sort_by_name(params);
                proof {
                    assert((|x: McpParamDefV| McpParamDef::vkey(x)) =~= (
                    |p: McpParamDefV| p.name));
                }
                sorted
            },
            _ => {
                proof {
                    assert(seq_view(Seq::<McpParamDef>::empty()) =~= Seq::<McpParamDefV>::empty());
                }
                Vec::new()
            },
        },
        None => {
            proof {
                assert(seq_view(Seq::<McpParamDef>::empty()) =~= Seq::<McpParamDefV>::empty());
            }
            Vec::new()
        },
    }
}

/// Extract named schema definitions from `$defs` or `definitions` in a
/// schema document, converting each into a [`SchemaDef`]; the list and every
/// field list in it come back sorted by name. A malformed entry still yields
/// a best-effort definition through the resolver's fallbacks.
pub fn extract_schema_defs(schema: &Fragment) -> (r: Vec<SchemaDef>)
    ensures
        seq_view(r@) == spec_schema_defs(*schema),
{
    let d1 = schema.get("$defs");
    let defs_obj: Option<&Vec<(String, Fragment)>> = match d1 {
        Some(d) => match d {
            Fragment::Object(es) => Some(es),
            _ => None,
        },
        None => match schema.get("definitions") {
            Some(d) => match d {
                Fragment::Object(es) => Some(es),
                _ => None,
            },
            None => None,
        },
    };
    match defs_obj {
        Some(es) => {
            assert(es@ == spec_def_entries(*schema));
            let mut defs: Vec<SchemaDef> = Vec::new();
            let n = es.len();
            proof {
                assert(seq_view(defs@) =~= Seq::<SchemaDefV>::empty());
                assert(es@.take(0) =~= Seq::<(String, Fragment)>::empty());
            }
            for i in 0..n
                invariant
                    n == es@.len(),
                    seq_view(defs@) == spec_defs_of(es@.take(i as int)),
            {
                let name = es[i].0.clone();
                let def = &es[i].1;
                let required = required_names(def);
                let fields_raw = match def.get("properties") {
                    Some(pf) => match pf {
                        Fragment::Object(ps) => build_field_defs(ps, &required),
                        _ => Vec::new(),
                    },
                    None => Vec::new(),
                };
                let fields = sort_by_name(fields_raw);
                let description = match def.get_str("description") {
                    Some(d) => Some(d.clone()),
                    None => None,
                };
                let ghost prev = defs@;
                defs.push(SchemaDef { name, description, fields });
                proof {
                    let tk = es@.take(i + 1);
                    assert(tk.drop_last() =~= es@.take(i as int));
                    assert(tk.last() == es@[i as int]);
                    lemma_fields_view_is_seq_view(fields@);
                    assert((|x: FieldDefV| FieldDef::vkey(x)) =~= (|fd: FieldDefV| fd.name));
                    assert(seq_view(Seq::<FieldDef>::empty()) =~= Seq::<FieldDefV>::empty());
                    assert(defs@.last()@ == spec_schema_def(es@[i as int].0@, es@[i as int].1));
                    assert(seq_view(defs@) =~= seq_view(prev).push(defs@.last()@));
                }
            }
            proof {
                assert(es@.take(n as int) =~= es@);
            }
            let sorted = sort_by_name(defs);
            proof {
                assert((|x: SchemaDefV| SchemaDef::vkey(x)) =~= (|d: SchemaDefV| d.name));
            }
            sorted
        },
        None => {
            proof {
                assert(spec_def_entries(*schema) =~= Seq::<(String, Fragment)>::empty());
                assert(seq_view(Seq::<SchemaDef>::empty()) =~= Seq::<SchemaDefV>::empty());
            }
            Vec::new()
        },
    }
}

} // verus!
