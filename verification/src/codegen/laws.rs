//! The properties the extraction engine is held to, stated and proved over
//! its spec-level models: determinism of a run, independence from the source
//! document's key order, and the documented fallback rules.

use vstd::prelude::*;

use crate::codegen::luau_types::{spec_defs_of, spec_field_def, spec_fields_of, spec_luau_type,
    spec_object_type, spec_param_def, spec_params, spec_params_of, spec_required, spec_resolve,
    spec_schema_def, spec_schema_defs};
use crate::codegen::manifest::{FieldDefV, FieldTypeV, McpParamDefV, SchemaDefV};
use crate::fragment::{frag_get, frag_get_str, Fragment};
use crate::order::{distinct_keys, last_segment, lemma_distinct_keys_multiset, lemma_map_seq_index,
    lemma_map_seq_multiset, lemma_sort_by_key_props, lemma_sorted_unique_by_key, map_seq,
    sort_by_key};

verus! {

/// Extraction is deterministic: two runs over the same document yield equal
/// manifests, structurally.
pub proof fn lemma_extraction_deterministic(
    doc: Fragment,
    d1: Seq<SchemaDefV>,
    d2: Seq<SchemaDefV>,
    p1: Seq<McpParamDefV>,
    p2: Seq<McpParamDefV>,
)
    requires
        d1 == spec_schema_defs(doc),
        d2 == spec_schema_defs(doc),
        p1 == spec_params(doc),
        p2 == spec_params(doc),
    ensures
        d1 == d2,
        p1 == p2,
{
}

/// A `$ref` string always resolves to a named object reference, its schema
/// the final path segment, whatever other keys stand on the fragment.
pub proof fn lemma_ref_wins(f: Fragment, r: Seq<char>)
    requires
        frag_get_str(f, "$ref"@) == Some(r),
    ensures
        spec_resolve(f) == (FieldTypeV::Object { schema: last_segment(r) }),
{
}

/// An `object`-typed fragment with no `properties` key resolves to the
/// free-form map of strings.
pub proof fn lemma_bare_object_is_map(f: Fragment)
    requires
        (frag_get_str(f, "$ref"@) is None),
        frag_get_str(f, "type"@) == Some("object"@),
        (frag_get(f, "properties"@) is None),
    ensures
        spec_resolve(f) == (FieldTypeV::FreeMap { value: seq![FieldTypeV::String] }),
{
    reveal_strlit("object");
    reveal_strlit("integer");
    reveal_strlit("number");
    reveal_strlit("boolean");
    reveal_strlit("array");
    let t = frag_get_str(f, "type"@)->Some_0;
    assert(t == "object"@);
    assert(t != "integer"@);
    assert(t != "number"@) by {
        assert(t[0] == 'o');
        assert("number"@[0] == 'n');
    }
    assert(t != "boolean"@);
    assert(t != "array"@);
    assert(spec_resolve(f) == spec_object_type(f));
    assert(spec_object_type(f) =~~= (FieldTypeV::FreeMap { value: seq![FieldTypeV::String] }));
}

/// An unrecognized type tag falls back to `any` in the type mapper but to
/// `String` in the field-type resolver: two distinct defaults, on purpose.
pub proof fn lemma_unknown_tag_defaults(t: Seq<char>, f: Fragment)
    requires
        t != "string"@,
        t != "integer"@,
        t != "number"@,
        t != "boolean"@,
        t != "array"@,
        t != "object"@,
        (frag_get_str(f, "$ref"@) is None),
        frag_get_str(f, "type"@) == Some(t),
    ensures
        spec_luau_type(t, None) == "any"@,
        spec_resolve(f) == FieldTypeV::String,
{
}

/// Permuting the property entries of a parameter object (property names
/// unique, the required set unchanged) does not change the extracted
/// parameter list: its order is always lexicographic by name.
pub proof fn lemma_params_order_independent(
    es1: Seq<(String, Fragment)>,
    es2: Seq<(String, Fragment)>,
    req: Seq<Seq<char>>,
)
    requires
        es1.to_multiset() == es2.to_multiset(),
        distinct_keys(es1, (|e: (String, Fragment)| e.0@)),
    ensures
        sort_by_key(spec_params_of(es1, req), (|p: McpParamDefV| p.name)) == sort_by_key(
            spec_params_of(es2, req),
            (|p: McpParamDefV| p.name),
        ),
{
    let g = (|e: (String, Fragment)| spec_param_def(e.0@, e.1, req));
    let key = (|p: McpParamDefV| p.name);
    let ekey = (|e: (String, Fragment)| e.0@);
    lemma_map_seq_multiset(es1, es2, g);
    lemma_sort_by_key_props(map_seq(es1, g), key);
    lemma_sort_by_key_props(map_seq(es2, g), key);
    lemma_map_seq_index(es1, g);
    assert(distinct_keys(map_seq(es1, g), key)) by {
        assert(forall|i: int| 0 <= i < es1.len() ==> key(#[trigger] map_seq(es1, g)[i]) == ekey(
            es1[i],
        ));
    }
    lemma_distinct_keys_multiset(map_seq(es1, g), sort_by_key(map_seq(es1, g), key), key);
    assert(sort_by_key(map_seq(es1, g), key).to_multiset() == sort_by_key(
        map_seq(es2, g),
        key,
    ).to_multiset());
    lemma_sorted_unique_by_key(
        sort_by_key(map_seq(es1, g), key),
        sort_by_key(map_seq(es2, g), key),
        key,
    );
}

/// The same, for the field lists of inline objects and schema definitions.
pub proof fn lemma_fields_order_independent(
    es1: Seq<(String, Fragment)>,
    es2: Seq<(String, Fragment)>,
    req: Seq<Seq<char>>,
)
    requires
        es1.to_multiset() == es2.to_multiset(),
        distinct_keys(es1, (|e: (String, Fragment)| e.0@)),
    ensures
        sort_by_key(spec_fields_of(es1, req), (|fd: FieldDefV| fd.name)) == sort_by_key(
            spec_fields_of(es2, req),
            (|fd: FieldDefV| fd.name),
        ),
{
    let g = (|e: (String, Fragment)| spec_field_def(e.0@, e.1, req));
    let key = (|fd: FieldDefV| fd.name);
    let ekey = (|e: (String, Fragment)| e.0@);
    lemma_fields_of_is_map(es1, req);
    lemma_fields_of_is_map(es2, req);
    lemma_map_seq_multiset(es1, es2, g);
    lemma_sort_by_key_props(map_seq(es1, g), key);
    lemma_sort_by_key_props(map_seq(es2, g), key);
    lemma_map_seq_index(es1, g);
    assert(distinct_keys(map_seq(es1, g), key)) by {
        assert(forall|i: int| 0 <= i < es1.len() ==> key(#[trigger] map_seq(es1, g)[i]) == ekey(
            es1[i],
        ));
    }
    lemma_distinct_keys_multiset(map_seq(es1, g), sort_by_key(map_seq(es1, g), key), key);
    assert(sort_by_key(map_seq(es1, g), key).to_multiset() == sort_by_key(
        map_seq(es2, g),
        key,
    ).to_multiset());
    lemma_sorted_unique_by_key(
        sort_by_key(map_seq(es1, g), key),
        sort_by_key(map_seq(es2, g), key),
        key,
    );
}

/// The same, for the named-schema table: permuting its entries (names
/// unique) leaves the extracted definition list unchanged.
pub proof fn lemma_defs_order_independent(
    es1: Seq<(String, Fragment)>,
    es2: Seq<(String, Fragment)>,
)
    requires
        es1.to_multiset() == es2.to_multiset(),
        distinct_keys(es1, (|e: (String, Fragment)| e.0@)),
    ensures
        sort_by_key(spec_defs_of(es1), (|d: SchemaDefV| d.name)) == sort_by_key(
            spec_defs_of(es2),
            (|d: SchemaDefV| d.name),
        ),
{
    let g = (|e: (String, Fragment)| spec_schema_def(e.0@, e.1));
    let key = (|d: SchemaDefV| d.name);
    let ekey = (|e: (String, Fragment)| e.0@);
    lemma_map_seq_multiset(es1, es2, g);
    lemma_sort_by_key_props(map_seq(es1, g), key);
    lemma_sort_by_key_props(map_seq(es2, g), key);
    lemma_map_seq_index(es1, g);
    assert(distinct_keys(map_seq(es1, g), key)) by {
        assert(forall|i: int| 0 <= i < es1.len() ==> key(#[trigger] map_seq(es1, g)[i]) == ekey(
            es1[i],
        ));
    }
    lemma_distinct_keys_multiset(map_seq(es1, g), sort_by_key(map_seq(es1, g), key), key);
    assert(sort_by_key(map_seq(es1, g), key).to_multiset() == sort_by_key(
        map_seq(es2, g),
        key,
    ).to_multiset());
    lemma_sorted_unique_by_key(
        sort_by_key(map_seq(es1, g), key),
        sort_by_key(map_seq(es2, g), key),
        key,
    );
}

/// Field construction is an element-wise image of the entry list.
proof fn lemma_fields_of_is_map(es: Seq<(String, Fragment)>, req: Seq<Seq<char>>)
    ensures
        spec_fields_of(es, req) == map_seq(
            es,
            (|e: (String, Fragment)| spec_field_def(e.0@, e.1, req)),
        ),
    decreases es.len(),
{
    if es.len() > 0 {
        lemma_fields_of_is_map(es.drop_last(), req);
    }
}

/// Reordering the properties of a whole parameter object (required set and
/// everything else equal) leaves its extracted parameter list unchanged.
pub proof fn lemma_params_reorder(f1: Fragment, f2: Fragment)
    requires
        (frag_get(f1, "properties"@) is Some),
        (frag_get(f1, "properties"@)->Some_0 is Object),
        (frag_get(f2, "properties"@) is Some),
        (frag_get(f2, "properties"@)->Some_0 is Object),
        (frag_get(f1, "properties"@)->Some_0)->Object_0@.to_multiset() == (frag_get(
            f2,
            "properties"@,
        )->Some_0)->Object_0@.to_multiset(),
        distinct_keys(
            (frag_get(f1, "properties"@)->Some_0)->Object_0@,
            (|e: (String, Fragment)| e.0@),
        ),
        spec_required(f1) == spec_required(f2),
    ensures
        spec_params(f1) == spec_params(f2),
{
    lemma_params_order_independent(
        (frag_get(f1, "properties"@)->Some_0)->Object_0@,
        (frag_get(f2, "properties"@)->Some_0)->Object_0@,
        spec_required(f1),
    );
}

/// Reordering the properties of an `object`-typed fragment (required set
/// and everything else equal) leaves its resolved field type unchanged:
/// item order never reaches the public resolver's result.
pub proof fn lemma_resolve_reorder(f1: Fragment, f2: Fragment)
    requires
        (frag_get_str(f1, "$ref"@) is None),
        (frag_get_str(f2, "$ref"@) is None),
        frag_get_str(f1, "type"@) == Some("object"@),
        frag_get_str(f2, "type"@) == Some("object"@),
        (frag_get(f1, "properties"@) is Some),
        (frag_get(f1, "properties"@)->Some_0 is Object),
        (frag_get(f2, "properties"@) is Some),
        (frag_get(f2, "properties"@)->Some_0 is Object),
        (frag_get(f1, "properties"@)->Some_0)->Object_0@.to_multiset() == (frag_get(
            f2,
            "properties"@,
        )->Some_0)->Object_0@.to_multiset(),
        distinct_keys(
            (frag_get(f1, "properties"@)->Some_0)->Object_0@,
            (|e: (String, Fragment)| e.0@),
        ),
        spec_required(f1) == spec_required(f2),
    ensures
        spec_resolve(f1) == spec_resolve(f2),
{
    reveal_strlit("object");
    reveal_strlit("integer");
    reveal_strlit("number");
    reveal_strlit("boolean");
    reveal_strlit("array");
    let t = frag_get_str(f1, "type"@)->Some_0;
    assert(t == "object"@);
    assert(t != "integer"@);
    assert(t != "number"@) by {
        assert(t[0] == 'o');
        assert("number"@[0] == 'n');
    }
    assert(t != "boolean"@);
    assert(t != "array"@);
    assert(spec_resolve(f1) == spec_object_type(f1));
    assert(spec_resolve(f2) == spec_object_type(f2));
    lemma_object_type_order_independent(f1, f2);
}

/// Reordering the properties of a whole object fragment (required set and
/// everything else equal) leaves its resolved inline-object type unchanged.
pub proof fn lemma_object_type_order_independent(f1: Fragment, f2: Fragment)
    requires
        (frag_get(f1, "properties"@) is Some),
        (frag_get(f1, "properties"@)->Some_0 is Object),
        (frag_get(f2, "properties"@) is Some),
        (frag_get(f2, "properties"@)->Some_0 is Object),
        (frag_get(f1, "properties"@)->Some_0)->Object_0@.to_multiset() == (frag_get(
            f2,
            "properties"@,
        )->Some_0)->Object_0@.to_multiset(),
        distinct_keys(
            (frag_get(f1, "properties"@)->Some_0)->Object_0@,
            (|e: (String, Fragment)| e.0@),
        ),
        spec_required(f1) == spec_required(f2),
    ensures
        spec_object_type(f1) == spec_object_type(f2),
{
    lemma_fields_order_independent(
        (frag_get(f1, "properties"@)->Some_0)->Object_0@,
        (frag_get(f2, "properties"@)->Some_0)->Object_0@,
        spec_required(f1),
    );
}

} // verus!
