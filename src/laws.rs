//! Laws of the library, stated over the specification functions that the
//! executable functions' contracts use, and proved.
use vstd::prelude::*;
use crate::lang::{find_type, format_pairs, type_ctx, type_matches, Lang, Type};
use crate::text::{assoc, lemma_assoc_first, strings_view};
use crate::schema::{ObjectOrReference, Operation, Parameter, PathItem, Schema};
use crate::resource::{
    all_keyed, group_all, group_index, group_key, grouped, method_op, GroupView, GroupingStrategy,
    ResourceView,
};
use crate::model::{
    build, kind_of, schema_type_of, lemma_build_properties_len, ref_name_of, ModelType, lookup_def, normalize_list, normalize_view, normalized_array, normalized_arrays,
    normalized_objects, ModelView,
};

verus! {

/// A schema without `$ref` whose `type` is neither "object" nor "array", and
/// that lists no properties, builds a primitive node without properties.
pub proof fn primitive_schema_builds_primitive(name: Seq<char>, s: Schema, def: Seq<char>)
    requires
        s.ref_path is None,
        s.schema_type matches Some(t) && t@ != "object"@ && t@ != "array"@,
        s.properties@.len() == 0,
    ensures
        kind_of(build(name, s, def)) == ModelType::Primitive,
        build(name, s, def).properties.len() == 0,
{
    let t = s.schema_type.unwrap();
    assert(schema_type_of(s) == t@);
    assert(build(name, s, def).schema_type == t@);
    lemma_build_properties_len(s.properties@);
}

/// A schema of type "array" with `items` builds an array node whose items
/// node is the one built from the items schema.
pub proof fn array_schema_builds_array(name: Seq<char>, s: Schema, def: Seq<char>)
    requires
        s.schema_type matches Some(t) && t@ == "array"@,
        s.items is Some,
    ensures
        kind_of(build(name, s, def)) == ModelType::Array,
        build(name, s, def).items == Some(
            Box::new(build(ref_name_of(*s.items.unwrap()), *s.items.unwrap(), Seq::empty())),
        ),
{
}

proof fn lemma_lookup_def(ms: Seq<ModelView>, d: Seq<char>)
    ensures
        lookup_def(ms, d) matches Some(t) ==> t.def == d,
    decreases ms.len(),
{
    if ms.len() > 0 && ms.last().def != d {
        lemma_lookup_def(ms.drop_last(), d);
    }
}

proof fn lemma_objects_idempotent(s: Seq<ModelView>, ms: Seq<ModelView>)
    requires
        normalized_objects(s, ms) is Some,
    ensures
        normalized_objects(normalized_objects(s, ms).unwrap(), ms) == normalized_objects(s, ms),
    decreases s.len(),
{
    if s.len() > 0 {
        let prev = normalized_objects(s.drop_last(), ms).unwrap();
        let t = lookup_def(ms, s.last().def).unwrap();
        lemma_objects_idempotent(s.drop_last(), ms);
        lemma_lookup_def(ms, s.last().def);
        let r = prev.push(t);
        assert(r.drop_last() == prev);
    }
}

proof fn lemma_array_idempotent(a: ModelView, ms: Seq<ModelView>)
    requires
        normalized_array(a, ms) is Some,
    ensures
        normalized_array(normalized_array(a, ms).unwrap(), ms) == normalized_array(a, ms),
{
    let it = a.items.unwrap();
    if it.is_object {
        lemma_lookup_def(ms, it.def);
        let b = normalized_array(a, ms).unwrap();
        assert(b.items.unwrap().def == it.def);
        assert(ModelView { items: b.items, ..b } == b);
    }
}

proof fn lemma_arrays_idempotent(s: Seq<ModelView>, ms: Seq<ModelView>)
    requires
        normalized_arrays(s, ms) is Some,
    ensures
        normalized_arrays(normalized_arrays(s, ms).unwrap(), ms) == normalized_arrays(s, ms),
    decreases s.len(),
{
    if s.len() > 0 {
        let prev = normalized_arrays(s.drop_last(), ms).unwrap();
        lemma_arrays_idempotent(s.drop_last(), ms);
        lemma_array_idempotent(s.last(), ms);
        let r = prev.push(normalized_array(s.last(), ms).unwrap());
        assert(r.drop_last() == prev);
    }
}

/// Normalizing an already normalized model against the same top-level
/// models gives it back unchanged.
pub proof fn normalize_is_idempotent(m: ModelView, ms: Seq<ModelView>)
    requires
        normalize_view(m, ms) is Some,
    ensures
        normalize_view(normalize_view(m, ms).unwrap(), ms) == normalize_view(m, ms),
{
    lemma_objects_idempotent(m.object_properties, ms);
    lemma_arrays_idempotent(m.array_properties, ms);
    let n = normalize_view(m, ms).unwrap();
    assert(ModelView { object_properties: n.object_properties, array_properties: n.array_properties, ..n } == n);
}

/// Normalizing an already normalized collection against the same top-level
/// models gives an equal collection.
pub proof fn normalize_list_is_idempotent(s: Seq<ModelView>, ms: Seq<ModelView>)
    requires
        normalize_list(s, ms) is Some,
    ensures
        normalize_list(normalize_list(s, ms).unwrap(), ms) == normalize_list(s, ms),
    decreases s.len(),
{
    if s.len() > 0 {
        let prev = normalize_list(s.drop_last(), ms).unwrap();
        normalize_list_is_idempotent(s.drop_last(), ms);
        normalize_is_idempotent(s.last(), ms);
        let r = prev.push(normalize_view(s.last(), ms).unwrap());
        assert(r.drop_last() == prev);
    }
}

} // verus!

verus! {

/// The number of resources over all groups.
pub open spec fn total_resources(gs: Seq<GroupView>) -> int
    decreases gs.len(),
{
    if gs.len() == 0 {
        0
    } else {
        total_resources(gs.drop_last()) + gs.last().resources.len()
    }
}

/// 1 when method number `j` of `p` has an operation with a key under `strategy`.
pub open spec fn kept_at(p: (String, PathItem), strategy: GroupingStrategy, j: int) -> int {
    match method_op(p.1, j) {
        Some(op) => if group_key(strategy, p.0@, op) is Some {
            1
        } else {
            0
        },
        None => 0,
    }
}

/// 1 when method number `j` of `p` has an operation.
pub open spec fn present_at(p: (String, PathItem), j: int) -> int {
    if method_op(p.1, j) is Some {
        1
    } else {
        0
    }
}

/// The number of (path, method) pairs whose operation has a key under `strategy`.
pub open spec fn kept_count(paths: Seq<(String, PathItem)>, strategy: GroupingStrategy) -> int
    decreases paths.len(),
{
    if paths.len() == 0 {
        0
    } else {
        let p = paths.last();
        kept_count(paths.drop_last(), strategy) + kept_at(p, strategy, 0) + kept_at(p, strategy, 1)
            + kept_at(p, strategy, 2) + kept_at(p, strategy, 3) + kept_at(p, strategy, 4) + kept_at(
            p,
            strategy,
            5,
        ) + kept_at(p, strategy, 6) + kept_at(p, strategy, 7)
    }
}

/// The number of (path, method) pairs that have an operation.
pub open spec fn operation_count(paths: Seq<(String, PathItem)>) -> int
    decreases paths.len(),
{
    if paths.len() == 0 {
        0
    } else {
        let p = paths.last();
        operation_count(paths.drop_last()) + present_at(p, 0) + present_at(p, 1) + present_at(p, 2)
            + present_at(p, 3) + present_at(p, 4) + present_at(p, 5) + present_at(p, 6) + present_at(p, 7)
    }
}

proof fn lemma_total_update(gs: Seq<GroupView>, i: int, g: GroupView)
    requires
        0 <= i < gs.len(),
    ensures
        total_resources(gs.update(i, g)) == total_resources(gs) - gs[i].resources.len() + g.resources.len(),
    decreases gs.len(),
{
    if i < gs.len() - 1 {
        assert(gs.update(i, g).drop_last() =~= gs.drop_last().update(i, g));
        lemma_total_update(gs.drop_last(), i, g);
    } else {
        assert(gs.update(i, g).drop_last() =~= gs.drop_last());
    }
}

proof fn lemma_total_group_all(items: Seq<(Seq<char>, ResourceView)>, strategy: GroupingStrategy)
    ensures
        total_resources(group_all(items, strategy)) == items.len(),
    decreases items.len(),
{
    if items.len() > 0 {
        let gs = group_all(items.drop_last(), strategy);
        let x = items.last();
        lemma_total_group_all(items.drop_last(), strategy);
        let i = group_index(gs, x.0);
        if i < 0 {
            assert(gs.push(GroupView { name: x.0, resources: seq![x.1], grouping_strategy: strategy }).drop_last() =~= gs);
        } else {
            lemma_group_index_bounds(gs, x.0);
            lemma_total_update(gs, i, GroupView { resources: gs[i].resources.push(x.1), ..gs[i] });
        }
    }
}

proof fn lemma_group_index_bounds(gs: Seq<GroupView>, k: Seq<char>)
    ensures
        -1 <= group_index(gs, k) < gs.len(),
    decreases gs.len(),
{
    if gs.len() > 0 {
        lemma_group_index_bounds(gs.drop_last(), k);
    }
}

proof fn lemma_all_keyed_len(
    paths: Seq<(String, PathItem)>,
    strategy: GroupingStrategy,
    comps: Seq<(String, ObjectOrReference<Parameter>)>,
)
    ensures
        all_keyed(paths, strategy, comps).len() == kept_count(paths, strategy),
    decreases paths.len(),
{
    if paths.len() > 0 {
        lemma_all_keyed_len(paths.drop_last(), strategy, comps);
    }
}

proof fn lemma_all_kept(paths: Seq<(String, PathItem)>, strategy: GroupingStrategy)
    requires
        strategy == GroupingStrategy::Nothing || strategy == GroupingStrategy::Path,
    ensures
        kept_count(paths, strategy) == operation_count(paths),
    decreases paths.len(),
{
    if paths.len() > 0 {
        lemma_all_kept(paths.drop_last(), strategy);
    }
}

/// Grouping keeps exactly the operations that have a key: the groups hold
/// one resource per (path, method) pair whose operation has a key under the
/// strategy. Under `Operation` an operation without an id has none, under
/// `FirstTag` one without tags has none; under `Nothing` and `Path` every
/// operation has one, so the resources number the operations.
pub proof fn grouping_keeps_keyed_operations(
    paths: Seq<(String, PathItem)>,
    strategy: GroupingStrategy,
    comps: Seq<(String, ObjectOrReference<Parameter>)>,
)
    ensures
        total_resources(grouped(paths, strategy, comps)) == kept_count(paths, strategy),
        forall|path: Seq<char>, op: Operation|
            #![auto]
            group_key(GroupingStrategy::Operation, path, op) is None <==> op.operation_id is None,
        forall|path: Seq<char>, op: Operation|
            #![auto]
            group_key(GroupingStrategy::FirstTag, path, op) is None <==> op.tags@.len() == 0,
        strategy == GroupingStrategy::Nothing || strategy == GroupingStrategy::Path
            ==> total_resources(grouped(paths, strategy, comps)) == operation_count(paths),
{
    lemma_total_group_all(all_keyed(paths, strategy, comps), strategy);
    lemma_all_keyed_len(paths, strategy, comps);
    if strategy == GroupingStrategy::Nothing || strategy == GroupingStrategy::Path {
        lemma_all_kept(paths, strategy);
    }
}

} // verus!

verus! {

/// A primitive table that maps every type to itself: no aliases, and every
/// format of an entry has the entry's own name as target.
pub open spec fn identity_types(lang: Lang) -> bool {
    forall|i: int|
        0 <= i < lang.types@.len() ==> {
            &&& (#[trigger] lang.types@[i]).1.alias@.len() == 0
            &&& forall|j: int|
                0 <= j < lang.types@[i].1.format@.len() ==> (#[trigger] lang.types@[i].1.format@[j]).1.schema_type@
                    == lang.types@[i].0@
        }
}

/// `t` keeps the date flags of `m` and the type label of each primitive node,
/// all through the properties.
pub open spec fn keeps_types(m: ModelView, t: ModelView) -> bool
    decreases m, 1int,
{
    &&& t.has_date == m.has_date
    &&& t.has_datetime == m.has_datetime
    &&& (kind_of(m) == ModelType::Primitive ==> t.schema_type == m.schema_type)
    &&& keeps_types_all(m.properties, t.properties)
}

/// `ts` keeps the types of `ms`, item by item.
pub open spec fn keeps_types_all(ms: Seq<ModelView>, ts: Seq<ModelView>) -> bool
    decreases ms, 0int,
{
    if ms.len() == 0 {
        ts.len() == 0
    } else {
        ts.len() == ms.len() && keeps_types_all(ms.drop_last(), ts.drop_last()) && keeps_types(
            ms.last(),
            ts.last(),
        )
    }
}

proof fn lemma_find_type_in(s: Seq<(String, Type)>, t: Seq<char>)
    ensures
        find_type(s, t) matches Some(ty) ==> exists|i: int| 0 <= i < s.len() && s[i].1 == ty && type_matches(#[trigger] s[i], t),
    decreases s.len(),
{
    if s.len() > 0 {
        lemma_find_type_in(s.drop_last(), t);
        if find_type(s.drop_last(), t) is Some {
            let ty = find_type(s.drop_last(), t).unwrap();
            let i = choose|i: int| 0 <= i < s.drop_last().len() && s.drop_last()[i].1 == ty && type_matches(#[trigger] s.drop_last()[i], t);
            assert(s[i] == s.drop_last()[i]);
        } else if type_matches(s.last(), t) {
            assert(s[s.len() - 1] == s.last());
        }
    }
}

proof fn lemma_assoc_in(s: Seq<(Seq<char>, Seq<char>)>, k: Seq<char>)
    ensures
        assoc(s, k) matches Some(v) ==> exists|i: int| 0 <= i < s.len() && #[trigger] s[i].1 == v,
    decreases s.len(),
{
    if s.len() > 0 {
        lemma_assoc_in(s.drop_last(), k);
        if assoc(s.drop_last(), k) is Some {
            let v = assoc(s.drop_last(), k).unwrap();
            let i = choose|i: int| 0 <= i < s.drop_last().len() && #[trigger] s.drop_last()[i].1 == v;
            assert(s[i] == s.drop_last()[i]);
        } else if s.last().0 == k {
            assert(s[s.len() - 1] == s.last());
        }
    }
}

proof fn lemma_identity_primitive(lang: Lang, t: Seq<char>, f: Seq<char>)
    requires
        identity_types(lang),
    ensures
        lang.primitive_target(t, f) matches Some(x) ==> x == t,
{
    lemma_find_type_in(lang.types@, t);
    if find_type(lang.types@, t) is Some {
        let ty = find_type(lang.types@, t).unwrap();
        let i = choose|i: int| 0 <= i < lang.types@.len() && lang.types@[i].1 == ty && type_matches(#[trigger] lang.types@[i], t);
        assert(lang.types@[i].1.alias@.len() == 0);
        assert(!strings_view(ty.alias@).contains(t));
        let fp = format_pairs(ty.format@);
        lemma_assoc_in(fp, f);
        lemma_assoc_in(fp, "default"@);
        if assoc(fp, f) is Some {
            let j = choose|j: int| 0 <= j < fp.len() && #[trigger] fp[j].1 == assoc(fp, f).unwrap();
            assert(lang.types@[i].1.format@[j].1.schema_type@ == lang.types@[i].0@);
        } else if assoc(fp, "default"@) is Some {
            let j = choose|j: int| 0 <= j < fp.len() && #[trigger] fp[j].1 == assoc(fp, "default"@).unwrap();
            assert(lang.types@[i].1.format@[j].1.schema_type@ == lang.types@[i].0@);
        }
    }
}

proof fn lemma_identity_node(lang: Lang, m: ModelView)
    requires
        identity_types(lang),
        lang.formatter("nullable"@) is None,
        lang.translate_view(m) is Some,
    ensures
        keeps_types(m, lang.translate_view(m).unwrap()),
    decreases m, 1int,
{
    let t = lang.translate_view(m).unwrap();
    lemma_identity_all(lang, m.properties);
    if kind_of(m) == ModelType::Primitive {
        let f = match m.format {
            Some(f) => f,
            None => "default"@,
        };
        lemma_identity_primitive(lang, m.schema_type, f);
        if m.nullable {
            lemma_assoc_first(type_ctx(m.schema_type), "value"@);
        }
    }
}

proof fn lemma_identity_all(lang: Lang, ms: Seq<ModelView>)
    requires
        identity_types(lang),
        lang.formatter("nullable"@) is None,
        lang.translate_views(ms) is Some,
    ensures
        keeps_types_all(ms, lang.translate_views(ms).unwrap()),
    decreases ms, 0int,
{
    if ms.len() > 0 {
        lemma_identity_all(lang, ms.drop_last());
        lemma_identity_node(lang, ms.last());
        let ts = lang.translate_views(ms).unwrap();
        let prev = lang.translate_views(ms.drop_last()).unwrap();
        assert(ts.drop_last() == prev);
        lemma_translate_views_len(lang, ms.drop_last());
    }
}

proof fn lemma_translate_views_len(lang: Lang, ms: Seq<ModelView>)
    requires
        lang.translate_views(ms) is Some,
    ensures
        lang.translate_views(ms).unwrap().len() == ms.len(),
    decreases ms.len(),
{
    if ms.len() > 0 {
        lemma_translate_views_len(lang, ms.drop_last());
    }
}

/// With a primitive table that maps every type to itself and no "nullable"
/// formatter, a translation that succeeds keeps the date flags of every node
/// reached through properties, and the type label of each primitive one.
pub proof fn identity_translation_keeps_types(lang: Lang, m: ModelView)
    requires
        identity_types(lang),
        lang.formatter("nullable"@) is None,
        lang.translate_view(m) is Some,
    ensures
        keeps_types(m, lang.translate_view(m).unwrap()),
{
    lemma_identity_node(lang, m);
}

} // verus!

verus! {

proof fn lemma_objects_linked(s: Seq<ModelView>, ms: Seq<ModelView>)
    requires
        normalized_objects(s, ms) is Some,
    ensures
        normalized_objects(s, ms).unwrap().len() == s.len(),
        forall|i: int|
            0 <= i < s.len() ==> lookup_def(ms, #[trigger] s[i].def) == Some(
                normalized_objects(s, ms).unwrap()[i],
            ),
    decreases s.len(),
{
    if s.len() > 0 {
        lemma_objects_linked(s.drop_last(), ms);
        let r = normalized_objects(s, ms).unwrap();
        let prev = normalized_objects(s.drop_last(), ms).unwrap();
        assert forall|i: int| 0 <= i < s.len() implies lookup_def(ms, #[trigger] s[i].def) == Some(r[i]) by {
            if i < s.len() - 1 {
                assert(s[i] == s.drop_last()[i]);
                assert(r[i] == prev[i]);
            }
        }
    }
}

/// Normalizing links each object node of the object view to the top-level
/// model of the same defining name: the node becomes that model, however
/// the top-level models refer to one another.
pub proof fn normalize_links_top_level_models(m: ModelView, ms: Seq<ModelView>)
    requires
        normalize_view(m, ms) is Some,
    ensures
        normalize_view(m, ms).unwrap().object_properties.len() == m.object_properties.len(),
        forall|i: int|
            0 <= i < m.object_properties.len() ==> lookup_def(ms, #[trigger] m.object_properties[i].def)
                == Some(normalize_view(m, ms).unwrap().object_properties[i]),
{
    lemma_objects_linked(m.object_properties, ms);
}

} // verus!
