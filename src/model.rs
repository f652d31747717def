//! The model tree built from schemas: kinds, derived facts, and the
//! partition of children by kind.
use vstd::prelude::*;
use crate::schema::{ObjectOrReference, Schema};
use crate::text::{clone_opt, clone_pairs, opt_view, pairs_view, same_text};
use crate::util::{model_name_from_ref, name_from_ref};

verus! {

#[derive(Debug, Clone, Copy, PartialEq, Eq, Structural)]
pub enum ModelType {
    Primitive,
    Object,
    Array,
}

/// The mathematical value of a `Model`.
pub struct ModelView {
    pub def: Seq<char>,
    pub name: Seq<char>,
    pub schema_type: Seq<char>,
    pub properties: Seq<ModelView>,
    pub readonly: bool,
    pub additional_properties: Option<Box<ModelView>>,
    pub items: Option<Box<ModelView>>,
    pub description: Option<Seq<char>>,
    pub format: Option<Seq<char>>,
    pub nullable: bool,
    pub ref_path: Option<Seq<char>>,
    pub extensions: Seq<(Seq<char>, Seq<char>)>,
    pub is_object: bool,
    pub is_array: bool,
    pub is_primitive: bool,
    pub has_date: bool,
    pub has_datetime: bool,
    pub object_properties: Seq<ModelView>,
    pub array_properties: Seq<ModelView>,
    pub primitive_properties: Seq<ModelView>,
}

/// A node of the model tree.
pub struct Model {
    /// The top-level type that owns this node.
    pub def: String,
    /// The local name; the key at top level.
    pub name: String,
    /// The raw OpenAPI type before translation, the target type after.
    pub schema_type: String,
    pub properties: Vec<Box<Model>>,
    pub readonly: bool,
    pub additional_properties: Option<Box<Model>>,
    pub items: Option<Box<Model>>,
    pub description: Option<String>,
    pub format: Option<String>,
    pub nullable: bool,
    pub ref_path: Option<String>,
    /// Vendor extensions, each value as JSON text.
    pub extensions: Vec<(String, String)>,
    pub is_object: bool,
    pub is_array: bool,
    pub is_primitive: bool,
    pub has_date: bool,
    pub has_datetime: bool,
    pub object_properties: Vec<Box<Model>>,
    pub array_properties: Vec<Box<Model>>,
    pub primitive_properties: Vec<Box<Model>>,
}

pub open spec fn model_views(s: Seq<Box<Model>>) -> Seq<ModelView>
    decreases s, 0int,
{
    if s.len() == 0 {
        Seq::empty()
    } else {
        model_views(s.drop_last()).push(s.last().model_view())
    }
}

pub open spec fn opt_model_view(o: Option<Box<Model>>) -> Option<Box<ModelView>>
    decreases o, 0int,
{
    match o {
        Some(b) => Some(Box::new(b.model_view())),
        None => None,
    }
}

impl View for Model {
    type V = ModelView;

    open spec fn view(&self) -> ModelView {
        self.model_view()
    }
}

impl Model {
    /// The value of the tree under this node.
    pub open spec fn model_view(&self) -> ModelView
        decreases self, 1int,
    {
        ModelView {
            def: self.def@,
            name: self.name@,
            schema_type: self.schema_type@,
            properties: model_views(self.properties@),
            readonly: self.readonly,
            additional_properties: opt_model_view(self.additional_properties),
            items: opt_model_view(self.items),
            description: opt_view(self.description),
            format: opt_view(self.format),
            nullable: self.nullable,
            ref_path: opt_view(self.ref_path),
            extensions: pairs_view(self.extensions@),
            is_object: self.is_object,
            is_array: self.is_array,
            is_primitive: self.is_primitive,
            has_date: self.has_date,
            has_datetime: self.has_datetime,
            object_properties: model_views(self.object_properties@),
            array_properties: model_views(self.array_properties@),
            primitive_properties: model_views(self.primitive_properties@),
        }
    }
}

pub proof fn lemma_model_views(s: Seq<Box<Model>>)
    ensures
        model_views(s).len() == s.len(),
        forall|i: int| 0 <= i < s.len() ==> #[trigger] model_views(s)[i] == s[i]@,
    decreases s.len(),
{
    if s.len() > 0 {
        lemma_model_views(s.drop_last());
    }
}

/// Whether a node has kind `k`, by its kind flags.
pub open spec fn has_kind(m: ModelView, k: ModelType) -> bool {
    match k {
        ModelType::Object => m.is_object,
        ModelType::Array => m.is_array,
        ModelType::Primitive => m.is_primitive,
    }
}

/// The kind of a node: array before object before primitive.
pub open spec fn kind_of(m: ModelView) -> ModelType {
    if m.is_array {
        ModelType::Array
    } else if m.is_object {
        ModelType::Object
    } else {
        ModelType::Primitive
    }
}

/// The nodes of `s` of kind `k`, in order.
pub open spec fn filter_kind(s: Seq<ModelView>, k: ModelType) -> Seq<ModelView>
    decreases s.len(),
{
    if s.len() == 0 {
        Seq::empty()
    } else if has_kind(s.last(), k) {
        filter_kind(s.drop_last(), k).push(s.last())
    } else {
        filter_kind(s.drop_last(), k)
    }
}

/// Whether some node of `s` has format `f`.
pub open spec fn any_format(s: Seq<ModelView>, f: Seq<char>) -> bool
    decreases s.len(),
{
    if s.len() == 0 {
        false
    } else {
        s.last().format == Some(f) || any_format(s.drop_last(), f)
    }
}

/// The partition view of kind `k` of a node.
pub open spec fn kind_view(m: ModelView, k: ModelType) -> Seq<ModelView> {
    match k {
        ModelType::Object => m.object_properties,
        ModelType::Array => m.array_properties,
        ModelType::Primitive => m.primitive_properties,
    }
}

/// The children of kind `k` seen through an additional-properties node.
pub open spec fn extra_view(ap: Option<Box<ModelView>>, k: ModelType) -> Seq<ModelView> {
    match ap {
        Some(a) => kind_view(*a, k),
        None => Seq::empty(),
    }
}

/// The partition of the children of `m` by kind `k`: its own properties of
/// that kind, then those of its additional-properties node.
pub open spec fn partition(m: ModelView, k: ModelType) -> Seq<ModelView> {
    filter_kind(m.properties, k) + filter_kind(extra_view(m.additional_properties, k), k)
}

/// `m` with its kind flags, date flags and partition views derived from
/// its type label and children.
pub open spec fn with_derived(m: ModelView) -> ModelView {
    let is_object = m.schema_type == "object"@;
    let is_array = m.schema_type == "array"@;
    ModelView {
        is_object,
        is_array,
        is_primitive: !is_array && !is_object,
        has_date: any_format(m.properties, "date"@),
        has_datetime: any_format(m.properties, "date-time"@),
        object_properties: partition(m, ModelType::Object),
        array_properties: partition(m, ModelType::Array),
        primitive_properties: partition(m, ModelType::Primitive),
        ..m
    }
}

/// The type label of a schema: its `type`, or "object" when absent.
pub open spec fn schema_type_of(s: Schema) -> Seq<char> {
    match s.schema_type {
        Some(t) => t@,
        None => "object"@,
    }
}

/// The name that a schema's `$ref` points to, or empty.
pub open spec fn ref_name_of(s: Schema) -> Seq<char> {
    match s.ref_path {
        Some(r) => match name_from_ref(r@) {
            Some(n) => n,
            None => Seq::empty(),
        },
        None => Seq::empty(),
    }
}

/// The model node built from schema `s` under local name `name` and owner
/// `def`; an empty `def` is taken from the schema's `$ref`.
pub open spec fn build(name: Seq<char>, s: Schema, def: Seq<char>) -> ModelView
    decreases s, 1int,
{
    with_derived(
        ModelView {
            def: if def.len() == 0 {
                ref_name_of(s)
            } else {
                def
            },
            name,
            schema_type: schema_type_of(s),
            properties: build_properties(s.properties@),
            readonly: match s.read_only {
                Some(b) => b,
                None => false,
            },
            additional_properties: match s.additional_properties {
                Some(ObjectOrReference::Object(b)) => Some(
                    Box::new(build(Seq::empty(), *b, Seq::empty())),
                ),
                _ => None,
            },
            items: match s.items {
                Some(b) => Some(Box::new(build(ref_name_of(*b), *b, Seq::empty()))),
                None => None,
            },
            description: opt_view(s.description),
            format: opt_view(s.format),
            nullable: match s.nullable {
                Some(b) => b,
                None => false,
            },
            ref_path: opt_view(s.ref_path),
            extensions: pairs_view(s.extensions@),
            is_object: false,
            is_array: false,
            is_primitive: false,
            has_date: false,
            has_datetime: false,
            object_properties: Seq::empty(),
            array_properties: Seq::empty(),
            primitive_properties: Seq::empty(),
        },
    )
}

/// The nodes built from the named property schemas `ps`, in order.
pub open spec fn build_properties(ps: Seq<(String, Schema)>) -> Seq<ModelView>
    decreases ps, 0int,
{
    if ps.len() == 0 {
        Seq::empty()
    } else {
        build_properties(ps.drop_last()).push(build(ps.last().0@, ps.last().1, Seq::empty()))
    }
}

pub proof fn lemma_build_properties_len(ps: Seq<(String, Schema)>)
    ensures
        build_properties(ps).len() == ps.len(),
        forall|i: int|
            0 <= i < ps.len() ==> #[trigger] build_properties(ps)[i] == build(
                ps[i].0@,
                ps[i].1,
                Seq::empty(),
            ),
    decreases ps.len(),
{
    if ps.len() > 0 {
        lemma_build_properties_len(ps.drop_last());
    }
}

/// Deep copies of `v`, in order.
pub fn clone_models(v: &Vec<Box<Model>>) -> (r: Vec<Box<Model>>)
    ensures
        model_views(r@) == model_views(v@),
    decreases v, 0int,
{
    let mut out: Vec<Box<Model>> = Vec::new();
    let n = v.len();
    for i in 0..n
        invariant
            n == v@.len(),
            model_views(out@) == model_views(v@.subrange(0, i as int)),
    {
        let c = v[i].deep_clone();
        let ghost before = out@;
        out.push(Box::new(c));
        assert(out@.drop_last() == before);
        assert(v@.subrange(0, i + 1).drop_last() == v@.subrange(0, i as int));
    }
    assert(v@.subrange(0, n as int) == v@);
    out
}

/// Appends to `out` deep copies of the nodes of `src` that have kind `k`.
fn append_kind(src: &Vec<Box<Model>>, k: ModelType, out: &mut Vec<Box<Model>>)
    ensures
        model_views(final(out)@) == model_views(old(out)@) + filter_kind(model_views(src@), k),
{
    let ghost start = model_views(out@);
    let ghost vs = model_views(src@);
    proof {
        lemma_model_views(src@);
    }
    let n = src.len();
    for i in 0..n
        invariant
            n == src@.len(),
            vs == model_views(src@),
            vs.len() == n,
            forall|j: int| 0 <= j < n ==> #[trigger] vs[j] == src@[j]@,
            model_views(out@) == start + filter_kind(vs.subrange(0, i as int), k),
    {
        assert(vs.subrange(0, i + 1).drop_last() == vs.subrange(0, i as int));
        assert(vs.subrange(0, i + 1).last() == vs[i as int]);
        let m: &Box<Model> = &src[i];
        let keep = match k {
            ModelType::Object => m.is_object,
            ModelType::Array => m.is_array,
            ModelType::Primitive => m.is_primitive,
        };
        if keep {
            let c = m.deep_clone();
            let ghost before = out@;
            out.push(Box::new(c));
            assert(out@.drop_last() == before);
            assert(model_views(out@) == start + filter_kind(vs.subrange(0, i + 1), k));
        }
    }
    assert(vs.subrange(0, n as int) == vs);
}

/// Whether some node of `v` has format `f`.
fn any_has_format(v: &Vec<Box<Model>>, f: &str) -> (r: bool)
    ensures
        r == any_format(model_views(v@), f@),
{
    let ghost vs = model_views(v@);
    proof {
        lemma_model_views(v@);
    }
    let n = v.len();
    let mut found = false;
    for i in 0..n
        invariant
            n == v@.len(),
            vs == model_views(v@),
            vs.len() == n,
            forall|j: int| 0 <= j < n ==> #[trigger] vs[j] == v@[j]@,
            found == any_format(vs.subrange(0, i as int), f@),
    {
        assert(vs.subrange(0, i + 1).drop_last() == vs.subrange(0, i as int));
        assert(vs.subrange(0, i + 1).last() == vs[i as int]);
        let here = match &v[i].format {
            Some(x) => same_text(x.as_str(), f),
            None => false,
        };
        found = here || found;
    }
    assert(vs.subrange(0, n as int) == vs);
    found
}

/// `m` with its kind flags, date flags and partition views derived.
fn derive_facts(m: Model) -> (r: Model)
    ensures
        r@ == with_derived(m@),
{
    let is_object = same_text(m.schema_type.as_str(), "object");
    let is_array = same_text(m.schema_type.as_str(), "array");
    let has_date = any_has_format(&m.properties, "date");
    let has_datetime = any_has_format(&m.properties, "date-time");
    let mut object_properties: Vec<Box<Model>> = Vec::new();
    let mut array_properties: Vec<Box<Model>> = Vec::new();
    let mut primitive_properties: Vec<Box<Model>> = Vec::new();
    append_kind(&m.properties, ModelType::Object, &mut object_properties);
    append_kind(&m.properties, ModelType::Array, &mut array_properties);
    append_kind(&m.properties, ModelType::Primitive, &mut primitive_properties);
    let ghost ap = m@.additional_properties;
    match &m.additional_properties {
        Some(a) => {
            assert(ap == Some(Box::new(a.model_view())));
            assert(extra_view(ap, ModelType::Object) == model_views(a.object_properties@));
            assert(extra_view(ap, ModelType::Array) == model_views(a.array_properties@));
            assert(extra_view(ap, ModelType::Primitive) == model_views(a.primitive_properties@));
            append_kind(&a.object_properties, ModelType::Object, &mut object_properties);
            append_kind(&a.array_properties, ModelType::Array, &mut array_properties);
            append_kind(&a.primitive_properties, ModelType::Primitive, &mut primitive_properties);
        },
        None => {
            assert(extra_view(ap, ModelType::Object) =~= Seq::empty());
            assert(extra_view(ap, ModelType::Array) =~= Seq::empty());
            assert(extra_view(ap, ModelType::Primitive) =~= Seq::empty());
            assert(filter_kind(Seq::empty(), ModelType::Object) =~= Seq::empty());
            assert(filter_kind(Seq::empty(), ModelType::Array) =~= Seq::empty());
            assert(filter_kind(Seq::empty(), ModelType::Primitive) =~= Seq::empty());
        },
    }
    assert(model_views(object_properties@) == partition(m@, ModelType::Object));
    assert(model_views(array_properties@) == partition(m@, ModelType::Array));
    assert(model_views(primitive_properties@) == partition(m@, ModelType::Primitive));
    let r = Model {
        is_object,
        is_array,
        is_primitive: !is_array && !is_object,
        has_date,
        has_datetime,
        object_properties,
        array_properties,
        primitive_properties,
        ..m
    };
    assert(r@ =~= with_derived(m@));
    r
}

impl Model {
    /// Builds the model node for `schema`, named `name`, owned by `def`
    /// (taken from the schema's `$ref` when empty).
    pub fn new(name: &str, schema: &Schema, def: &str) -> (r: Model)
        ensures
            r@ == build(name@, *schema, def@),
        decreases schema,
    {
        proof {
            reveal_strlit("");
        }
        let mut properties: Vec<Box<Model>> = Vec::new();
        let n = schema.properties.len();
        for i in 0..n
            invariant
                n == schema.properties@.len(),
                ""@ == Seq::<char>::empty(),
                model_views(properties@) == build_properties(
                    schema.properties@.subrange(0, i as int),
                ),
        {
            let p = &schema.properties[i];
            let child = Model::new(p.0.as_str(), &p.1, "");
            let ghost before = properties@;
            properties.push(Box::new(child));
            assert(properties@.drop_last() == before);
            assert(schema.properties@.subrange(0, i + 1).drop_last() == schema.properties@.subrange(
                0,
                i as int,
            ));
        }
        assert(schema.properties@.subrange(0, n as int) == schema.properties@);
        let additional_properties = match &schema.additional_properties {
            Some(ObjectOrReference::Object(b)) => Some(Box::new(Model::new("", b, ""))),
            _ => None,
        };
        let items = match &schema.items {
            Some(b) => {
                let item_name = match &b.ref_path {
                    Some(rp) => match model_name_from_ref(rp.as_str()) {
                        Some(x) => x,
                        None => String::new(),
                    },
                    None => String::new(),
                };
                Some(Box::new(Model::new(item_name.as_str(), b, "")))
            },
            None => None,
        };
        let schema_type = match &schema.schema_type {
            Some(t) => t.clone(),
            None => "object".to_owned(),
        };
        let def_name = if def.is_empty() {
            match &schema.ref_path {
                Some(rp) => match model_name_from_ref(rp.as_str()) {
                    Some(x) => x,
                    None => String::new(),
                },
                None => String::new(),
            }
        } else {
            def.to_owned()
        };
        let base = Model {
            def: def_name,
            name: name.to_owned(),
            schema_type,
            properties,
            readonly: match schema.read_only {
                Some(b) => b,
                None => false,
            },
            additional_properties,
            items,
            description: clone_opt(&schema.description),
            format: clone_opt(&schema.format),
            nullable: match schema.nullable {
                Some(b) => b,
                None => false,
            },
            ref_path: clone_opt(&schema.ref_path),
            extensions: clone_pairs(&schema.extensions),
            is_object: false,
            is_array: false,
            is_primitive: false,
            has_date: false,
            has_datetime: false,
            object_properties: Vec::new(),
            array_properties: Vec::new(),
            primitive_properties: Vec::new(),
        };
        assert(model_views(base.object_properties@) =~= Seq::empty());
        assert(model_views(base.array_properties@) =~= Seq::empty());
        assert(model_views(base.primitive_properties@) =~= Seq::empty());
        let r = derive_facts(base);
        r
    }

    /// A copy of the whole tree under this node.
    pub fn deep_clone(&self) -> (r: Model)
        ensures
            r@ == self@,
        decreases self, 1int,
    {
        let additional_properties = match &self.additional_properties {
            Some(b) => Some(Box::new(b.deep_clone())),
            None => None,
        };
        let items = match &self.items {
            Some(b) => Some(Box::new(b.deep_clone())),
            None => None,
        };
        Model {
            def: self.def.clone(),
            name: self.name.clone(),
            schema_type: self.schema_type.clone(),
            properties: clone_models(&self.properties),
            readonly: self.readonly,
            additional_properties,
            items,
            description: clone_opt(&self.description),
            format: clone_opt(&self.format),
            nullable: self.nullable,
            ref_path: clone_opt(&self.ref_path),
            extensions: clone_pairs(&self.extensions),
            is_object: self.is_object,
            is_array: self.is_array,
            is_primitive: self.is_primitive,
            has_date: self.has_date,
            has_datetime: self.has_datetime,
            object_properties: clone_models(&self.object_properties),
            array_properties: clone_models(&self.array_properties),
            primitive_properties: clone_models(&self.primitive_properties),
        }
    }

    /// The kind of this node.
    pub fn model_type(&self) -> (r: ModelType)
        ensures
            r == kind_of(self@),
    {
        if self.is_array {
            ModelType::Array
        } else if self.is_object {
            ModelType::Object
        } else {
            ModelType::Primitive
        }
    }
}

} // verus!

verus! {

/// Why a model could not be normalized.
pub enum NormalizeError {
    /// No top-level model has this defining name.
    MissingModel(String),
    /// This array node has no items.
    MissingItems(String),
}

/// The values of a sequence of models.
pub open spec fn views(s: Seq<Model>) -> Seq<ModelView> {
    s.map_values(|m: Model| m@)
}

/// The last model of `ms` whose defining name is `d`.
pub open spec fn lookup_def(ms: Seq<ModelView>, d: Seq<char>) -> Option<ModelView>
    decreases ms.len(),
{
    if ms.len() == 0 {
        None
    } else if ms.last().def == d {
        Some(ms.last())
    } else {
        lookup_def(ms.drop_last(), d)
    }
}

/// Each object node of `s` replaced by the top-level model of its defining name.
pub open spec fn normalized_objects(s: Seq<ModelView>, ms: Seq<ModelView>) -> Option<Seq<ModelView>>
    decreases s.len(),
{
    if s.len() == 0 {
        Some(Seq::empty())
    } else {
        match (normalized_objects(s.drop_last(), ms), lookup_def(ms, s.last().def)) {
            (Some(r), Some(t)) => Some(r.push(t)),
            _ => None,
        }
    }
}

/// An array node whose object items are replaced by the top-level model of
/// their defining name; other items are kept.
pub open spec fn normalized_array(a: ModelView, ms: Seq<ModelView>) -> Option<ModelView> {
    match a.items {
        None => None,
        Some(it) => if it.is_object {
            match lookup_def(ms, it.def) {
                Some(t) => Some(ModelView { items: Some(Box::new(t)), ..a }),
                None => None,
            }
        } else {
            Some(a)
        },
    }
}

/// Each array node of `s` normalized.
pub open spec fn normalized_arrays(s: Seq<ModelView>, ms: Seq<ModelView>) -> Option<Seq<ModelView>>
    decreases s.len(),
{
    if s.len() == 0 {
        Some(Seq::empty())
    } else {
        match (normalized_arrays(s.drop_last(), ms), normalized_array(s.last(), ms)) {
            (Some(r), Some(t)) => Some(r.push(t)),
            _ => None,
        }
    }
}

/// `m` with its object view and array view linked against the top-level
/// models `ms`; `None` on a dangling reference or an array without items.
pub open spec fn normalize_view(m: ModelView, ms: Seq<ModelView>) -> Option<ModelView> {
    match (normalized_objects(m.object_properties, ms), normalized_arrays(m.array_properties, ms)) {
        (Some(o), Some(a)) => Some(ModelView { object_properties: o, array_properties: a, ..m }),
        _ => None,
    }
}

/// Every model of `s` normalized against `ms`.
pub open spec fn normalize_list(s: Seq<ModelView>, ms: Seq<ModelView>) -> Option<Seq<ModelView>>
    decreases s.len(),
{
    if s.len() == 0 {
        Some(Seq::empty())
    } else {
        match (normalize_list(s.drop_last(), ms), normalize_view(s.last(), ms)) {
            (Some(r), Some(t)) => Some(r.push(t)),
            _ => None,
        }
    }
}

/// A copy of the last model of `models` whose defining name is `d`.
fn find_def(models: &Vec<Model>, d: &str) -> (r: Option<Model>)
    ensures
        match r {
            Some(m) => lookup_def(views(models@), d@) == Some(m@),
            None => lookup_def(views(models@), d@) is None,
        },
{
    let ghost ms = views(models@);
    let mut i: usize = models.len();
    assert(ms.subrange(0, i as int) == ms);
    while i > 0
        invariant
            i <= models@.len(),
            ms == views(models@),
            lookup_def(ms, d@) == lookup_def(ms.subrange(0, i as int), d@),
        decreases i,
    {
        assert(ms.subrange(0, i as int).drop_last() == ms.subrange(0, i - 1));
        assert(ms.subrange(0, i as int).last() == models@[i - 1]@);
        if same_text(models[i - 1].def.as_str(), d) {
            return Some(models[i - 1].deep_clone());
        }
        i = i - 1;
    }
    None
}

impl Model {
    /// Replaces each object node of the object view by a copy of the
    /// top-level model of the same defining name, and the object items of
    /// each array node of the array view likewise.
    pub fn normalize(self, models: &Vec<Model>) -> (r: Result<Model, NormalizeError>)
        ensures
            match r {
                Ok(n) => normalize_view(self@, views(models@)) == Some(n@),
                Err(e) => normalize_view(self@, views(models@)) is None && match e {
                    NormalizeError::MissingModel(d) => lookup_def(views(models@), d@) is None,
                    NormalizeError::MissingItems(_) => true,
                },
            },
    {
        let ghost ms = views(models@);
        let ghost objs = model_views(self.object_properties@);
        let ghost arrs = model_views(self.array_properties@);
        proof {
            lemma_model_views(self.object_properties@);
            lemma_model_views(self.array_properties@);
        }
        let mut object_properties: Vec<Box<Model>> = Vec::new();
        let n = self.object_properties.len();
        for i in 0..n
            invariant
                n == self.object_properties@.len(),
                ms == views(models@),
                objs == model_views(self.object_properties@),
                objs.len() == n,
                forall|j: int| 0 <= j < n ==> #[trigger] objs[j] == self.object_properties@[j]@,
                normalized_objects(objs.subrange(0, i as int), ms) == Some(
                    model_views(object_properties@),
                ),
        {
            assert(objs.subrange(0, i + 1).drop_last() == objs.subrange(0, i as int));
            assert(objs.subrange(0, i + 1).last() == objs[i as int]);
            match find_def(models, self.object_properties[i].def.as_str()) {
                Some(t) => {
                    let ghost before = object_properties@;
                    object_properties.push(Box::new(t));
                    assert(object_properties@.drop_last() == before);
                },
                None => {
                    proof {
                        lemma_normalized_objects_prefix(objs, ms, i as int + 1);
                    }
                    return Err(NormalizeError::MissingModel(self.object_properties[i].def.clone()));
                },
            }
        }
        assert(objs.subrange(0, n as int) == objs);
        let mut array_properties: Vec<Box<Model>> = Vec::new();
        let m = self.array_properties.len();
        for i in 0..m
            invariant
                m == self.array_properties@.len(),
                ms == views(models@),
                arrs == model_views(self.array_properties@),
                arrs.len() == m,
                forall|j: int| 0 <= j < m ==> #[trigger] arrs[j] == self.array_properties@[j]@,
                normalized_arrays(arrs.subrange(0, i as int), ms) == Some(
                    model_views(array_properties@),
                ),
                normalized_objects(objs, ms) == Some(model_views(object_properties@)),
        {
            assert(arrs.subrange(0, i + 1).drop_last() == arrs.subrange(0, i as int));
            assert(arrs.subrange(0, i + 1).last() == arrs[i as int]);
            let a: &Box<Model> = &self.array_properties[i];
            let fixed: Model = match &a.items {
                None => {
                    assert(arrs[i as int].items is None);
                    proof {
                        lemma_normalized_arrays_prefix(arrs, ms, i as int + 1);
                    }
                    return Err(NormalizeError::MissingItems(a.name.clone()));
                },
                Some(it) => {
                    assert(arrs[i as int].items == Some(Box::new(it.model_view())));
                    assert(arrs[i as int].items.unwrap().def == it.def@);
                    assert(arrs[i as int].items.unwrap().is_object == it.is_object);
                    if it.is_object {
                        match find_def(models, it.def.as_str()) {
                            Some(t) => {
                                let mut c = a.deep_clone();
                                c.items = Some(Box::new(t));
                                assert(c@ =~= normalized_array(arrs[i as int], ms).unwrap());
                                c
                            },
                            None => {
                                proof {
                                    lemma_normalized_arrays_prefix(arrs, ms, i as int + 1);
                                }
                                return Err(NormalizeError::MissingModel(it.def.clone()));
                            },
                        }
                    } else {
                        a.deep_clone()
                    }
                },
            };
            let ghost before = array_properties@;
            array_properties.push(Box::new(fixed));
            assert(array_properties@.drop_last() == before);
        }
        assert(arrs.subrange(0, m as int) == arrs);
        let r = Model { object_properties, array_properties, ..self };
        assert(r@ =~= normalize_view(self@, ms).unwrap());
        Ok(r)
    }
}

proof fn lemma_normalized_objects_prefix(s: Seq<ModelView>, ms: Seq<ModelView>, k: int)
    requires
        0 <= k <= s.len(),
        normalized_objects(s.subrange(0, k), ms) is None,
    ensures
        normalized_objects(s, ms) is None,
    decreases s.len() - k,
{
    if k < s.len() {
        assert(s.subrange(0, k + 1).drop_last() == s.subrange(0, k));
        lemma_normalized_objects_prefix(s, ms, k + 1);
    } else {
        assert(s.subrange(0, k) == s);
    }
}

proof fn lemma_normalized_arrays_prefix(s: Seq<ModelView>, ms: Seq<ModelView>, k: int)
    requires
        0 <= k <= s.len(),
        normalized_arrays(s.subrange(0, k), ms) is None,
    ensures
        normalized_arrays(s, ms) is None,
    decreases s.len() - k,
{
    if k < s.len() {
        assert(s.subrange(0, k + 1).drop_last() == s.subrange(0, k));
        lemma_normalized_arrays_prefix(s, ms, k + 1);
    } else {
        assert(s.subrange(0, k) == s);
    }
}

} // verus!

verus! {

/// Normalizes every model of `models` against `models` itself, the
/// top-level models keyed by defining name.
pub fn normalize_models(models: Vec<Model>) -> (r: Result<Vec<Model>, NormalizeError>)
    ensures
        match r {
            Ok(v) => normalize_list(views(models@), views(models@)) == Some(views(v@)),
            Err(_) => normalize_list(views(models@), views(models@)) is None,
        },
{
    let ghost ms = views(models@);
    let mut out: Vec<Model> = Vec::new();
    let n = models.len();
    for i in 0..n
        invariant
            n == models@.len(),
            ms == views(models@),
            normalize_list(ms.subrange(0, i as int), ms) == Some(views(out@)),
    {
        assert(ms.subrange(0, i + 1).drop_last() == ms.subrange(0, i as int));
        assert(ms.subrange(0, i + 1).last() == models@[i as int]@);
        let m = models[i].deep_clone();
        match m.normalize(&models) {
            Ok(x) => {
                let ghost before = out@;
                out.push(x);
                assert(views(out@) =~= views(before).push(x@));
                assert(views(out@).drop_last() =~= views(before));
            },
            Err(e) => {
                proof {
                    lemma_normalize_list_prefix(ms, ms, i as int + 1);
                }
                return Err(e);
            },
        }
    }
    assert(ms.subrange(0, n as int) == ms);
    Ok(out)
}

proof fn lemma_normalize_list_prefix(s: Seq<ModelView>, ms: Seq<ModelView>, k: int)
    requires
        0 <= k <= s.len(),
        normalize_list(s.subrange(0, k), ms) is None,
    ensures
        normalize_list(s, ms) is None,
    decreases s.len() - k,
{
    if k < s.len() {
        assert(s.subrange(0, k + 1).drop_last() == s.subrange(0, k));
        lemma_normalize_list_prefix(s, ms, k + 1);
    } else {
        assert(s.subrange(0, k) == s);
    }
}

} // verus!
