//! Language specifications: primitive type tables, formatter templates,
//! reserved words, and the translation of model trees into a target
//! language's types.
use vstd::prelude::*;
use crate::cases::{
    lower_case_of, pascal_case_of, screaming_snake_case_of, snake_case_of, to_lower, to_pascal,
    to_screaming_snake, to_snake, to_upper, upper_case_of,
};
use crate::model::{kind_of, lemma_model_views, model_views, opt_model_view, Model, ModelType, ModelView};
use crate::template::{render, render_template};
use crate::text::{
    assoc, clone_opt, clone_pairs, contains_text, lemma_assoc_first, lemma_assoc_prefix, lookup, opt_view, pairs_view,
    same_text, strings_view,
};
use crate::util::{join_relative, joined_path, model_name_from_ref, name_from_ref};

verus! {

/// A target type for one format of a primitive type.
pub struct Format {
    pub schema_type: String,
}

/// A primitive type of the table: its aliases and its target type per format.
pub struct Type {
    pub alias: Vec<String>,
    pub format: Vec<(String, Format)>,
}

/// A file to render unconditionally.
pub struct AddFile {
    pub filename: Option<String>,
    pub template: String,
    /// A key of the output paths (`in`).
    pub file_in: Option<String>,
    pub path: Option<String>,
}

/// A language specification.
pub struct Lang {
    /// The directory that the specification was read from.
    pub path: String,
    pub name: String,
    pub types: Vec<(String, Type)>,
    /// Formatter templates by rule name.
    pub format: Vec<(String, String)>,
    pub additional_files: Vec<AddFile>,
    pub paths: Vec<(String, String)>,
    pub templates: Vec<(String, String)>,
    pub reserved: Vec<String>,
}

/// Why a model could not be translated.
pub enum TranslateError {
    /// The primitive table has no entry for this type and format.
    UnknownPrimitive { field: String, schema_type: String },
    /// An array was met and the language has no "array" formatter.
    MissingArrayFormatter { field: String },
    /// An array node has no items.
    MissingItems { field: String },
    /// A `$ref` without a `/`.
    BadReference { field: String, ref_path: String },
}

/// The formatter context of a value: the value and its case forms.
pub open spec fn value_ctx(v: Seq<char>) -> Seq<(Seq<char>, Seq<char>)> {
    seq![
        ("value"@, v),
        ("value_lowercase"@, lower_case_of(v)),
        ("value_uppercase"@, upper_case_of(v)),
        ("value_pascalcase"@, pascal_case_of(v)),
        ("value_snakecase"@, snake_case_of(v)),
        ("value_screamingsnakecase"@, screaming_snake_case_of(v)),
    ]
}

/// The context of the "array" formatter for a field `name` of element type `ty`.
pub open spec fn array_ctx(name: Seq<char>, ty: Seq<char>) -> Seq<(Seq<char>, Seq<char>)> {
    value_ctx(name) + seq![("type"@, ty), ("name"@, name)]
}

/// The context of a type-wrapping formatter such as "nullable" for type `ty`.
pub open spec fn type_ctx(ty: Seq<char>) -> Seq<(Seq<char>, Seq<char>)> {
    value_ctx(ty) + seq![("type"@, ty)]
}

/// The "value" entry of a context, or empty.
pub open spec fn ctx_value(ctx: Seq<(Seq<char>, Seq<char>)>) -> Seq<char> {
    match assoc(ctx, "value"@) {
        Some(v) => v,
        None => Seq::empty(),
    }
}

/// The target types of a primitive type's formats, by format name.
pub open spec fn format_pairs(s: Seq<(String, Format)>) -> Seq<(Seq<char>, Seq<char>)> {
    s.map_values(|p: (String, Format)| (p.0@, p.1.schema_type@))
}

/// The target type of `ty` for format `f`, falling back to "default".
pub open spec fn format_target(ty: Type, f: Seq<char>) -> Option<Seq<char>> {
    match assoc(format_pairs(ty.format@), f) {
        Some(x) => Some(x),
        None => assoc(format_pairs(ty.format@), "default"@),
    }
}

/// Whether a table entry is for type `t`, by name or alias.
pub open spec fn type_matches(e: (String, Type), t: Seq<char>) -> bool {
    e.0@ == t || strings_view(e.1.alias@).contains(t)
}

/// The first entry of the table `s` for type `t`.
pub open spec fn find_type(s: Seq<(String, Type)>, t: Seq<char>) -> Option<Type>
    decreases s.len(),
{
    if s.len() == 0 {
        None
    } else {
        match find_type(s.drop_last(), t) {
            Some(x) => Some(x),
            None => if type_matches(s.last(), t) {
                Some(s.last().1)
            } else {
                None
            },
        }
    }
}

proof fn lemma_find_type_prefix(s: Seq<(String, Type)>, t: Seq<char>, j: int)
    requires
        0 <= j <= s.len(),
        find_type(s.subrange(0, j), t) is Some,
    ensures
        find_type(s, t) == find_type(s.subrange(0, j), t),
    decreases s.len() - j,
{
    if j < s.len() {
        assert(s.subrange(0, j + 1).drop_last() == s.subrange(0, j));
        lemma_find_type_prefix(s, t, j + 1);
    } else {
        assert(s.subrange(0, j) == s);
    }
}

proof fn lemma_translate_views_prefix(lang: Lang, s: Seq<ModelView>, j: int)
    requires
        0 <= j <= s.len(),
        lang.translate_views(s.subrange(0, j)) is None,
    ensures
        lang.translate_views(s) is None,
    decreases s.len() - j,
{
    if j < s.len() {
        assert(s.subrange(0, j + 1).drop_last() == s.subrange(0, j));
        lemma_translate_views_prefix(lang, s, j + 1);
    } else {
        assert(s.subrange(0, j) == s);
    }
}

/// The context of a value: the value and its case forms.
pub fn value_context(value: &str) -> (r: Vec<(String, String)>)
    ensures
        pairs_view(r@) == value_ctx(value@),
{
    let mut r: Vec<(String, String)> = Vec::new();
    r.push(("value".to_owned(), value.to_owned()));
    r.push(("value_lowercase".to_owned(), to_lower(value)));
    r.push(("value_uppercase".to_owned(), to_upper(value)));
    r.push(("value_pascalcase".to_owned(), to_pascal(value)));
    r.push(("value_snakecase".to_owned(), to_snake(value)));
    r.push(("value_screamingsnakecase".to_owned(), to_screaming_snake(value)));
    assert(pairs_view(r@) =~= value_ctx(value@));
    r
}

fn lookup_format(v: &Vec<(String, Format)>, key: &str) -> (r: Option<String>)
    ensures
        opt_view(r) == assoc(format_pairs(v@), key@),
{
    let ghost ps = format_pairs(v@);
    let n = v.len();
    for i in 0..n
        invariant
            n == v@.len(),
            ps == format_pairs(v@),
            assoc(ps.subrange(0, i as int), key@) is None,
    {
        assert(ps.subrange(0, i + 1).drop_last() == ps.subrange(0, i as int));
        assert(ps.subrange(0, i + 1).last() == (v@[i as int].0@, v@[i as int].1.schema_type@));
        if same_text(v[i].0.as_str(), key) {
            proof {
                lemma_assoc_prefix(ps, key@, i as int + 1);
            }
            return Some(v[i].1.schema_type.clone());
        }
    }
    assert(ps.subrange(0, n as int) == ps);
    None
}

impl Lang {
    /// The template of the formatter rule `key`.
    pub open spec fn formatter(self, key: Seq<char>) -> Option<Seq<char>> {
        assoc(pairs_view(self.format@), key)
    }

    /// Rule `key` rendered in `ctx`; the context's value when the rule is
    /// not defined or does not render.
    pub open spec fn spec_format_map(self, key: Seq<char>, ctx: Seq<(Seq<char>, Seq<char>)>) -> Seq<char> {
        match self.formatter(key) {
            Some(t) => match render(t, ctx) {
                Some(r) => r,
                None => ctx_value(ctx),
            },
            None => ctx_value(ctx),
        }
    }

    /// `value` passed through rule `key`. The "reserved" rule applies only
    /// to reserved words.
    pub open spec fn spec_format(self, key: Seq<char>, value: Seq<char>) -> Seq<char> {
        if key == "reserved"@ && !strings_view(self.reserved@).contains(value) {
            value
        } else {
            self.spec_format_map(key, value_ctx(value))
        }
    }

    /// A type name passed through "classname", then "object_property".
    pub open spec fn spec_modelname(self, name: Seq<char>) -> Seq<char> {
        self.spec_format("object_property"@, self.spec_format("classname"@, name))
    }

    /// The target type of primitive type `t` in format `f`.
    pub open spec fn primitive_target(self, t: Seq<char>, f: Seq<char>) -> Option<Seq<char>> {
        match find_type(self.types@, t) {
            Some(ty) => format_target(ty, f),
            None => None,
        }
    }

    /// The translated type label of `m`, given its translated items.
    pub open spec fn type_label(self, m: ModelView, items: Option<Option<Box<ModelView>>>) -> Option<Seq<char>> {
        let base = match kind_of(m) {
            ModelType::Array => match items {
                Some(Some(ti)) => match self.formatter("array"@) {
                    Some(_) => Some(self.spec_format_map("array"@, array_ctx(m.name, ti.schema_type))),
                    None => None,
                },
                _ => None,
            },
            ModelType::Object => match m.ref_path {
                Some(r) => match name_from_ref(r) {
                    Some(n) => Some(self.spec_modelname(n)),
                    None => None,
                },
                None => Some(self.spec_modelname(m.name)),
            },
            ModelType::Primitive => self.primitive_target(
                m.schema_type,
                match m.format {
                    Some(f) => f,
                    None => "default"@,
                },
            ),
        };
        match base {
            Some(t) => Some(
                if m.nullable {
                    self.spec_format_map("nullable"@, type_ctx(t))
                } else {
                    t
                },
            ),
            None => None,
        }
    }

    /// The translation of the tree under `m`; `None` when some node cannot
    /// be translated.
    pub open spec fn translate_view(self, m: ModelView) -> Option<ModelView>
        decreases m, 1int,
    {
        let items = self.translate_opt(m.items);
        match (
            self.type_label(m, items),
            self.translate_views(m.properties),
            self.translate_opt(m.additional_properties),
            items,
            self.translate_views(m.object_properties),
            self.translate_views(m.array_properties),
            self.translate_views(m.primitive_properties),
        ) {
            (Some(t), Some(p), Some(ap), Some(it), Some(o), Some(a), Some(pr)) => Some(
                ModelView {
                    schema_type: t,
                    name: self.spec_format("reserved"@, m.name),
                    properties: p,
                    additional_properties: ap,
                    items: it,
                    object_properties: o,
                    array_properties: a,
                    primitive_properties: pr,
                    ..m
                },
            ),
            _ => None,
        }
    }

    /// The translations of the trees of `s`, in order.
    pub open spec fn translate_views(self, s: Seq<ModelView>) -> Option<Seq<ModelView>>
        decreases s, 0int,
    {
        if s.len() == 0 {
            Some(Seq::empty())
        } else {
            match (self.translate_views(s.drop_last()), self.translate_view(s.last())) {
                (Some(r), Some(t)) => Some(r.push(t)),
                _ => None,
            }
        }
    }

    /// The translation of an optional child.
    pub open spec fn translate_opt(self, o: Option<Box<ModelView>>) -> Option<Option<Box<ModelView>>>
        decreases o, 0int,
    {
        match o {
            Some(b) => match self.translate_view(*b) {
                Some(t) => Some(Some(Box::new(t))),
                None => None,
            },
            None => Some(None),
        }
    }

    /// Renders the formatter rule `key` in `ctx`; gives back the context's
    /// "value" when the rule is not defined or does not render.
    pub fn format_map(&self, key: &str, ctx: &Vec<(String, String)>) -> (r: String)
        ensures
            r@ == self.spec_format_map(key@, pairs_view(ctx@)),
    {
        let fallback = match lookup(ctx, "value") {
            Some(v) => v,
            None => String::new(),
        };
        match lookup(&self.format, key) {
            Some(t) => match render_template(t.as_str(), ctx) {
                Some(x) => x,
                None => fallback,
            },
            None => fallback,
        }
    }

    /// Passes `value` through the formatter rule `key`. The rule "reserved"
    /// applies only to the language's reserved words.
    pub fn format(&self, key: &str, value: &str) -> (r: String)
        ensures
            r@ == self.spec_format(key@, value@),
    {
        proof {
        }
        if same_text(key, "reserved") && !contains_text(&self.reserved, value) {
            return value.to_owned();
        }
        let ctx = value_context(value);
        let r = self.format_map(key, &ctx);
        proof {
            lemma_assoc_first(value_ctx(value@), "value"@);
        }
        r
    }

    /// Passes a type name through "classname", then "object_property".
    pub fn translate_modelname(&self, name: &str) -> (r: String)
        ensures
            r@ == self.spec_modelname(name@),
    {
        let modelname = self.format("classname", name);
        self.format("object_property", modelname.as_str())
    }

    /// The target type of primitive type `schema_type` in format `format`,
    /// falling back to the type's "default" format.
    pub fn translate_primitive(&self, schema_type: &str, format: &str) -> (r: Option<String>)
        ensures
            opt_view(r) == self.primitive_target(schema_type@, format@),
    {
        let ghost ts = self.types@;
        let n = self.types.len();
        for i in 0..n
            invariant
                n == self.types@.len(),
                ts == self.types@,
                find_type(ts.subrange(0, i as int), schema_type@) is None,
        {
            assert(ts.subrange(0, i + 1).drop_last() == ts.subrange(0, i as int));
            assert(ts.subrange(0, i + 1).last() == ts[i as int]);
            let e = &self.types[i];
            if same_text(e.0.as_str(), schema_type) || contains_text(&e.1.alias, schema_type) {
                proof {
                    lemma_find_type_prefix(ts, schema_type@, i as int + 1);
                }
                return match lookup_format(&e.1.format, format) {
                    Some(x) => Some(x),
                    None => lookup_format(&e.1.format, "default"),
                };
            }
        }
        assert(ts.subrange(0, n as int) == ts);
        None
    }
}

} // verus!

verus! {

impl Lang {
    fn translate_list(&self, v: &Vec<Box<Model>>) -> (r: Result<Vec<Box<Model>>, TranslateError>)
        ensures
            match r {
                Ok(x) => self.translate_views(model_views(v@)) == Some(model_views(x@)),
                Err(_) => self.translate_views(model_views(v@)) is None,
            },
        decreases v, 0int,
    {
        let ghost vs = model_views(v@);
        proof {
            lemma_model_views(v@);
        }
        let mut out: Vec<Box<Model>> = Vec::new();
        let n = v.len();
        for i in 0..n
            invariant
                n == v@.len(),
                vs == model_views(v@),
                vs.len() == n,
                forall|j: int| 0 <= j < n ==> #[trigger] vs[j] == v@[j]@,
                self.translate_views(vs.subrange(0, i as int)) == Some(model_views(out@)),
        {
            assert(vs.subrange(0, i + 1).drop_last() == vs.subrange(0, i as int));
            assert(vs.subrange(0, i + 1).last() == vs[i as int]);
            match self.translate_node(&v[i]) {
                Ok(t) => {
                    let ghost before = out@;
                    out.push(Box::new(t));
                    assert(out@.drop_last() == before);
                },
                Err(e) => {
                    proof {
                        lemma_translate_views_prefix(*self, vs, i as int + 1);
                    }
                    return Err(e);
                },
            }
        }
        assert(vs.subrange(0, n as int) == vs);
        Ok(out)
    }

    fn translate_child(&self, o: &Option<Box<Model>>) -> (r: Result<Option<Box<Model>>, TranslateError>)
        ensures
            match r {
                Ok(x) => self.translate_opt(opt_model_view(*o)) == Some(opt_model_view(x)),
                Err(_) => self.translate_opt(opt_model_view(*o)) is None,
            },
        decreases o, 0int,
    {
        match o {
            Some(b) => match self.translate_node(b) {
                Ok(t) => Ok(Some(Box::new(t))),
                Err(e) => Err(e),
            },
            None => Ok(None),
        }
    }

    fn translate_type(&self, m: &Model, items: &Option<Box<Model>>) -> (r: Result<String, TranslateError>)
        ensures
            match r {
                Ok(t) => self.type_label(m@, Some(opt_model_view(*items))) == Some(t@),
                Err(_) => self.type_label(m@, Some(opt_model_view(*items))) is None,
            },
    {
        let base = match m.model_type() {
            ModelType::Array => match items {
                Some(ti) => {
                    match lookup(&self.format, "array") {
                        None => {
                            return Err(TranslateError::MissingArrayFormatter { field: m.name.clone() });
                        },
                        Some(_) => {},
                    }
                    let mut ctx = value_context(m.name.as_str());
                    ctx.push(("type".to_owned(), ti.schema_type.clone()));
                    ctx.push(("name".to_owned(), m.name.clone()));
                    assert(pairs_view(ctx@) =~= array_ctx(m.name@, ti.schema_type@));
                    self.format_map("array", &ctx)
                },
                None => {
                    return Err(TranslateError::MissingItems { field: m.name.clone() });
                },
            },
            ModelType::Object => match &m.ref_path {
                Some(rp) => match model_name_from_ref(rp.as_str()) {
                    Some(n) => self.translate_modelname(n.as_str()),
                    None => {
                        return Err(
                            TranslateError::BadReference { field: m.name.clone(), ref_path: rp.clone() },
                        );
                    },
                },
                None => self.translate_modelname(m.name.as_str()),
            },
            ModelType::Primitive => {
                let f = match &m.format {
                    Some(f) => f.clone(),
                    None => "default".to_owned(),
                };
                match self.translate_primitive(m.schema_type.as_str(), f.as_str()) {
                    Some(t) => t,
                    None => {
                        return Err(
                            TranslateError::UnknownPrimitive {
                                field: m.name.clone(),
                                schema_type: m.schema_type.clone(),
                            },
                        );
                    },
                }
            },
        };
        if m.nullable {
            let mut ctx = value_context(base.as_str());
            ctx.push(("type".to_owned(), base.clone()));
            assert(pairs_view(ctx@) =~= type_ctx(base@));
            Ok(self.format_map("nullable", &ctx))
        } else {
            Ok(base)
        }
    }

    pub(crate) fn translate_node(&self, m: &Model) -> (r: Result<Model, TranslateError>)
        ensures
            match r {
                Ok(t) => self.translate_view(m@) == Some(t@),
                Err(_) => self.translate_view(m@) is None,
            },
        decreases m, 1int,
    {
        let items = match self.translate_child(&m.items) {
            Ok(x) => x,
            Err(e) => {
                return Err(e);
            },
        };
        let schema_type = match self.translate_type(m, &items) {
            Ok(t) => t,
            Err(e) => {
                return Err(e);
            },
        };
        let properties = match self.translate_list(&m.properties) {
            Ok(x) => x,
            Err(e) => {
                return Err(e);
            },
        };
        let additional_properties = match self.translate_child(&m.additional_properties) {
            Ok(x) => x,
            Err(e) => {
                return Err(e);
            },
        };
        let object_properties = match self.translate_list(&m.object_properties) {
            Ok(x) => x,
            Err(e) => {
                return Err(e);
            },
        };
        let array_properties = match self.translate_list(&m.array_properties) {
            Ok(x) => x,
            Err(e) => {
                return Err(e);
            },
        };
        let primitive_properties = match self.translate_list(&m.primitive_properties) {
            Ok(x) => x,
            Err(e) => {
                return Err(e);
            },
        };
        let r = Model {
            def: m.def.clone(),
            name: self.format("reserved", m.name.as_str()),
            schema_type,
            properties,
            readonly: m.readonly,
            additional_properties,
            items,
            description: clone_opt(&m.description),
            format: clone_opt(&m.format),
            nullable: m.nullable,
            ref_path: clone_opt(&m.ref_path),
            extensions: clone_pairs(&m.extensions),
            is_object: m.is_object,
            is_array: m.is_array,
            is_primitive: m.is_primitive,
            has_date: m.has_date,
            has_datetime: m.has_datetime,
            object_properties,
            array_properties,
            primitive_properties,
        };
        assert(r@ =~= self.translate_view(m@).unwrap());
        Ok(r)
    }

    /// Translates the tree under `m`: each node's type label becomes a type
    /// of the target language, and each name passes the reserved-word rule.
    pub fn translate(&self, m: Model) -> (r: Result<Model, TranslateError>)
        ensures
            match r {
                Ok(t) => self.translate_view(m@) == Some(t@),
                Err(_) => self.translate_view(m@) is None,
            },
    {
        self.translate_node(&m)
    }
}

impl Model {
    /// Translates the tree under this node with `lang`.
    pub fn translate(self, lang: &Lang) -> (r: Result<Model, TranslateError>)
        ensures
            match r {
                Ok(t) => lang.translate_view(self@) == Some(t@),
                Err(_) => lang.translate_view(self@) is None,
            },
    {
        lang.translate(self)
    }
}

} // verus!

verus! {

/// What the pattern `^\{(\w+)\}$` captures in a path segment.
pub uninterp spec fn braced_word(seg: Seq<char>) -> Option<Seq<char>>;

/// Relies on `regex::Regex::captures` with the pattern `^\{(\w+)\}$`: the
/// word between the braces of a segment that is one `{word}`.
#[verifier::external_body]
fn path_param_name(seg: &str) -> (r: Option<String>)
    ensures
        opt_view(r) == braced_word(seg@),
        r matches Some(n) ==> seg@ == seq!['{'] + n@ + seq!['}'],
{
    let re = regex::Regex::new(r"^\{(\w+)\}$").unwrap();
    re.captures(seg).map(|c| c[1].to_string())
}

/// The segments of `p` between slashes, from index `i` on, the current
/// segment holding `cur` so far.
pub open spec fn split_from(p: Seq<char>, i: int, cur: Seq<char>) -> Seq<Seq<char>>
    decreases p.len() - i,
{
    if i < 0 || i >= p.len() {
        seq![cur]
    } else if p[i] == '/' {
        seq![cur] + split_from(p, i + 1, Seq::empty())
    } else {
        split_from(p, i + 1, cur.push(p[i]))
    }
}

/// The segments of `p` between slashes.
pub open spec fn path_segments(p: Seq<char>) -> Seq<Seq<char>> {
    split_from(p, 0, Seq::empty())
}

/// The strings of `s` joined with `/` between them.
pub open spec fn joined_with_slash(s: Seq<Seq<char>>) -> Seq<char>
    decreases s.len(),
{
    if s.len() == 0 {
        Seq::empty()
    } else if s.len() == 1 {
        s[0]
    } else {
        joined_with_slash(s.drop_last()) + seq!['/'] + s.last()
    }
}

/// Relies on `itertools::Itertools::join`: the items with `/` between them.
#[verifier::external_body]
fn join_slash(parts: &Vec<String>) -> (r: String)
    ensures
        r@ == joined_with_slash(strings_view(parts@)),
{
    itertools::Itertools::join(&mut parts.iter(), "/")
}

fn split_slash(p: &str) -> (r: Vec<String>)
    ensures
        strings_view(r@) == path_segments(p@),
{
    let c = crate::text::to_chars(p);
    let mut segs: Vec<String> = Vec::new();
    let mut cur: Vec<char> = Vec::new();
    let mut i: usize = 0;
    assert(strings_view(segs@) + path_segments(c@) =~= path_segments(c@));
    while i < c.len()
        invariant
            i <= c@.len(),
            c@ == p@,
            path_segments(c@) == strings_view(segs@) + split_from(c@, i as int, cur@),
        decreases c@.len() - i,
    {
        if c[i] == '/' {
            let s = crate::text::from_chars(cur.as_slice());
            let ghost before = segs@;
            segs.push(s);
            assert(strings_view(segs@) =~= strings_view(before).push(s@));
            assert(strings_view(before) + (seq![cur@] + split_from(c@, i + 1, Seq::empty())) =~= strings_view(segs@) + split_from(c@, i + 1, Seq::empty()));
            cur = Vec::new();
            assert(cur@ =~= Seq::<char>::empty());
        } else {
            cur.push(c[i]);
        }
        i = i + 1;
    }
    let s = crate::text::from_chars(cur.as_slice());
    let ghost before = segs@;
    segs.push(s);
    assert(strings_view(segs@) =~= strings_view(before).push(s@));
    assert(strings_view(before) + seq![cur@] =~= strings_view(segs@));
    segs
}

/// The mathematical value of an `AddFile`.
pub struct AddFileView {
    pub filename: Option<Seq<char>>,
    pub template: Seq<char>,
    pub file_in: Option<Seq<char>>,
    pub path: Option<Seq<char>>,
}

impl View for AddFile {
    type V = AddFileView;

    open spec fn view(&self) -> AddFileView {
        AddFileView {
            filename: opt_view(self.filename),
            template: self.template@,
            file_in: opt_view(self.file_in),
            path: opt_view(self.path),
        }
    }
}

pub open spec fn add_file_views(s: Seq<AddFile>) -> Seq<AddFileView> {
    s.map_values(|f: AddFile| f@)
}

/// `files` with each template resolved against the directory `dir`.
pub open spec fn files_relative_to(dir: Seq<char>, files: Seq<AddFileView>) -> Seq<AddFileView> {
    files.map_values(|f: AddFileView| AddFileView { template: joined_path(dir, f.template), ..f })
}

/// `files` with each template resolved against the directory `dir`.
pub fn files_relative(dir: &str, files: &Vec<AddFile>) -> (r: Vec<AddFile>)
    ensures
        add_file_views(r@) == files_relative_to(dir@, add_file_views(files@)),
{
    let mut out: Vec<AddFile> = Vec::new();
    let n = files.len();
    for i in 0..n
        invariant
            n == files@.len(),
            out@.len() == i,
            forall|j: int| 0 <= j < i ==> #[trigger] out@[j]@ == (AddFileView {
                template: joined_path(dir@, files@[j].template@),
                ..files@[j]@
            }),
    {
        let f = &files[i];
        out.push(
            AddFile {
                filename: clone_opt(&f.filename),
                template: join_relative(dir, f.template.as_str()),
                file_in: clone_opt(&f.file_in),
                path: clone_opt(&f.path),
            },
        );
    }
    assert(add_file_views(out@) =~= files_relative_to(dir@, add_file_views(files@)));
    out
}

impl Lang {
    /// A path segment passed through "pathparam" when it is one `{word}`.
    pub open spec fn format_segment(self, seg: Seq<char>) -> Seq<char> {
        match braced_word(seg) {
            Some(n) => self.spec_format("pathparam"@, n),
            None => seg,
        }
    }

    /// `p` with each `{param}` segment passed through "pathparam"; `p`
    /// itself when that rule is not defined.
    pub open spec fn spec_format_path(self, p: Seq<char>) -> Seq<char> {
        if self.formatter("pathparam"@) is None {
            p
        } else {
            joined_with_slash(path_segments(p).map_values(|s: Seq<char>| self.format_segment(s)))
        }
    }

    /// Formats each `{param}` segment of the URI template `p` with the
    /// "pathparam" rule, when the language defines one.
    pub fn format_path(&self, p: &str) -> (r: String)
        ensures
            r@ == self.spec_format_path(p@),
    {
        if lookup(&self.format, "pathparam").is_none() {
            return p.to_owned();
        }
        let segs = split_slash(p);
        let ghost sv = strings_view(segs@);
        let mut out: Vec<String> = Vec::new();
        let n = segs.len();
        for i in 0..n
            invariant
                n == segs@.len(),
                sv == strings_view(segs@),
                out@.len() == i,
                forall|j: int| 0 <= j < i ==> #[trigger] out@[j]@ == self.format_segment(sv[j]),
        {
            let seg = &segs[i];
            match path_param_name(seg.as_str()) {
                Some(name) => out.push(self.format("pathparam", name.as_str())),
                None => out.push(seg.clone()),
            }
        }
        assert(strings_view(out@) =~= sv.map_values(|s: Seq<char>| self.format_segment(s)));
        join_slash(&out)
    }

    /// The default output directory named `key`.
    pub fn default_path(&self, key: &str) -> (r: Option<String>)
        ensures
            opt_view(r) == assoc(pairs_view(self.paths@), key@),
    {
        lookup(&self.paths, key)
    }

    /// The default template named `key`, resolved against the directory of
    /// the language specification.
    pub fn default_template(&self, key: &str) -> (r: Option<String>)
        ensures
            opt_view(r) == match assoc(pairs_view(self.templates@), key@) {
                Some(t) => Some(joined_path(self.path@, t)),
                None => None,
            },
    {
        match lookup(&self.templates, key) {
            Some(t) => Some(join_relative(self.path.as_str(), t.as_str())),
            None => None,
        }
    }

    /// The additional files, with templates resolved against the directory
    /// of the language specification.
    pub fn additional_files_relative(&self) -> (r: Vec<AddFile>)
        ensures
            add_file_views(r@) == files_relative_to(self.path@, add_file_views(self.additional_files@)),
    {
        files_relative(self.path.as_str(), &self.additional_files)
    }

    /// Gives the output path "root" the value "" when it has none.
    pub fn set_default_root(&mut self)
        ensures
            *final(self) == (Lang { paths: final(self).paths, ..*old(self) }),
            pairs_view(final(self).paths@) == if assoc(pairs_view(old(self).paths@), "root"@) is None {
                pairs_view(old(self).paths@).push(("root"@, Seq::empty()))
            } else {
                pairs_view(old(self).paths@)
            },
    {
        if lookup(&self.paths, "root").is_none() {
            let ghost before = self.paths@;
            self.paths.push(("root".to_owned(), String::new()));
            assert(pairs_view(self.paths@) =~= pairs_view(before).push(("root"@, Seq::empty())));
        }
    }
}

} // verus!
