//! Parameters of path items and operations, resolved by location.
use vstd::prelude::*;
use crate::model::{build, Model, ModelView};
use crate::schema::{ObjectOrReference, Operation, Parameter, PathItem};
use crate::text::same_text;
use crate::util::{model_name_from_ref, name_from_ref};

verus! {

/// A parameter with the model of its value.
pub struct Param {
    pub name: String,
    pub model: Model,
    pub required: bool,
}

/// The mathematical value of a `Param`.
pub struct ParamView {
    pub name: Seq<char>,
    pub model: ModelView,
    pub required: bool,
}

impl View for Param {
    type V = ParamView;

    open spec fn view(&self) -> ParamView {
        ParamView { name: self.name@, model: self.model@, required: self.required }
    }
}

pub open spec fn param_views(s: Seq<Param>) -> Seq<ParamView> {
    s.map_values(|p: Param| p@)
}

/// The parameter built from `p`, when it has a schema.
pub open spec fn param_of(p: Parameter) -> Option<ParamView> {
    match p.schema {
        Some(s) => Some(
            ParamView {
                name: p.name@,
                model: build(p.name@, s, Seq::empty()),
                required: match p.required {
                    Some(b) => b,
                    None => false,
                },
            },
        ),
        None => None,
    }
}

/// The first component parameter named `n` that is given inline.
pub open spec fn find_param(comps: Seq<(String, ObjectOrReference<Parameter>)>, n: Seq<char>) -> Option<Parameter>
    decreases comps.len(),
{
    if comps.len() == 0 {
        None
    } else {
        match find_param(comps.drop_last(), n) {
            Some(p) => Some(p),
            None => match comps.last().1 {
                ObjectOrReference::Object(p) => if comps.last().0@ == n {
                    Some(p)
                } else {
                    None
                },
                _ => None,
            },
        }
    }
}

/// A declared parameter: inline, or looked up by the name its `$ref` points to.
pub open spec fn resolve_param(p: ObjectOrReference<Parameter>, comps: Seq<(String, ObjectOrReference<Parameter>)>) -> Option<Parameter> {
    match p {
        ObjectOrReference::Object(t) => Some(t),
        ObjectOrReference::Ref { ref_path } => match name_from_ref(ref_path@) {
            Some(n) => find_param(comps, n),
            None => None,
        },
    }
}

/// The parameters of `ps` at location `loc`, in declaration order; those
/// that cannot be resolved or have no schema are left out.
pub open spec fn params_for(
    ps: Seq<ObjectOrReference<Parameter>>,
    loc: Seq<char>,
    comps: Seq<(String, ObjectOrReference<Parameter>)>,
) -> Seq<ParamView>
    decreases ps.len(),
{
    if ps.len() == 0 {
        Seq::empty()
    } else {
        let r = params_for(ps.drop_last(), loc, comps);
        match resolve_param(ps.last(), comps) {
            Some(t) => if t.location@ == loc {
                match param_of(t) {
                    Some(pv) => r.push(pv),
                    None => r,
                }
            } else {
                r
            },
            None => r,
        }
    }
}

proof fn lemma_find_param_prefix(s: Seq<(String, ObjectOrReference<Parameter>)>, n: Seq<char>, j: int)
    requires
        0 <= j <= s.len(),
        find_param(s.subrange(0, j), n) is Some,
    ensures
        find_param(s, n) == find_param(s.subrange(0, j), n),
    decreases s.len() - j,
{
    if j < s.len() {
        assert(s.subrange(0, j + 1).drop_last() == s.subrange(0, j));
        lemma_find_param_prefix(s, n, j + 1);
    } else {
        assert(s.subrange(0, j) == s);
    }
}

fn from_param(p: &Parameter) -> (r: Option<Param>)
    ensures
        match r {
            Some(x) => param_of(*p) == Some(x@),
            None => param_of(*p) is None,
        },
{
    proof {
        reveal_strlit("");
    }
    match &p.schema {
        Some(s) => Some(
            Param {
                name: p.name.clone(),
                model: Model::new(p.name.as_str(), s, ""),
                required: match p.required {
                    Some(b) => b,
                    None => false,
                },
            },
        ),
        None => None,
    }
}

fn find_component<'a>(comps: &'a Vec<(String, ObjectOrReference<Parameter>)>, n: &str) -> (r: Option<&'a Parameter>)
    ensures
        match r {
            Some(p) => find_param(comps@, n@) == Some(*p),
            None => find_param(comps@, n@) is None,
        },
{
    let ghost cs = comps@;
    let len = comps.len();
    for i in 0..len
        invariant
            len == comps@.len(),
            cs == comps@,
            find_param(cs.subrange(0, i as int), n@) is None,
    {
        assert(cs.subrange(0, i + 1).drop_last() == cs.subrange(0, i as int));
        assert(cs.subrange(0, i + 1).last() == cs[i as int]);
        match &comps[i].1 {
            ObjectOrReference::Object(p) => {
                if same_text(comps[i].0.as_str(), n) {
                    proof {
                        lemma_find_param_prefix(cs, n@, i as int + 1);
                    }
                    return Some(p);
                }
            },
            _ => {},
        }
    }
    assert(cs.subrange(0, len as int) == cs);
    None
}

/// Resolves the declared parameters `ps` at `location`, in order. Those
/// declared by reference are looked up by name among `parameters`, the
/// component parameters, and left out when absent there.
pub fn params_at(
    ps: &Vec<ObjectOrReference<Parameter>>,
    location: &str,
    parameters: &Vec<(String, ObjectOrReference<Parameter>)>,
) -> (r: Vec<Param>)
    ensures
        param_views(r@) == params_for(ps@, location@, parameters@),
{
    let mut out: Vec<Param> = Vec::new();
    let n = ps.len();
    for i in 0..n
        invariant
            n == ps@.len(),
            param_views(out@) == params_for(ps@.subrange(0, i as int), location@, parameters@),
    {
        assert(ps@.subrange(0, i + 1).drop_last() == ps@.subrange(0, i as int));
        assert(ps@.subrange(0, i + 1).last() == ps@[i as int]);
        let resolved: Option<&Parameter> = match &ps[i] {
            ObjectOrReference::Object(t) => Some(t),
            ObjectOrReference::Ref { ref_path } => match model_name_from_ref(ref_path.as_str()) {
                Some(name) => find_component(parameters, name.as_str()),
                None => None,
            },
        };
        match resolved {
            Some(t) => {
                if same_text(t.location.as_str(), location) {
                    match from_param(t) {
                        Some(x) => {
                            let ghost before = out@;
                            out.push(x);
                            assert(param_views(out@) =~= param_views(before).push(x@));
                        },
                        None => {},
                    }
                }
            },
            None => {},
        }
    }
    assert(ps@.subrange(0, n as int) == ps@);
    out
}

/// The parameters of `operation` at `location`, in declaration order.
pub fn get_params_operation(
    operation: &Operation,
    location: &str,
    parameters: &Vec<(String, ObjectOrReference<Parameter>)>,
) -> (r: Vec<Param>)
    ensures
        param_views(r@) == params_for(operation.parameters@, location@, parameters@),
{
    params_at(&operation.parameters, location, parameters)
}

/// The parameters of the path item `path` at `location`, in declaration order.
pub fn get_params_path(
    path: &PathItem,
    location: &str,
    parameters: &Vec<(String, ObjectOrReference<Parameter>)>,
) -> (r: Vec<Param>)
    ensures
        param_views(r@) == params_for(path.parameters@, location@, parameters@),
{
    params_at(&path.parameters, location, parameters)
}

} // verus!

verus! {

/// Deep copies of `v`, in order.
pub fn clone_params(v: &Vec<Param>) -> (r: Vec<Param>)
    ensures
        param_views(r@) == param_views(v@),
{
    let mut out: Vec<Param> = Vec::new();
    let n = v.len();
    for i in 0..n
        invariant
            n == v@.len(),
            out@.len() == i,
            forall|j: int| 0 <= j < i ==> #[trigger] out@[j]@ == v@[j]@,
    {
        out.push(Param { name: v[i].name.clone(), model: v[i].model.deep_clone(), required: v[i].required });
    }
    assert(param_views(out@) =~= param_views(v@));
    out
}

} // verus!
