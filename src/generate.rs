//! The pipeline from a document to translated models and resource groups.
use vstd::prelude::*;
use crate::config::Config;
use crate::lang::{Lang, TranslateError};
use crate::model::{build, views, Model, ModelView};
use crate::resource::{group_resources, group_views, grouped, translate_groups, translate_resource_groups, GroupingStrategy, ResourceGroup};
use crate::schema::{ObjectOrReference, Schema, Spec};
use crate::text::{contains_text, strings_view};

verus! {

/// The inline component schemas by name, in order.
pub open spec fn component_entries(cs: Seq<(String, ObjectOrReference<Schema>)>) -> Seq<(Seq<char>, Schema)>
    decreases cs.len(),
{
    if cs.len() == 0 {
        Seq::empty()
    } else {
        component_entries(cs.drop_last()) + match cs.last().1 {
            ObjectOrReference::Object(s) => seq![(cs.last().0@, s)],
            _ => Seq::empty(),
        }
    }
}

/// The names of the inline component schemas, in order.
pub open spec fn component_names(cs: Seq<(String, ObjectOrReference<Schema>)>) -> Seq<Seq<char>>
    decreases cs.len(),
{
    if cs.len() == 0 {
        Seq::empty()
    } else {
        component_names(cs.drop_last()) + match cs.last().1 {
            ObjectOrReference::Object(_) => seq![cs.last().0@],
            _ => Seq::empty(),
        }
    }
}

/// The schemas of `ext` whose names are not in `names`, in order.
pub open spec fn unshadowed(ext: Seq<(String, Schema)>, names: Seq<Seq<char>>) -> Seq<(Seq<char>, Schema)>
    decreases ext.len(),
{
    if ext.len() == 0 {
        Seq::empty()
    } else {
        unshadowed(ext.drop_last(), names) + if names.contains(ext.last().0@) {
            Seq::empty()
        } else {
            seq![(ext.last().0@, ext.last().1)]
        }
    }
}

/// The top-level schemas: the document's components, then the schemas of
/// other files whose names the document does not define.
pub open spec fn top_level_entries(spec: Spec, external: Seq<(String, Schema)>) -> Seq<(Seq<char>, Schema)> {
    component_entries(spec.component_schemas@) + unshadowed(external, component_names(spec.component_schemas@))
}

/// The top-level models of named schemas: each named and owned by its key.
pub open spec fn top_level_models(entries: Seq<(Seq<char>, Schema)>) -> Seq<ModelView> {
    entries.map_values(|e: (Seq<char>, Schema)| build(e.0, e.1, e.0))
}

fn names_of_components(cs: &Vec<(String, ObjectOrReference<Schema>)>) -> (r: Vec<String>)
    ensures
        strings_view(r@) == component_names(cs@),
{
    let mut out: Vec<String> = Vec::new();
    let n = cs.len();
    for i in 0..n
        invariant
            n == cs@.len(),
            strings_view(out@) == component_names(cs@.subrange(0, i as int)),
    {
        assert(cs@.subrange(0, i + 1).drop_last() == cs@.subrange(0, i as int));
        assert(cs@.subrange(0, i + 1).last() == cs@[i as int]);
        let ghost before = out@;
        match &cs[i].1 {
            ObjectOrReference::Object(_) => {
                out.push(cs[i].0.clone());
                assert(strings_view(out@) =~= strings_view(before) + seq![cs@[i as int].0@]);
            },
            _ => {
                assert(strings_view(out@) =~= strings_view(before) + Seq::<Seq<char>>::empty());
            },
        }
    }
    assert(cs@.subrange(0, n as int) == cs@);
    out
}

/// Builds the top-level models: one per component schema of `spec`, then
/// one per schema of `external` (resolved from other files) whose name the
/// document does not define. Each is named and owned by its key.
pub fn generate_models_v3(spec: &Spec, external: &Vec<(String, Schema)>) -> (r: Vec<Model>)
    ensures
        views(r@) == top_level_models(top_level_entries(*spec, external@)),
{
    let cs = &spec.component_schemas;
    let ghost own = component_entries(cs@);
    let mut out: Vec<Model> = Vec::new();
    let n = cs.len();
    for i in 0..n
        invariant
            n == cs@.len(),
            views(out@) == top_level_models(component_entries(cs@.subrange(0, i as int))),
    {
        assert(cs@.subrange(0, i + 1).drop_last() == cs@.subrange(0, i as int));
        assert(cs@.subrange(0, i + 1).last() == cs@[i as int]);
        let ghost prev = component_entries(cs@.subrange(0, i as int));
        match &cs[i].1 {
            ObjectOrReference::Object(s) => {
                let name = cs[i].0.as_str();
                let m = Model::new(name, s, name);
                let ghost before = out@;
                let ghost mv = m@;
                out.push(m);
                let ghost x = (cs@[i as int].0@, *s);
                assert(views(out@) =~= views(before).push(mv));
                assert(top_level_models(prev + seq![x]) =~= top_level_models(prev).push(build(x.0, x.1, x.0)));
                assert(views(out@) =~= top_level_models(prev + seq![x]));
            },
            _ => {
                assert(prev + Seq::<(Seq<char>, Schema)>::empty() =~= prev);
            },
        }
    }
    assert(cs@.subrange(0, n as int) == cs@);
    let names = names_of_components(cs);
    let ghost mid = views(out@);
    let m = external.len();
    assert(mid + top_level_models(unshadowed(external@.subrange(0, 0), component_names(cs@))) =~= mid);
    for i in 0..m
        invariant
            m == external@.len(),
            own == component_entries(cs@),
            strings_view(names@) == component_names(cs@),
            mid == top_level_models(own),
            views(out@) == mid + top_level_models(unshadowed(external@.subrange(0, i as int), component_names(cs@))),
    {
        assert(external@.subrange(0, i + 1).drop_last() == external@.subrange(0, i as int));
        assert(external@.subrange(0, i + 1).last() == external@[i as int]);
        let ghost prev = unshadowed(external@.subrange(0, i as int), component_names(cs@));
        let e = &external[i];
        if !contains_text(&names, e.0.as_str()) {
            let mm = Model::new(e.0.as_str(), &e.1, e.0.as_str());
            let ghost before = out@;
            let ghost mv = mm@;
            out.push(mm);
            let ghost x = (e.0@, e.1);
            assert(views(out@) =~= views(before).push(mv));
            assert(top_level_models(prev + seq![x]) =~= top_level_models(prev).push(build(x.0, x.1, x.0)));
            assert(views(out@) =~= mid + top_level_models(prev + seq![x]));
        } else {
            assert(prev + Seq::<(Seq<char>, Schema)>::empty() =~= prev);
        }
    }
    assert(external@.subrange(0, m as int) == external@);
    assert(views(out@) =~= top_level_models(top_level_entries(*spec, external@)));
    out
}

/// Groups the operations of `spec` into resource groups.
pub fn generate_resources_v3(spec: &Spec, grouping_strategy: GroupingStrategy) -> (r: Vec<ResourceGroup>)
    ensures
        group_views(r@) == grouped(spec.paths@, grouping_strategy, spec.component_parameters@),
{
    group_resources(&spec.paths, grouping_strategy, &spec.component_parameters)
}

proof fn lemma_translate_list_prefix(lang: Lang, s: Seq<ModelView>, j: int)
    requires
        0 <= j <= s.len(),
        lang.translate_views(s.subrange(0, j)) is None,
    ensures
        lang.translate_views(s) is None,
    decreases s.len() - j,
{
    if j < s.len() {
        assert(s.subrange(0, j + 1).drop_last() == s.subrange(0, j));
        lemma_translate_list_prefix(lang, s, j + 1);
    } else {
        assert(s.subrange(0, j) == s);
    }
}

/// Translates each model with `lang`.
pub fn translate_models(lang: &Lang, models: Vec<Model>) -> (r: Result<Vec<Model>, TranslateError>)
    ensures
        match r {
            Ok(x) => lang.translate_views(views(models@)) == Some(views(x@)),
            Err(_) => lang.translate_views(views(models@)) is None,
        },
{
    let ghost mv = views(models@);
    let mut out: Vec<Model> = Vec::new();
    let n = models.len();
    for i in 0..n
        invariant
            n == models@.len(),
            mv == views(models@),
            lang.translate_views(mv.subrange(0, i as int)) == Some(views(out@)),
    {
        assert(mv.subrange(0, i + 1).drop_last() == mv.subrange(0, i as int));
        assert(mv.subrange(0, i + 1).last() == models@[i as int]@);
        match lang.translate_node(&models[i]) {
            Ok(t) => {
                let ghost before = out@;
                let ghost tv = t@;
                out.push(t);
                assert(views(out@) =~= views(before).push(tv));
            },
            Err(e) => {
                proof {
                    lemma_translate_list_prefix(*lang, mv, i as int + 1);
                }
                return Err(e);
            },
        }
    }
    assert(mv.subrange(0, n as int) == mv);
    Ok(out)
}

/// Everything that rendering reads: translated models and resource groups,
/// the configuration and the language.
pub struct State {
    pub models: Vec<Model>,
    pub cfg: Config,
    pub lang: Lang,
    pub resource_groups: Vec<ResourceGroup>,
    pub no_defaults: bool,
}

/// Translates `models` and `resource_groups` with `lang` and bundles them
/// with the configuration and the language.
pub fn create_state(
    cfg: Config,
    lang: Lang,
    models: Vec<Model>,
    resource_groups: Vec<ResourceGroup>,
    no_defaults: bool,
) -> (r: Result<State, TranslateError>)
    ensures
        match r {
            Ok(s) => lang.translate_views(views(models@)) == Some(views(s.models@))
                && translate_groups(lang, group_views(resource_groups@)) == Some(group_views(s.resource_groups@))
                && s.cfg == cfg && s.lang == lang && s.no_defaults == no_defaults,
            Err(_) => lang.translate_views(views(models@)) is None
                || translate_groups(lang, group_views(resource_groups@)) is None,
        },
{
    let models = match translate_models(&lang, models) {
        Ok(x) => x,
        Err(e) => {
            return Err(e);
        },
    };
    let resource_groups = match translate_resource_groups(&lang, resource_groups) {
        Ok(x) => x,
        Err(e) => {
            return Err(e);
        },
    };
    Ok(State { cfg, models, resource_groups, lang, no_defaults })
}

} // verus!
