//! Resources: one per path and HTTP method, grouped by a chosen strategy.
use vstd::prelude::*;
use crate::model::{build, Model, ModelView};
use crate::param::{get_params_operation, get_params_path, param_views, params_for, Param, ParamView};
use crate::schema::{MediaType, ObjectOrReference, Operation, Parameter, PathItem, Response, Schema};
use crate::lang::{Lang, TranslateError};
use crate::text::{clone_opt, opt_view, same_text};

verus! {

/// A route: one operation of one path.
pub struct Resource {
    /// The URI template.
    pub path: String,
    /// The HTTP method.
    pub method: String,
    /// A name usable for functions: the operation's id, or empty.
    pub name: String,
    pub summary: Option<String>,
    pub description: Option<String>,
    pub path_params: Vec<Param>,
    pub query_params: Vec<Param>,
    /// Status code to the model of its `application/json` body.
    pub responses: Vec<(String, Model)>,
}

/// The mathematical value of a `Resource`.
pub struct ResourceView {
    pub path: Seq<char>,
    pub method: Seq<char>,
    pub name: Seq<char>,
    pub summary: Option<Seq<char>>,
    pub description: Option<Seq<char>>,
    pub path_params: Seq<ParamView>,
    pub query_params: Seq<ParamView>,
    pub responses: Seq<(Seq<char>, ModelView)>,
}

pub open spec fn response_views(s: Seq<(String, Model)>) -> Seq<(Seq<char>, ModelView)> {
    s.map_values(|p: (String, Model)| (p.0@, p.1@))
}

impl View for Resource {
    type V = ResourceView;

    open spec fn view(&self) -> ResourceView {
        ResourceView {
            path: self.path@,
            method: self.method@,
            name: self.name@,
            summary: opt_view(self.summary),
            description: opt_view(self.description),
            path_params: param_views(self.path_params@),
            query_params: param_views(self.query_params@),
            responses: response_views(self.responses@),
        }
    }
}

pub open spec fn resource_views(s: Seq<Resource>) -> Seq<ResourceView> {
    s.map_values(|r: Resource| r@)
}

/// How resources are grouped.
#[derive(Debug, Clone, Copy, PartialEq, Eq, Structural)]
pub enum GroupingStrategy {
    /// All in one group.
    Nothing,
    /// By URI template.
    Path,
    /// By the operation's first tag; untagged operations are left out.
    FirstTag,
    /// By operation id; operations without one are left out.
    Operation,
}

/// A named group of resources.
pub struct ResourceGroup {
    pub name: String,
    pub resources: Vec<Resource>,
    pub grouping_strategy: GroupingStrategy,
}

/// The mathematical value of a `ResourceGroup`.
pub struct GroupView {
    pub name: Seq<char>,
    pub resources: Seq<ResourceView>,
    pub grouping_strategy: GroupingStrategy,
}

impl View for ResourceGroup {
    type V = GroupView;

    open spec fn view(&self) -> GroupView {
        GroupView {
            name: self.name@,
            resources: resource_views(self.resources@),
            grouping_strategy: self.grouping_strategy,
        }
    }
}

pub open spec fn group_views(s: Seq<ResourceGroup>) -> Seq<GroupView> {
    s.map_values(|g: ResourceGroup| g@)
}

/// The first media type of `content` named `k`.
pub open spec fn find_media(content: Seq<(String, MediaType)>, k: Seq<char>) -> Option<MediaType>
    decreases content.len(),
{
    if content.len() == 0 {
        None
    } else {
        match find_media(content.drop_last(), k) {
            Some(m) => Some(m),
            None => if content.last().0@ == k {
                Some(content.last().1)
            } else {
                None
            },
        }
    }
}

/// The inline schema of a response's `application/json` body.
pub open spec fn json_body(resp: Response) -> Option<Schema> {
    match find_media(resp.content@, "application/json"@) {
        Some(m) => match m.schema {
            Some(ObjectOrReference::Object(s)) => Some(s),
            _ => None,
        },
        None => None,
    }
}

/// Status code to body model, for the responses with an inline JSON body.
pub open spec fn responses_of(rs: Seq<(String, Response)>) -> Seq<(Seq<char>, ModelView)>
    decreases rs.len(),
{
    if rs.len() == 0 {
        Seq::empty()
    } else {
        let r = responses_of(rs.drop_last());
        match json_body(rs.last().1) {
            Some(s) => r.push((rs.last().0@, build(Seq::empty(), s, Seq::empty()))),
            None => r,
        }
    }
}

/// The resource for operation `op` of `path` under `method`, whose path-level
/// parameters are `pp` and `qp`.
pub open spec fn resource_of(
    path: Seq<char>,
    method: Seq<char>,
    op: Operation,
    comps: Seq<(String, ObjectOrReference<Parameter>)>,
    pp: Seq<ParamView>,
    qp: Seq<ParamView>,
) -> ResourceView {
    ResourceView {
        path,
        method,
        name: match op.operation_id {
            Some(i) => i@,
            None => Seq::empty(),
        },
        summary: opt_view(op.summary),
        description: opt_view(op.description),
        path_params: pp + params_for(op.parameters@, "path"@, comps),
        query_params: qp + params_for(op.parameters@, "query"@, comps),
        responses: responses_of(op.responses@),
    }
}

proof fn lemma_find_media_prefix(s: Seq<(String, MediaType)>, k: Seq<char>, j: int)
    requires
        0 <= j <= s.len(),
        find_media(s.subrange(0, j), k) is Some,
    ensures
        find_media(s, k) == find_media(s.subrange(0, j), k),
    decreases s.len() - j,
{
    if j < s.len() {
        assert(s.subrange(0, j + 1).drop_last() == s.subrange(0, j));
        lemma_find_media_prefix(s, k, j + 1);
    } else {
        assert(s.subrange(0, j) == s);
    }
}

fn json_schema(resp: &Response) -> (r: Option<&Schema>)
    ensures
        match r {
            Some(s) => json_body(*resp) == Some(*s),
            None => json_body(*resp) is None,
        },
{
    let ghost cs = resp.content@;
    let n = resp.content.len();
    for i in 0..n
        invariant
            n == resp.content@.len(),
            cs == resp.content@,
            find_media(cs.subrange(0, i as int), "application/json"@) is None,
    {
        assert(cs.subrange(0, i + 1).drop_last() == cs.subrange(0, i as int));
        assert(cs.subrange(0, i + 1).last() == cs[i as int]);
        if same_text(resp.content[i].0.as_str(), "application/json") {
            proof {
                lemma_find_media_prefix(cs, "application/json"@, i as int + 1);
            }
            return match &resp.content[i].1.schema {
                Some(ObjectOrReference::Object(s)) => Some(s),
                _ => None,
            };
        }
    }
    assert(cs.subrange(0, n as int) == cs);
    None
}

fn responses(rs: &Vec<(String, Response)>) -> (r: Vec<(String, Model)>)
    ensures
        response_views(r@) == responses_of(rs@),
{
    proof {
        reveal_strlit("");
    }
    let mut out: Vec<(String, Model)> = Vec::new();
    let n = rs.len();
    for i in 0..n
        invariant
            n == rs@.len(),
            ""@ == Seq::<char>::empty(),
            response_views(out@) == responses_of(rs@.subrange(0, i as int)),
    {
        assert(rs@.subrange(0, i + 1).drop_last() == rs@.subrange(0, i as int));
        assert(rs@.subrange(0, i + 1).last() == rs@[i as int]);
        match json_schema(&rs[i].1) {
            Some(s) => {
                let m = Model::new("", s, "");
                let ghost before = out@;
                out.push((rs[i].0.clone(), m));
                assert(response_views(out@) =~= response_views(before).push((rs@[i as int].0@, m@)));
            },
            None => {},
        }
    }
    assert(rs@.subrange(0, n as int) == rs@);
    out
}

impl Resource {
    /// The resource for operation `op` of `path` under `method`. The
    /// path-level parameters `path_params` and `query_params` are followed
    /// by the operation's own.
    pub fn new(
        path: &str,
        method: &str,
        op: &Operation,
        parameters: &Vec<(String, ObjectOrReference<Parameter>)>,
        path_params: Vec<Param>,
        query_params: Vec<Param>,
    ) -> (r: Resource)
        ensures
            r@ == resource_of(
                path@,
                method@,
                *op,
                parameters@,
                param_views(path_params@),
                param_views(query_params@),
            ),
    {
        let mut path_params = path_params;
        let mut query_params = query_params;
        let ghost pp0 = path_params@;
        let ghost qp0 = query_params@;
        let mut op_path = get_params_operation(op, "path", parameters);
        let mut op_query = get_params_operation(op, "query", parameters);
        let ghost opp = op_path@;
        let ghost oqp = op_query@;
        path_params.append(&mut op_path);
        query_params.append(&mut op_query);
        assert(param_views(path_params@) =~= param_views(pp0) + param_views(opp));
        assert(param_views(query_params@) =~= param_views(qp0) + param_views(oqp));
        let name = match &op.operation_id {
            Some(i) => i.clone(),
            None => String::new(),
        };
        Resource {
            path: path.to_owned(),
            method: method.to_owned(),
            name,
            summary: clone_opt(&op.summary),
            description: clone_opt(&op.description),
            path_params,
            query_params,
            responses: responses(&op.responses),
        }
    }
}

} // verus!

verus! {

/// The grouping key of operation `op` of `path`, if it is kept.
pub open spec fn group_key(strategy: GroupingStrategy, path: Seq<char>, op: Operation) -> Option<Seq<char>> {
    match strategy {
        GroupingStrategy::Nothing => Some(Seq::empty()),
        GroupingStrategy::Path => Some(path),
        GroupingStrategy::FirstTag => if op.tags@.len() > 0 {
            Some(op.tags@[0]@)
        } else {
            None
        },
        GroupingStrategy::Operation => opt_view(op.operation_id),
    }
}

/// The operation of a path item for method number `j`, in the order GET,
/// PUT, POST, DELETE, OPTIONS, HEAD, PATCH, TRACE.
pub open spec fn method_op(item: PathItem, j: int) -> Option<Operation> {
    if j == 0 {
        item.get
    } else if j == 1 {
        item.put
    } else if j == 2 {
        item.post
    } else if j == 3 {
        item.delete
    } else if j == 4 {
        item.options
    } else if j == 5 {
        item.head
    } else if j == 6 {
        item.patch
    } else {
        item.trace
    }
}

/// The name of method number `j`.
pub open spec fn method_name(j: int) -> Seq<char> {
    if j == 0 {
        "GET"@
    } else if j == 1 {
        "PUT"@
    } else if j == 2 {
        "POST"@
    } else if j == 3 {
        "DELETE"@
    } else if j == 4 {
        "OPTIONS"@
    } else if j == 5 {
        "HEAD"@
    } else if j == 6 {
        "PATCH"@
    } else {
        "TRACE"@
    }
}

/// The keyed resource of method number `j` of path `p`, if it has an
/// operation and that operation has a key.
pub open spec fn keyed_at(
    p: (String, PathItem),
    strategy: GroupingStrategy,
    comps: Seq<(String, ObjectOrReference<Parameter>)>,
    j: int,
) -> Seq<(Seq<char>, ResourceView)> {
    match method_op(p.1, j) {
        Some(op) => match group_key(strategy, p.0@, op) {
            Some(k) => seq![
                (
                    k,
                    resource_of(
                        p.0@,
                        method_name(j),
                        op,
                        comps,
                        params_for(p.1.parameters@, "path"@, comps),
                        params_for(p.1.parameters@, "query"@, comps),
                    ),
                ),
            ],
            None => Seq::empty(),
        },
        None => Seq::empty(),
    }
}

/// The keyed resources of path `p`, in method order.
pub open spec fn path_keyed(
    p: (String, PathItem),
    strategy: GroupingStrategy,
    comps: Seq<(String, ObjectOrReference<Parameter>)>,
) -> Seq<(Seq<char>, ResourceView)> {
    keyed_at(p, strategy, comps, 0) + keyed_at(p, strategy, comps, 1) + keyed_at(p, strategy, comps, 2)
        + keyed_at(p, strategy, comps, 3) + keyed_at(p, strategy, comps, 4) + keyed_at(
        p,
        strategy,
        comps,
        5,
    ) + keyed_at(p, strategy, comps, 6) + keyed_at(p, strategy, comps, 7)
}

/// The keyed resources of all paths, in source order.
pub open spec fn all_keyed(
    paths: Seq<(String, PathItem)>,
    strategy: GroupingStrategy,
    comps: Seq<(String, ObjectOrReference<Parameter>)>,
) -> Seq<(Seq<char>, ResourceView)>
    decreases paths.len(),
{
    if paths.len() == 0 {
        Seq::empty()
    } else {
        all_keyed(paths.drop_last(), strategy, comps) + path_keyed(paths.last(), strategy, comps)
    }
}

/// The index of the first group named `k`, or -1.
pub open spec fn group_index(gs: Seq<GroupView>, k: Seq<char>) -> int
    decreases gs.len(),
{
    if gs.len() == 0 {
        -1
    } else {
        let i = group_index(gs.drop_last(), k);
        if i >= 0 {
            i
        } else if gs.last().name == k {
            gs.len() - 1
        } else {
            -1
        }
    }
}

/// `gs` with the resource `x.1` added to the group named `x.0`, or to a new
/// group at the end when there is none.
pub open spec fn insert_keyed(gs: Seq<GroupView>, x: (Seq<char>, ResourceView), strategy: GroupingStrategy) -> Seq<GroupView> {
    let i = group_index(gs, x.0);
    if i < 0 {
        gs.push(GroupView { name: x.0, resources: seq![x.1], grouping_strategy: strategy })
    } else {
        gs.update(i, GroupView { resources: gs[i].resources.push(x.1), ..gs[i] })
    }
}

/// The keyed resources `items` grouped by key, in order of first appearance
/// of each key, each group keeping source order.
pub open spec fn group_all(items: Seq<(Seq<char>, ResourceView)>, strategy: GroupingStrategy) -> Seq<GroupView>
    decreases items.len(),
{
    if items.len() == 0 {
        Seq::empty()
    } else {
        insert_keyed(group_all(items.drop_last(), strategy), items.last(), strategy)
    }
}

/// The groups of the resources of `paths` under `strategy`.
pub open spec fn grouped(
    paths: Seq<(String, PathItem)>,
    strategy: GroupingStrategy,
    comps: Seq<(String, ObjectOrReference<Parameter>)>,
) -> Seq<GroupView> {
    group_all(all_keyed(paths, strategy, comps), strategy)
}

pub open spec fn keyed_views(s: Seq<(String, Resource)>) -> Seq<(Seq<char>, ResourceView)> {
    s.map_values(|p: (String, Resource)| (p.0@, p.1@))
}

proof fn lemma_group_index(gs: Seq<GroupView>, k: Seq<char>)
    ensures
        -1 <= group_index(gs, k) < gs.len(),
        group_index(gs, k) >= 0 ==> gs[group_index(gs, k)].name == k,
        group_index(gs, k) < 0 ==> forall|j: int| 0 <= j < gs.len() ==> gs[j].name != k,
    decreases gs.len(),
{
    if gs.len() > 0 {
        lemma_group_index(gs.drop_last(), k);
        if group_index(gs.drop_last(), k) < 0 {
            assert forall|j: int| 0 <= j < gs.len() - 1 implies gs[j].name != k by {
                assert(gs[j] == gs.drop_last()[j]);
            }
        }
    }
}

fn operation_key(strategy: GroupingStrategy, path: &str, op: &Operation) -> (r: Option<String>)
    ensures
        opt_view(r) == group_key(strategy, path@, *op),
{
    proof {
        reveal_strlit("");
    }
    match strategy {
        GroupingStrategy::Nothing => Some(String::new()),
        GroupingStrategy::Path => Some(path.to_owned()),
        GroupingStrategy::FirstTag => if op.tags.len() > 0 {
            Some(op.tags[0].clone())
        } else {
            None
        },
        GroupingStrategy::Operation => clone_opt(&op.operation_id),
    }
}

/// Appends the keyed resource of method number `j` of path `p`.
fn push_keyed(
    out: &mut Vec<(String, Resource)>,
    p: &(String, PathItem),
    j: usize,
    method: &str,
    op: &Option<Operation>,
    strategy: GroupingStrategy,
    parameters: &Vec<(String, ObjectOrReference<Parameter>)>,
    path_params: &Vec<Param>,
    query_params: &Vec<Param>,
)
    requires
        j < 8,
        *op == method_op(p.1, j as int),
        method@ == method_name(j as int),
        param_views(path_params@) == params_for(p.1.parameters@, "path"@, parameters@),
        param_views(query_params@) == params_for(p.1.parameters@, "query"@, parameters@),
    ensures
        keyed_views(final(out)@) == keyed_views(old(out)@) + keyed_at(*p, strategy, parameters@, j as int),
{
    match op {
        Some(o) => match operation_key(strategy, p.0.as_str(), o) {
            Some(k) => {
                let r = Resource::new(
                    p.0.as_str(),
                    method,
                    o,
                    parameters,
                    crate::param::clone_params(path_params),
                    crate::param::clone_params(query_params),
                );
                let ghost before = out@;
                out.push((k, r));
                assert(keyed_views(out@) =~= keyed_views(before) + keyed_at(*p, strategy, parameters@, j as int));
            },
            None => {
                assert(keyed_views(out@) =~= keyed_views(out@) + keyed_at(*p, strategy, parameters@, j as int));
            },
        },
        None => {
            assert(keyed_views(out@) =~= keyed_views(out@) + keyed_at(*p, strategy, parameters@, j as int));
        },
    }
}

/// The keyed resources of path `p`, in method order.
fn path_resources(
    p: &(String, PathItem),
    strategy: GroupingStrategy,
    parameters: &Vec<(String, ObjectOrReference<Parameter>)>,
) -> (r: Vec<(String, Resource)>)
    ensures
        keyed_views(r@) == path_keyed(*p, strategy, parameters@),
{
    let item = &p.1;
    let pp = get_params_path(item, "path", parameters);
    let qp = get_params_path(item, "query", parameters);
    let mut out: Vec<(String, Resource)> = Vec::new();
    proof {
        reveal_strlit("GET");
        reveal_strlit("PUT");
        reveal_strlit("POST");
        reveal_strlit("DELETE");
        reveal_strlit("OPTIONS");
        reveal_strlit("HEAD");
        reveal_strlit("PATCH");
        reveal_strlit("TRACE");
    }
    assert(keyed_views(out@) =~= Seq::empty());
    push_keyed(&mut out, p, 0, "GET", &item.get, strategy, parameters, &pp, &qp);
    push_keyed(&mut out, p, 1, "PUT", &item.put, strategy, parameters, &pp, &qp);
    push_keyed(&mut out, p, 2, "POST", &item.post, strategy, parameters, &pp, &qp);
    push_keyed(&mut out, p, 3, "DELETE", &item.delete, strategy, parameters, &pp, &qp);
    push_keyed(&mut out, p, 4, "OPTIONS", &item.options, strategy, parameters, &pp, &qp);
    push_keyed(&mut out, p, 5, "HEAD", &item.head, strategy, parameters, &pp, &qp);
    push_keyed(&mut out, p, 6, "PATCH", &item.patch, strategy, parameters, &pp, &qp);
    push_keyed(&mut out, p, 7, "TRACE", &item.trace, strategy, parameters, &pp, &qp);
    assert(keyed_views(out@) =~= path_keyed(*p, strategy, parameters@));
    out
}

/// Adds `r` to the group named `key`, or to a new group at the end.
fn insert_resource(groups: &mut Vec<ResourceGroup>, key: String, r: Resource, strategy: GroupingStrategy)
    ensures
        group_views(final(groups)@) == insert_keyed(group_views(old(groups)@), (key@, r@), strategy),
{
    let ghost gs = group_views(groups@);
    proof {
        lemma_group_index(gs, key@);
    }
    let n = groups.len();
    let mut i: usize = 0;
    while i < n
        invariant
            n == groups@.len(),
            i <= n,
            gs == group_views(groups@),
            gs == group_views(old(groups)@),
            forall|j: int| 0 <= j < i ==> gs[j].name != key@,
        decreases n - i,
    {
        assert(gs[i as int] == groups@[i as int]@);
        if same_text(groups[i].name.as_str(), key.as_str()) {
            proof {
                lemma_group_index_first(gs, key@, i as int);
            }
            let ghost before = groups@;
            let mut g = groups.remove(i);
            assert(g == before[i as int]);
            let ghost old_res = g.resources@;
            g.resources.push(r);
            assert(resource_views(g.resources@) =~= resource_views(old_res).push(r@));
            let ghost gv = g@;
            groups.insert(i, g);
            assert(groups@ =~= before.update(i as int, groups@[i as int]));
            assert(group_views(groups@) =~= gs.update(i as int, gv));
            assert(gv == GroupView { resources: gs[i as int].resources.push(r@), ..gs[i as int] });
            assert(group_views(groups@) =~= insert_keyed(gs, (key@, r@), strategy));
            return;
        }
        i = i + 1;
    }
    assert(group_index(gs, key@) < 0) by {
        if group_index(gs, key@) >= 0 {
            assert(gs[group_index(gs, key@)].name == key@);
        }
    }
    let mut resources: Vec<Resource> = Vec::new();
    resources.push(r);
    groups.push(ResourceGroup { name: key, resources, grouping_strategy: strategy });
    assert(resource_views(resources@) =~= seq![r@]);
    assert(group_views(groups@) =~= insert_keyed(gs, (key@, r@), strategy));
}

proof fn lemma_group_index_first(gs: Seq<GroupView>, k: Seq<char>, i: int)
    requires
        0 <= i < gs.len(),
        gs[i].name == k,
        forall|j: int| 0 <= j < i ==> gs[j].name != k,
    ensures
        group_index(gs, k) == i,
    decreases gs.len(),
{
    if gs.len() - 1 > i {
        assert(gs.drop_last()[i] == gs[i]);
        assert forall|j: int| 0 <= j < i implies gs.drop_last()[j].name != k by {
            assert(gs.drop_last()[j] == gs[j]);
        }
        lemma_group_index_first(gs.drop_last(), k, i);
    } else {
        lemma_group_index(gs.drop_last(), k);
        assert forall|j: int| 0 <= j < gs.drop_last().len() implies gs.drop_last()[j].name != k by {
            assert(gs.drop_last()[j] == gs[j]);
        }
    }
}

/// Expands `paths` into one resource per path and HTTP method that has an
/// operation, and groups them by `grouping_strategy`: groups in order of
/// first appearance of their key, each keeping source order.
pub fn group_resources(
    paths: &Vec<(String, PathItem)>,
    grouping_strategy: GroupingStrategy,
    parameters: &Vec<(String, ObjectOrReference<Parameter>)>,
) -> (r: Vec<ResourceGroup>)
    ensures
        group_views(r@) == grouped(paths@, grouping_strategy, parameters@),
{
    let mut groups: Vec<ResourceGroup> = Vec::new();
    let n = paths.len();
    assert(group_views(groups@) =~= Seq::empty());
    for i in 0..n
        invariant
            n == paths@.len(),
            group_views(groups@) == group_all(
                all_keyed(paths@.subrange(0, i as int), grouping_strategy, parameters@),
                grouping_strategy,
            ),
    {
        let ghost prefix = all_keyed(paths@.subrange(0, i as int), grouping_strategy, parameters@);
        assert(paths@.subrange(0, i + 1).drop_last() == paths@.subrange(0, i as int));
        assert(paths@.subrange(0, i + 1).last() == paths@[i as int]);
        let mut keyed = path_resources(&paths[i], grouping_strategy, parameters);
        let ghost kv = keyed_views(keyed@);
        assert(prefix + kv.subrange(0, 0) =~= prefix);
        let total = keyed.len();
        let mut k: usize = 0;
        while keyed.len() > 0
            invariant
                total == kv.len(),
                k + keyed@.len() == total,
                keyed_views(keyed@) == kv.subrange(k as int, kv.len() as int),
                group_views(groups@) == group_all(prefix + kv.subrange(0, k as int), grouping_strategy),
            decreases keyed@.len(),
        {
            let ghost old_keyed = keyed@;
            assert(keyed_views(old_keyed)[0] == (old_keyed[0].0@, old_keyed[0].1@));
            assert(kv.subrange(k as int, kv.len() as int)[0] == kv[k as int]);
            let (key, res) = keyed.remove(0);
            assert((prefix + kv.subrange(0, k + 1)).drop_last() =~= prefix + kv.subrange(0, k as int));
            assert(kv[k as int] == (key@, res@));
            assert((prefix + kv.subrange(0, k + 1)).last() == kv[k as int]);
            insert_resource(&mut groups, key, res, grouping_strategy);
            k = k + 1;
            assert(keyed@ =~= old_keyed.subrange(1, old_keyed.len() as int));
            assert forall|j: int| 0 <= j < keyed@.len() implies #[trigger] keyed_views(keyed@)[j] == kv.subrange(k as int, kv.len() as int)[j] by {
                assert(keyed_views(keyed@)[j] == keyed_views(old_keyed)[j + 1]);
            }
            assert(keyed_views(keyed@) =~= kv.subrange(k as int, kv.len() as int));
        }
        assert(prefix + kv.subrange(0, k as int) =~= all_keyed(paths@.subrange(0, i + 1), grouping_strategy, parameters@));
    }
    assert(paths@.subrange(0, n as int) == paths@);
    groups
}

} // verus!

verus! {

/// The parameters `ps` with their models translated.
pub open spec fn translate_params(lang: Lang, ps: Seq<ParamView>) -> Option<Seq<ParamView>>
    decreases ps.len(),
{
    if ps.len() == 0 {
        Some(Seq::empty())
    } else {
        match (translate_params(lang, ps.drop_last()), lang.translate_view(ps.last().model)) {
            (Some(r), Some(m)) => Some(
                r.push(
                    ParamView {
                        name: lang.spec_format("reserved"@, ps.last().name),
                        model: m,
                        ..ps.last()
                    },
                ),
            ),
            _ => None,
        }
    }
}

/// The response models of `rs` translated.
pub open spec fn translate_responses(lang: Lang, rs: Seq<(Seq<char>, ModelView)>) -> Option<Seq<(Seq<char>, ModelView)>>
    decreases rs.len(),
{
    if rs.len() == 0 {
        Some(Seq::empty())
    } else {
        match (translate_responses(lang, rs.drop_last()), lang.translate_view(rs.last().1)) {
            (Some(r), Some(m)) => Some(r.push((rs.last().0, m))),
            _ => None,
        }
    }
}

/// The translation of a resource: its path formatted, its name and its
/// parameters' names passed through the reserved-word rule, its parameter
/// and response models translated.
pub open spec fn translate_resource(lang: Lang, r: ResourceView) -> Option<ResourceView> {
    match (
        translate_params(lang, r.path_params),
        translate_params(lang, r.query_params),
        translate_responses(lang, r.responses),
    ) {
        (Some(pp), Some(qp), Some(rs)) => Some(
            ResourceView {
                path: lang.spec_format_path(r.path),
                name: lang.spec_format("reserved"@, r.name),
                path_params: pp,
                query_params: qp,
                responses: rs,
                ..r
            },
        ),
        _ => None,
    }
}

/// The resources `rs` translated.
pub open spec fn translate_resources(lang: Lang, rs: Seq<ResourceView>) -> Option<Seq<ResourceView>>
    decreases rs.len(),
{
    if rs.len() == 0 {
        Some(Seq::empty())
    } else {
        match (translate_resources(lang, rs.drop_last()), translate_resource(lang, rs.last())) {
            (Some(r), Some(t)) => Some(r.push(t)),
            _ => None,
        }
    }
}

/// The groups `gs` with their resources translated.
pub open spec fn translate_groups(lang: Lang, gs: Seq<GroupView>) -> Option<Seq<GroupView>>
    decreases gs.len(),
{
    if gs.len() == 0 {
        Some(Seq::empty())
    } else {
        match (translate_groups(lang, gs.drop_last()), translate_resources(lang, gs.last().resources)) {
            (Some(r), Some(t)) => Some(r.push(GroupView { resources: t, ..gs.last() })),
            _ => None,
        }
    }
}

fn translate_param_list(lang: &Lang, ps: &Vec<Param>) -> (r: Result<Vec<Param>, TranslateError>)
    ensures
        match r {
            Ok(x) => translate_params(*lang, param_views(ps@)) == Some(param_views(x@)),
            Err(_) => translate_params(*lang, param_views(ps@)) is None,
        },
{
    let ghost pv = param_views(ps@);
    let mut out: Vec<Param> = Vec::new();
    let n = ps.len();
    for i in 0..n
        invariant
            n == ps@.len(),
            pv == param_views(ps@),
            translate_params(*lang, pv.subrange(0, i as int)) == Some(param_views(out@)),
    {
        assert(pv.subrange(0, i + 1).drop_last() == pv.subrange(0, i as int));
        assert(pv.subrange(0, i + 1).last() == ps@[i as int]@);
        match lang.translate_node(&ps[i].model) {
            Ok(m) => {
                let ghost before = out@;
                let p = Param {
                    name: lang.format("reserved", ps[i].name.as_str()),
                    model: m,
                    required: ps[i].required,
                };
                out.push(p);
                assert(param_views(out@) =~= param_views(before).push(p@));
            },
            Err(e) => {
                proof {
                    lemma_translate_params_prefix(*lang, pv, i as int + 1);
                }
                return Err(e);
            },
        }
    }
    assert(pv.subrange(0, n as int) == pv);
    Ok(out)
}

proof fn lemma_translate_params_prefix(lang: Lang, s: Seq<ParamView>, j: int)
    requires
        0 <= j <= s.len(),
        translate_params(lang, s.subrange(0, j)) is None,
    ensures
        translate_params(lang, s) is None,
    decreases s.len() - j,
{
    if j < s.len() {
        assert(s.subrange(0, j + 1).drop_last() == s.subrange(0, j));
        lemma_translate_params_prefix(lang, s, j + 1);
    } else {
        assert(s.subrange(0, j) == s);
    }
}

proof fn lemma_translate_responses_prefix(lang: Lang, s: Seq<(Seq<char>, ModelView)>, j: int)
    requires
        0 <= j <= s.len(),
        translate_responses(lang, s.subrange(0, j)) is None,
    ensures
        translate_responses(lang, s) is None,
    decreases s.len() - j,
{
    if j < s.len() {
        assert(s.subrange(0, j + 1).drop_last() == s.subrange(0, j));
        lemma_translate_responses_prefix(lang, s, j + 1);
    } else {
        assert(s.subrange(0, j) == s);
    }
}

proof fn lemma_translate_resources_prefix(lang: Lang, s: Seq<ResourceView>, j: int)
    requires
        0 <= j <= s.len(),
        translate_resources(lang, s.subrange(0, j)) is None,
    ensures
        translate_resources(lang, s) is None,
    decreases s.len() - j,
{
    if j < s.len() {
        assert(s.subrange(0, j + 1).drop_last() == s.subrange(0, j));
        lemma_translate_resources_prefix(lang, s, j + 1);
    } else {
        assert(s.subrange(0, j) == s);
    }
}

proof fn lemma_translate_groups_prefix(lang: Lang, s: Seq<GroupView>, j: int)
    requires
        0 <= j <= s.len(),
        translate_groups(lang, s.subrange(0, j)) is None,
    ensures
        translate_groups(lang, s) is None,
    decreases s.len() - j,
{
    if j < s.len() {
        assert(s.subrange(0, j + 1).drop_last() == s.subrange(0, j));
        lemma_translate_groups_prefix(lang, s, j + 1);
    } else {
        assert(s.subrange(0, j) == s);
    }
}

fn translate_response_list(lang: &Lang, rs: &Vec<(String, Model)>) -> (r: Result<Vec<(String, Model)>, TranslateError>)
    ensures
        match r {
            Ok(x) => translate_responses(*lang, response_views(rs@)) == Some(response_views(x@)),
            Err(_) => translate_responses(*lang, response_views(rs@)) is None,
        },
{
    let ghost rv = response_views(rs@);
    let mut out: Vec<(String, Model)> = Vec::new();
    let n = rs.len();
    for i in 0..n
        invariant
            n == rs@.len(),
            rv == response_views(rs@),
            translate_responses(*lang, rv.subrange(0, i as int)) == Some(response_views(out@)),
    {
        assert(rv.subrange(0, i + 1).drop_last() == rv.subrange(0, i as int));
        assert(rv.subrange(0, i + 1).last() == (rs@[i as int].0@, rs@[i as int].1@));
        match lang.translate_node(&rs[i].1) {
            Ok(m) => {
                let ghost before = out@;
                let code = rs[i].0.clone();
                let ghost mv = m@;
                out.push((code, m));
                assert(response_views(out@) =~= response_views(before).push((rs@[i as int].0@, mv)));
            },
            Err(e) => {
                proof {
                    lemma_translate_responses_prefix(*lang, rv, i as int + 1);
                }
                return Err(e);
            },
        }
    }
    assert(rv.subrange(0, n as int) == rv);
    Ok(out)
}

impl Resource {
    /// Formats the path, passes the name and the parameters' names through
    /// the reserved-word rule, and translates the parameter and response
    /// models.
    pub fn translate(self, lang: &Lang) -> (r: Result<Resource, TranslateError>)
        ensures
            match r {
                Ok(t) => translate_resource(*lang, self@) == Some(t@),
                Err(_) => translate_resource(*lang, self@) is None,
            },
    {
        let path_params = match translate_param_list(lang, &self.path_params) {
            Ok(x) => x,
            Err(e) => {
                return Err(e);
            },
        };
        let query_params = match translate_param_list(lang, &self.query_params) {
            Ok(x) => x,
            Err(e) => {
                return Err(e);
            },
        };
        let responses = match translate_response_list(lang, &self.responses) {
            Ok(x) => x,
            Err(e) => {
                return Err(e);
            },
        };
        let path = lang.format_path(self.path.as_str());
        let name = lang.format("reserved", self.name.as_str());
        let r = Resource { path, name, path_params, query_params, responses, ..self };
        assert(r@ =~= translate_resource(*lang, self@).unwrap());
        Ok(r)
    }
}

fn translate_resource_list(lang: &Lang, rs: Vec<Resource>) -> (r: Result<Vec<Resource>, TranslateError>)
    ensures
        match r {
            Ok(x) => translate_resources(*lang, resource_views(rs@)) == Some(resource_views(x@)),
            Err(_) => translate_resources(*lang, resource_views(rs@)) is None,
        },
{
    let ghost rv = resource_views(rs@);
    let mut rest = rs;
    let mut out: Vec<Resource> = Vec::new();
    let total = rest.len();
    let mut k: usize = 0;
    assert(rv.subrange(0, 0) =~= Seq::<ResourceView>::empty());
    while rest.len() > 0
        invariant
            rv == resource_views(rs@),
            total == rv.len(),
            k + rest@.len() == total,
            resource_views(rest@) == rv.subrange(k as int, rv.len() as int),
            translate_resources(*lang, rv.subrange(0, k as int)) == Some(resource_views(out@)),
        decreases rest@.len(),
    {
        let ghost old_rest = rest@;
        assert(resource_views(old_rest)[0] == old_rest[0]@);
        assert(rv.subrange(k as int, rv.len() as int)[0] == rv[k as int]);
        let first = rest.remove(0);
        assert(rv.subrange(0, k + 1).drop_last() == rv.subrange(0, k as int));
        assert(rv.subrange(0, k + 1).last() == rv[k as int]);
        match first.translate(lang) {
            Ok(t) => {
                let ghost before = out@;
                out.push(t);
                assert(resource_views(out@) =~= resource_views(before).push(t@));
            },
            Err(e) => {
                proof {
                    lemma_translate_resources_prefix(*lang, rv, k as int + 1);
                }
                return Err(e);
            },
        }
        k = k + 1;
        assert(rest@ =~= old_rest.subrange(1, old_rest.len() as int));
        assert forall|j: int| 0 <= j < rest@.len() implies #[trigger] resource_views(rest@)[j] == rv.subrange(k as int, rv.len() as int)[j] by {
            assert(resource_views(rest@)[j] == resource_views(old_rest)[j + 1]);
        }
        assert(resource_views(rest@) =~= rv.subrange(k as int, rv.len() as int));
    }
    assert(rv.subrange(0, k as int) == rv);
    Ok(out)
}

/// Translates the resources of every group.
pub fn translate_resource_groups(lang: &Lang, resource_groups: Vec<ResourceGroup>) -> (r: Result<Vec<ResourceGroup>, TranslateError>)
    ensures
        match r {
            Ok(x) => translate_groups(*lang, group_views(resource_groups@)) == Some(group_views(x@)),
            Err(_) => translate_groups(*lang, group_views(resource_groups@)) is None,
        },
{
    let ghost gv = group_views(resource_groups@);
    let mut rest = resource_groups;
    let mut out: Vec<ResourceGroup> = Vec::new();
    let total = rest.len();
    let mut k: usize = 0;
    assert(gv.subrange(0, 0) =~= Seq::<GroupView>::empty());
    while rest.len() > 0
        invariant
            gv == group_views(resource_groups@),
            total == gv.len(),
            k + rest@.len() == total,
            group_views(rest@) == gv.subrange(k as int, gv.len() as int),
            translate_groups(*lang, gv.subrange(0, k as int)) == Some(group_views(out@)),
        decreases rest@.len(),
    {
        let ghost old_rest = rest@;
        assert(group_views(old_rest)[0] == old_rest[0]@);
        assert(gv.subrange(k as int, gv.len() as int)[0] == gv[k as int]);
        let g = rest.remove(0);
        assert(gv.subrange(0, k + 1).drop_last() == gv.subrange(0, k as int));
        assert(gv.subrange(0, k + 1).last() == gv[k as int]);
        let ghost gview = g@;
        match translate_resource_list(lang, g.resources) {
            Ok(t) => {
                let ghost before = out@;
                let ng = ResourceGroup { name: g.name, resources: t, grouping_strategy: g.grouping_strategy };
                out.push(ng);
                assert(group_views(out@) =~= group_views(before).push(GroupView { resources: resource_views(t@), ..gview }));
            },
            Err(e) => {
                proof {
                    lemma_translate_groups_prefix(*lang, gv, k as int + 1);
                }
                return Err(e);
            },
        }
        k = k + 1;
        assert(rest@ =~= old_rest.subrange(1, old_rest.len() as int));
        assert forall|j: int| 0 <= j < rest@.len() implies #[trigger] group_views(rest@)[j] == gv.subrange(k as int, gv.len() as int)[j] by {
            assert(group_views(rest@)[j] == group_views(old_rest)[j + 1]);
        }
        assert(group_views(rest@) =~= gv.subrange(k as int, gv.len() as int));
    }
    assert(gv.subrange(0, k as int) == gv);
    Ok(out)
}

} // verus!
