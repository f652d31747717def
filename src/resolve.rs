//! Schema resolution: the `$ref`s of a document, the files they point to,
//! and the collection of schemas defined in those files.
use vstd::prelude::*;
use crate::schema::{MediaType, ObjectOrReference, Operation, PathItem, RequestBody, Response, Schema, Spec};
use crate::text::{same_text, strings_view};
use crate::util::{ref_file, ref_file_of};

verus! {

/// The `$ref`s in the tree of `s`: its own, then those of its properties,
/// its items and its additional properties.
pub open spec fn ref_paths(s: Schema) -> Seq<Seq<char>>
    decreases s, 1int,
{
    (match s.ref_path {
        Some(r) => seq![r@],
        None => Seq::empty(),
    }) + property_ref_paths(s.properties@) + (match s.items {
        Some(b) => ref_paths(*b),
        None => Seq::empty(),
    }) + (match s.additional_properties {
        Some(ObjectOrReference::Object(b)) => ref_paths(*b),
        _ => Seq::empty(),
    })
}

/// The `$ref`s in the trees of the property schemas `ps`, in order.
pub open spec fn property_ref_paths(ps: Seq<(String, Schema)>) -> Seq<Seq<char>>
    decreases ps, 0int,
{
    if ps.len() == 0 {
        Seq::empty()
    } else {
        property_ref_paths(ps.drop_last()) + ref_paths(ps.last().1)
    }
}

/// The `$ref`s in the trees of the schemas `ss`, in order.
pub open spec fn schemas_ref_paths(ss: Seq<Schema>) -> Seq<Seq<char>>
    decreases ss.len(),
{
    if ss.len() == 0 {
        Seq::empty()
    } else {
        schemas_ref_paths(ss.drop_last()) + ref_paths(ss.last())
    }
}

/// The inline schemas of the media types `ms`.
pub open spec fn media_schemas(ms: Seq<(String, MediaType)>) -> Seq<Schema>
    decreases ms.len(),
{
    if ms.len() == 0 {
        Seq::empty()
    } else {
        media_schemas(ms.drop_last()) + match ms.last().1.schema {
            Some(ObjectOrReference::Object(s)) => seq![s],
            _ => Seq::empty(),
        }
    }
}

/// The inline body schemas of the responses `rs`.
pub open spec fn response_schemas(rs: Seq<(String, Response)>) -> Seq<Schema>
    decreases rs.len(),
{
    if rs.len() == 0 {
        Seq::empty()
    } else {
        response_schemas(rs.drop_last()) + media_schemas(rs.last().1.content@)
    }
}

/// The inline body schemas of an inline request body.
pub open spec fn request_schemas(rb: Option<ObjectOrReference<RequestBody>>) -> Seq<Schema> {
    match rb {
        Some(ObjectOrReference::Object(b)) => media_schemas(b.content@),
        _ => Seq::empty(),
    }
}

/// The inline body schemas of an operation: responses, then request.
pub open spec fn operation_schemas(op: Option<Operation>) -> Seq<Schema> {
    match op {
        Some(o) => response_schemas(o.responses@) + request_schemas(o.request_body),
        None => Seq::empty(),
    }
}

/// The inline body schemas of the operations of a path item, in method order.
pub open spec fn path_item_schemas(p: PathItem) -> Seq<Schema> {
    operation_schemas(p.get) + operation_schemas(p.put) + operation_schemas(p.post) + operation_schemas(
        p.delete,
    ) + operation_schemas(p.options) + operation_schemas(p.head) + operation_schemas(p.patch)
        + operation_schemas(p.trace)
}

/// The inline body schemas of all paths, in order.
pub open spec fn paths_schemas(ps: Seq<(String, PathItem)>) -> Seq<Schema>
    decreases ps.len(),
{
    if ps.len() == 0 {
        Seq::empty()
    } else {
        paths_schemas(ps.drop_last()) + path_item_schemas(ps.last().1)
    }
}

/// The inline component schemas, in order.
pub open spec fn component_schemas(cs: Seq<(String, ObjectOrReference<Schema>)>) -> Seq<Schema>
    decreases cs.len(),
{
    if cs.len() == 0 {
        Seq::empty()
    } else {
        component_schemas(cs.drop_last()) + match cs.last().1 {
            ObjectOrReference::Object(s) => seq![s],
            _ => Seq::empty(),
        }
    }
}

/// Every schema given inline in the document: the components, then the
/// request and response bodies of every operation.
pub open spec fn spec_schemas(spec: Spec) -> Seq<Schema> {
    component_schemas(spec.component_schemas@) + paths_schemas(spec.paths@)
}

/// The file parts of the references `refs`, for those that name a file.
pub open spec fn ref_files(refs: Seq<Seq<char>>) -> Seq<Seq<char>>
    decreases refs.len(),
{
    if refs.len() == 0 {
        Seq::empty()
    } else {
        ref_files(refs.drop_last()) + match ref_file_of(refs.last()) {
            Some(f) => seq![f],
            None => Seq::empty(),
        }
    }
}

/// `s` without repeats: the first occurrence of each item, in order.
pub open spec fn unique_seq(s: Seq<Seq<char>>) -> Seq<Seq<char>>
    decreases s.len(),
{
    if s.len() == 0 {
        Seq::empty()
    } else if s.drop_last().contains(s.last()) {
        unique_seq(s.drop_last())
    } else {
        unique_seq(s.drop_last()).push(s.last())
    }
}

/// Relies on `itertools::Itertools::unique`: the first occurrence of each
/// item, in order.
#[verifier::external_body]
fn unique_strings(v: Vec<String>) -> (r: Vec<String>)
    ensures
        strings_view(r@) == unique_seq(strings_view(v@)),
{
    itertools::Itertools::unique(v.into_iter()).collect()
}

fn append_strings(out: &mut Vec<String>, more: Vec<String>)
    ensures
        strings_view(final(out)@) == strings_view(old(out)@) + strings_view(more@),
{
    let mut more = more;
    let ghost a = out@;
    let ghost b = more@;
    out.append(&mut more);
    assert(strings_view(out@) =~= strings_view(a) + strings_view(b));
}

/// Returns all `$ref`s in the tree of `schema`.
pub fn iter_ref_paths(schema: &Schema) -> (r: Vec<String>)
    ensures
        strings_view(r@) == ref_paths(*schema),
    decreases schema, 1int,
{
    let mut out: Vec<String> = Vec::new();
    match &schema.ref_path {
        Some(r) => {
            out.push(r.clone());
        },
        None => {},
    }
    assert(strings_view(out@) =~= match schema.ref_path {
        Some(r) => seq![r@],
        None => Seq::<Seq<char>>::empty(),
    });
    append_strings(&mut out, property_refs(&schema.properties));
    match &schema.items {
        Some(b) => append_strings(&mut out, iter_ref_paths(b)),
        None => {},
    }
    match &schema.additional_properties {
        Some(ObjectOrReference::Object(b)) => append_strings(&mut out, iter_ref_paths(b)),
        _ => {},
    }
    assert(strings_view(out@) =~= ref_paths(*schema));
    out
}

fn property_refs(ps: &Vec<(String, Schema)>) -> (r: Vec<String>)
    ensures
        strings_view(r@) == property_ref_paths(ps@),
    decreases ps, 0int,
{
    let mut out: Vec<String> = Vec::new();
    let n = ps.len();
    assert(strings_view(out@) =~= property_ref_paths(ps@.subrange(0, 0)));
    for i in 0..n
        invariant
            n == ps@.len(),
            strings_view(out@) == property_ref_paths(ps@.subrange(0, i as int)),
    {
        assert(ps@.subrange(0, i + 1).drop_last() == ps@.subrange(0, i as int));
        assert(ps@.subrange(0, i + 1).last() == ps@[i as int]);
        append_strings(&mut out, iter_ref_paths(&ps[i].1));
    }
    assert(ps@.subrange(0, n as int) == ps@);
    out
}

pub open spec fn derefs(s: Seq<&Schema>) -> Seq<Schema> {
    s.map_values(|x: &Schema| *x)
}

fn push_media_schemas<'a>(out: &mut Vec<&'a Schema>, ms: &'a Vec<(String, MediaType)>)
    ensures
        derefs(final(out)@) == derefs(old(out)@) + media_schemas(ms@),
{
    let ghost start = derefs(out@);
    let n = ms.len();
    assert(start + media_schemas(ms@.subrange(0, 0)) =~= start);
    for i in 0..n
        invariant
            n == ms@.len(),
            derefs(out@) == start + media_schemas(ms@.subrange(0, i as int)),
    {
        assert(ms@.subrange(0, i + 1).drop_last() == ms@.subrange(0, i as int));
        assert(ms@.subrange(0, i + 1).last() == ms@[i as int]);
        let ghost prev = media_schemas(ms@.subrange(0, i as int));
        match &ms[i].1.schema {
            Some(ObjectOrReference::Object(s)) => {
                let ghost before = out@;
                out.push(s);
                assert(derefs(out@) =~= derefs(before) + seq![*s]);
                assert(start + (prev + seq![*s]) =~= start + prev + seq![*s]);
            },
            _ => {
                assert(prev + Seq::<Schema>::empty() =~= prev);
            },
        }
    }
    assert(ms@.subrange(0, n as int) == ms@);
}

fn push_operation_schemas<'a>(out: &mut Vec<&'a Schema>, op: &'a Option<Operation>)
    ensures
        derefs(final(out)@) == derefs(old(out)@) + operation_schemas(*op),
{
    match op {
        Some(o) => {
            let ghost start = derefs(out@);
            let n = o.responses.len();
            assert(start + response_schemas(o.responses@.subrange(0, 0)) =~= start);
            for i in 0..n
                invariant
                    n == o.responses@.len(),
                    derefs(out@) == start + response_schemas(o.responses@.subrange(0, i as int)),
            {
                assert(o.responses@.subrange(0, i + 1).drop_last() == o.responses@.subrange(0, i as int));
                assert(o.responses@.subrange(0, i + 1).last() == o.responses@[i as int]);
                let ghost prev = response_schemas(o.responses@.subrange(0, i as int));
                push_media_schemas(out, &o.responses[i].1.content);
                assert(start + prev + media_schemas(o.responses@[i as int].1.content@) =~= start + (prev
                    + media_schemas(o.responses@[i as int].1.content@)));
            }
            assert(o.responses@.subrange(0, n as int) == o.responses@);
            let ghost mid = derefs(out@);
            match &o.request_body {
                Some(ObjectOrReference::Object(b)) => {
                    push_media_schemas(out, &b.content);
                },
                _ => {
                    assert(mid + request_schemas(o.request_body) =~= mid);
                },
            }
            assert(derefs(out@) =~= start + operation_schemas(*op));
        },
        None => {
            assert(derefs(out@) =~= derefs(out@) + operation_schemas(*op));
        },
    }
}

fn push_path_item_schemas<'a>(out: &mut Vec<&'a Schema>, p: &'a PathItem)
    ensures
        derefs(final(out)@) == derefs(old(out)@) + path_item_schemas(*p),
{
    let ghost start = derefs(out@);
    push_operation_schemas(out, &p.get);
    push_operation_schemas(out, &p.put);
    push_operation_schemas(out, &p.post);
    push_operation_schemas(out, &p.delete);
    push_operation_schemas(out, &p.options);
    push_operation_schemas(out, &p.head);
    push_operation_schemas(out, &p.patch);
    push_operation_schemas(out, &p.trace);
    assert(derefs(out@) =~= start + path_item_schemas(*p));
}

/// Returns every schema given inline in the document: the components, then
/// the response and request bodies of each operation, path by path, in
/// method order.
pub fn iter_spec_schemas(spec: &Spec) -> (r: Vec<&Schema>)
    ensures
        derefs(r@) == spec_schemas(*spec),
{
    let mut out: Vec<&Schema> = Vec::new();
    let cs = &spec.component_schemas;
    let n = cs.len();
    assert(derefs(out@) =~= component_schemas(cs@.subrange(0, 0)));
    for i in 0..n
        invariant
            n == cs@.len(),
            derefs(out@) == component_schemas(cs@.subrange(0, i as int)),
    {
        assert(cs@.subrange(0, i + 1).drop_last() == cs@.subrange(0, i as int));
        assert(cs@.subrange(0, i + 1).last() == cs@[i as int]);
        let ghost prev = component_schemas(cs@.subrange(0, i as int));
        match &cs[i].1 {
            ObjectOrReference::Object(s) => {
                let ghost before = out@;
                out.push(s);
                assert(derefs(out@) =~= derefs(before) + seq![*s]);
            },
            _ => {
                assert(prev + Seq::<Schema>::empty() =~= prev);
            },
        }
    }
    assert(cs@.subrange(0, n as int) == cs@);
    let ghost mid = derefs(out@);
    let ps = &spec.paths;
    let m = ps.len();
    assert(mid + paths_schemas(ps@.subrange(0, 0)) =~= mid);
    for i in 0..m
        invariant
            m == ps@.len(),
            derefs(out@) == mid + paths_schemas(ps@.subrange(0, i as int)),
    {
        assert(ps@.subrange(0, i + 1).drop_last() == ps@.subrange(0, i as int));
        assert(ps@.subrange(0, i + 1).last() == ps@[i as int]);
        let ghost prev = paths_schemas(ps@.subrange(0, i as int));
        push_path_item_schemas(&mut out, &ps[i].1);
        assert(mid + prev + path_item_schemas(ps@[i as int].1) =~= mid + (prev + path_item_schemas(ps@[i as int].1)));
    }
    assert(ps@.subrange(0, m as int) == ps@);
    out
}

/// Returns every `$ref` in the schemas given inline in the document.
pub fn document_ref_paths(spec: &Spec) -> (r: Vec<String>)
    ensures
        strings_view(r@) == schemas_ref_paths(spec_schemas(*spec)),
{
    let ss = iter_spec_schemas(spec);
    let ghost sv = derefs(ss@);
    let mut out: Vec<String> = Vec::new();
    let n = ss.len();
    assert(strings_view(out@) =~= schemas_ref_paths(sv.subrange(0, 0)));
    for i in 0..n
        invariant
            n == ss@.len(),
            sv == derefs(ss@),
            strings_view(out@) == schemas_ref_paths(sv.subrange(0, i as int)),
    {
        assert(sv.subrange(0, i + 1).drop_last() == sv.subrange(0, i as int));
        assert(sv.subrange(0, i + 1).last() == *ss@[i as int]);
        append_strings(&mut out, iter_ref_paths(ss[i]));
    }
    assert(sv.subrange(0, n as int) == sv);
    out
}

/// The distinct files that the references `refs` point into, in order of
/// first mention.
pub fn ref_files_of(refs: &Vec<String>) -> (r: Vec<String>)
    ensures
        strings_view(r@) == unique_seq(ref_files(strings_view(refs@))),
{
    let ghost rv = strings_view(refs@);
    let mut files: Vec<String> = Vec::new();
    let n = refs.len();
    for i in 0..n
        invariant
            n == refs@.len(),
            rv == strings_view(refs@),
            strings_view(files@) == ref_files(rv.subrange(0, i as int)),
    {
        assert(rv.subrange(0, i + 1).drop_last() == rv.subrange(0, i as int));
        assert(rv.subrange(0, i + 1).last() == refs@[i as int]@);
        let ghost before = files@;
        match ref_file(refs[i].as_str()) {
            Some(f) => {
                files.push(f);
                assert(strings_view(files@) =~= strings_view(before) + seq![f@]);
            },
            None => {
                assert(strings_view(files@) =~= strings_view(before) + Seq::<Seq<char>>::empty());
            },
        }
    }
    assert(rv.subrange(0, n as int) == rv);
    unique_strings(files)
}

} // verus!

verus! {

/// A file to read: the file part of a `$ref`, and the directory that it is
/// relative to.
pub struct FileRequest {
    pub base: String,
    pub file: String,
}

pub open spec fn request_views(s: Seq<FileRequest>) -> Seq<(Seq<char>, Seq<char>)> {
    s.map_values(|r: FileRequest| (r.base@, r.file@))
}

/// The names of the named schemas `s`.
pub open spec fn schema_names(s: Seq<(String, Schema)>) -> Seq<Seq<char>> {
    s.map_values(|p: (String, Schema)| p.0@)
}

/// The entries of `found` whose names are neither in `known` nor in an
/// earlier entry that was taken.
pub open spec fn new_entries(known: Seq<Seq<char>>, found: Seq<(String, Schema)>) -> Seq<(String, Schema)>
    decreases found.len(),
{
    if found.len() == 0 {
        Seq::empty()
    } else {
        let a = new_entries(known, found.drop_last());
        if known.contains(found.last().0@) || schema_names(a).contains(found.last().0@) {
            a
        } else {
            a.push(found.last())
        }
    }
}

/// The `$ref`s in the trees of the named schemas `s`.
pub open spec fn entries_ref_paths(s: Seq<(String, Schema)>) -> Seq<Seq<char>>
    decreases s.len(),
{
    if s.len() == 0 {
        Seq::empty()
    } else {
        entries_ref_paths(s.drop_last()) + ref_paths(s.last().1)
    }
}

/// Requests for each of `files`, relative to `base`.
pub open spec fn requests_for(base: Seq<char>, files: Seq<Seq<char>>) -> Seq<(Seq<char>, Seq<char>)> {
    files.map_values(|f: Seq<char>| (base, f))
}

/// Collects the schemas of the files that a document refers to. The files
/// themselves are read by the caller: it takes each request in turn, reads
/// the file it names, and hands back the schemas found there together with
/// the file's directory.
pub struct SchemaResolver {
    /// The schemas resolved so far, by name, in order of resolution.
    pub schemas: Vec<(String, Schema)>,
    /// The files still to read, in order.
    pub pending: Vec<FileRequest>,
}

fn requests(base: &str, files: Vec<String>) -> (r: Vec<FileRequest>)
    ensures
        request_views(r@) == requests_for(base@, strings_view(files@)),
{
    let mut out: Vec<FileRequest> = Vec::new();
    let n = files.len();
    for i in 0..n
        invariant
            n == files@.len(),
            out@.len() == i,
            forall|j: int| 0 <= j < i ==> (#[trigger] out@[j]).base@ == base@ && out@[j].file@ == files@[j]@,
    {
        out.push(FileRequest { base: base.to_owned(), file: files[i].clone() });
    }
    assert(request_views(out@) =~= requests_for(base@, strings_view(files@)));
    out
}

fn contains_name(s: &Vec<(String, Schema)>, name: &str) -> (r: bool)
    ensures
        r == schema_names(s@).contains(name@),
{
    let ghost ns = schema_names(s@);
    let n = s.len();
    for i in 0..n
        invariant
            n == s@.len(),
            ns == schema_names(s@),
            forall|j: int| 0 <= j < i ==> ns[j] != name@,
    {
        if same_text(s[i].0.as_str(), name) {
            assert(ns[i as int] == name@);
            return true;
        }
    }
    false
}

proof fn lemma_contains_concat(a: Seq<Seq<char>>, b: Seq<Seq<char>>, x: Seq<char>)
    ensures
        (a + b).contains(x) <==> (a.contains(x) || b.contains(x)),
{
    if a.contains(x) {
        let i = choose|i: int| 0 <= i < a.len() && a[i] == x;
        assert((a + b)[i] == x);
    }
    if b.contains(x) {
        let i = choose|i: int| 0 <= i < b.len() && b[i] == x;
        assert((a + b)[a.len() + i] == x);
    }
    if (a + b).contains(x) {
        let i = choose|i: int| 0 <= i < (a + b).len() && (a + b)[i] == x;
        if i < a.len() {
            assert(a[i] == x);
        } else {
            assert(b[i - a.len()] == x);
        }
    }
}

impl SchemaResolver {
    /// A resolver for `spec`, whose own directory is `root`: it asks for the
    /// files that the document's inline schemas refer to, each once, in
    /// order of first mention.
    pub fn new(spec: &Spec, root: &str) -> (r: SchemaResolver)
        ensures
            r.schemas@.len() == 0,
            request_views(r.pending@) == requests_for(
                root@,
                unique_seq(ref_files(schemas_ref_paths(spec_schemas(*spec)))),
            ),
    {
        let refs = document_ref_paths(spec);
        let files = ref_files_of(&refs);
        SchemaResolver { schemas: Vec::new(), pending: requests(root, files) }
    }

    /// The next file to read, taken from the front of the queue.
    pub fn next_request(&mut self) -> (r: Option<FileRequest>)
        ensures
            final(self).schemas == old(self).schemas,
            old(self).pending@.len() == 0 ==> r is None && final(self).pending@ == old(self).pending@,
            old(self).pending@.len() > 0 ==> r == Some(old(self).pending@[0])
                && final(self).pending@ == old(self).pending@.drop_first(),
    {
        if self.pending.len() == 0 {
            None
        } else {
            let r = self.pending.remove(0);
            assert(self.pending@ =~= old(self).pending@.drop_first());
            Some(r)
        }
    }

    /// Takes in the schemas `found` in a file whose directory is `base`.
    /// Those with a name not resolved yet are added; the files that they
    /// refer to are queued, relative to `base`, each once.
    pub fn absorb(&mut self, base: &str, found: Vec<(String, Schema)>)
        ensures
            final(self).schemas@ == old(self).schemas@ + new_entries(schema_names(old(self).schemas@), found@),
            request_views(final(self).pending@) == request_views(old(self).pending@) + requests_for(
                base@,
                unique_seq(
                    ref_files(
                        entries_ref_paths(new_entries(schema_names(old(self).schemas@), found@)),
                    ),
                ),
            ),
    {
        let ghost known = schema_names(self.schemas@);
        let ghost start = self.schemas@;
        let ghost fv = found@;
        let mut rest = found;
        let mut refs: Vec<String> = Vec::new();
        let total = rest.len();
        let mut k: usize = 0;
        assert(fv.subrange(0, 0) =~= Seq::<(String, Schema)>::empty());
        assert(start + Seq::<(String, Schema)>::empty() =~= start);
        while rest.len() > 0
            invariant
                total == fv.len(),
                k + rest@.len() == total,
                rest@ == fv.subrange(k as int, fv.len() as int),
                known == schema_names(start),
                start == old(self).schemas@,
                self.pending == old(self).pending,
                self.schemas@ == start + new_entries(known, fv.subrange(0, k as int)),
                strings_view(refs@) == entries_ref_paths(new_entries(known, fv.subrange(0, k as int))),
            decreases rest@.len(),
        {
            let ghost old_rest = rest@;
            assert(fv.subrange(k as int, fv.len() as int)[0] == fv[k as int]);
            let entry = rest.remove(0);
            assert(fv.subrange(0, k + 1).drop_last() == fv.subrange(0, k as int));
            assert(fv.subrange(0, k + 1).last() == fv[k as int]);
            let ghost added = new_entries(known, fv.subrange(0, k as int));
            assert(schema_names(self.schemas@) =~= known + schema_names(added));
            let seen = contains_name(&self.schemas, entry.0.as_str());
            proof {
                lemma_contains_concat(known, schema_names(added), entry.0@);
            }
            assert(seen == (known.contains(entry.0@) || schema_names(added).contains(entry.0@)));
            if !seen {
                let more = iter_ref_paths(&entry.1);
                append_strings(&mut refs, more);
                let ghost before = self.schemas@;
                self.schemas.push(entry);
                assert(self.schemas@ =~= start + added.push(fv[k as int]));
                assert(added.push(fv[k as int]).drop_last() =~= added);
            }
            k = k + 1;
            assert(rest@ =~= fv.subrange(k as int, fv.len() as int));
        }
        assert(fv.subrange(0, k as int) == fv);
        let files = ref_files_of(&refs);
        let mut reqs = requests(base, files);
        let ghost p0 = self.pending@;
        let ghost r0 = reqs@;
        self.pending.append(&mut reqs);
        assert(request_views(self.pending@) =~= request_views(p0) + request_views(r0));
    }
}

} // verus!
