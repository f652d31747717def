//! Reference and path helpers.
use vstd::prelude::*;
use crate::text::{opt_view, find_char, first_index_of, from_chars, last_index_of, lemma_first_index_bounds, lemma_last_index_bounds, rfind_char, substring, to_chars};

verus! {

/// The name that a `$ref` points to: what follows its last `/`.
pub open spec fn name_from_ref(r: Seq<char>) -> Option<Seq<char>> {
    let k = last_index_of(r, '/');
    if k < 0 {
        None
    } else {
        Some(r.subrange(k + 1, r.len() as int))
    }
}

/// The file part of a `$ref`: what precedes its first `#`, when that is not empty.
pub open spec fn ref_file_of(r: Seq<char>) -> Option<Seq<char>> {
    let k = first_index_of(r, '#');
    if k == 0 {
        None
    } else {
        Some(r.subrange(0, k))
    }
}

/// A path is absolute when it starts at the root.
pub open spec fn is_absolute_path(p: Seq<char>) -> bool {
    p.len() > 0 && p[0] == '/'
}

/// `b` resolved against the directory `a`, with one separator between them.
pub open spec fn joined_path(a: Seq<char>, b: Seq<char>) -> Seq<char> {
    if is_absolute_path(b) {
        b
    } else if a.len() == 0 || a.last() == '/' {
        a + b
    } else {
        a + seq!['/'] + b
    }
}

/// Returns the model name from a `$ref`: the part after its last `/`.
pub fn model_name_from_ref(ref_path: &str) -> (r: Option<String>)
    ensures
        opt_view(r) == name_from_ref(ref_path@),
{
    let c = to_chars(ref_path);
    proof {
        lemma_last_index_bounds(c@, '/');
    }
    match rfind_char(&c, '/') {
        Some(k) => {
            assert(k < c@.len());
            Some(substring(&c, k + 1, c.len()))
        },
        None => None,
    }
}

/// Returns the file part of a `$ref`, dropping everything from the first `#`;
/// `None` when that part is empty.
pub fn ref_file(ref_path: &str) -> (r: Option<String>)
    ensures
        opt_view(r) == ref_file_of(ref_path@),
{
    let c = to_chars(ref_path);
    proof {
        lemma_first_index_bounds(c@, '#');
    }
    let k = find_char(&c, '#');
    if k == 0 {
        None
    } else {
        Some(substring(&c, 0, k))
    }
}

/// Joins `b` onto the directory `a` when `b` is relative; an absolute `b` is
/// returned as it is.
pub fn join_relative(a: &str, b: &str) -> (r: String)
    ensures
        r@ == joined_path(a@, b@),
{
    let ac = to_chars(a);
    let bc = to_chars(b);
    if bc.len() > 0 && bc[0] == '/' {
        return from_chars(bc.as_slice());
    }
    let mut out: Vec<char> = Vec::new();
    let mut i: usize = 0;
    while i < ac.len()
        invariant
            i <= ac@.len(),
            out@ == ac@.subrange(0, i as int),
        decreases ac@.len() - i,
    {
        out.push(ac[i]);
        i = i + 1;
    }
    assert(out@ == ac@);
    if ac.len() > 0 && ac[ac.len() - 1] != '/' {
        out.push('/');
    }
    let ghost mid = out@;
    let mut j: usize = 0;
    while j < bc.len()
        invariant
            j <= bc@.len(),
            out@ == mid + bc@.subrange(0, j as int),
        decreases bc@.len() - j,
    {
        out.push(bc[j]);
        j = j + 1;
    }
    assert(bc@.subrange(0, bc@.len() as int) == bc@);
    from_chars(out.as_slice())
}

} // verus!
