//! Formatter templates: text in which each `{{ name }}` stands for the value
//! of `name` in a context of named strings.
use vstd::prelude::*;
use crate::text::{assoc, from_chars, lookup, push_str, substring, to_chars};

verus! {

/// `a` followed by what `o` holds, when it holds something.
pub open spec fn prepend(a: Seq<char>, o: Option<Seq<char>>) -> Option<Seq<char>> {
    match o {
        Some(r) => Some(a + r),
        None => None,
    }
}

/// Index of the first `}}` in `t` at or after `j`, or -1.
pub open spec fn find_close(t: Seq<char>, j: int) -> int
    decreases t.len() - j,
{
    if j < 0 || j + 1 >= t.len() {
        -1
    } else if t[j] == '}' && t[j + 1] == '}' {
        j
    } else {
        find_close(t, j + 1)
    }
}

/// The first index at or after `s` and before `e` that is not a space, or `e`.
pub open spec fn skip_spaces(t: Seq<char>, s: int, e: int) -> int
    decreases e - s,
{
    if 0 <= s < e && s < t.len() && t[s] == ' ' {
        skip_spaces(t, s + 1, e)
    } else {
        s
    }
}

/// The end of `t[s..e]` without its trailing spaces.
pub open spec fn back_spaces(t: Seq<char>, s: int, e: int) -> int
    decreases e - s,
{
    if 0 <= s < e && e <= t.len() && t[e - 1] == ' ' {
        back_spaces(t, s, e - 1)
    } else {
        e
    }
}

/// The name written in `t[s..e]`, without surrounding spaces.
pub open spec fn placeholder_key(t: Seq<char>, s: int, e: int) -> Seq<char> {
    let a = skip_spaces(t, s, e);
    t.subrange(a, back_spaces(t, a, e))
}

/// `t` from index `i` on, rendered in `ctx`; `None` when a placeholder is
/// not closed or names nothing in `ctx`.
pub open spec fn render_at(t: Seq<char>, ctx: Seq<(Seq<char>, Seq<char>)>, i: int) -> Option<Seq<char>>
    decreases t.len() - i,
{
    if i < 0 || i >= t.len() {
        Some(Seq::empty())
    } else if i + 1 < t.len() && t[i] == '{' && t[i + 1] == '{' {
        let k = find_close(t, i + 2);
        if k < i + 2 || k + 2 > t.len() {
            None
        } else {
            match assoc(ctx, placeholder_key(t, i + 2, k)) {
                None => None,
                Some(v) => prepend(v, render_at(t, ctx, k + 2)),
            }
        }
    } else {
        prepend(seq![t[i]], render_at(t, ctx, i + 1))
    }
}

/// The template `t` rendered in `ctx`.
pub open spec fn render(t: Seq<char>, ctx: Seq<(Seq<char>, Seq<char>)>) -> Option<Seq<char>> {
    render_at(t, ctx, 0)
}

proof fn lemma_prepend_assoc(a: Seq<char>, b: Seq<char>, o: Option<Seq<char>>)
    ensures
        prepend(a, prepend(b, o)) == prepend(a + b, o),
{
    if let Some(r) = o {
        assert(a + (b + r) =~= (a + b) + r);
    }
}

fn find_close_exec(t: &Vec<char>, start: usize) -> (r: Option<usize>)
    requires
        start <= t@.len(),
    ensures
        match r {
            Some(k) => k as int == find_close(t@, start as int) && k >= start && k + 1 < t@.len(),
            None => find_close(t@, start as int) == -1,
        },
{
    let mut j: usize = start;
    while j < t.len() && j + 1 < t.len()
        invariant
            start <= j <= t@.len(),
            find_close(t@, start as int) == find_close(t@, j as int),
        decreases t@.len() - j,
    {
        if t[j] == '}' && t[j + 1] == '}' {
            return Some(j);
        }
        j = j + 1;
    }
    None
}

fn skip_spaces_exec(t: &Vec<char>, s: usize, e: usize) -> (r: usize)
    requires
        s <= e <= t@.len(),
    ensures
        r as int == skip_spaces(t@, s as int, e as int),
        s <= r <= e,
{
    let mut i: usize = s;
    while i < e && t[i] == ' '
        invariant
            s <= i <= e <= t@.len(),
            skip_spaces(t@, s as int, e as int) == skip_spaces(t@, i as int, e as int),
        decreases e - i,
    {
        i = i + 1;
    }
    i
}

fn back_spaces_exec(t: &Vec<char>, s: usize, e: usize) -> (r: usize)
    requires
        s <= e <= t@.len(),
    ensures
        r as int == back_spaces(t@, s as int, e as int),
        s <= r <= e,
{
    let mut i: usize = e;
    while i > s && t[i - 1] == ' '
        invariant
            s <= i <= e <= t@.len(),
            back_spaces(t@, s as int, e as int) == back_spaces(t@, s as int, i as int),
        decreases i - s,
    {
        i = i - 1;
    }
    i
}

/// Renders `template` in `ctx`: each `{{ name }}` is replaced by the value of
/// `name` in `ctx`. `None` when a placeholder is not closed or names nothing
/// in `ctx`.
pub fn render_template(template: &str, ctx: &Vec<(String, String)>) -> (r: Option<String>)
    ensures
        crate::text::opt_view(r) == render(template@, crate::text::pairs_view(ctx@)),
{
    let ghost c = crate::text::pairs_view(ctx@);
    let t = to_chars(template);
    let mut out: Vec<char> = Vec::new();
    let mut i: usize = 0;
    assert(out@ + Seq::<char>::empty() =~= out@);
    while i < t.len()
        invariant
            i <= t@.len(),
            t@ == template@,
            c == crate::text::pairs_view(ctx@),
            render(t@, c) == prepend(out@, render_at(t@, c, i as int)),
        decreases t@.len() - i,
    {
        if i + 1 < t.len() && t[i] == '{' && t[i + 1] == '{' {
            match find_close_exec(&t, i + 2) {
                None => {
                    return None;
                },
                Some(k) => {
                    let a = skip_spaces_exec(&t, i + 2, k);
                    let b = back_spaces_exec(&t, a, k);
                    let key = substring(&t, a, b);
                    assert(key@ == placeholder_key(t@, i + 2, k as int));
                    match lookup(ctx, key.as_str()) {
                        None => {
                            return None;
                        },
                        Some(v) => {
                            proof {
                                lemma_prepend_assoc(out@, v@, render_at(t@, c, k + 2));
                            }
                            push_str(&mut out, v.as_str());
                            i = k + 2;
                        },
                    }
                },
            }
        } else {
            proof {
                lemma_prepend_assoc(out@, seq![t@[i as int]], render_at(t@, c, i + 1));
            }
            let ghost before = out@;
            out.push(t[i]);
            assert(out@ == before + seq![t@[i as int]]);
            i = i + 1;
        }
    }
    assert(out@ + Seq::<char>::empty() =~= out@);
    Some(from_chars(out.as_slice()))
}

} // verus!
