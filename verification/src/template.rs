//! Dialogue variables: `{{name}}` in a content is replaced by the value of
//! `name`; a name without a value is left as it was written.
use vstd::prelude::*;
use bevy::platform::collections::HashMap;

use vstd::string::{StrSliceExecFns, StringExecFns};

use crate::outside::{variable_map, variables_get};

verus! {

/// Positions `j` and `j + 1` of `s` both hold `c`.
pub open spec fn pair_at(s: Seq<char>, j: int, c: char) -> bool {
    0 <= j && j + 1 < s.len() && s[j] == c && s[j + 1] == c
}

/// The position of the first pair of `c` in `s`, if there is one.
pub open spec fn pair_pos(s: Seq<char>, c: char) -> Option<int>
    decreases s.len(),
{
    if s.len() < 2 {
        None
    } else if s[0] == c && s[1] == c {
        Some(0)
    } else {
        match pair_pos(s.drop_first(), c) {
            Some(j) => Some(j + 1),
            None => None,
        }
    }
}

/// What `{{key}}` becomes: the value of `key`, or `{{key}}` itself if it has none.
pub open spec fn expand(key: Seq<char>, vars: Map<Seq<char>, Seq<char>>) -> Seq<char> {
    if vars.contains_key(key) {
        vars[key]
    } else {
        seq!['{', '{'] + key + seq!['}', '}']
    }
}

/// `s` with each `{{key}}` expanded, from left to right. An opening `{{`
/// without a closing `}}` after it leaves the rest of `s` as it is.
pub open spec fn render(s: Seq<char>, vars: Map<Seq<char>, Seq<char>>) -> Seq<char>
    decreases s.len(),
{
    if s.len() == 0 {
        s
    } else if pair_at(s, 0, '{') {
        let rest = s.skip(2);
        match pair_pos(rest, '}') {
            Some(j) => {
                proof {
                    lemma_pair_pos(rest, '}');
                }
                expand(rest.take(j), vars) + render(rest.skip(j + 2), vars)
            },
            None => s,
        }
    } else {
        seq![s[0]] + render(s.drop_first(), vars)
    }
}

/// `pair_pos` finds the first pair, and finds none when there is none.
pub proof fn lemma_pair_pos(s: Seq<char>, c: char)
    ensures
        match pair_pos(s, c) {
            Some(j) => pair_at(s, j, c) && forall|k: int| 0 <= k < j ==> !#[trigger] pair_at(s, k, c),
            None => forall|k: int| !#[trigger] pair_at(s, k, c),
        },
    decreases s.len(),
{
    if s.len() >= 2 && !(s[0] == c && s[1] == c) {
        let t = s.drop_first();
        lemma_pair_pos(t, c);
        assert forall|k: int| 0 <= k < s.len() implies pair_at(s, k + 1, c) == #[trigger] pair_at(t, k, c) by {}
        match pair_pos(t, c) {
            Some(j) => {
                assert forall|k: int| 0 <= k < j + 1 implies !#[trigger] pair_at(s, k, c) by {
                    if k > 0 {
                        assert(pair_at(s, k, c) == pair_at(t, k - 1, c));
                    }
                }
            },
            None => {
                assert forall|k: int| !#[trigger] pair_at(s, k, c) by {
                    if k > 0 {
                        assert(pair_at(s, k, c) == pair_at(t, k - 1, c));
                    }
                }
            },
        }
    }
}

/// A first pair at `j` is what `pair_pos` finds.
proof fn lemma_pair_pos_is(s: Seq<char>, c: char, j: int)
    requires
        pair_at(s, j, c),
        forall|k: int| 0 <= k < j ==> !#[trigger] pair_at(s, k, c),
    ensures
        pair_pos(s, c) == Some(j),
{
    lemma_pair_pos(s, c);
    match pair_pos(s, c) {
        Some(i) => {
            if i < j {
                assert(!pair_at(s, i, c));
            } else if i > j {
                assert(!pair_at(s, j, c));
            }
        },
        None => {
            assert(!pair_at(s, j, c));
        },
    }
}

/// With no opening pair before `p`, rendering copies the first `p` characters.
proof fn lemma_render_copies_prefix(s: Seq<char>, p: int, vars: Map<Seq<char>, Seq<char>>)
    requires
        0 <= p <= s.len(),
        forall|k: int| 0 <= k < p ==> !#[trigger] pair_at(s, k, '{'),
    ensures
        render(s, vars) == s.take(p) + render(s.skip(p), vars),
    decreases p,
{
    if p == 0 {
        assert(s.take(0) + s.skip(0) =~= s.skip(0));
        assert(s.skip(0) =~= s);
    } else {
        let t = s.drop_first();
        assert(!pair_at(s, 0, '{'));
        assert forall|k: int| 0 <= k < p - 1 implies !#[trigger] pair_at(t, k, '{') by {
            assert(!pair_at(s, k + 1, '{'));
        }
        lemma_render_copies_prefix(t, p - 1, vars);
        assert(t.skip(p - 1) =~= s.skip(p));
        assert(seq![s[0]] + t.take(p - 1) =~= s.take(p));
    }
}

/// Rendering without any variable gives the text back unchanged: every
/// `{{name}}` stays as it was written.
pub proof fn lemma_render_without_variables(s: Seq<char>)
    ensures
        render(s, Map::empty()) == s,
    decreases s.len(),
{
    if s.len() > 0 {
        if pair_at(s, 0, '{') {
            let rest = s.skip(2);
            lemma_pair_pos(rest, '}');
            match pair_pos(rest, '}') {
                Some(j) => {
                    lemma_render_without_variables(rest.skip(j + 2));
                    assert(seq!['{', '{'] + rest.take(j) + seq!['}', '}'] + rest.skip(j + 2) =~= s);
                },
                None => {},
            }
        } else {
            lemma_render_without_variables(s.drop_first());
            assert(seq![s[0]] + s.drop_first() =~= s);
        }
    }
}

/// A text without `{{` renders to itself, whatever the variables.
pub proof fn lemma_render_plain(s: Seq<char>, vars: Map<Seq<char>, Seq<char>>)
    requires
        forall|k: int| !#[trigger] pair_at(s, k, '{'),
    ensures
        render(s, vars) == s,
{
    lemma_render_copies_prefix(s, s.len() as int, vars);
    assert(s.take(s.len() as int) =~= s);
    assert(s.skip(s.len() as int).len() == 0);
}

/// `{{name}}` alone, with a value for `name`, renders to that value.
pub proof fn lemma_render_variable(name: Seq<char>, vars: Map<Seq<char>, Seq<char>>)
    requires
        vars.contains_key(name),
        forall|k: int| !#[trigger] pair_at(name, k, '}'),
        name.len() == 0 || name.last() != '}',
    ensures
        render(seq!['{', '{'] + name + seq!['}', '}'], vars) == vars[name],
{
    let s = seq!['{', '{'] + name + seq!['}', '}'];
    let rest = s.skip(2);
    assert(rest =~= name + seq!['}', '}']);
    assert forall|k: int| 0 <= k < name.len() implies !#[trigger] pair_at(rest, k, '}') by {
        if k + 1 < name.len() {
            assert(!pair_at(name, k, '}'));
        }
    }
    assert(pair_at(rest, name.len() as int, '}'));
    lemma_pair_pos_is(rest, '}', name.len() as int);
    assert(rest.take(name.len() as int) =~= name);
    let tail = rest.skip(name.len() + 2int);
    assert(tail =~= Seq::<char>::empty());
    assert(render(tail, vars) == tail);
    assert(pair_at(s, 0, '{'));
    assert(s.len() > 0);
    assert(render(s, vars) == expand(name, vars) + render(tail, vars));
    assert(expand(name, vars) + tail =~= vars[name]);
}

/// The characters of `s`, in order.
fn chars_of(s: &str) -> (v: Vec<char>)
    ensures
        v@ == s@,
{
    let mut v: Vec<char> = Vec::new();
    for c in it: s.chars()
        invariant
            v@ == it.seq().take(it.index() as int),
    {
        v.push(c);
        assert(v@ =~= it.seq().take(it.index() + 1));
    }
    v
}

/// The first pair of `c` in `chars` at or after `from`.
fn find_pair(chars: &Vec<char>, from: usize, c: char) -> (r: Option<usize>)
    requires
        from <= chars@.len(),
    ensures
        match r {
            Some(p) => from <= p && pair_at(chars@, p as int, c)
                && forall|k: int| from <= k < p ==> !#[trigger] pair_at(chars@, k, c),
            None => forall|k: int| from <= k ==> !#[trigger] pair_at(chars@, k, c),
        },
{
    let n = chars.len();
    let mut j = from;
    while j < n && j + 1 < n
        invariant
            n == chars@.len(),
            from <= j <= n,
            forall|k: int| from <= k < j ==> !#[trigger] pair_at(chars@, k, c),
        decreases n - j,
    {
        if chars[j] == c && chars[j + 1] == c {
            return Some(j);
        }
        j = j + 1;
    }
    assert forall|k: int| from <= k implies !#[trigger] pair_at(chars@, k, c) by {
        if k >= j {
            assert(!(k + 1 < n));
        }
    }
    None
}

/// Rendering from `i` copies the text up to the first opening pair at `p`.
proof fn lemma_step_copy(t: Seq<char>, i: int, p: int, vars: Map<Seq<char>, Seq<char>>)
    requires
        0 <= i <= p <= t.len(),
        forall|k: int| i <= k < p ==> !#[trigger] pair_at(t, k, '{'),
    ensures
        render(t.skip(i), vars) == t.subrange(i, p) + render(t.skip(p), vars),
{
    let u = t.skip(i);
    assert forall|k: int| 0 <= k < p - i implies !#[trigger] pair_at(u, k, '{') by {
        assert(pair_at(u, k, '{') == pair_at(t, i + k, '{'));
    }
    lemma_render_copies_prefix(u, p - i, vars);
    assert(u.take(p - i) =~= t.subrange(i, p));
    assert(u.skip(p - i) =~= t.skip(p));
}

/// Rendering from `i` with no opening pair left copies the rest.
proof fn lemma_step_plain(t: Seq<char>, i: int, vars: Map<Seq<char>, Seq<char>>)
    requires
        0 <= i <= t.len(),
        forall|k: int| i <= k ==> !#[trigger] pair_at(t, k, '{'),
    ensures
        render(t.skip(i), vars) == t.skip(i),
{
    let u = t.skip(i);
    assert forall|k: int| !#[trigger] pair_at(u, k, '{') by {
        if 0 <= k {
            assert(pair_at(u, k, '{') == pair_at(t, i + k, '{'));
        }
    }
    lemma_render_plain(u, vars);
}

/// An opening pair at `p` closed first at `q` expands the name between them.
proof fn lemma_step_expand(t: Seq<char>, p: int, q: int, vars: Map<Seq<char>, Seq<char>>)
    requires
        pair_at(t, p, '{'),
        p + 2 <= q,
        pair_at(t, q, '}'),
        forall|k: int| p + 2 <= k < q ==> !#[trigger] pair_at(t, k, '}'),
    ensures
        render(t.skip(p), vars) == expand(t.subrange(p + 2, q), vars) + render(t.skip(q + 2), vars),
{
    let w = t.skip(p);
    let rest = w.skip(2);
    assert(rest =~= t.skip(p + 2));
    assert(pair_at(w, 0, '{'));
    assert(pair_at(rest, q - p - 2, '}')) by {
        assert(rest[q - p - 2] == t[q]);
        assert(rest[q - p - 1] == t[q + 1]);
    }
    assert forall|k: int| 0 <= k < q - p - 2 implies !#[trigger] pair_at(rest, k, '}') by {
        assert(pair_at(rest, k, '}') == pair_at(t, p + 2 + k, '}'));
    }
    lemma_pair_pos_is(rest, '}', q - p - 2);
    assert(rest.take(q - p - 2) =~= t.subrange(p + 2, q));
    assert(rest.skip(q - p - 2 + 2) =~= t.skip(q + 2));
}

/// An opening pair at `p` that is never closed leaves the rest as it is.
proof fn lemma_step_unclosed(t: Seq<char>, p: int, vars: Map<Seq<char>, Seq<char>>)
    requires
        pair_at(t, p, '{'),
        forall|k: int| p + 2 <= k ==> !#[trigger] pair_at(t, k, '}'),
    ensures
        render(t.skip(p), vars) == t.skip(p),
{
    let w = t.skip(p);
    let rest = w.skip(2);
    assert(pair_at(w, 0, '{'));
    assert forall|k: int| !#[trigger] pair_at(rest, k, '}') by {
        if 0 <= k {
            assert(pair_at(rest, k, '}') == pair_at(t, p + 2 + k, '}'));
        }
    }
    lemma_pair_pos(rest, '}');
    if pair_pos(rest, '}') is Some {
        assert(pair_at(rest, pair_pos(rest, '}')->0, '}'));
    }
}

/// `template` with each `{{name}}` replaced by the value of `name` in `vars`.
/// A name without a value, and an opening `{{` that is never closed, are kept
/// as written.
pub fn replace_templates(template: &str, vars: &HashMap<String, String>) -> (r: String)
    ensures
        r@ == render(template@, variable_map(*vars)),
{
    let ghost t = template@;
    let ghost vm = variable_map(*vars);
    let chars = chars_of(template);
    let n = chars.len();
    let mut out = String::new();
    let mut i: usize = 0;
    proof {
        assert(t.skip(0) =~= t);
        assert(out@ + t =~= t);
    }
    while i < n
        invariant_except_break
            n == t.len(),
            chars@ == t,
            t == template@,
            vm == variable_map(*vars),
            i <= n,
            render(t, vm) == out@ + render(t.skip(i as int), vm),
        ensures
            n == t.len(),
            t == template@,
            i <= n,
            render(t, vm) == out@ + t.skip(i as int),
        decreases n - i,
    {
        let ghost out0 = out@;
        match find_pair(&chars, i, '{') {
            None => {
                proof {
                    lemma_step_plain(t, i as int, vm);
                }
                break;
            },
            Some(p) => {
                proof {
                    lemma_step_copy(t, i as int, p as int, vm);
                    reveal_strlit("{{");
                    reveal_strlit("}}");
                }
                let before = template.substring_char(i, p);
                out.append(before);
                let ghost out1 = out@;
                let rem = p + 2;
                match find_pair(&chars, rem, '}') {
                    Some(q) => {
                        proof {
                            lemma_step_expand(t, p as int, q as int, vm);
                        }
                        let key = template.substring_char(rem, q);
                        match variables_get(vars, key) {
                            Some(value) => {
                                out.append(value.as_str());
                            },
                            None => {
                                out.append("{{");
                                out.append(key);
                                out.append("}}");
                            },
                        }
                        proof {
                            assert(out@ =~= out1 + expand(key@, vm));
                            assert(out@ + render(t.skip(q + 2), vm) =~= out0 + (t.subrange(i as int, p as int)
                                + (expand(key@, vm) + render(t.skip(q + 2), vm))));
                        }
                        i = q + 2;
                    },
                    None => {
                        proof {
                            lemma_step_unclosed(t, p as int, vm);
                            assert(t.skip(p as int) =~= seq!['{', '{'] + t.skip(rem as int));
                        }
                        out.append("{{");
                        proof {
                            assert(out0 + (t.subrange(i as int, p as int) + t.skip(p as int))
                                =~= out@ + t.skip(rem as int));
                        }
                        i = rem;
                        break;
                    },
                }
            },
        }
    }
    proof {
        if i == n {
            assert(t.skip(i as int) =~= Seq::<char>::empty());
        }
    }
    let tail = template.substring_char(i, n);
    out.append(tail);
    proof {
        assert(out@ =~= render(t, vm));
    }
    out
}

/// Text before the first `{` is copied as it is, and the rest is rendered
/// on its own.
pub proof fn lemma_render_after_plain_prefix(prefix: Seq<char>, s: Seq<char>, vars: Map<Seq<char>, Seq<char>>)
    requires
        forall|k: int| 0 <= k < prefix.len() ==> prefix[k] != '{',
    ensures
        render(prefix + s, vars) == prefix + render(s, vars),
{
    let t = prefix + s;
    assert forall|k: int| 0 <= k < prefix.len() implies !#[trigger] pair_at(t, k, '{') by {
        assert(t[k] == prefix[k]);
    }
    lemma_render_copies_prefix(t, prefix.len() as int, vars);
    assert(t.take(prefix.len() as int) =~= prefix);
    assert(t.skip(prefix.len() as int) =~= s);
}

} // verus!
