use vstd::prelude::*;
use crate::text::str_eq;

verus! {

/// Why a template could not be filled.
#[derive(PartialEq, Eq, Structural, Clone, Copy, Debug)]
pub enum TemplateError {
    /// The template holds no occurrence of the placeholder.
    MissingPlaceholder,
}

/// Whether `p` occurs in `t` starting at `i`.
pub open spec fn occurs_at(t: Seq<char>, p: Seq<char>, i: int) -> bool {
    0 <= i && i + p.len() <= t.len() && t.subrange(i, i + p.len()) == p
}

/// Whether `p` occurs anywhere in `t`.
pub open spec fn occurs_in(t: Seq<char>, p: Seq<char>) -> bool {
    exists|i: int| occurs_at(t, p, i)
}

/// `t` with each occurrence of `p`, read left to right without overlap,
/// replaced by `w`.
pub open spec fn replace_all(t: Seq<char>, p: Seq<char>, w: Seq<char>) -> Seq<char>
    decreases t.len(),
{
    if t.len() == 0 {
        Seq::empty()
    } else if p.len() > 0 && occurs_at(t, p, 0) {
        w + replace_all(t.subrange(p.len() as int, t.len() as int), p, w)
    } else {
        seq![t[0]] + replace_all(t.subrange(1, t.len() as int), p, w)
    }
}

fn occurs_at_exec(t: &str, n: usize, p: &str, m: usize, i: usize) -> (r: bool)
    requires
        n == t@.len(),
        m == p@.len(),
        i <= n,
    ensures
        r == occurs_at(t@, p@, i as int),
{
    if m > n - i {
        false
    } else {
        str_eq(t.substring_char(i, i + m), p)
    }
}

/// Replaces each occurrence of `token` in `template` by `value`, reading
/// left to right; occurrences inside `value` are not replaced again.
pub fn substitute(template: &str, token: &str, value: &str) -> (r: String)
    requires
        token@.len() > 0,
    ensures
        r@ == replace_all(template@, token@, value@),
{
    let ghost t = template@;
    let ghost p = token@;
    let ghost w = value@;
    let n = template.unicode_len();
    let m = token.unicode_len();
    let mut out = String::new();
    let mut i: usize = 0;
    assert(t.subrange(0, n as int) =~= t);
    assert(Seq::<char>::empty() + replace_all(t, p, w) =~= replace_all(t, p, w));
    while i < n
        invariant
            t == template@,
            p == token@,
            w == value@,
            n == t.len(),
            m == p.len(),
            m > 0,
            i <= n,
            out@ + replace_all(t.subrange(i as int, n as int), p, w) == replace_all(t, p, w),
        decreases n - i,
    {
        let ghost rest = t.subrange(i as int, n as int);
        let ghost old_out = out@;
        if occurs_at_exec(template, n, token, m, i) {
            assert(rest.subrange(0, m as int) =~= t.subrange(i as int, i + m));
            assert(rest.subrange(m as int, rest.len() as int) =~= t.subrange(i + m, n as int));
            out.append(value);
            assert(old_out + (w + replace_all(t.subrange(i + m, n as int), p, w)) =~= out@
                + replace_all(t.subrange(i + m, n as int), p, w));
            i = i + m;
        } else {
            assert(!occurs_at(rest, p, 0)) by {
                if occurs_at(rest, p, 0) {
                    assert(rest.subrange(0, m as int) =~= t.subrange(i as int, i + m));
                }
            }
            assert(rest.subrange(1, rest.len() as int) =~= t.subrange(i + 1, n as int));
            out.append(template.substring_char(i, i + 1));
            assert(seq![t[i as int]] =~= t.subrange(i as int, i + 1));
            assert(old_out + (seq![t[i as int]] + replace_all(t.subrange(i + 1, n as int), p, w))
                =~= out@ + replace_all(t.subrange(i + 1, n as int), p, w));
            i = i + 1;
        }
    }
    assert(t.subrange(n as int, n as int) =~= Seq::<char>::empty());
    assert(out@ + Seq::<char>::empty() =~= out@);
    out
}

/// Whether `token` occurs in `s`.
pub fn contains(s: &str, token: &str) -> (r: bool)
    ensures
        r == occurs_in(s@, token@),
{
    let n = s.unicode_len();
    let m = token.unicode_len();
    let mut i: usize = 0;
    while i < n
        invariant
            n == s@.len(),
            m == token@.len(),
            i <= n,
            forall|k: int| 0 <= k < i ==> !occurs_at(s@, token@, k),
        decreases n - i,
    {
        if occurs_at_exec(s, n, token, m, i) {
            return true;
        }
        i = i + 1;
    }
    if occurs_at_exec(s, n, token, m, n) {
        return true;
    }
    assert forall|k: int| !occurs_at(s@, token@, k) by {
        if 0 <= k < n {
        }
    }
    false
}

/// Fills the one placeholder `token` of `template` with `value`. A template
/// that lacks the placeholder is an error, so that nothing is generated from
/// it.
pub fn fill_placeholder(template: &str, token: &str, value: &str) -> (r: Result<String, TemplateError>)
    requires
        token@.len() > 0,
    ensures
        r is Err <==> !occurs_in(template@, token@),
        r matches Ok(t) ==> t@ == replace_all(template@, token@, value@),
{
    if contains(template, token) {
        Ok(substitute(template, token, value))
    } else {
        Err(TemplateError::MissingPlaceholder)
    }
}

} // verus!
