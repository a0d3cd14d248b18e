use vstd::prelude::*;
use crate::text::{is_space, is_space_exec, owned, str_eq};

verus! {

/// A bracket that is open while a type expression is read.
#[derive(PartialEq, Eq, Structural, Clone, Copy)]
pub enum Frame {
    /// `Vec<`, rendered as an array.
    Array,
    /// The key of a `HashMap<` or `BTreeMap<`, always rendered as `string`.
    DictKey,
    /// The value of a `HashMap<` or `BTreeMap<`, rendered as the mapping's
    /// value type.
    Dict,
    /// `(` with elements, rendered as a tuple.
    Tuple,
    /// `()`, the unit type, rendered as nothing.
    Unit,
    /// Any other generic, passed through.
    Generic,
}

/// A type expression whose brackets do not balance, so that it cannot be
/// mapped.
#[derive(Debug)]
pub struct TypeError {
    /// The text of the type expression.
    pub type_text: String,
}

pub open spec fn is_delim(c: char) -> bool {
    c == '<' || c == '>' || c == '(' || c == ')' || c == ','
}

pub open spec fn is_name_char(c: char) -> bool {
    !is_delim(c) && !is_space(c)
}

/// End of the run of name characters that starts at `i`.
pub open spec fn name_end(s: Seq<char>, i: int) -> int
    decreases s.len() - i,
{
    if 0 <= i < s.len() && is_name_char(s[i]) {
        name_end(s, i + 1)
    } else {
        i
    }
}

/// First index at or after `i` that holds no space.
pub open spec fn skip_space(s: Seq<char>, i: int) -> int
    decreases s.len() - i,
{
    if 0 <= i < s.len() && is_space(s[i]) {
        skip_space(s, i + 1)
    } else {
        i
    }
}

pub proof fn lemma_name_end(s: Seq<char>, i: int)
    requires
        0 <= i <= s.len(),
    ensures
        i <= name_end(s, i) <= s.len(),
        i < s.len() && is_name_char(s[i]) ==> i < name_end(s, i),
    decreases s.len() - i,
{
    if i < s.len() && is_name_char(s[i]) {
        lemma_name_end(s, i + 1);
    }
}

pub proof fn lemma_skip_space(s: Seq<char>, i: int)
    requires
        0 <= i <= s.len(),
    ensures
        i <= skip_space(s, i) <= s.len(),
    decreases s.len() - i,
{
    if i < s.len() && is_space(s[i]) {
        lemma_skip_space(s, i + 1);
    }
}

pub open spec fn is_numeric_name(n: Seq<char>) -> bool {
    n == "i8"@ || n == "i16"@ || n == "i32"@ || n == "i64"@ || n == "i128"@ || n == "isize"@
        || n == "u8"@ || n == "u16"@ || n == "u32"@ || n == "u64"@ || n == "u128"@
        || n == "usize"@ || n == "f32"@ || n == "f64"@
}

/// Target of a name that is not followed by generic arguments.
pub open spec fn scalar_target(n: Seq<char>) -> Seq<char> {
    if is_numeric_name(n) {
        "number"@
    } else if n == "bool"@ {
        "boolean"@
    } else if n == "char"@ || n == "String"@ || n == "str"@ {
        "string"@
    } else {
        n
    }
}

/// Whether a name is one of those that the mapping recognizes.
pub open spec fn is_known_name(n: Seq<char>) -> bool {
    scalar_target(n) != n || n == "Vec"@ || n == "HashMap"@ || n == "BTreeMap"@
}

/// The bracket that a generic name opens.
pub open spec fn generic_frame(n: Seq<char>) -> Frame {
    if n == "Vec"@ {
        Frame::Array
    } else if n == "HashMap"@ || n == "BTreeMap"@ {
        Frame::DictKey
    } else {
        Frame::Generic
    }
}

/// Text that a recognized generic name and its `<` become.
pub open spec fn generic_open_text(n: Seq<char>) -> Seq<char> {
    if n == "Vec"@ {
        "Array<"@
    } else {
        "{ [key: string]: "@
    }
}

/// Text that a `>` closing `f` becomes.
pub open spec fn close_angle_text(f: Frame) -> Seq<char> {
    if f == Frame::Dict {
        " }"@
    } else {
        ">"@
    }
}

/// What a piece of the expression becomes: nothing inside a map's key, its
/// own text `raw` inside an unrecognized generic, else its mapping `mapped`.
pub open spec fn emit(quiet: bool, verbatim: bool, mapped: Seq<char>, raw: Seq<char>) -> Seq<char> {
    if quiet {
        Seq::empty()
    } else if verbatim {
        raw
    } else {
        mapped
    }
}

pub open spec fn prefixed(p: Seq<char>, o: Option<Seq<char>>) -> Option<Seq<char>> {
    match o {
        Some(t) => Some(p + t),
        None => None,
    }
}

/// Target text of the rest of `s` from `i` on, with the brackets `st` open
/// (innermost last), or `None` where the brackets do not balance.
pub open spec fn map_from(s: Seq<char>, i: int, st: Seq<Frame>) -> Option<Seq<char>>
    decreases s.len() - i,
    via map_from_decreases
{
    if i < 0 || i >= s.len() {
        if st.len() == 0 {
            Some(Seq::empty())
        } else {
            None
        }
    } else {
        let c = s[i];
        let q = st.contains(Frame::DictKey);
        let v = st.contains(Frame::Generic);
        if is_space(c) {
            prefixed(emit(q, v, Seq::empty(), seq![c]), map_from(s, i + 1, st))
        } else if c == '(' {
            let j = skip_space(s, i + 1);
            if j < s.len() && s[j] == ')' {
                prefixed(emit(q, v, Seq::empty(), "("@), map_from(s, i + 1, st.push(Frame::Unit)))
            } else {
                prefixed(emit(q, v, "("@, "("@), map_from(s, i + 1, st.push(Frame::Tuple)))
            }
        } else if c == ')' {
            if st.len() > 0 && st.last() == Frame::Tuple {
                prefixed(emit(q, v, ")"@, ")"@), map_from(s, i + 1, st.drop_last()))
            } else if st.len() > 0 && st.last() == Frame::Unit {
                prefixed(emit(q, v, Seq::empty(), ")"@), map_from(s, i + 1, st.drop_last()))
            } else {
                None
            }
        } else if c == '>' {
            if st.len() > 0 && (st.last() == Frame::Array || st.last() == Frame::Dict
                || st.last() == Frame::Generic) {
                prefixed(emit(q, v, close_angle_text(st.last()), ">"@), map_from(s, i + 1, st.drop_last()))
            } else {
                None
            }
        } else if c == ',' {
            if st.len() > 0 && st.last() == Frame::DictKey {
                map_from(s, i + 1, st.drop_last().push(Frame::Dict))
            } else if st.len() > 0 && st.last() != Frame::Unit {
                prefixed(emit(q, v, ", "@, ","@), map_from(s, i + 1, st))
            } else {
                None
            }
        } else if c == '<' {
            None
        } else {
            let e = name_end(s, i);
            let n = s.subrange(i, e);
            let j = skip_space(s, e);
            if j < s.len() && s[j] == '<' {
                let raw = s.subrange(i, j + 1);
                let f = if v { Frame::Generic } else { generic_frame(n) };
                if generic_frame(n) == Frame::Generic {
                    prefixed(emit(q, v, raw, raw), map_from(s, j + 1, st.push(f)))
                } else {
                    prefixed(emit(q, v, generic_open_text(n), raw), map_from(s, j + 1, st.push(f)))
                }
            } else {
                prefixed(emit(q, v, scalar_target(n), n), map_from(s, e, st))
            }
        }
    }
}

#[via_fn]
proof fn map_from_decreases(s: Seq<char>, i: int, st: Seq<Frame>) {
    if 0 <= i < s.len() {
        lemma_name_end(s, i);
        lemma_skip_space(s, i + 1);
        let e = name_end(s, i);
        lemma_skip_space(s, e);
    }
}

/// Target text of a whole type expression, or `None` where its brackets do
/// not balance.
pub open spec fn type_target(s: Seq<char>) -> Option<Seq<char>> {
    map_from(s, 0, Seq::empty())
}

pub proof fn lemma_prefixed_assoc(a: Seq<char>, b: Seq<char>, o: Option<Seq<char>>)
    ensures
        prefixed(a, prefixed(b, o)) == prefixed(a + b, o),
{
    if let Some(t) = o {
        assert(a + (b + t) =~= (a + b) + t);
    }
}

fn is_name_char_exec(c: char) -> (r: bool)
    ensures
        r == is_name_char(c),
{
    !(c == '<' || c == '>' || c == '(' || c == ')' || c == ',') && !is_space_exec(c)
}

fn name_end_exec(s: &str, n: usize, i: usize) -> (e: usize)
    requires
        n == s@.len(),
        i <= n,
    ensures
        e == name_end(s@, i as int),
{
    let mut e = i;
    while e < n && is_name_char_exec(s.get_char(e))
        invariant
            n == s@.len(),
            i <= e <= n,
            name_end(s@, i as int) == name_end(s@, e as int),
        decreases n - e,
    {
        e = e + 1;
    }
    e
}

fn skip_space_exec(s: &str, n: usize, i: usize) -> (j: usize)
    requires
        n == s@.len(),
        i <= n,
    ensures
        j == skip_space(s@, i as int),
{
    let mut j = i;
    while j < n && is_space_exec(s.get_char(j))
        invariant
            n == s@.len(),
            i <= j <= n,
            skip_space(s@, i as int) == skip_space(s@, j as int),
        decreases n - j,
    {
        j = j + 1;
    }
    j
}

fn is_numeric_name_exec(n: &str) -> (r: bool)
    ensures
        r == is_numeric_name(n@),
{
    str_eq(n, "i8") || str_eq(n, "i16") || str_eq(n, "i32") || str_eq(n, "i64") || str_eq(
        n,
        "i128",
    ) || str_eq(n, "isize") || str_eq(n, "u8") || str_eq(n, "u16") || str_eq(n, "u32")
        || str_eq(n, "u64") || str_eq(n, "u128") || str_eq(n, "usize") || str_eq(n, "f32")
        || str_eq(n, "f64")
}

fn scalar_target_exec(n: &str) -> (r: String)
    ensures
        r@ == scalar_target(n@),
{
    if is_numeric_name_exec(n) {
        owned("number")
    } else if str_eq(n, "bool") {
        owned("boolean")
    } else if str_eq(n, "char") || str_eq(n, "String") || str_eq(n, "str") {
        owned("string")
    } else {
        owned(n)
    }
}

fn generic_frame_exec(n: &str) -> (r: Frame)
    ensures
        r == generic_frame(n@),
{
    if str_eq(n, "Vec") {
        Frame::Array
    } else if str_eq(n, "HashMap") || str_eq(n, "BTreeMap") {
        Frame::DictKey
    } else {
        Frame::Generic
    }
}

fn has_frame(st: &Vec<Frame>, f: Frame) -> (r: bool)
    ensures
        r == st@.contains(f),
{
    let mut k: usize = 0;
    while k < st.len()
        invariant
            k <= st.len(),
            forall|m: int| 0 <= m < k ==> st@[m] != f,
        decreases st.len() - k,
    {
        if st[k] == f {
            assert(st@[k as int] == f);
            return true;
        }
        k = k + 1;
    }
    false
}

fn top_frame(st: &Vec<Frame>) -> (r: Option<Frame>)
    ensures
        r is Some <==> st@.len() > 0,
        r matches Some(f) ==> f == st@.last(),
{
    if st.len() > 0 {
        Some(st[st.len() - 1])
    } else {
        None
    }
}

/// Appends what a piece of the expression becomes.
fn emit_into(out: &mut String, quiet: bool, verbatim: bool, mapped: &str, raw: &str)
    ensures
        final(out)@ == old(out)@ + emit(quiet, verbatim, mapped@, raw@),
{
    if quiet {
        assert(old(out)@ + Seq::<char>::empty() =~= old(out)@);
    } else if verbatim {
        out.append(raw);
    } else {
        out.append(mapped);
    }
}

fn map_text(expr: &str) -> (r: Option<String>)
    ensures
        r is Some <==> type_target(expr@) is Some,
        r matches Some(t) ==> type_target(expr@) == Some(t@),
{
    let ghost s = expr@;
    let n = expr.unicode_len();
    let mut out = String::new();
    let mut st: Vec<Frame> = Vec::new();
    let mut i: usize = 0;
    assert(prefixed(out@, map_from(s, 0, st@)) == type_target(s)) by {
        if let Some(t) = map_from(s, 0, st@) {
            assert(out@ + t =~= t);
        }
    }
    while i < n
        invariant
            s == expr@,
            n == s.len(),
            i <= n,
            prefixed(out@, map_from(s, i as int, st@)) == type_target(s),
        decreases n - i,
    {
        let c = expr.get_char(i);
        let ghost old_out = out@;
        let ghost old_st = st@;
        let q = has_frame(&st, Frame::DictKey);
        let v = has_frame(&st, Frame::Generic);
        let piece = expr.substring_char(i, i + 1);
        assert(piece@ =~= seq![c]);
        proof {
            reveal_strlit("");
            assert(""@ =~= Seq::<char>::empty());
        }
        if is_space_exec(c) {
            emit_into(&mut out, q, v, "", piece);
            proof { lemma_prefixed_assoc(old_out, emit(q, v, ""@, seq![c]), map_from(s, i + 1, st@)); }
            i = i + 1;
        } else if c == '(' {
            proof { lemma_skip_space(s, i + 1); }
            let j = skip_space_exec(expr, n, i + 1);
            if j < n && expr.get_char(j) == ')' {
                emit_into(&mut out, q, v, "", "(");
                st.push(Frame::Unit);
                proof { lemma_prefixed_assoc(old_out, emit(q, v, ""@, "("@), map_from(s, i + 1, st@)); }
            } else {
                emit_into(&mut out, q, v, "(", "(");
                st.push(Frame::Tuple);
                proof { lemma_prefixed_assoc(old_out, emit(q, v, "("@, "("@), map_from(s, i + 1, st@)); }
            }
            i = i + 1;
        } else if c == ')' {
            match top_frame(&st) {
                Some(Frame::Tuple) => {
                    emit_into(&mut out, q, v, ")", ")");
                    st.pop();
                    proof { lemma_prefixed_assoc(old_out, emit(q, v, ")"@, ")"@), map_from(s, i + 1, st@)); }
                },
                Some(Frame::Unit) => {
                    emit_into(&mut out, q, v, "", ")");
                    st.pop();
                    proof { lemma_prefixed_assoc(old_out, emit(q, v, ""@, ")"@), map_from(s, i + 1, st@)); }
                },
                _ => {
                    return None;
                },
            }
            i = i + 1;
        } else if c == '>' {
            match top_frame(&st) {
                Some(Frame::Dict) => {
                    emit_into(&mut out, q, v, " }", ">");
                    st.pop();
                    proof { lemma_prefixed_assoc(old_out, emit(q, v, " }"@, ">"@), map_from(s, i + 1, st@)); }
                },
                Some(Frame::Array) | Some(Frame::Generic) => {
                    emit_into(&mut out, q, v, ">", ">");
                    st.pop();
                    proof { lemma_prefixed_assoc(old_out, emit(q, v, ">"@, ">"@), map_from(s, i + 1, st@)); }
                },
                _ => {
                    return None;
                },
            }
            i = i + 1;
        } else if c == ',' {
            match top_frame(&st) {
                Some(Frame::DictKey) => {
                    st.pop();
                    st.push(Frame::Dict);
                },
                Some(Frame::Unit) | None => {
                    return None;
                },
                _ => {
                    emit_into(&mut out, q, v, ", ", ",");
                    proof { lemma_prefixed_assoc(old_out, emit(q, v, ", "@, ","@), map_from(s, i + 1, st@)); }
                },
            }
            i = i + 1;
        } else if c == '<' {
            return None;
        } else {
            proof { lemma_name_end(s, i as int); }
            let e = name_end_exec(expr, n, i);
            proof { lemma_skip_space(s, e as int); }
            let name = expr.substring_char(i, e);
            let j = skip_space_exec(expr, n, e);
            if j < n && expr.get_char(j) == '<' {
                let raw = expr.substring_char(i, j + 1);
                let g = generic_frame_exec(name);
                let f = if v { Frame::Generic } else { g };
                if g == Frame::Generic {
                    emit_into(&mut out, q, v, raw, raw);
                    proof { lemma_prefixed_assoc(old_out, emit(q, v, raw@, raw@), map_from(s, j + 1, old_st.push(f))); }
                } else {
                    let t = if g == Frame::Array { owned("Array<") } else { owned("{ [key: string]: ") };
                    emit_into(&mut out, q, v, t.as_str(), raw);
                    proof { lemma_prefixed_assoc(old_out, emit(q, v, t@, raw@), map_from(s, j + 1, old_st.push(f))); }
                }
                st.push(f);
                i = j + 1;
            } else {
                let t = scalar_target_exec(name);
                emit_into(&mut out, q, v, t.as_str(), name);
                proof { lemma_prefixed_assoc(old_out, emit(q, v, t@, name@), map_from(s, e as int, st@)); }
                i = e;
            }
        }
    }
    if st.len() == 0 {
        assert(out@ + Seq::<char>::empty() =~= out@);
        Some(out)
    } else {
        None
    }
}

/// Maps a source type expression to its client-side counterpart: integer and
/// float names become `number`, `bool` becomes `boolean`, `char`, `str` and
/// `String` become `string`, `Vec<T>` an `Array<T>`, `HashMap<K, V>` and
/// `BTreeMap<K, V>` a mapping from `string` to `V`, a parenthesized list a
/// tuple, `()` nothing. Any other name, and any other generic with all it
/// encloses, passes through as written. Spaces between recognized pieces are
/// not significant. Fails exactly where the brackets do not balance.
pub fn map_type(expr: &str) -> (r: Result<String, TypeError>)
    ensures
        r is Ok <==> type_target(expr@) is Some,
        r matches Ok(t) ==> type_target(expr@) == Some(t@),
        r matches Err(e) ==> e.type_text@ == expr@,
{
    match map_text(expr) {
        Some(t) => Ok(t),
        None => Err(TypeError { type_text: owned(expr) }),
    }
}

/// Mapping a type is stable: the same text always maps to the same result.
pub proof fn type_mapping_is_stable(a: Seq<char>, b: Seq<char>)
    requires
        a == b,
    ensures
        type_target(a) == type_target(b),
{
}
/// Whether a name starts at `i`.
pub open spec fn name_starts_at(s: Seq<char>, i: int) -> bool {
    0 <= i < s.len() && is_name_char(s[i]) && (i == 0 || !is_name_char(s[i - 1]))
}

/// Whether every name in `s` is one that the mapping recognizes, so that
/// nothing of `s` passes through unmapped.
pub open spec fn all_names_known(s: Seq<char>) -> bool {
    forall|i: int| #[trigger] name_starts_at(s, i) ==> is_known_name(s.subrange(i, name_end(s, i)))
}

fn is_known_name_exec(n: &str) -> (r: bool)
    ensures
        r == is_known_name(n@),
{
    let t = scalar_target_exec(n);
    !str_eq(t.as_str(), n) || str_eq(n, "Vec") || str_eq(n, "HashMap") || str_eq(n, "BTreeMap")
}

/// Whether `expr` maps without passing any name through unchanged; where it
/// does not, the mapped text holds source names that the client side may not
/// know.
pub fn is_fully_mapped(expr: &str) -> (r: bool)
    ensures
        r == all_names_known(expr@),
{
    let ghost s = expr@;
    let n = expr.unicode_len();
    let mut i: usize = 0;
    while i < n
        invariant
            s == expr@,
            n == s.len(),
            i <= n,
            i == 0 || !is_name_char(s[i - 1]) || i == n,
            forall|k: int|
                0 <= k < i && #[trigger] name_starts_at(s, k) ==> is_known_name(s.subrange(k, name_end(s, k))),
        decreases n - i,
    {
        if is_name_char_exec(expr.get_char(i)) {
            proof { lemma_name_end(s, i as int); }
            let e = name_end_exec(expr, n, i);
            if !is_known_name_exec(expr.substring_char(i, e)) {
                assert(name_starts_at(s, i as int));
                return false;
            }
            proof {
                assert forall|k: int| i < k < e implies !name_starts_at(s, k) by {
                    lemma_name_run(s, i as int, k);
                }
            }
            if e < n {
                proof { lemma_name_end_stops(s, i as int); }
                i = e + 1;
            } else {
                i = e;
            }
        } else {
            i = i + 1;
        }
    }
    true
}

/// Inside a run of name characters every character is a name character.
proof fn lemma_name_run(s: Seq<char>, i: int, k: int)
    requires
        0 <= i < k < name_end(s, i),
        name_end(s, i) <= s.len(),
    ensures
        is_name_char(s[k - 1]),
    decreases k - i,
{
    if 0 <= i < s.len() && is_name_char(s[i]) {
        if k - 1 > i {
            lemma_name_run(s, i + 1, k);
        }
    }
}

/// A run of name characters ends before a character that is none.
proof fn lemma_name_end_stops(s: Seq<char>, i: int)
    requires
        0 <= i <= s.len(),
        name_end(s, i) < s.len(),
    ensures
        !is_name_char(s[name_end(s, i)]),
    decreases s.len() - i,
{
    if i < s.len() && is_name_char(s[i]) {
        lemma_name_end_stops(s, i + 1);
    }
}

/// A run of name characters from `i` to `e`, followed by the end or by
/// a character that is none, ends at `e`.
proof fn lemma_name_run_end(s: Seq<char>, i: int, e: int)
    requires
        0 <= i <= e <= s.len(),
        forall|k: int| i <= k < e ==> is_name_char(s[k]),
        e == s.len() || !is_name_char(s[e]),
    ensures
        name_end(s, i) == e,
    decreases e - i,
{
    if i < e {
        lemma_name_run_end(s, i + 1, e);
    }
}

/// A bare name maps by the table of scalar names: integer and float names
/// to `number`, `bool` to `boolean`, `char`, `str` and `String` to `string`,
/// any other name to itself.
pub proof fn bare_name_maps_by_table(n: Seq<char>)
    requires
        n.len() > 0,
        forall|k: int| 0 <= k < n.len() ==> is_name_char(n[k]),
    ensures
        type_target(n) == Some(scalar_target(n)),
{
    lemma_name_run_end(n, 0, n.len() as int);
    assert(is_name_char(n[0]));
    assert(n.subrange(0, n.len() as int) =~= n);
    assert(skip_space(n, n.len() as int) == n.len());
    assert(map_from(n, n.len() as int, Seq::empty()) == Some(Seq::<char>::empty()));
    assert(scalar_target(n) + Seq::<char>::empty() =~= scalar_target(n));
}

/// A vector of a name maps to an array of what the name maps to.
pub proof fn vec_of_name_maps_to_array(n: Seq<char>)
    requires
        n.len() > 0,
        forall|k: int| 0 <= k < n.len() ==> is_name_char(n[k]),
    ensures
        type_target("Vec<"@ + n + ">"@) == Some("Array<"@ + scalar_target(n) + ">"@),
{
    reveal_strlit("Vec<");
    reveal_strlit(">");
    reveal_strlit("Vec");
    let s = "Vec<"@ + n + ">"@;
    let e: int = 4 + n.len() as int;
    assert(s.len() == e + 1);
    assert(s[0] == 'V' && s[1] == 'e' && s[2] == 'c' && s[3] == '<');
    assert forall|k: int| 4 <= k < e implies is_name_char(s[k]) by {
        assert(s[k] == n[k - 4]);
    }
    assert(s[e] == '>');
    lemma_name_run_end(s, 0, 3);
    assert(s.subrange(0, 3) =~= "Vec"@);
    lemma_name_run_end(s, 4, e);
    assert(s.subrange(4, e) =~= n);
    let top = seq![Frame::Array];
    assert(Seq::<Frame>::empty().push(Frame::Array) =~= top);
    assert(top.drop_last() =~= Seq::<Frame>::empty());
    assert(map_from(s, e + 1, Seq::empty()) == Some(Seq::<char>::empty()));
    assert(map_from(s, e, top) == Some(">"@ + Seq::<char>::empty()));
    assert(map_from(s, 4, top) == Some(scalar_target(n) + (">"@ + Seq::<char>::empty())));
    assert(map_from(s, 0, Seq::empty()) == Some("Array<"@ + (scalar_target(n) + (">"@ + Seq::<char>::empty()))));
    assert("Array<"@ + (scalar_target(n) + (">"@ + Seq::<char>::empty())) =~= "Array<"@ + scalar_target(n) + ">"@);
}

/// An unrecognized generic passes through as written: `n<m>`, for a name
/// `n` other than `Vec`, `HashMap` and `BTreeMap` and any name `m`, maps to
/// itself.
pub proof fn unknown_generic_passes_through(n: Seq<char>, m: Seq<char>)
    requires
        n.len() > 0,
        m.len() > 0,
        forall|k: int| 0 <= k < n.len() ==> is_name_char(n[k]),
        forall|k: int| 0 <= k < m.len() ==> is_name_char(m[k]),
        generic_frame(n) == Frame::Generic,
    ensures
        type_target(n + "<"@ + m + ">"@) == Some(n + "<"@ + m + ">"@),
{
    reveal_strlit("<");
    reveal_strlit(">");
    let s = n + "<"@ + m + ">"@;
    let a: int = n.len() as int;
    let e: int = a + 1 + m.len() as int;
    assert(s.len() == e + 1);
    assert forall|k: int| 0 <= k < a implies is_name_char(s[k]) by {
        assert(s[k] == n[k]);
    }
    assert(s[a] == '<');
    assert forall|k: int| a + 1 <= k < e implies is_name_char(s[k]) by {
        assert(s[k] == m[k - a - 1]);
    }
    assert(s[e] == '>');
    lemma_name_run_end(s, 0, a);
    assert(s.subrange(0, a) =~= n);
    lemma_name_run_end(s, a + 1, e);
    assert(s.subrange(a + 1, e) =~= m);
    let raw = s.subrange(0, a + 1);
    assert(raw =~= n + "<"@);
    let top = seq![Frame::Generic];
    assert(Seq::<Frame>::empty().push(Frame::Generic) =~= top);
    assert(top.drop_last() =~= Seq::<Frame>::empty());
    assert(top.contains(Frame::Generic)) by {
        assert(top[0] == Frame::Generic);
    }
    assert(!top.contains(Frame::DictKey)) by {
        if top.contains(Frame::DictKey) {
            let k = choose|k: int| 0 <= k < top.len() && top[k] == Frame::DictKey;
            assert(top[k] == Frame::Generic);
        }
    }
    assert(!Seq::<Frame>::empty().contains(Frame::Generic));
    assert(!Seq::<Frame>::empty().contains(Frame::DictKey));
    let tail = Seq::<char>::empty();
    assert(map_from(s, e + 1, Seq::empty()) == Some(tail));
    assert(map_from(s, e, top) == Some(">"@ + tail));
    assert(map_from(s, a + 1, top) == Some(m + (">"@ + tail)));
    assert(map_from(s, 0, Seq::empty()) == Some(raw + (m + (">"@ + tail))));
    assert(raw + (m + (">"@ + tail)) =~= s);
}

} // verus!
