use vstd::prelude::*;
use crate::endpoint::{EndpointDescriptor, FnShape, copy_strings, describes, str_views};
use crate::text::owned;

verus! {

/// The parts joined with `sep` between each two.
pub open spec fn join(parts: Seq<Seq<char>>, sep: Seq<char>) -> Seq<char>
    decreases parts.len(),
{
    if parts.len() == 0 {
        Seq::empty()
    } else if parts.len() == 1 {
        parts[0]
    } else {
        join(parts.drop_last(), sep) + sep + parts.last()
    }
}

/// `s` between double quotes.
pub open spec fn quoted(s: Seq<char>) -> Seq<char> {
    "\""@ + s + "\""@
}

/// The segments of the route of `d`: its directories, outer first, then the
/// function's name.
pub open spec fn route_segments(d: EndpointDescriptor) -> Seq<Seq<char>> {
    str_views(d.path_segments@).push(d.function_name@)
}

/// Path of the handler function of `d`, as a Rust path.
pub open spec fn handler_path(d: EndpointDescriptor) -> Seq<char> {
    join(
        seq!["api"@] + str_views(d.path_segments@) + seq![d.module_name@, d.function_name@],
        "::"@,
    )
}

/// Arguments of the route macro: the quoted segments, `/` between them.
pub open spec fn route_literal(d: EndpointDescriptor) -> Seq<char> {
    join(route_segments(d).map_values(|s: Seq<char>| quoted(s)), " / "@)
}

/// The filter that decodes the request body, where there is a payload.
pub open spec fn body_filter(d: EndpointDescriptor) -> Seq<char> {
    match d.payload_type {
        Some(t) => ".and(warp::body::json::<"@ + t@ + ">())"@,
        None => Seq::empty(),
    }
}

/// The payload parameter of the adapter closure, where there is a payload.
pub open spec fn body_param(d: EndpointDescriptor) -> Seq<char> {
    match d.payload_type {
        Some(t) => ", body: "@ + t@,
        None => Seq::empty(),
    }
}

/// Arguments the adapter hands to the handler.
pub open spec fn call_args(d: EndpointDescriptor) -> Seq<char> {
    if d.payload_type is Some {
        "token, body"@
    } else if d.takes_credential {
        "token"@
    } else {
        Seq::empty()
    }
}

/// The routing statement of `d`: match the path, accept POST only, require a
/// valid bearer token, decode the body where there is a payload, call the
/// handler and reply with its result as JSON.
pub open spec fn route_statement(d: EndpointDescriptor) -> Seq<char> {
    "            .or(warp::path!("@ + route_literal(d) + ").and(warp::post()).and(jwt::with_auth())"@
        + body_filter(d) + ".and_then(|token: String"@ + body_param(d)
        + "| async move { reply_json(&"@ + handler_path(d) + "("@ + call_args(d) + ")) }))"@
}

/// Joins `parts` with `sep` between each two.
pub fn join_strings(parts: &Vec<String>, sep: &str) -> (r: String)
    ensures
        r@ == join(str_views(parts@), sep@),
{
    let mut out = String::new();
    let mut i: usize = 0;
    while i < parts.len()
        invariant
            i <= parts.len(),
            out@ == join(str_views(parts@.subrange(0, i as int)), sep@),
        decreases parts.len() - i,
    {
        let ghost prev = str_views(parts@.subrange(0, i as int));
        let ghost next = str_views(parts@.subrange(0, i + 1));
        assert(next =~= prev.push(parts@[i as int]@));
        assert(next.drop_last() =~= prev);
        if i > 0 {
            out.append(sep);
        } else {
            assert(out@ + parts@[0]@ =~= parts@[0]@);
        }
        out.append(parts[i].as_str());
        i = i + 1;
    }
    assert(parts@.subrange(0, parts.len() as int) =~= parts@);
    out
}

fn push_view(v: &mut Vec<String>, s: String)
    ensures
        str_views(final(v)@) == str_views(old(v)@).push(s@),
{
    let ghost before = v@;
    v.push(s);
    assert(str_views(v@) =~= str_views(before).push(s@));
}

/// Path of the handler function of `d`.
pub fn handler_path_of(d: &EndpointDescriptor) -> (r: String)
    ensures
        r@ == handler_path(*d),
{
    let mut parts: Vec<String> = Vec::new();
    push_view(&mut parts, owned("api"));
    let mut i: usize = 0;
    while i < d.path_segments.len()
        invariant
            i <= d.path_segments.len(),
            str_views(parts@) =~= seq!["api"@] + str_views(d.path_segments@.subrange(0, i as int)),
        decreases d.path_segments.len() - i,
    {
        push_view(&mut parts, d.path_segments[i].clone());
        assert(d.path_segments@.subrange(0, i + 1) =~= d.path_segments@.subrange(0, i as int).push(
            d.path_segments@[i as int],
        ));
        i = i + 1;
    }
    assert(d.path_segments@.subrange(0, i as int) =~= d.path_segments@);
    push_view(&mut parts, d.module_name.clone());
    push_view(&mut parts, d.function_name.clone());
    assert(str_views(parts@) =~= seq!["api"@] + str_views(d.path_segments@) + seq![
        d.module_name@,
        d.function_name@,
    ]);
    join_strings(&parts, "::")
}

/// The route's segments, each quoted.
fn quoted_segments(d: &EndpointDescriptor) -> (r: Vec<String>)
    ensures
        str_views(r@) == route_segments(*d).map_values(|s: Seq<char>| quoted(s)),
{
    let ghost segs = route_segments(*d);
    let mut all = copy_strings(&d.path_segments);
    push_view(&mut all, d.function_name.clone());
    let mut r: Vec<String> = Vec::new();
    let mut i: usize = 0;
    while i < all.len()
        invariant
            i <= all.len(),
            str_views(all@) == segs,
            str_views(r@) =~= segs.subrange(0, i as int).map_values(|s: Seq<char>| quoted(s)),
        decreases all.len() - i,
    {
        let mut q = owned("\"");
        q.append(all[i].as_str());
        q.append("\"");
        assert(segs[i as int] == all@[i as int]@);
        push_view(&mut r, q);
        assert(segs.subrange(0, i + 1) =~= segs.subrange(0, i as int).push(segs[i as int]));
        i = i + 1;
    }
    assert(segs.subrange(0, i as int) =~= segs);
    r
}

/// The route segments of `d`, outer first, ending in the function's name.
pub fn route_path(d: &EndpointDescriptor) -> (r: Vec<String>)
    ensures
        str_views(r@) == route_segments(*d),
        r.len() == d.path_segments.len() + 1,
{
    let mut r = copy_strings(&d.path_segments);
    push_view(&mut r, d.function_name.clone());
    assert(r@.len() == str_views(r@).len());
    assert(d.path_segments@.len() == str_views(d.path_segments@).len());
    r
}

/// Renders the routing statement of one endpoint.
pub fn render_route(d: &EndpointDescriptor) -> (r: String)
    ensures
        r@ == route_statement(*d),
{
    let mut out = owned("            .or(warp::path!(");
    let lit = join_strings(&quoted_segments(d), " / ");
    out.append(lit.as_str());
    out.append(").and(warp::post()).and(jwt::with_auth())");
    match &d.payload_type {
        Some(t) => {
            out.append(".and(warp::body::json::<");
            out.append(t.as_str());
            out.append(">())");
        },
        None => {
            assert(out@ + Seq::<char>::empty() =~= out@);
        },
    }
    out.append(".and_then(|token: String");
    match &d.payload_type {
        Some(t) => {
            out.append(", body: ");
            out.append(t.as_str());
        },
        None => {
            assert(out@ + Seq::<char>::empty() =~= out@);
        },
    }
    out.append("| async move { reply_json(&");
    out.append(handler_path_of(d).as_str());
    out.append("(");
    if d.payload_type.is_some() {
        out.append("token, body");
    } else if d.takes_credential {
        out.append("token");
    } else {
        assert(out@ + Seq::<char>::empty() =~= out@);
    }
    out.append(")) }))");
    assert(out@ =~= route_statement(*d));
    out
}

/// A handler under `N` directory levels gets a route of exactly `N + 1`
/// segments: the directories, outer first, then the function's name.
pub proof fn route_has_one_segment_per_level(d: EndpointDescriptor)
    ensures
        route_segments(d).len() == d.path_segments.len() + 1,
        forall|i: int| 0 <= i < d.path_segments.len() ==> route_segments(d)[i] == (#[trigger] d.path_segments[i])@,
        route_segments(d).last() == d.function_name@,
{
}

/// A function without parameters gets a descriptor without payload, and its
/// route decodes no body and hands the handler no arguments.
pub proof fn no_parameters_no_body(
    d: EndpointDescriptor,
    dirs: Seq<Seq<char>>,
    module: Seq<char>,
    source: Seq<char>,
    sig: FnShape,
)
    requires
        sig.1 == 0,
        describes(d, dirs, module, source, sig),
    ensures
        d.payload_type is None,
        body_filter(d) == Seq::<char>::empty(),
        body_param(d) == Seq::<char>::empty(),
        call_args(d) == Seq::<char>::empty(),
        route_statement(d) == "            .or(warp::path!("@ + route_literal(d)
            + ").and(warp::post()).and(jwt::with_auth())"@ + ".and_then(|token: String"@
            + "| async move { reply_json(&"@ + handler_path(d) + "("@ + ")) }))"@,
{
    let e = Seq::<char>::empty();
    let a = "            .or(warp::path!("@ + route_literal(d) + ").and(warp::post()).and(jwt::with_auth())"@;
    assert(a + e =~= a);
    let b = a + ".and_then(|token: String"@;
    assert(b + e =~= b);
    let c = b + "| async move { reply_json(&"@ + handler_path(d) + "("@;
    assert(c + e =~= c);
}
/// Whether `s` can stand as one segment of a route: not empty, and holding
/// no separator, quote or escape character.
pub open spec fn valid_segment(s: Seq<char>) -> bool {
    s.len() > 0 && forall|k: int| 0 <= k < s.len() ==> s[k] != '/' && s[k] != '"' && s[k] != '\\'
}

pub fn is_valid_segment(s: &str) -> (r: bool)
    ensures
        r == valid_segment(s@),
{
    let n = s.unicode_len();
    if n == 0 {
        return false;
    }
    let mut i: usize = 0;
    while i < n
        invariant
            n == s@.len(),
            i <= n,
            forall|k: int| 0 <= k < i ==> s@[k] != '/' && s@[k] != '"' && s@[k] != '\\',
        decreases n - i,
    {
        let c = s.get_char(i);
        if c == '/' || c == '"' || c == '\\' {
            return false;
        }
        i = i + 1;
    }
    true
}

/// Whether every one of `segs` can stand as a route segment.
pub fn all_valid_segments(segs: &Vec<String>) -> (r: bool)
    ensures
        r == forall|k: int| 0 <= k < segs.len() ==> valid_segment((#[trigger] segs[k])@),
{
    let mut i: usize = 0;
    while i < segs.len()
        invariant
            i <= segs.len(),
            forall|k: int| 0 <= k < i ==> valid_segment((#[trigger] segs[k])@),
        decreases segs.len() - i,
    {
        if !is_valid_segment(segs[i].as_str()) {
            return false;
        }
        i = i + 1;
    }
    true
}

} // verus!
