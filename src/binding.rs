use vstd::prelude::*;
use crate::endpoint::{EndpointDescriptor, opt_view};
use crate::route::{join, join_strings, quoted, route_path, route_segments};
use crate::template::{replace_all, substitute};
use crate::text::owned;
use crate::typemap::{TypeError, map_type, type_target};

verus! {

/// Placeholder of the exported identifier in the stub template.
pub const FUNCTION_NAME_TOKEN: &'static str = "$function_name$";

/// Placeholder of the argument type in the stub template.
pub const ARG_TYPE_TOKEN: &'static str = "$arg_type$";

/// Placeholder of the return type in the stub template.
pub const RETURN_TYPE_TOKEN: &'static str = "$return_type$";

/// Placeholder of the quoted route in the stub template.
pub const ROUTE_TOKEN: &'static str = "$route$";

/// Client-side type of a payload or return slot: `void` where the slot is
/// absent or the unit type, else the mapped type; `None` where the type does
/// not map.
pub open spec fn slot_target(o: Option<Seq<char>>) -> Option<Seq<char>> {
    match o {
        None => Some("void"@),
        Some(t) => match type_target(t) {
            None => None,
            Some(m) => if m.len() == 0 {
                Some("void"@)
            } else {
                Some(m)
            },
        },
    }
}

/// Identifier a stub exports: the route segments joined by `_`.
pub open spec fn binding_name(d: EndpointDescriptor) -> Seq<char> {
    join(route_segments(d), "_"@)
}

/// Quoted route that a stub calls.
pub open spec fn binding_route(d: EndpointDescriptor) -> Seq<char> {
    quoted(join(route_segments(d), "/"@))
}

/// The stub of `d` rendered from `template`, or `None` where its payload or
/// return type does not map.
pub open spec fn stub_text(template: Seq<char>, d: EndpointDescriptor) -> Option<Seq<char>> {
    match (slot_target(opt_view(d.payload_type)), slot_target(opt_view(d.return_type))) {
        (Some(arg), Some(ret)) => Some(
            replace_all(
                replace_all(
                    replace_all(
                        replace_all(template, FUNCTION_NAME_TOKEN@, binding_name(d)),
                        ARG_TYPE_TOKEN@,
                        arg,
                    ),
                    RETURN_TYPE_TOKEN@,
                    ret,
                ),
                ROUTE_TOKEN@,
                binding_route(d),
            ),
        ),
        _ => None,
    }
}

/// Whether `t` is the text of the payload or the return type of `d`.
pub open spec fn names_type(d: EndpointDescriptor, t: Seq<char>) -> bool {
    opt_view(d.payload_type) == Some(t) || opt_view(d.return_type) == Some(t)
}

/// First index at or after `i` that holds a line break, or the length.
pub open spec fn line_end(s: Seq<char>, i: int) -> int
    decreases s.len() - i,
{
    if 0 <= i < s.len() && s[i] != '\n' {
        line_end(s, i + 1)
    } else {
        i
    }
}

/// `s` without its first line and that line's break.
pub open spec fn without_first_line(s: Seq<char>) -> Seq<char> {
    let e = line_end(s, 0);
    if e < s.len() {
        s.subrange(e + 1, s.len() as int)
    } else {
        Seq::empty()
    }
}

/// Text of the binding file for the endpoints `ds`: each stub after a line
/// break, the template's first line kept only in the first stub. `None` where
/// a type does not map.
pub open spec fn bindings_text(template: Seq<char>, ds: Seq<EndpointDescriptor>) -> Option<Seq<char>>
    decreases ds.len(),
{
    if ds.len() == 0 {
        Some(Seq::empty())
    } else {
        match (bindings_text(template, ds.drop_last()), stub_text(template, ds.last())) {
            (Some(prev), Some(stub)) => if ds.len() == 1 {
                Some(prev + "\n"@ + stub)
            } else {
                Some(prev + "\n"@ + without_first_line(stub))
            },
            _ => None,
        }
    }
}

fn slot_type(o: &Option<String>) -> (r: Result<String, TypeError>)
    ensures
        r is Ok <==> slot_target(opt_view(*o)) is Some,
        r matches Ok(t) ==> slot_target(opt_view(*o)) == Some(t@),
        r matches Err(e) ==> opt_view(*o) == Some(e.type_text@),
{
    match o {
        None => Ok(owned("void")),
        Some(t) => {
            let m = map_type(t.as_str())?;
            if m.unicode_len() == 0 {
                Ok(owned("void"))
            } else {
                Ok(m)
            }
        },
    }
}

/// Renders the stub of one endpoint from `template`.
pub fn render_stub(template: &str, d: &EndpointDescriptor) -> (r: Result<String, TypeError>)
    ensures
        r is Ok <==> stub_text(template@, *d) is Some,
        r matches Ok(t) ==> stub_text(template@, *d) == Some(t@),
        r matches Err(e) ==> names_type(*d, e.type_text@),
{
    let arg = slot_type(&d.payload_type)?;
    let ret = slot_type(&d.return_type)?;
    let segs = route_path(d);
    let name = join_strings(&segs, "_");
    let mut route = owned("\"");
    route.append(join_strings(&segs, "/").as_str());
    route.append("\"");
    proof {
        reveal_strlit("$function_name$");
        reveal_strlit("$arg_type$");
        reveal_strlit("$return_type$");
        reveal_strlit("$route$");
    }
    let s1 = substitute(template, FUNCTION_NAME_TOKEN, name.as_str());
    let s2 = substitute(s1.as_str(), ARG_TYPE_TOKEN, arg.as_str());
    let s3 = substitute(s2.as_str(), RETURN_TYPE_TOKEN, ret.as_str());
    let s4 = substitute(s3.as_str(), ROUTE_TOKEN, route.as_str());
    Ok(s4)
}

/// `s` without its first line and that line's break.
pub fn drop_first_line(s: &str) -> (r: String)
    ensures
        r@ == without_first_line(s@),
{
    let n = s.unicode_len();
    let mut e: usize = 0;
    while e < n && s.get_char(e) != '\n'
        invariant
            n == s@.len(),
            e <= n,
            line_end(s@, 0) == line_end(s@, e as int),
        decreases n - e,
    {
        e = e + 1;
    }
    if e < n {
        owned(s.substring_char(e + 1, n))
    } else {
        String::new()
    }
}

/// Renders the binding file of the endpoints `ds` from the stub `template`.
/// The file is built anew from the endpoints alone, never added to.
pub fn render_bindings(template: &str, ds: &Vec<EndpointDescriptor>) -> (r: Result<String, TypeError>)
    ensures
        r is Ok <==> bindings_text(template@, ds@) is Some,
        r matches Ok(t) ==> bindings_text(template@, ds@) == Some(t@),
        r matches Err(e) ==> exists|i: int| 0 <= i < ds.len() && names_type(#[trigger] ds[i], e.type_text@),
{
    let mut out = String::new();
    let mut i: usize = 0;
    while i < ds.len()
        invariant
            i <= ds.len(),
            bindings_text(template@, ds@.subrange(0, i as int)) == Some(out@),
        decreases ds.len() - i,
    {
        let ghost pre = ds@.subrange(0, i + 1);
        assert(pre.drop_last() =~= ds@.subrange(0, i as int));
        assert(pre.last() == ds@[i as int]);
        let stub = match render_stub(template, &ds[i]) {
            Ok(t) => t,
            Err(e) => {
                assert(bindings_text(template@, pre) is None);
                proof { lemma_prefix_fails(template@, ds@, i + 1); }
                return Err(e);
            },
        };
        out.append("\n");
        if i == 0 {
            out.append(stub.as_str());
        } else {
            out.append(drop_first_line(stub.as_str()).as_str());
        }
        i = i + 1;
    }
    assert(ds@.subrange(0, ds.len() as int) =~= ds@);
    Ok(out)
}

/// Once a prefix of the endpoints fails to render, so does the whole list.
pub proof fn lemma_prefix_fails(template: Seq<char>, ds: Seq<EndpointDescriptor>, k: int)
    requires
        0 <= k <= ds.len(),
        bindings_text(template, ds.subrange(0, k)) is None,
    ensures
        bindings_text(template, ds) is None,
    decreases ds.len() - k,
{
    if k == ds.len() {
        assert(ds.subrange(0, k) =~= ds);
    } else {
        let pre = ds.subrange(0, k + 1);
        assert(pre.drop_last() =~= ds.subrange(0, k));
        lemma_prefix_fails(template, ds, k + 1);
    }
}

} // verus!
