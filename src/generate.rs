use vstd::prelude::*;
use vstd::multiset::Multiset;
use crate::binding::{
    ARG_TYPE_TOKEN, FUNCTION_NAME_TOKEN, RETURN_TYPE_TOKEN, ROUTE_TOKEN, bindings_text, names_type,
    render_bindings,
};
use crate::endpoint::{EndpointDescriptor, FnSignature, copy_strings, describe, describes, shape_of, str_views};
use crate::extract::{parses, read_signatures, signatures_of};
use crate::route::{all_valid_segments, join, join_strings, render_route, route_statement, valid_segment};
use crate::template::{contains, occurs_in, replace_all, substitute};

verus! {

/// Placeholder of the route statements in the routing template.
pub const ROUTES_TOKEN: &'static str = "/* ROUTES */";

/// One source file found under the scanned root.
pub struct SourceFile {
    /// Directory names between the root and the file, outer first.
    pub dirs: Vec<String>,
    /// The file's base name without extension.
    pub module_name: String,
    /// The file's path, for diagnostics.
    pub path: String,
    /// The file's text.
    pub content: String,
}

/// One generated binding file.
pub struct BindingFile {
    /// Name of the file: the directories and module joined by `.`, with the
    /// `.ts` extension.
    pub name: String,
    /// Full content of the file.
    pub content: String,
}

/// Everything one run generates.
pub struct Generated {
    /// The routing file.
    pub routes: String,
    /// One binding file per source file, in the order of the sources.
    pub bindings: Vec<BindingFile>,
}

/// Why a run generates nothing.
#[derive(Debug)]
pub enum GenError {
    /// A source file does not parse.
    Parse { path: String, message: String },
    /// A directory under the root cannot stand as a route segment.
    InvalidSegment { path: String },
    /// The routing template lacks the routes placeholder.
    MissingRoutesPlaceholder,
    /// The stub template lacks one of its four placeholders.
    MissingStubPlaceholder,
    /// A type of an endpoint of this file does not map.
    Type { path: String, type_text: String },
}

/// Whether the stub template holds each of its four placeholders.
pub open spec fn stub_template_complete(t: Seq<char>) -> bool {
    &&& occurs_in(t, FUNCTION_NAME_TOKEN@)
    &&& occurs_in(t, ARG_TYPE_TOKEN@)
    &&& occurs_in(t, RETURN_TYPE_TOKEN@)
    &&& occurs_in(t, ROUTE_TOKEN@)
}

/// Whether the stub template holds each of its four placeholders.
pub fn has_stub_placeholders(t: &str) -> (r: bool)
    ensures
        r == stub_template_complete(t@),
{
    contains(t, FUNCTION_NAME_TOKEN) && contains(t, ARG_TYPE_TOKEN) && contains(t, RETURN_TYPE_TOKEN)
        && contains(t, ROUTE_TOKEN)
}

/// Name of the binding file of a source file.
pub open spec fn binding_file_name(f: SourceFile) -> Seq<char> {
    join(str_views(f.dirs@).push(f.module_name@), "."@) + ".ts"@
}

/// The views of per-file endpoint lists.
pub open spec fn endpoint_views(eps: Seq<Vec<EndpointDescriptor>>) -> Seq<Seq<EndpointDescriptor>> {
    eps.map_values(|v: Vec<EndpointDescriptor>| v@)
}

/// Route statements of all endpoints, file after file.
pub open spec fn route_lines(eps: Seq<Seq<EndpointDescriptor>>) -> Seq<Seq<char>>
    decreases eps.len(),
{
    if eps.len() == 0 {
        Seq::empty()
    } else {
        route_lines(eps.drop_last()) + eps.last().map_values(|d: EndpointDescriptor| route_statement(d))
    }
}

/// The routing file: the template with the route statements, one per line,
/// in place of its placeholder.
pub open spec fn routes_file(template: Seq<char>, eps: Seq<Seq<EndpointDescriptor>>) -> Seq<char> {
    replace_all(template, ROUTES_TOKEN@, join(route_lines(eps), "\n"@))
}

/// Name of the binding file of `f`.
pub fn binding_name_of(f: &SourceFile) -> (r: String)
    ensures
        r@ == binding_file_name(*f),
{
    let mut parts = copy_strings(&f.dirs);
    let ghost before = parts@;
    parts.push(f.module_name.clone());
    assert(str_views(parts@) =~= str_views(before).push(f.module_name@));
    let mut r = join_strings(&parts, ".");
    r.append(".ts");
    r
}

/// Builds the artifacts of a run from the endpoints read out of each source
/// file (`endpoints[i]` from `files[i]`). Fails where the routing template
/// lacks its placeholder, or else where a type of some file does not map.
pub fn assemble(
    routes_template: &str,
    stub_template: &str,
    files: &Vec<SourceFile>,
    endpoints: &Vec<Vec<EndpointDescriptor>>,
) -> (r: Result<Generated, GenError>)
    requires
        files.len() == endpoints.len(),
    ensures
        r matches Err(GenError::MissingRoutesPlaceholder) <==> !occurs_in(routes_template@, ROUTES_TOKEN@),
        r matches Err(GenError::MissingStubPlaceholder) <==> occurs_in(routes_template@, ROUTES_TOKEN@)
            && !stub_template_complete(stub_template@),
        r matches Err(e) ==> (e matches GenError::MissingRoutesPlaceholder || e matches GenError::MissingStubPlaceholder
            || e matches GenError::Type { .. }),
        r matches Err(GenError::Type { path, type_text }) ==> exists|i: int, j: int|
            0 <= i < files.len() && path@ == files[i].path@ && 0 <= j < endpoints[i].len() && names_type(
                #[trigger] endpoints[i]@[j],
                type_text@,
            ),
        r is Ok <==> occurs_in(routes_template@, ROUTES_TOKEN@) && stub_template_complete(stub_template@)
            && forall|i: int|
            0 <= i < endpoints.len() ==> (#[trigger] bindings_text(stub_template@, endpoints[i]@)) is Some,
        r matches Ok(g) ==> {
            &&& g.routes@ == routes_file(routes_template@, endpoint_views(endpoints@))
            &&& g.bindings.len() == files.len()
            &&& forall|i: int| 0 <= i < files.len() ==> {
                &&& (#[trigger] g.bindings[i]).name@ == binding_file_name(files[i])
                &&& bindings_text(stub_template@, endpoints[i]@) == Some(g.bindings[i].content@)
            }
        },
{
    proof { reveal_strlit("/* ROUTES */"); }
    if !contains(routes_template, ROUTES_TOKEN) {
        return Err(GenError::MissingRoutesPlaceholder);
    }
    if !has_stub_placeholders(stub_template) {
        return Err(GenError::MissingStubPlaceholder);
    }
    let ghost eps = endpoint_views(endpoints@);
    let mut lines: Vec<String> = Vec::new();
    let mut bindings: Vec<BindingFile> = Vec::new();
    let mut i: usize = 0;
    while i < files.len()
        invariant
            files.len() == endpoints.len(),
            eps == endpoint_views(endpoints@),
            occurs_in(routes_template@, ROUTES_TOKEN@),
            stub_template_complete(stub_template@),
            i <= files.len(),
            str_views(lines@) == route_lines(eps.subrange(0, i as int)),
            bindings.len() == i,
            forall|k: int| 0 <= k < i ==> (#[trigger] bindings_text(stub_template@, endpoints[k]@)) is Some,
            forall|k: int| 0 <= k < i ==> {
                &&& (#[trigger] bindings[k]).name@ == binding_file_name(files[k])
                &&& bindings_text(stub_template@, endpoints[k]@) == Some(bindings[k].content@)
            },
        decreases files.len() - i,
    {
        let ds = &endpoints[i];
        let content = match render_bindings(stub_template, ds) {
            Ok(t) => t,
            Err(e) => {
                return Err(GenError::Type { path: files[i].path.clone(), type_text: e.type_text });
            },
        };
        bindings.push(BindingFile { name: binding_name_of(&files[i]), content });
        let ghost base = str_views(lines@);
        let mut j: usize = 0;
        while j < ds.len()
            invariant
                i < eps.len(),
                ds@ == eps[i as int],
                j <= ds.len(),
                str_views(lines@) == base + ds@.subrange(0, j as int).map_values(
                    |d: EndpointDescriptor| route_statement(d),
                ),
            decreases ds.len() - j,
        {
            let ghost before = lines@;
            lines.push(render_route(&ds[j]));
            assert(str_views(lines@) =~= str_views(before).push(route_statement(ds@[j as int])));
            assert(ds@.subrange(0, j + 1).map_values(|d: EndpointDescriptor| route_statement(d))
                =~= ds@.subrange(0, j as int).map_values(|d: EndpointDescriptor| route_statement(d)).push(
                route_statement(ds@[j as int]),
            ));
            j = j + 1;
        }
        assert(ds@.subrange(0, j as int) =~= ds@);
        assert(eps.subrange(0, i + 1).drop_last() =~= eps.subrange(0, i as int));
        i = i + 1;
    }
    assert(eps.subrange(0, i as int) =~= eps);
    let joined = join_strings(&lines, "\n");
    let routes = substitute(routes_template, ROUTES_TOKEN, joined.as_str());
    Ok(Generated { routes, bindings })
}

/// Whether every file parses.
pub open spec fn all_parse(files: Seq<SourceFile>) -> bool {
    forall|i: int| 0 <= i < files.len() ==> parses(#[trigger] files[i].content@)
}

/// Whether every directory of every file can stand as a route segment.
pub open spec fn all_segments_valid(files: Seq<SourceFile>) -> bool {
    forall|i: int, k: int|
        0 <= i < files.len() && 0 <= k < files[i].dirs.len() ==> valid_segment(#[trigger] files[i].dirs[k]@)
}

/// Whether `ds` are the descriptors of the top-level functions of `f`, in
/// source order.
pub open spec fn file_described(ds: Seq<EndpointDescriptor>, f: SourceFile) -> bool {
    &&& ds.len() == signatures_of(f.content@).len()
    &&& forall|j: int|
        0 <= j < ds.len() ==> describes(
            #[trigger] ds[j],
            str_views(f.dirs@),
            f.module_name@,
            f.path@,
            signatures_of(f.content@)[j],
        )
}

/// Whether `eps[i]` are the descriptors of the functions of `files[i]`, for
/// every file.
pub open spec fn files_described(eps: Seq<Seq<EndpointDescriptor>>, files: Seq<SourceFile>) -> bool {
    eps.len() == files.len() && forall|i: int| 0 <= i < files.len() ==> file_described(#[trigger] eps[i], files[i])
}

/// Runs the generator over `files`: reads every file's functions, then builds
/// the artifacts. A file that does not parse stops the run before anything is
/// built, with the parse error, so no partial output exists. On success the
/// routing file and each binding file are those of the descriptors of the
/// files' functions.
pub fn generate(routes_template: &str, stub_template: &str, files: &Vec<SourceFile>) -> (r: Result<Generated, GenError>)
    ensures
        r matches Err(GenError::Parse { .. }) <==> !all_parse(files@),
        r matches Err(GenError::Parse { path, .. }) ==> exists|i: int|
            0 <= i < files.len() && !parses(#[trigger] files[i].content@) && path@ == files[i].path@,
        r matches Err(GenError::InvalidSegment { .. }) <==> all_parse(files@) && !all_segments_valid(files@),
        r matches Err(GenError::MissingRoutesPlaceholder) <==> all_parse(files@) && all_segments_valid(files@)
            && !occurs_in(routes_template@, ROUTES_TOKEN@),
        r matches Err(GenError::MissingStubPlaceholder) <==> all_parse(files@) && all_segments_valid(files@)
            && occurs_in(routes_template@, ROUTES_TOKEN@) && !stub_template_complete(stub_template@),
        r matches Err(GenError::Type { .. }) ==> {
            &&& all_parse(files@)
            &&& all_segments_valid(files@)
            &&& occurs_in(routes_template@, ROUTES_TOKEN@)
            &&& stub_template_complete(stub_template@)
            &&& exists|eps: Seq<Seq<EndpointDescriptor>>|
                #[trigger] files_described(eps, files@) && exists|i: int|
                    0 <= i < eps.len() && (#[trigger] bindings_text(stub_template@, eps[i])) is None
        },
        (all_parse(files@) && all_segments_valid(files@) && occurs_in(routes_template@, ROUTES_TOKEN@)
            && stub_template_complete(stub_template@) && forall|eps: Seq<Seq<EndpointDescriptor>>|
            #[trigger] files_described(eps, files@) ==> forall|i: int|
                0 <= i < eps.len() ==> (#[trigger] bindings_text(stub_template@, eps[i])) is Some) ==> r is Ok,
        r matches Ok(g) ==> exists|eps: Seq<Seq<EndpointDescriptor>>|
            {
                &&& #[trigger] files_described(eps, files@)
                &&& g.routes@ == routes_file(routes_template@, eps)
                &&& g.bindings.len() == files.len()
                &&& forall|i: int|
                    0 <= i < files.len() ==> {
                        &&& (#[trigger] g.bindings[i]).name@ == binding_file_name(files[i])
                        &&& bindings_text(stub_template@, eps[i]) == Some(g.bindings[i].content@)
                    }
            },
{
    let mut endpoints: Vec<Vec<EndpointDescriptor>> = Vec::new();
    let mut i: usize = 0;
    while i < files.len()
        invariant
            i <= files.len(),
            endpoints.len() == i,
            forall|k: int| 0 <= k < i ==> parses(#[trigger] files[k].content@),
            forall|k: int| 0 <= k < i ==> file_described(#[trigger] endpoints[k]@, files[k]),
        decreases files.len() - i,
    {
        let f = &files[i];
        let sigs = match read_signatures(f.content.as_str()) {
            Ok(s) => s,
            Err(e) => {
                return Err(GenError::Parse { path: f.path.clone(), message: e.message });
            },
        };
        let ds = describe(&f.dirs, f.module_name.as_str(), f.path.as_str(), &sigs);
        proof {
            let shapes = sigs@.map_values(|s: FnSignature| shape_of(s));
            assert(shapes.len() == sigs@.len());
            assert forall|j: int| 0 <= j < ds@.len() implies describes(
                #[trigger] ds@[j],
                str_views(f.dirs@),
                f.module_name@,
                f.path@,
                signatures_of(f.content@)[j],
            ) by {
                assert(shapes[j] == shape_of(sigs@[j]));
            }
        }
        endpoints.push(ds);
        i = i + 1;
    }
    let mut i: usize = 0;
    while i < files.len()
        invariant
            i <= files.len(),
            all_parse(files@),
            forall|k: int, j: int|
                0 <= k < i && 0 <= j < files[k].dirs.len() ==> valid_segment(#[trigger] files[k].dirs[j]@),
        decreases files.len() - i,
    {
        if !all_valid_segments(&files[i].dirs) {
            return Err(GenError::InvalidSegment { path: files[i].path.clone() });
        }
        i = i + 1;
    }
    let ghost eps = endpoint_views(endpoints@);
    assert(files_described(eps, files@)) by {
        assert forall|k: int| 0 <= k < files.len() implies file_described(#[trigger] eps[k], files[k]) by {
            assert(eps[k] == endpoints@[k]@);
        }
    }
    let r = assemble(routes_template, stub_template, files, &endpoints);
    proof {
        if r matches Err(GenError::Type { .. }) {
            let i = choose|i: int| 0 <= i < endpoints.len() && (#[trigger] bindings_text(stub_template@, endpoints[i]@)) is None;
            assert(eps[i] == endpoints@[i]@);
            assert(bindings_text(stub_template@, eps[i]) is None);
        }
        if r is Ok {
            assert forall|k: int| 0 <= k < files.len() implies bindings_text(stub_template@, eps[k]) == bindings_text(
                stub_template@,
                endpoints@[k]@,
            ) by {
                assert(eps[k] == endpoints@[k]@);
            }
        }
    }
    r
}

/// Generating again from unchanged sources gives the same artifacts, byte
/// for byte: each artifact is a function of the current sources alone, with
/// nothing carried over from an earlier run.
pub proof fn regeneration_is_identical(
    routes_template: Seq<char>,
    stub_template: Seq<char>,
    first: Seq<Seq<EndpointDescriptor>>,
    second: Seq<Seq<EndpointDescriptor>>,
)
    requires
        first == second,
    ensures
        routes_file(routes_template, first) == routes_file(routes_template, second),
        forall|i: int|
            0 <= i < first.len() ==> bindings_text(stub_template, #[trigger] first[i]) == bindings_text(
                stub_template,
                second[i],
            ),
{
}
/// Whether `a` comes no later than `b` in character-wise lexicographic order.
pub open spec fn lex_le(a: Seq<char>, b: Seq<char>) -> bool
    decreases a.len(),
{
    if a.len() == 0 {
        true
    } else if b.len() == 0 {
        false
    } else if a[0] != b[0] {
        (a[0] as int) < (b[0] as int)
    } else {
        lex_le(a.drop_first(), b.drop_first())
    }
}

/// Of two texts, one comes no later than the other.
pub proof fn lemma_lex_total(a: Seq<char>, b: Seq<char>)
    ensures
        lex_le(a, b) || lex_le(b, a),
    decreases a.len(),
{
    if a.len() > 0 && b.len() > 0 {
        if a[0] == b[0] {
            lemma_lex_total(a.drop_first(), b.drop_first());
        } else {
            assert((a[0] as int) != (b[0] as int));
        }
    }
}

/// Whether `a` comes no later than `b`.
pub fn lex_le_exec(a: &str, b: &str) -> (r: bool)
    ensures
        r == lex_le(a@, b@),
{
    let n = a.unicode_len();
    let m = b.unicode_len();
    let mut i: usize = 0;
    assert(a@.subrange(0, n as int) =~= a@);
    assert(b@.subrange(0, m as int) =~= b@);
    while i < n && i < m
        invariant
            n == a@.len(),
            m == b@.len(),
            i <= n,
            i <= m,
            lex_le(a@, b@) == lex_le(a@.subrange(i as int, n as int), b@.subrange(i as int, m as int)),
        decreases n - i,
    {
        let x = a.get_char(i);
        let y = b.get_char(i);
        let ghost ra = a@.subrange(i as int, n as int);
        let ghost rb = b@.subrange(i as int, m as int);
        assert(ra[0] == x && rb[0] == y);
        if x != y {
            return (x as u32) < (y as u32);
        }
        assert(ra.drop_first() =~= a@.subrange(i + 1, n as int));
        assert(rb.drop_first() =~= b@.subrange(i + 1, m as int));
        i = i + 1;
    }
    i == n
}

/// Whether each file's path comes no later than the next one's.
pub open spec fn sorted_by_path(fs: Seq<SourceFile>) -> bool {
    forall|i: int| 0 <= i < fs.len() - 1 ==> lex_le(#[trigger] fs[i].path@, fs[i + 1].path@)
}

/// The files ordered by path, so that what a run generates does not depend
/// on the order in which a directory listing named them.
pub fn sort_sources(files: Vec<SourceFile>) -> (r: Vec<SourceFile>)
    ensures
        r@.to_multiset() == files@.to_multiset(),
        sorted_by_path(r@),
{
    broadcast use vstd::seq_lib::to_multiset_insert, vstd::seq_lib::group_to_multiset_ensures,
        vstd::multiset::group_multiset_axioms, vstd::multiset::group_multiset_properties;

    let mut rest = files;
    let mut r: Vec<SourceFile> = Vec::new();
    assert(r@.to_multiset().add(rest@.to_multiset()) =~= rest@.to_multiset()) by {
        assert(r@ =~= Seq::<SourceFile>::empty());
    }
    while rest.len() > 0
        invariant
            r@.to_multiset().add(rest@.to_multiset()) == files@.to_multiset(),
            sorted_by_path(r@),
        decreases rest.len(),
    {
        let ghost before_rest = rest@;
        let ghost before_r = r@;
        let x = rest.remove(rest.len() - 1);
        proof {
            let last = before_rest.len() - 1;
            assert(before_rest[last] == x);
            assert(before_rest.contains(x));
            vstd::seq_lib::to_multiset_contains(before_rest, x);
            vstd::seq_lib::to_multiset_remove(before_rest, last);
            assert(rest@ == before_rest.remove(last));
        }
        let mut p: usize = 0;
        while p < r.len() && lex_le_exec(r[p].path.as_str(), x.path.as_str())
            invariant
                r@ == before_r,
                p <= r.len(),
                p > 0 ==> lex_le(r[p - 1].path@, x.path@),
            decreases r.len() - p,
        {
            p = p + 1;
        }
        proof {
            if p < r.len() {
                lemma_lex_total(r[p as int].path@, x.path@);
            }
        }
        r.insert(p, x);
        assert(sorted_by_path(r@)) by {
            assert forall|i: int| 0 <= i < r@.len() - 1 implies lex_le(#[trigger] r@[i].path@, r@[i + 1].path@) by {
                if i + 1 < p {
                    assert(r@[i] == before_r[i] && r@[i + 1] == before_r[i + 1]);
                } else if i + 1 == p {
                } else if i == p {
                } else {
                    assert(r@[i] == before_r[i - 1] && r@[i + 1] == before_r[i]);
                }
            }
        }
        proof {
            vstd::seq_lib::to_multiset_insert(before_r, p as int, x);
            assert(r@.to_multiset() == before_r.to_multiset().insert(x));
            assert(rest@.to_multiset() == before_rest.to_multiset().remove(x));
            assert(before_r.to_multiset().insert(x).add(before_rest.to_multiset().remove(x))
                =~= before_r.to_multiset().add(before_rest.to_multiset()));
        }
    }
    assert(rest@.to_multiset() =~= Multiset::empty()) by {
        assert(rest@ =~= Seq::<SourceFile>::empty());
    }
    assert(r@.to_multiset().add(rest@.to_multiset()) =~= r@.to_multiset());
    r
}

proof fn lemma_lex_antisymmetric(a: Seq<char>, b: Seq<char>)
    requires
        lex_le(a, b),
        lex_le(b, a),
    ensures
        a == b,
    decreases a.len(),
{
    if a.len() == 0 {
        assert(b.len() == 0);
        assert(a =~= b);
    } else {
        assert(b.len() > 0 && a[0] == b[0]);
        lemma_lex_antisymmetric(a.drop_first(), b.drop_first());
        assert(a =~= seq![a[0]] + a.drop_first());
        assert(b =~= seq![b[0]] + b.drop_first());
    }
}

proof fn lemma_lex_transitive(a: Seq<char>, b: Seq<char>, c: Seq<char>)
    requires
        lex_le(a, b),
        lex_le(b, c),
    ensures
        lex_le(a, c),
    decreases a.len(),
{
    if a.len() > 0 && b.len() > 0 && c.len() > 0 && a[0] == b[0] && b[0] == c[0] {
        lemma_lex_transitive(a.drop_first(), b.drop_first(), c.drop_first());
    }
}

proof fn lemma_sorted_pairwise(fs: Seq<SourceFile>, i: int, j: int)
    requires
        sorted_by_path(fs),
        0 <= i <= j < fs.len(),
    ensures
        lex_le(fs[i].path@, fs[j].path@),
    decreases j - i,
{
    if i == j {
        lemma_lex_total(fs[i].path@, fs[i].path@);
    } else {
        lemma_sorted_pairwise(fs, i, j - 1);
        lemma_lex_transitive(fs[i].path@, fs[j - 1].path@, fs[j].path@);
    }
}

/// Whether no two files share a path.
pub open spec fn distinct_paths(fs: Seq<SourceFile>) -> bool {
    forall|i: int, j: int| 0 <= i < j < fs.len() ==> fs[i].path@ != fs[j].path@
}

/// The files of a tree, ordered by path, do not depend on the order in which
/// they were listed: two listings of the same files with distinct paths,
/// each ordered by path, are the same sequence.
pub proof fn order_by_path_is_unique(a: Seq<SourceFile>, b: Seq<SourceFile>)
    requires
        a.to_multiset() == b.to_multiset(),
        sorted_by_path(a),
        sorted_by_path(b),
        distinct_paths(a),
    ensures
        a == b,
    decreases a.len(),
{
    broadcast use vstd::seq_lib::group_to_multiset_ensures, vstd::multiset::group_multiset_axioms;

    assert(a.len() == b.len()) by {
        assert(a.to_multiset().len() == a.len());
        assert(b.to_multiset().len() == b.len());
    }
    if a.len() == 0 {
        assert(a =~= b);
    } else {
        assert(b.to_multiset().count(a[0]) > 0) by {
            assert(a.contains(a[0]));
        }
        assert(b.contains(a[0]));
        let kb = choose|k: int| 0 <= k < b.len() && b[k] == a[0];
        assert(a.to_multiset().count(b[0]) > 0) by {
            assert(b.contains(b[0]));
        }
        assert(a.contains(b[0]));
        let ka = choose|k: int| 0 <= k < a.len() && a[k] == b[0];
        lemma_sorted_pairwise(a, 0, ka);
        lemma_sorted_pairwise(b, 0, kb);
        lemma_lex_antisymmetric(a[0].path@, b[0].path@);
        if ka != 0 {
            assert(a[0].path@ != a[ka].path@);
        }
        assert(a[0] == b[0]);
        vstd::seq_lib::to_multiset_remove(a, 0);
        vstd::seq_lib::to_multiset_remove(b, 0);
        let a1 = a.remove(0);
        let b1 = b.remove(0);
        assert(a1 =~= a.drop_first());
        assert(b1 =~= b.drop_first());
        assert(sorted_by_path(a1)) by {
            assert forall|i: int| 0 <= i < a1.len() - 1 implies lex_le(#[trigger] a1[i].path@, a1[i + 1].path@) by {
                assert(a1[i] == a[i + 1]);
                assert(a1[i + 1] == a[i + 2]);
            }
        }
        assert(sorted_by_path(b1)) by {
            assert forall|i: int| 0 <= i < b1.len() - 1 implies lex_le(#[trigger] b1[i].path@, b1[i + 1].path@) by {
                assert(b1[i] == b[i + 1]);
                assert(b1[i + 1] == b[i + 2]);
            }
        }
        assert(distinct_paths(a1)) by {
            assert forall|i: int, j: int| 0 <= i < j < a1.len() implies a1[i].path@ != a1[j].path@ by {
                assert(a1[i] == a[i + 1]);
                assert(a1[j] == a[j + 1]);
            }
        }
        order_by_path_is_unique(a1, b1);
        assert(a =~= seq![a[0]] + a1);
        assert(b =~= seq![b[0]] + b1);
    }
}

} // verus!
