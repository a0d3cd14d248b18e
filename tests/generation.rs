use backend::binding::{drop_first_line, render_bindings, render_stub};
use backend::endpoint::{describe, keeps_credential_convention, EndpointDescriptor, FnSignature};
use backend::extract::read_signatures;
use backend::generate::{
    assemble, binding_name_of, generate, lex_le_exec, sort_sources, GenError, SourceFile, ROUTES_TOKEN,
};
use backend::route::{handler_path_of, is_valid_segment, join_strings, render_route, route_path};

const SUM_RS: &str = "use serde::Deserialize;

pub struct QueryParams {
    a: i32,
    b: i32,
}

pub fn sum(
    _token: String,
    params: QueryParams
) -> i32 {
    params.a + params.b
}

pub fn sub(
    _token: String,
    params: QueryParams
) -> i32 {
    params.a - params.b
}
";

const MAIN_TEMPLATE: &str = "let apis = login\n/* ROUTES */\n;";

const STUB_TEMPLATE: &str = "import { call } from \"./client\";
export async function $function_name$(arg: $arg_type$): Promise<$return_type$> { return call($route$, arg); }
";

fn source(dirs: &[&str], module: &str, content: &str) -> SourceFile {
    SourceFile {
        dirs: dirs.iter().map(|d| d.to_string()).collect(),
        module_name: module.to_string(),
        path: format!("src/api/{}.rs", module),
        content: content.to_string(),
    }
}

fn descriptor(dirs: &[&str], name: &str, payload: Option<&str>, ret: Option<&str>, credential: bool) -> EndpointDescriptor {
    EndpointDescriptor {
        path_segments: dirs.iter().map(|d| d.to_string()).collect(),
        module_name: "m".to_string(),
        function_name: name.to_string(),
        payload_type: payload.map(|p| p.to_string()),
        return_type: ret.map(|r| r.to_string()),
        takes_credential: credential,
        source_location: "src/api/m.rs".to_string(),
    }
}

#[test]
fn signatures_are_read_in_source_order() {
    let sigs = read_signatures(SUM_RS).unwrap();
    assert_eq!(sigs.len(), 2);
    assert_eq!(sigs[0].name, "sum");
    assert_eq!(sigs[1].name, "sub");
    assert_eq!(sigs[0].param_count, 2);
    assert_eq!(sigs[0].payload_type.as_deref(), Some("QueryParams"));
    assert_eq!(sigs[0].return_type.as_deref(), Some("i32"));
    assert_eq!(sigs[0].credential_type.as_deref(), Some("String"));
    assert!(keeps_credential_convention(&sigs[0]));
}

#[test]
fn nested_functions_are_not_endpoints() {
    let sigs = read_signatures("fn outer() { fn inner() {} }\nmod m { pub fn hidden() {} }").unwrap();
    assert_eq!(sigs.len(), 1);
    assert_eq!(sigs[0].name, "outer");
    assert_eq!(sigs[0].param_count, 0);
    assert!(sigs[0].payload_type.is_none());
    assert!(sigs[0].return_type.is_none());
}

#[test]
fn malformed_source_fails_to_read() {
    assert!(read_signatures("pub fn broken( {").is_err());
}

#[test]
fn describe_keeps_the_credential_out_of_the_payload() {
    let sigs = vec![
        FnSignature {
            name: "probe".to_string(),
            param_count: 1,
            payload_type: None,
            return_type: None,
            credential_type: Some("String".to_string()),
        },
        FnSignature {
            name: "odd".to_string(),
            param_count: 1,
            payload_type: Some("i32".to_string()),
            return_type: Some("bool".to_string()),
            credential_type: Some("u8".to_string()),
        },
    ];
    let ds = describe(&vec!["v1".to_string()], "m", "src/api/v1/m.rs", &sigs);
    assert_eq!(ds.len(), 2);
    assert!(ds[0].payload_type.is_none());
    assert!(ds[0].takes_credential);
    assert!(ds[1].payload_type.is_none());
    assert_eq!(ds[1].return_type.as_deref(), Some("bool"));
    assert_eq!(ds[1].path_segments, vec!["v1".to_string()]);
    assert_eq!(ds[1].source_location, "src/api/v1/m.rs");
    assert!(keeps_credential_convention(&sigs[0]));
    assert!(!keeps_credential_convention(&sigs[1]));
}

#[test]
fn route_path_has_one_segment_per_level_plus_name() {
    let d = descriptor(&["v1", "users"], "create", Some("User"), Some("i32"), true);
    assert_eq!(route_path(&d), vec!["v1", "users", "create"]);
    let top = descriptor(&[], "sum", None, None, true);
    assert_eq!(route_path(&top), vec!["sum"]);
}

#[test]
fn route_statement_with_payload() {
    let d = descriptor(&["v1"], "create", Some("User"), Some("i32"), true);
    assert_eq!(
        render_route(&d),
        "            .or(warp::path!(\"v1\" / \"create\").and(warp::post()).and(jwt::with_auth())\
         .and(warp::body::json::<User>()).and_then(|token: String, body: User| async move \
         { reply_json(&api::v1::m::create(token, body)) }))"
    );
}

#[test]
fn route_without_parameters_decodes_no_body() {
    let d = descriptor(&[], "ping", None, None, false);
    let r = render_route(&d);
    assert_eq!(
        r,
        "            .or(warp::path!(\"ping\").and(warp::post()).and(jwt::with_auth())\
         .and_then(|token: String| async move { reply_json(&api::m::ping()) }))"
    );
    assert!(!r.contains("warp::body::json"));
}

#[test]
fn handler_path_names_module_and_function() {
    let d = descriptor(&["a", "b"], "f", None, None, true);
    assert_eq!(handler_path_of(&d), "api::a::b::m::f");
}

#[test]
fn join_strings_puts_separator_between() {
    let parts = vec!["a".to_string(), "b".to_string(), "c".to_string()];
    assert_eq!(join_strings(&parts, " / "), "a / b / c");
    assert_eq!(join_strings(&Vec::new(), "/"), "");
}

#[test]
fn stub_fills_all_placeholders() {
    let d = descriptor(&["v1"], "list", Some("Vec<i32>"), Some("HashMap<String, f64>"), true);
    assert_eq!(
        render_stub(STUB_TEMPLATE, &d).unwrap(),
        "import { call } from \"./client\";
export async function v1_list(arg: Array<number>): Promise<{ [key: string]: number }> { return call(\"v1/list\", arg); }
"
    );
}

#[test]
fn stub_of_unit_types_uses_void() {
    let d = descriptor(&[], "ping", None, Some("()"), false);
    let s = render_stub(STUB_TEMPLATE, &d).unwrap();
    assert!(s.contains("ping(arg: void): Promise<void>"));
}

#[test]
fn stub_with_unbalanced_type_fails() {
    let d = descriptor(&[], "bad", Some("Vec<i32"), None, true);
    assert!(render_stub(STUB_TEMPLATE, &d).is_err());
    assert!(render_bindings(STUB_TEMPLATE, &vec![d]).is_err());
}

#[test]
fn drop_first_line_removes_the_header() {
    assert_eq!(drop_first_line("head\nbody\n"), "body\n");
    assert_eq!(drop_first_line("only"), "");
}

#[test]
fn header_line_appears_once_per_binding_file() {
    let ds = vec![
        descriptor(&[], "sum", Some("QueryParams"), Some("i32"), true),
        descriptor(&[], "sub", Some("QueryParams"), Some("i32"), true),
    ];
    let text = render_bindings(STUB_TEMPLATE, &ds).unwrap();
    assert_eq!(text.matches("import { call }").count(), 1);
    assert_eq!(
        text,
        "\nimport { call } from \"./client\";
export async function sum(arg: QueryParams): Promise<number> { return call(\"sum\", arg); }

export async function sub(arg: QueryParams): Promise<number> { return call(\"sub\", arg); }
"
    );
}

#[test]
fn binding_file_name_flattens_directories() {
    assert_eq!(binding_name_of(&source(&[], "sum", "")), "sum.ts");
    assert_eq!(binding_name_of(&source(&["v1", "users"], "admin", "")), "v1.users.admin.ts");
}

#[test]
fn sum_module_yields_sum_and_sub_routes() {
    let g = generate(MAIN_TEMPLATE, STUB_TEMPLATE, &vec![source(&[], "sum", SUM_RS)]).ok().unwrap();
    let lines: Vec<&str> = g.routes.lines().collect();
    assert_eq!(lines.len(), 4);
    assert!(lines[1].contains("warp::path!(\"sum\")"));
    assert!(lines[2].contains("warp::path!(\"sub\")"));
    for l in &lines[1..3] {
        assert!(l.contains(".and(warp::post())"));
        assert!(l.contains(".and(jwt::with_auth())"));
        assert!(l.contains(".and(warp::body::json::<QueryParams>())"));
    }
    assert!(lines[1].contains("api::sum::sum(token, body)"));
    assert!(lines[2].contains("api::sum::sub(token, body)"));
    assert_eq!(g.bindings.len(), 1);
    assert_eq!(g.bindings[0].name, "sum.ts");
}

#[test]
fn function_without_parameters_has_no_payload() {
    let src = source(&[], "health", "pub fn ping() -> bool { true }");
    let g = generate(MAIN_TEMPLATE, STUB_TEMPLATE, &vec![src]).ok().unwrap();
    assert!(g.routes.contains("api::health::ping()"));
    assert!(!g.routes.contains("warp::body::json"));
    assert!(g.bindings[0].content.contains("ping(arg: void): Promise<boolean>"));
}

#[test]
fn regenerating_gives_identical_output() {
    let files = vec![source(&[], "sum", SUM_RS), source(&["v1"], "health", "pub fn ping(t: String) {}")];
    let a = generate(MAIN_TEMPLATE, STUB_TEMPLATE, &files).ok().unwrap();
    let b = generate(MAIN_TEMPLATE, STUB_TEMPLATE, &files).ok().unwrap();
    assert_eq!(a.routes, b.routes);
    assert_eq!(a.bindings.len(), b.bindings.len());
    for (x, y) in a.bindings.iter().zip(b.bindings.iter()) {
        assert_eq!(x.name, y.name);
        assert_eq!(x.content, y.content);
    }
    assert_eq!(a.bindings[0].content.matches("export async function sum(").count(), 1);
}

#[test]
fn one_malformed_file_stops_the_whole_run() {
    let files = vec![source(&[], "sum", SUM_RS), source(&[], "broken", "pub fn broken( {")];
    match generate(MAIN_TEMPLATE, STUB_TEMPLATE, &files) {
        Err(GenError::Parse { path, .. }) => assert_eq!(path, "src/api/broken.rs"),
        _ => panic!("a malformed file must fail the run"),
    }
}

#[test]
fn template_without_placeholder_fails() {
    let r = generate("no placeholder here", STUB_TEMPLATE, &vec![source(&[], "sum", SUM_RS)]);
    assert!(matches!(r, Err(GenError::MissingRoutesPlaceholder)));
    assert_eq!(ROUTES_TOKEN, "/* ROUTES */");
}

#[test]
fn unmappable_type_names_its_file() {
    let files = vec![source(&[], "m", "")];
    let eps = vec![vec![descriptor(&[], "bad", Some("Vec<i32"), None, true)]];
    match assemble(MAIN_TEMPLATE, STUB_TEMPLATE, &files, &eps) {
        Err(GenError::Type { path, type_text }) => {
            assert_eq!(path, "src/api/m.rs");
            assert_eq!(type_text, "Vec<i32");
        }
        _ => panic!("an unmappable type must fail the run"),
    }
}

#[test]
fn test_add_functions_to_types() {
    let files = vec![source(&[], "sum", SUM_RS)];
    let g = generate(MAIN_TEMPLATE, STUB_TEMPLATE, &files).ok().unwrap();
    let content = &g.bindings[0].content;
    assert!(content.contains("export async function sum(arg: QueryParams): Promise<number>"));
    assert!(content.contains("export async function sub(arg: QueryParams): Promise<number>"));
}

#[test]
fn route_segments_are_checked() {
    assert!(is_valid_segment("v1"));
    assert!(!is_valid_segment(""));
    assert!(!is_valid_segment("a/b"));
    assert!(!is_valid_segment("a\"b"));
    let r = generate(MAIN_TEMPLATE, STUB_TEMPLATE, &vec![source(&["bad\"dir"], "sum", SUM_RS)]);
    assert!(matches!(r, Err(GenError::InvalidSegment { .. })));
}

#[test]
fn sources_are_ordered_by_path() {
    let mut b = source(&[], "b", "");
    b.path = "src/api/b.rs".to_string();
    let mut a2 = source(&["v2"], "a", "");
    a2.path = "src/api/v2/a.rs".to_string();
    let mut a = source(&[], "a", "");
    a.path = "src/api/a.rs".to_string();
    let sorted = sort_sources(vec![b, a2, a]);
    let paths: Vec<&str> = sorted.iter().map(|f| f.path.as_str()).collect();
    assert_eq!(paths, vec!["src/api/a.rs", "src/api/b.rs", "src/api/v2/a.rs"]);
    assert!(sort_sources(Vec::new()).is_empty());
}

#[test]
fn lexicographic_order_of_paths() {
    assert!(lex_le_exec("a", "b"));
    assert!(lex_le_exec("ab", "ab"));
    assert!(lex_le_exec("a", "ab"));
    assert!(!lex_le_exec("ab", "a"));
    assert!(!lex_le_exec("b", "abc"));
    assert!(lex_le_exec("", ""));
}

#[test]
fn listing_order_does_not_change_the_output() {
    let listing = |order: &[usize]| {
        let all = [
            ("sum", SUM_RS),
            ("health", "pub fn ping(t: String) -> bool { true }"),
            ("zeta", "pub fn last(t: String, v: Vec<u8>) -> u8 { 0 }"),
        ];
        order.iter().map(|&i| source(&[], all[i].0, all[i].1)).collect::<Vec<_>>()
    };
    let a = generate(MAIN_TEMPLATE, STUB_TEMPLATE, &sort_sources(listing(&[0, 1, 2]))).ok().unwrap();
    let b = generate(MAIN_TEMPLATE, STUB_TEMPLATE, &sort_sources(listing(&[2, 0, 1]))).ok().unwrap();
    assert_eq!(a.routes, b.routes);
    let names: Vec<&str> = a.bindings.iter().map(|f| f.name.as_str()).collect();
    assert_eq!(names, vec!["health.ts", "sum.ts", "zeta.ts"]);
}

#[test]
fn parse_failure_is_reported_before_other_errors() {
    let files = vec![source(&["bad\"dir"], "sum", SUM_RS), source(&[], "broken", "fn (")];
    match generate("no placeholder", STUB_TEMPLATE, &files) {
        Err(GenError::Parse { path, message }) => {
            assert_eq!(path, "src/api/broken.rs");
            assert!(!message.is_empty());
        }
        _ => panic!("the parse error must be the one reported"),
    }
}

#[test]
fn stub_template_without_placeholders_fails() {
    let files = vec![source(&[], "sum", SUM_RS)];
    let r = generate(MAIN_TEMPLATE, "export function $function_name$() {}", &files);
    assert!(matches!(r, Err(GenError::MissingStubPlaceholder)));
}
