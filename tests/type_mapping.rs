use backend::typemap::{is_fully_mapped, map_type, TypeError};

fn mapped(s: &str) -> String {
    map_type(s).unwrap()
}

#[test]
fn vec_maps_to_array() {
    assert_eq!(mapped("Vec<i32>"), "Array<number>");
}

#[test]
fn hash_map_maps_to_string_keyed_object() {
    assert_eq!(mapped("HashMap<String, f64>"), "{ [key: string]: number }");
}

#[test]
fn unit_maps_to_nothing() {
    assert_eq!(mapped("()"), "");
    assert_eq!(mapped("( )"), "");
}

#[test]
fn tuple_maps_element_wise() {
    assert_eq!(mapped("(i32, bool)"), "(number, boolean)");
}

#[test]
fn primitives_map() {
    assert_eq!(mapped("u64"), "number");
    assert_eq!(mapped("f32"), "number");
    assert_eq!(mapped("bool"), "boolean");
    assert_eq!(mapped("char"), "string");
    assert_eq!(mapped("String"), "string");
}

#[test]
fn token_text_with_spaces_maps() {
    assert_eq!(mapped("Vec < i32 >"), "Array<number>");
    assert_eq!(mapped("HashMap < String , Vec < u8 > >"), "{ [key: string]: Array<number> }");
}

#[test]
fn nested_generics_map_recursively() {
    assert_eq!(mapped("Vec<Vec<(u8, String)>>"), "Array<Array<(number, string)>>");
}

#[test]
fn unknown_names_pass_through() {
    assert_eq!(mapped("QueryParams"), "QueryParams");
    assert_eq!(mapped("Option<i32>"), "Option<i32>");
    assert_eq!(mapped("Option < i32 >"), "Option < i32 >");
    assert_eq!(mapped("Vec<Option<HashMap<K, (u8, bool)>>>"), "Array<Option<HashMap<K, (u8, bool)>>>");
    assert_eq!(mapped("(Result<i32, E>, bool)"), "(Result<i32, E>, boolean)");
}

fn assert_unbalanced(s: &str) {
    match map_type(s) {
        Err(TypeError { type_text }) => assert_eq!(type_text, s),
        Ok(t) => panic!("`{}` mapped to `{}`", s, t),
    }
}

#[test]
fn unbalanced_brackets_are_rejected() {
    assert_unbalanced("Vec<i32");
    assert_unbalanced("i32>");
    assert_unbalanced("(i32, bool");
    assert_unbalanced("<i32>");
    assert_unbalanced("Vec<i32)");
    assert_unbalanced("i32, bool");
}

#[test]
fn mapping_is_stable() {
    let a = map_type("HashMap<String, (i32, bool)>").unwrap();
    let b = map_type("HashMap<String, (i32, bool)>").unwrap();
    assert_eq!(a, b);
    assert_eq!(a, "{ [key: string]: (number, boolean) }");
}

#[test]
fn fully_mapped_types_are_told_apart() {
    assert!(is_fully_mapped("Vec<HashMap<String, (i32, bool)>>"));
    assert!(is_fully_mapped("()"));
    assert!(!is_fully_mapped("QueryParams"));
    assert!(!is_fully_mapped("Vec<Option<i32>>"));
    assert!(!is_fully_mapped("(i32, Custom)"));
}

#[test]
fn map_keys_are_always_strings() {
    assert_eq!(mapped("HashMap<u32, bool>"), "{ [key: string]: boolean }");
    assert_eq!(mapped("BTreeMap<(i32, i32), Vec<char>>"), "{ [key: string]: Array<string> }");
    assert!(map_type("HashMap<String>").is_err());
}
