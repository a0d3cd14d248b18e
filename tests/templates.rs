use backend::template::{fill_placeholder, substitute, TemplateError};

#[test]
fn substitute_replaces_every_occurrence() {
    assert_eq!(substitute("a $x$ b $x$", "$x$", "1"), "a 1 b 1");
}

#[test]
fn substitute_does_not_rescan_the_value() {
    assert_eq!(substitute("<T>", "T", "TT"), "<TT>");
    assert_eq!(substitute("aaa", "aa", "b"), "ba");
}

#[test]
fn fill_placeholder_fills() {
    assert_eq!(
        fill_placeholder("fn main() {\n/* ROUTES */\n}", "/* ROUTES */", "x").unwrap(),
        "fn main() {\nx\n}"
    );
}

#[test]
fn fill_placeholder_requires_the_placeholder() {
    assert!(matches!(
        fill_placeholder("fn main() {}", "/* ROUTES */", "x"),
        Err(TemplateError::MissingPlaceholder)
    ));
}
