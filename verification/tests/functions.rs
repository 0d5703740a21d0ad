use pipeline_service::expr_context::BuiltinFunctions;

fn strings(v: &[&str]) -> Vec<String> {
    v.iter().map(|s| s.to_string()).collect()
}

#[test]
fn contains_ignores_case() {
    let f = BuiltinFunctions::new();
    assert!(f.contains_text("Hello World", "world"));
    assert!(!f.contains_text("Hello", "xyz"));
}

#[test]
fn starts_and_ends_ignore_case() {
    let f = BuiltinFunctions::new();
    assert!(f.starts_with_text("Hello World", "hello"));
    assert!(!f.starts_with_text("Hello", "world"));
    assert!(f.ends_with_text("Hello World", "WORLD"));
    assert!(!f.ends_with_text("Hello", "xyz"));
}

#[test]
fn format_fills_placeholders_in_turn() {
    let f = BuiltinFunctions::new();
    assert_eq!(f.format_text("Hello {0}!", &strings(&["World"])), "Hello World!");
    assert_eq!(f.format_text("{0} + {1} = {2}", &strings(&["1", "2", "3"])), "1 + 2 = 3");
    assert_eq!(f.format_text("{1}{0}{1}", &strings(&["a", "b"])), "bab");
    assert_eq!(f.format_text("{0}", &strings(&["{1}", "x"])), "{1}");
    assert_eq!(f.format_text("{0}{1}", &strings(&["{1}", "x"])), "{1}x");
    assert_eq!(f.format_text("{2} {10} {0", &strings(&["a"])), "{2} {10} {0");
    assert_eq!(f.format_text("{{0}}", &strings(&["a"])), "{a}");
}

#[test]
fn replace_every_occurrence() {
    let f = BuiltinFunctions::new();
    assert_eq!(f.replace("hello world", "world", "rust"), "hello rust");
    assert_eq!(f.replace("aaaa", "aa", "b"), "bb");
    assert_eq!(f.replace("abc", "", "-"), "-a-b-c-");
    assert_eq!(f.replace("", "", "x"), "x");
}

#[test]
fn split_and_join() {
    let f = BuiltinFunctions::new();
    assert_eq!(f.split_text("a,b,,c", ","), strings(&["a", "b", "", "c"]));
    assert_eq!(f.split_text("ab", ""), strings(&["", "a", "b", ""]));
    assert_eq!(f.join_texts(&strings(&["a", "b", "c"]), ", "), "a, b, c");
    assert_eq!(f.join_texts(&Vec::new(), ","), "");
}

#[test]
fn lower_and_trim() {
    let f = BuiltinFunctions::new();
    assert_eq!(f.lower("HELLO"), "hello");
    assert_eq!(f.trim("  hello  "), "hello");
}
