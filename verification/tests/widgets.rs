use cooking_with_wasm::widgets::{code_class, fresh_terminal_id, terminal_id};

#[test]
fn code_class_prefixes_language() {
    assert_eq!(code_class("rust"), "language-rust");
    assert_eq!(code_class("typescript"), "language-typescript");
    assert_eq!(code_class(""), "language-");
}

#[test]
fn terminal_id_exact() {
    assert_eq!(terminal_id(0), "terminal-0");
    assert_eq!(terminal_id(123), "terminal-123");
    assert_eq!(terminal_id(u32::MAX), "terminal-4294967295");
}

#[test]
fn terminal_ids_of_distinct_numbers_differ() {
    assert_ne!(terminal_id(12), terminal_id(120));
    assert_ne!(terminal_id(1), terminal_id(10));
}

#[test]
fn fresh_terminal_id_names_a_number() {
    let id = fresh_terminal_id();
    let digits = id.strip_prefix("terminal-").expect("prefix");
    let n: u32 = digits.parse().expect("a u32");
    assert_eq!(terminal_id(n), id);
}
