use proto_router::wrap::write_with_module;

#[test]
fn wrap_zero_segments_is_pass_through() {
    let mut out = String::new();
    write_with_module(&mut out, "X", &Vec::new());
    assert_eq!(out, "X\n");
}

#[test]
fn wrap_one_segment() {
    let mut out = String::new();
    write_with_module(&mut out, "X", &vec!["a".to_string()]);
    assert_eq!(out, "pub mod a {\nX\n}\n");
}

#[test]
fn wrap_two_segments_nest_in_order() {
    let mut out = String::new();
    write_with_module(&mut out, "X", &vec!["a".to_string(), "b".to_string()]);
    assert_eq!(out, "pub mod a {\npub mod b {\nX\n}\n}\n");
}

#[test]
fn wrap_three_segments() {
    let mut out = String::new();
    write_with_module(
        &mut out,
        "X",
        &vec!["a".to_string(), "b".to_string(), "c".to_string()],
    );
    assert_eq!(out, "pub mod a {\npub mod b {\npub mod c {\nX\n}\n}\n}\n");
}

#[test]
fn wrap_appends_to_existing_text() {
    let mut out = String::from("before\n");
    write_with_module(&mut out, "X", &vec!["a".to_string()]);
    assert_eq!(out, "before\npub mod a {\nX\n}\n");
}
