use proto_router::error::RouterError;
use proto_router::flags::build_gen_config;
use proto_router::flags::build_router_config;
use proto_router::flags::parse_pairs;
use proto_router::flags::split_arg;
use proto_router::flags::split_module_path;

#[test]
fn split_arg_plain() {
    assert_eq!(split_arg("a=b"), Some(("a", "b")));
}

#[test]
fn split_arg_splits_at_first_eq_only() {
    assert_eq!(split_arg("key=v1=v2"), Some(("key", "v1=v2")));
}

#[test]
fn split_arg_empty_key() {
    assert_eq!(split_arg("=value"), Some(("", "value")));
}

#[test]
fn split_arg_empty_value() {
    assert_eq!(split_arg("key="), Some(("key", "")));
}

#[test]
fn split_arg_without_eq_fails() {
    assert_eq!(split_arg("novalue"), None);
}

#[test]
fn parse_pairs_in_order() {
    let flags = vec!["a=1".to_string(), "b=2".to_string()];
    let pairs = parse_pairs(&flags).unwrap();
    assert_eq!(
        pairs,
        vec![
            ("a".to_string(), "1".to_string()),
            ("b".to_string(), "2".to_string())
        ]
    );
}

#[test]
fn parse_pairs_reports_first_bad_flag() {
    let flags = vec!["a=1".to_string(), "bad".to_string(), "also-bad".to_string()];
    assert_eq!(parse_pairs(&flags), Err("bad".to_string()));
}

#[test]
fn split_module_path_double_colon() {
    let segs = split_module_path("a::b::c");
    assert_eq!(segs, vec!["a".to_string(), "b".to_string(), "c".to_string()]);
}

#[test]
fn split_module_path_dots() {
    let segs = split_module_path("x.y");
    assert_eq!(segs, vec!["x".to_string(), "y".to_string()]);
}

#[test]
fn split_module_path_single_segment() {
    assert_eq!(split_module_path("alpha"), vec!["alpha".to_string()]);
}

#[test]
fn split_module_path_empty_text() {
    assert_eq!(split_module_path(""), vec!["".to_string()]);
}

#[test]
fn split_module_path_single_colon_is_no_separator() {
    assert_eq!(split_module_path("a:b"), vec!["a:b".to_string()]);
}

#[test]
fn split_module_path_empty_segments_kept() {
    assert_eq!(
        split_module_path("a..b"),
        vec!["a".to_string(), "".to_string(), "b".to_string()]
    );
}

#[test]
fn gen_config_tables_land_per_category() {
    let extern_path = vec![".a.b=::x::y".to_string()];
    let field_attribute = vec![".a.b.M.f=#[serde]".to_string()];
    let empty: Vec<String> = Vec::new();
    let g = build_gen_config(
        &extern_path,
        &field_attribute,
        &empty,
        &empty,
        &empty,
        &empty,
        &empty,
    )
    .unwrap();
    assert_eq!(
        g.extern_paths,
        vec![(".a.b".to_string(), "::x::y".to_string())]
    );
    assert_eq!(
        g.field_attributes,
        vec![(".a.b.M.f".to_string(), "#[serde]".to_string())]
    );
    assert!(g.type_attributes.is_empty());
    assert!(g.server_attributes.is_empty());
}

#[test]
fn gen_config_malformed_flag_fails() {
    let bad = vec!["novalue".to_string()];
    let empty: Vec<String> = Vec::new();
    let r = build_gen_config(&empty, &empty, &empty, &empty, &empty, &bad, &empty);
    match r {
        Err(RouterError::MalformedFlag(f)) => {
            assert_eq!(f, "novalue");
        }
        _ => panic!("expected a malformed-flag error"),
    }
}

#[test]
fn malformed_flag_message() {
    let e = RouterError::MalformedFlag("novalue".to_string());
    assert_eq!(e.describe(), "argument novalue is not in the form of a=b");
}

#[test]
fn router_config_tables() {
    let output_map = vec!["in/a.proto=out/a.rs".to_string()];
    let module_output_map = vec!["p.q=out/pq.rs".to_string()];
    let module_in_file = vec!["in/a.proto=m::n".to_string()];
    let c = build_router_config(
        Some("fallback.rs".to_string()),
        &output_map,
        &module_output_map,
        &module_in_file,
        true,
    )
    .unwrap();
    assert_eq!(c.output, Some("fallback.rs".to_string()));
    assert!(c.create_directory);
    assert_eq!(
        c.output_map,
        vec![("in/a.proto".to_string(), "out/a.rs".to_string())]
    );
    assert_eq!(
        c.module_output_map,
        vec![(
            vec!["p".to_string(), "q".to_string()],
            "out/pq.rs".to_string()
        )]
    );
    assert_eq!(
        c.module_in_file,
        vec![(
            "in/a.proto".to_string(),
            vec!["m".to_string(), "n".to_string()]
        )]
    );
}

#[test]
fn router_config_malformed_route_fails() {
    let empty: Vec<String> = Vec::new();
    let bad = vec!["just-a-path".to_string()];
    let r = build_router_config(None, &bad, &empty, &empty, false);
    match r {
        Err(RouterError::MalformedFlag(f)) => assert_eq!(f, "just-a-path"),
        _ => panic!("expected a malformed-flag error"),
    }
}
