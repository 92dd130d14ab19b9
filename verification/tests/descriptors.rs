use prost::Message;
use prost_types::DescriptorProto;
use prost_types::FileDescriptorProto;
use prost_types::FileDescriptorSet;
use proto_router::error::RouterError;
use proto_router::flags::build_router_config;
use proto_router::route::plan_outputs;
use proto_router::route::GeneratedUnit;
use proto_router::reflect::add_reflection_decorations;
use proto_router::reflect::reflection_decorations;
use proto_router::resolve::load_and_resolve;
use proto_router::resolve::resolve_modules;
use proto_router::resolve::FileEntry;

fn file(name: &str, package: &str) -> FileDescriptorProto {
    FileDescriptorProto {
        name: Some(name.to_string()),
        package: Some(package.to_string()),
        ..Default::default()
    }
}

fn encoded(files: Vec<FileDescriptorProto>) -> Vec<u8> {
    FileDescriptorSet { file: files }.encode_to_vec()
}

#[test]
fn load_and_resolve_keeps_names_packages_and_order() {
    let bytes = encoded(vec![file("a.proto", "a.b.c"), file("r.proto", "")]);
    let (entries, resolved) = load_and_resolve(&bytes).unwrap();
    assert_eq!(entries.len(), 2);
    assert_eq!(entries[0].name, "a.proto");
    assert_eq!(entries[0].package, "a.b.c");
    assert_eq!(entries[1].name, "r.proto");
    assert_eq!(entries[1].package, "");
    assert_eq!(
        resolved[0].parts,
        vec!["a".to_string(), "b".to_string(), "c".to_string()]
    );
    assert_eq!(resolved[0].input, "a.proto");
    assert!(resolved[1].parts.is_empty());
    assert_eq!(resolved[1].input, "r.proto");
}

#[test]
fn package_parts_follow_module_naming() {
    let bytes = encoded(vec![file("x.proto", "Demo.SubPkg")]);
    let (_, resolved) = load_and_resolve(&bytes).unwrap();
    assert_eq!(
        resolved[0].parts,
        vec!["demo".to_string(), "sub_pkg".to_string()]
    );
}

#[test]
fn duplicate_package_is_fatal() {
    let bytes = encoded(vec![file("one.proto", "a.b"), file("two.proto", "a.b")]);
    match load_and_resolve(&bytes) {
        Err(RouterError::DuplicateModule(p)) => {
            assert_eq!(p, vec!["a".to_string(), "b".to_string()]);
            assert_eq!(
                RouterError::DuplicateModule(p).describe(),
                "module duplicate: a::b"
            );
        }
        _ => panic!("expected a duplicate-module error"),
    }
}

#[test]
fn resolve_modules_accepts_distinct_packages() {
    let entries = vec![
        FileEntry {
            name: "a.proto".to_string(),
            package: "a".to_string(),
        },
        FileEntry {
            name: "b.proto".to_string(),
            package: "b".to_string(),
        },
    ];
    let resolved = resolve_modules(&entries).unwrap();
    assert_eq!(resolved.len(), 2);
    assert_eq!(resolved[0].parts, vec!["a".to_string()]);
    assert_eq!(resolved[1].parts, vec!["b".to_string()]);
}

#[test]
fn invalid_descriptor_bytes_fail() {
    let bytes = vec![0xffu8, 0xff, 0xff, 0xff];
    match load_and_resolve(&bytes) {
        Err(RouterError::InvalidDescriptorSet) => {}
        _ => panic!("expected a decode failure"),
    }
}

#[test]
fn reflection_decorations_exact_strings() {
    let names = vec!["a.B".to_string()];
    let pairs = reflection_decorations(&names, "crate::POOL");
    assert_eq!(
        pairs,
        vec![
            (
                "a.B".to_string(),
                "#[derive(::prost_reflect::ReflectMessage)]".to_string()
            ),
            (
                "a.B".to_string(),
                "#[prost_reflect(message_name = \"a.B\")]".to_string()
            ),
            (
                "a.B".to_string(),
                "#[prost_reflect(file_descriptor_set_bytes = \"crate::POOL\")]".to_string()
            ),
        ]
    );
}

#[test]
fn reflection_extends_type_attribute_table() {
    let message = DescriptorProto {
        name: Some("M".to_string()),
        ..Default::default()
    };
    let mut f = file("p.proto", "p");
    f.message_type = vec![message];
    let bytes = encoded(vec![f]);
    let mut table = vec![("kept".to_string(), "attr".to_string())];
    add_reflection_decorations(&mut table, &bytes, "crate::PROTO_DEF").unwrap();
    assert_eq!(table.len(), 4);
    assert_eq!(table[0], ("kept".to_string(), "attr".to_string()));
    assert_eq!(
        table[1],
        (
            "p.M".to_string(),
            "#[derive(::prost_reflect::ReflectMessage)]".to_string()
        )
    );
    assert_eq!(
        table[2],
        (
            "p.M".to_string(),
            "#[prost_reflect(message_name = \"p.M\")]".to_string()
        )
    );
    assert_eq!(
        table[3],
        (
            "p.M".to_string(),
            "#[prost_reflect(file_descriptor_set_bytes = \"crate::PROTO_DEF\")]".to_string()
        )
    );
}

#[test]
fn reflection_on_invalid_bytes_leaves_table_unchanged() {
    let bytes = vec![0xffu8, 0xff, 0xff];
    let mut table = vec![("kept".to_string(), "attr".to_string())];
    let r = add_reflection_decorations(&mut table, &bytes, "crate::POOL");
    assert!(r.is_none());
    assert_eq!(table, vec![("kept".to_string(), "attr".to_string())]);
}

#[test]
fn end_to_end_plan_from_flags_and_bytes() {
    let bytes = encoded(vec![file("a.proto", "pkg.a"), file("b.proto", "pkg.b")]);
    let (_, resolved) = load_and_resolve(&bytes).unwrap();
    let empty: Vec<String> = Vec::new();
    let cfg = build_router_config(
        Some("all.rs".to_string()),
        &vec!["a.proto=only_a.rs".to_string()],
        &empty,
        &vec!["b.proto=outer::inner".to_string()],
        false,
    )
    .unwrap();
    let units = vec![
        GeneratedUnit {
            parts: resolved[0].parts.clone(),
            content: "CA".to_string(),
        },
        GeneratedUnit {
            parts: resolved[1].parts.clone(),
            content: "CB".to_string(),
        },
    ];
    let plan = plan_outputs(&cfg, &resolved, &units).unwrap();
    assert_eq!(plan.explicit.len(), 1);
    assert_eq!(plan.explicit[0].path, "only_a.rs");
    assert_eq!(plan.explicit[0].text, "CA\n");
    let fb = plan.fallback.unwrap();
    assert_eq!(fb.path, "all.rs");
    assert_eq!(fb.text, "pub mod outer {\npub mod inner {\nCB\n}\n}\n");
}
