use proto_router::error::RouterError;
use proto_router::flags::RouterConfig;
use proto_router::resolve::ResolvedFile;
use proto_router::route::plan_outputs;
use proto_router::route::GeneratedUnit;

fn parts(segs: &[&str]) -> Vec<String> {
    segs.iter().map(|s| s.to_string()).collect()
}

fn resolved(segs: &[&str], input: &str) -> ResolvedFile {
    ResolvedFile {
        parts: parts(segs),
        input: input.to_string(),
    }
}

fn unit(segs: &[&str], content: &str) -> GeneratedUnit {
    GeneratedUnit {
        parts: parts(segs),
        content: content.to_string(),
    }
}

fn bare_config(output: Option<&str>) -> RouterConfig {
    RouterConfig {
        output: output.map(|s| s.to_string()),
        output_map: Vec::new(),
        module_output_map: Vec::new(),
        module_in_file: Vec::new(),
        create_directory: false,
    }
}

#[test]
fn three_packages_share_the_fallback_in_input_order() {
    let cfg = bare_config(Some("out.rs"));
    let rs = vec![
        resolved(&["a"], "a.proto"),
        resolved(&["b"], "b.proto"),
        resolved(&["c"], "c.proto"),
    ];
    let us = vec![unit(&["a"], "TA"), unit(&["b"], "TB"), unit(&["c"], "TC")];
    let plan = plan_outputs(&cfg, &rs, &us).unwrap();
    assert!(plan.explicit.is_empty());
    let fb = plan.fallback.unwrap();
    assert_eq!(fb.path, "out.rs");
    assert_eq!(fb.text, "TA\nTB\nTC\n");
}

#[test]
fn fallback_respects_wrap_markers() {
    let mut cfg = bare_config(Some("out.rs"));
    cfg.module_in_file = vec![("b.proto".to_string(), parts(&["m", "n"]))];
    let rs = vec![resolved(&["a"], "a.proto"), resolved(&["b"], "b.proto")];
    let us = vec![unit(&["a"], "TA"), unit(&["b"], "TB")];
    let plan = plan_outputs(&cfg, &rs, &us).unwrap();
    let fb = plan.fallback.unwrap();
    assert_eq!(fb.text, "TA\npub mod m {\npub mod n {\nTB\n}\n}\n");
}

#[test]
fn explicit_route_and_fallback_never_share_content() {
    let mut cfg = bare_config(Some("fallback.rs"));
    cfg.output_map = vec![("a.proto".to_string(), "a.rs".to_string())];
    let rs = vec![resolved(&["a"], "a.proto"), resolved(&["b"], "b.proto")];
    let us = vec![unit(&["a"], "TA"), unit(&["b"], "TB")];
    let plan = plan_outputs(&cfg, &rs, &us).unwrap();
    assert_eq!(plan.explicit.len(), 1);
    assert_eq!(plan.explicit[0].path, "a.rs");
    assert_eq!(plan.explicit[0].text, "TA\n");
    let fb = plan.fallback.unwrap();
    assert_eq!(fb.path, "fallback.rs");
    assert_eq!(fb.text, "TB\n");
}

#[test]
fn module_route_applies_when_no_file_route() {
    let mut cfg = bare_config(None);
    cfg.module_output_map = vec![(parts(&["p", "q"]), "pq.rs".to_string())];
    let rs = vec![resolved(&["p", "q"], "pq.proto")];
    let us = vec![unit(&["p", "q"], "T")];
    let plan = plan_outputs(&cfg, &rs, &us).unwrap();
    assert_eq!(plan.explicit.len(), 1);
    assert_eq!(plan.explicit[0].path, "pq.rs");
    assert!(plan.fallback.is_none());
}

#[test]
fn file_route_wins_over_module_route() {
    let mut cfg = bare_config(None);
    cfg.output_map = vec![("a.proto".to_string(), "by_file.rs".to_string())];
    cfg.module_output_map = vec![(parts(&["a"]), "by_module.rs".to_string())];
    let rs = vec![resolved(&["a"], "a.proto")];
    let us = vec![unit(&["a"], "T")];
    let plan = plan_outputs(&cfg, &rs, &us).unwrap();
    assert_eq!(plan.explicit[0].path, "by_file.rs");
}

#[test]
fn later_route_entry_overrides_earlier() {
    let mut cfg = bare_config(None);
    cfg.output_map = vec![
        ("a.proto".to_string(), "first.rs".to_string()),
        ("a.proto".to_string(), "second.rs".to_string()),
    ];
    let rs = vec![resolved(&["a"], "a.proto")];
    let us = vec![unit(&["a"], "T")];
    let plan = plan_outputs(&cfg, &rs, &us).unwrap();
    assert_eq!(plan.explicit[0].path, "second.rs");
}

#[test]
fn wrap_applies_to_explicit_route() {
    let mut cfg = bare_config(None);
    cfg.output_map = vec![("a.proto".to_string(), "a.rs".to_string())];
    cfg.module_in_file = vec![("a.proto".to_string(), parts(&["w"]))];
    let rs = vec![resolved(&["a"], "a.proto")];
    let us = vec![unit(&["a"], "T")];
    let plan = plan_outputs(&cfg, &rs, &us).unwrap();
    assert_eq!(plan.explicit[0].text, "pub mod w {\nT\n}\n");
}

#[test]
fn missing_route_without_fallback_is_fatal() {
    let cfg = bare_config(None);
    let rs = vec![resolved(&["a", "b"], "ab.proto")];
    let us = vec![unit(&["a", "b"], "T")];
    match plan_outputs(&cfg, &rs, &us) {
        Err(RouterError::NoOutput(p)) => {
            assert_eq!(p, parts(&["a", "b"]));
            assert_eq!(
                RouterError::NoOutput(p).describe(),
                "module a::b has no output"
            );
        }
        _ => panic!("expected a no-output error"),
    }
}

#[test]
fn unknown_module_is_fatal() {
    let cfg = bare_config(Some("out.rs"));
    let rs = vec![resolved(&["a"], "a.proto")];
    let us = vec![unit(&["ghost"], "T")];
    match plan_outputs(&cfg, &rs, &us) {
        Err(RouterError::UnknownModule(p)) => assert_eq!(p, parts(&["ghost"])),
        _ => panic!("expected an unknown-module error"),
    }
}

#[test]
fn no_units_no_fallback_file() {
    let cfg = bare_config(Some("out.rs"));
    let rs = Vec::new();
    let us = Vec::new();
    let plan = plan_outputs(&cfg, &rs, &us).unwrap();
    assert!(plan.explicit.is_empty());
    assert!(plan.fallback.is_none());
}

#[test]
fn create_directory_flag_is_carried() {
    let mut cfg = bare_config(Some("deep/dir/out.rs"));
    cfg.create_directory = true;
    let rs = vec![resolved(&["a"], "a.proto")];
    let us = vec![unit(&["a"], "T")];
    let plan = plan_outputs(&cfg, &rs, &us).unwrap();
    assert!(plan.create_directory);
}

#[test]
fn root_module_routes_like_any_other() {
    let cfg = bare_config(Some("out.rs"));
    let rs = vec![resolved(&[], "root.proto")];
    let us = vec![unit(&[], "R")];
    let plan = plan_outputs(&cfg, &rs, &us).unwrap();
    assert_eq!(plan.fallback.unwrap().text, "R\n");
}
