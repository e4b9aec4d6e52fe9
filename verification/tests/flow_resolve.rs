use greentic_pack::flow_resolve::{
    discovered_sidecar, enforce_sidecar_mappings, enforce_summary_mappings,
    ensure_sidecar_coverage, ensure_sidecar_step, flow_locations, join_texts,
    missing_node_mappings, missing_summary_node_mappings, resolve_flow_path, summary_step,
    SummaryStep, CompiledFlow,
    FlowConfig, FlowResolveError, ResolveDocument, SidecarRead, SidecarStep,
};

fn flow(id: &str, file: &str) -> FlowConfig {
    FlowConfig { id: id.to_string(), file: file.to_string() }
}

fn strings(items: &[&str]) -> Vec<String> {
    items.iter().map(|s| s.to_string()).collect()
}

fn doc(nodes: &[&str]) -> ResolveDocument {
    ResolveDocument { schema_version: 1, flow: "main.ygtc".to_string(), node_ids: strings(nodes) }
}

fn compiled(nodes: &[&str]) -> CompiledFlow {
    CompiledFlow { node_ids: strings(nodes) }
}

#[test]
fn relative_flow_file_is_joined_to_pack_dir() {
    assert_eq!(resolve_flow_path("packs/demo", &flow("main", "flows/main.ygtc")), "packs/demo/flows/main.ygtc");
    assert_eq!(resolve_flow_path("packs/demo/", &flow("main", "flows/main.ygtc")), "packs/demo/flows/main.ygtc");
    assert_eq!(resolve_flow_path("", &flow("main", "main.ygtc")), "main.ygtc");
}

#[test]
fn absolute_flow_file_is_kept() {
    assert_eq!(resolve_flow_path("packs/demo", &flow("main", "/srv/flows/main.ygtc")), "/srv/flows/main.ygtc");
}

#[test]
fn flow_path_matches_std_join() {
    for (dir, file) in [("a", "b"), ("a/", "b"), ("", "b"), ("/root", "x/y.ygtc"), ("a", "/z")] {
        let expected = std::path::Path::new(dir).join(file).to_string_lossy().into_owned();
        assert_eq!(resolve_flow_path(dir, &flow("f", file)), expected);
    }
}

#[test]
fn sidecar_and_summary_sit_beside_the_flow() {
    let loc = flow_locations("", &flow("main", "main.ygtc"));
    assert_eq!(loc.flow_path, "main.ygtc");
    assert_eq!(loc.sidecar_path, "main.ygtc.resolve.json");
    assert_eq!(loc.summary_path, "main.ygtc.resolve.summary.json");
    let nested = flow_locations("packs/demo", &flow("main", "flows/main.ygtc"));
    assert_eq!(nested.flow_path, "packs/demo/flows/main.ygtc");
    assert_eq!(nested.sidecar_path, "packs/demo/flows/main.ygtc.resolve.json");
    assert_eq!(nested.summary_path, "packs/demo/flows/main.ygtc.resolve.summary.json");
}

#[test]
fn missing_nodes_keep_flow_order() {
    let missing = missing_node_mappings(&compiled(&["c", "a", "b", "d"]), &doc(&["a", "d"]));
    assert_eq!(missing, strings(&["c", "b"]));
    let none = missing_node_mappings(&compiled(&["a"]), &doc(&["a", "z"]));
    assert!(none.is_empty());
    let all = missing_summary_node_mappings(&compiled(&["x", "y"]), &doc(&[]));
    assert_eq!(all, strings(&["x", "y"]));
}

#[test]
fn join_separates_items() {
    assert_eq!(join_texts(&strings(&["a", "b", "c"]), ", "), "a, b, c");
    assert_eq!(join_texts(&strings(&["only"]), ", "), "only");
    assert_eq!(join_texts(&Vec::new(), ", "), "");
}

#[test]
fn discovered_sidecar_records_document() {
    let f = flow("main", "main.ygtc");
    let loc = flow_locations("", &f);
    let found = discovered_sidecar(&f, loc.clone(), SidecarRead::Loaded(doc(&["a"])));
    assert_eq!(found.flow_id, "main");
    assert_eq!(found.document, Some(doc(&["a"])));
    assert_eq!(found.warning, None);
    assert_eq!(found.sidecar_path, "main.ygtc.resolve.json");
}

#[test]
fn discovered_sidecar_warns_when_missing_or_unreadable() {
    let f = flow("main", "main.ygtc");
    let loc = flow_locations("", &f);
    let missing = discovered_sidecar(&f, loc.clone(), SidecarRead::NotFound("gone".to_string()));
    assert_eq!(missing.document, None);
    assert_eq!(
        missing.warning.as_deref(),
        Some("flow resolve sidecar missing for main (main.ygtc.resolve.json)")
    );
    let broken = discovered_sidecar(&f, loc, SidecarRead::Failed("InvalidInput: bad json".to_string()));
    assert_eq!(
        broken.warning.as_deref(),
        Some("failed to read flow resolve sidecar for main: InvalidInput: bad json")
    );
}

#[test]
fn ensure_step_uses_creates_or_fails() {
    let f = flow("main", "flows/main.ygtc");
    assert_eq!(ensure_sidecar_step(&f, SidecarRead::Loaded(doc(&["a"]))), SidecarStep::Use(doc(&["a"])));
    assert_eq!(
        ensure_sidecar_step(&f, SidecarRead::NotFound("x".to_string())),
        SidecarStep::Create(ResolveDocument {
            schema_version: 1,
            flow: "flows/main.ygtc".to_string(),
            node_ids: vec![],
        })
    );
    let failed = ensure_sidecar_step(&f, SidecarRead::Failed("oops".to_string()));
    match failed {
        SidecarStep::Fail(e) => {
            assert_eq!(e.message(), "failed to read flow resolve sidecar for main: oops");
        }
        other => panic!("unexpected step {:?}", other),
    }
}

#[test]
fn coverage_warns_unless_strict() {
    let f = flow("main", "main.ygtc");
    let path = "main.ygtc.resolve.json".to_string();
    let c = compiled(&["start", "end", "mid"]);
    assert_eq!(ensure_sidecar_coverage(&f, &c, &doc(&["start", "end", "mid"]), true, &path), Ok(None));
    let warning = ensure_sidecar_coverage(&f, &c, &doc(&["start"]), false, &path).unwrap().unwrap();
    assert_eq!(
        warning,
        "warning: flow main has no resolve entries for nodes end, mid (main.ygtc.resolve.json); add mappings to the sidecar and rerun `greentic-pack resolve`"
    );
    let err = ensure_sidecar_coverage(&f, &c, &doc(&["start"]), true, &path).unwrap_err();
    assert_eq!(
        err,
        FlowResolveError::MissingResolveEntries {
            flow_id: "main".to_string(),
            missing: strings(&["end", "mid"]),
            sidecar_path: path.clone(),
        }
    );
    assert_eq!(
        err.message(),
        "flow main is missing resolve entries for nodes end, mid (sidecar main.ygtc.resolve.json). Add mappings to the sidecar, then rerun `greentic-pack resolve` followed by `greentic-pack build`."
    );
}

#[test]
fn enforce_requires_a_covering_sidecar() {
    let f = flow("main", "main.ygtc");
    let path = "main.ygtc.resolve.json".to_string();
    let c = compiled(&["a", "b"]);
    assert_eq!(enforce_sidecar_mappings(&f, &c, &path, SidecarRead::Loaded(doc(&["b", "a"]))), Ok(()));
    assert!(matches!(
        enforce_sidecar_mappings(&f, &c, &path, SidecarRead::Loaded(doc(&["a"]))),
        Err(FlowResolveError::MissingResolveEntries { .. })
    ));
    let err = enforce_sidecar_mappings(&f, &c, &path, SidecarRead::NotFound("NotFound: no file".to_string()))
        .unwrap_err();
    assert_eq!(
        err.message(),
        "flow main requires a resolve sidecar; expected main.ygtc.resolve.json: NotFound: no file"
    );
}

#[test]
fn summary_must_cover_every_node() {
    let f = flow("main", "main.ygtc");
    let c = compiled(&["a", "b"]);
    assert_eq!(enforce_summary_mappings(&f, &c, &doc(&["a", "b"]), "main.ygtc"), Ok(()));
    let err = enforce_summary_mappings(&f, &c, &doc(&["b"]), "main.ygtc").unwrap_err();
    assert_eq!(
        err,
        FlowResolveError::MissingSummaryEntries {
            flow_id: "main".to_string(),
            missing: strings(&["a"]),
            summary_path: "main.ygtc.resolve.summary.json".to_string(),
        }
    );
    assert_eq!(
        err.message(),
        "flow main is missing resolve summary entries for nodes a (summary main.ygtc.resolve.summary.json). Regenerate the summary and rerun build."
    );
}

#[test]
fn summary_error_messages() {
    let e = FlowResolveError::SummarySidecarRequired {
        flow_id: "main".to_string(),
        sidecar_path: "main.ygtc.resolve.json".to_string(),
        detail: "gone".to_string(),
    };
    assert_eq!(
        e.message(),
        "flow main requires a resolve sidecar to generate summary; expected main.ygtc.resolve.json: gone"
    );
    let r = FlowResolveError::SummaryReadFailed { flow_id: "main".to_string(), detail: "bad".to_string() };
    assert_eq!(r.message(), "failed to read flow resolve summary for main: bad");
}

#[test]
fn sidecar_paths_in_an_absolute_pack_dir() {
    let loc = flow_locations("/pack", &flow("main", "flows/main.ygtc"));
    assert_eq!(loc.flow_path, "/pack/flows/main.ygtc");
    assert_eq!(loc.sidecar_path, "/pack/flows/main.ygtc.resolve.json");
    assert_eq!(loc.summary_path, "/pack/flows/main.ygtc.resolve.summary.json");
    let root = flow_locations("/", &flow("main", "main.ygtc"));
    assert_eq!(root.sidecar_path, "/main.ygtc.resolve.json");
    let here = flow_locations(".", &flow("main", "main.ygtc"));
    assert_eq!(here.sidecar_path, "./main.ygtc.resolve.json");
}

#[test]
fn summary_is_generated_only_when_absent() {
    assert_eq!(summary_step(true), SummaryStep::Read);
    assert_eq!(summary_step(false), SummaryStep::GenerateThenRead);
}

#[test]
fn distinct_nodes_give_distinct_missing_ids() {
    let missing = missing_node_mappings(&compiled(&["a", "b", "c"]), &doc(&["b", "x"]));
    assert_eq!(missing, strings(&["a", "c"]));
}

#[test]
fn sidecar_paths_with_colons() {
    let loc = flow_locations("/p:q", &flow("main", "flows/ab:c.ygtc"));
    assert_eq!(loc.flow_path, "/p:q/flows/ab:c.ygtc");
    assert_eq!(loc.sidecar_path, "/p:q/flows/ab:c.ygtc.resolve.json");
    assert_eq!(loc.summary_path, "/p:q/flows/ab:c.ygtc.resolve.summary.json");
}
