use semantic_graph_extract::persist_steps::NodeCheck;
use semantic_graph_extract::model::ReferenceBatchExtraction;
use semantic_graph_extract::routes::ProviderId;
use semantic_graph_extract::persist_steps::{complete_file_route_summary, record_completed_file_route};
use semantic_graph_extract::config::{SharedRunPlan, SharedWorkspaceExtractionRunner, ThreadedWorkspaceAllConfig, ThreadedWorkspaceAllRunner};
use semantic_graph_extract::error::ExtractError;
use semantic_graph_extract::lsif_discovery::validate_source_files;
use semantic_graph_extract::model::{LspPosition, LspRange, SourceFile};
use semantic_graph_extract::routes::{GraphLanguage, RouteName, WorkspaceExtractionRoutes};
use semantic_graph_extract::summary::{empty_summary, BenchmarkSummary};
use semantic_graph_extract::symbol_mapper::{LspDocumentSymbol, RustDocumentSymbolMapper};
use semantic_graph_extract::summary::ExtractionPersister;

fn lsp(sl: u32, sc: u32, el: u32, ec: u32) -> LspRange {
    LspRange { start: LspPosition { line: sl, character: sc }, end: LspPosition { line: el, character: ec } }
}

fn extraction() -> semantic_graph_extract::model::DocumentSymbolExtraction {
    let tree = vec![LspDocumentSymbol {
        name: "Widget".to_string(),
        detail: None,
        kind: 23,
        range: lsp(0, 0, 5, 1),
        selection_range: lsp(0, 11, 0, 17),
        children: Some(vec![LspDocumentSymbol {
            name: "render".to_string(),
            detail: Some("fn render()".to_string()),
            kind: 6,
            range: lsp(1, 4, 3, 5),
            selection_range: lsp(1, 7, 1, 13),
            children: None,
        }]),
    }];
    RustDocumentSymbolMapper::map_nested_symbols(
        SourceFile {
            uri: "file:///repo/src/widget.rs".to_string(),
            relative_path: "src/widget.rs".to_string(),
            file_symbol_key: "file:///repo/src/widget.rs#file".to_string(),
            language: GraphLanguage::Rust,
            content_hash: None,
        },
        "struct Widget;\n",
        &tree,
        None,
    )
}

#[test]
fn file_batch_writes_file_node_symbols_and_edges() {
    let mut summary = empty_summary(1, 2);
    let records = ExtractionPersister.push_document_symbol_file_write_batch(&mut summary, 1, 2, &extraction(), true).unwrap();
    assert_eq!(records.route, RouteName::RustDocumentSymbols);
    assert_eq!(records.nodes.len(), 3);
    assert_eq!(records.nodes[0].kind, "file");
    assert_eq!(records.nodes[0].name, "widget.rs");
    assert_eq!(records.nodes[0].qualified_name.as_deref(), Some("src/widget.rs"));
    assert_eq!(records.nodes[2].name, "render");
    assert_eq!(records.nodes[2].container_key.as_deref(), Some(records.nodes[1].symbol_key.as_str()));
    assert_eq!(records.occurrences.len(), 2);
    assert_eq!(records.edges.len(), 2);
    assert_eq!(records.edges[0].source_key, "file:///repo/src/widget.rs#file");
    assert_eq!(records.node_count, 3);
    assert!(records.close_stale);
    assert_eq!(summary.files, 1);
    assert_eq!(summary.nodes, 3);
    assert_eq!(summary.edges, 2);
    assert_eq!(summary.occurrences, 2);
    assert_eq!(summary.evidence, 2);
    assert_eq!(summary.routes_complete, 1);
}

#[test]
fn file_batch_rejects_missing_parents_and_dangling_relations() {
    let mut broken = extraction();
    broken.symbols[1].parent_symbol_key = Some("ghost".to_string());
    let mut summary = empty_summary(1, 2);
    match ExtractionPersister.push_document_symbol_file_write_batch(&mut summary, 1, 2, &broken, false) {
        Err(ExtractError::ResponseShape { message, .. }) => {
            assert!(message.starts_with("symbol file:///repo/src/widget.rs#kind=method"));
            assert!(message.ends_with(" references missing parent ghost"));
        }
        _ => panic!("expected a missing-parent error"),
    }
    assert_eq!(summary, empty_summary(1, 2));

    let mut dangling = extraction();
    dangling.relations[1].target_symbol_key = "nowhere".to_string();
    match ExtractionPersister.push_document_symbol_file_write_batch(&mut summary, 1, 2, &dangling, false) {
        Err(ExtractError::ResponseShape { message, .. }) => assert_eq!(message, "relation target nowhere was not persisted"),
        _ => panic!("expected a dangling-relation error"),
    }
}

#[test]
fn source_files_must_lie_in_the_workspace() {
    let files = vec!["/ws/crates/a/src/lib.rs".to_string()];
    assert_eq!(validate_source_files("/ws", "/ws/crates/a", files.clone()), Ok(files));
    match validate_source_files("/ws", "/ws/crates/a", vec!["/elsewhere/lib.rs".to_string()]) {
        Err(ExtractError::InvalidPath { path, workspace_root, message }) => {
            assert_eq!(path, "/elsewhere/lib.rs");
            assert_eq!(workspace_root, "/ws");
            assert_eq!(message, "source file is outside the workspace root");
        }
        _ => panic!("expected an invalid-path error"),
    }
    assert!(matches!(
        validate_source_files("/ws", "/other", vec![]),
        Err(ExtractError::InvalidPath { .. })
    ));
}

#[test]
fn runners_record_their_configuration_and_plan_their_routes() {
    let mut benchmark = BenchmarkSummary::new();
    let config = ThreadedWorkspaceAllConfig::new(4, 5, 6, 0, 0);
    assert_eq!(ThreadedWorkspaceAllRunner::record_configuration(&mut benchmark, &config, 12), 6);
    assert_eq!(benchmark.entries.len(), 8);
    assert_eq!(benchmark.entries[6], ("threaded.effective_analysis_workers".to_string(), "6".to_string()));

    let routes = WorkspaceExtractionRoutes::from_selectors(false, true, false);
    assert_eq!(
        SharedWorkspaceExtractionRunner::run_plan(routes),
        SharedRunPlan { persist_symbols: false, reference_targets: true, call_targets: false, relation_workers: true }
    );
    let mut shared = BenchmarkSummary::new();
    SharedWorkspaceExtractionRunner::record_configuration(&mut shared, routes, 3, 9, true);
    assert_eq!(shared.entries[1], ("shared_workspace.routes".to_string(), "references".to_string()));
    assert_eq!(shared.entries[7], ("shared_workspace.close_stale_document_symbols".to_string(), "1".to_string()));
}

#[test]
fn completed_file_routes_add_up() {
    let mut total = empty_summary(1, 2);
    let mut file = empty_summary(1, 2);
    file.reference_edges = 3;
    let file = complete_file_route_summary(file, 2);
    assert_eq!(file.routes_complete, 1);
    assert_eq!(file.stale_edges_closed, 2);
    record_completed_file_route(&mut total, &file, 4);
    assert_eq!(total.reference_edges, 3);
    assert_eq!(total.routes_complete, 2);
    assert_eq!(total.stale_edges_closed, 6);
}

#[test]
fn completed_runs_count_one_route_each() {
    let worker = semantic_graph_extract::summary::empty_file_relation_worker_summary(1, 2, 3);
    let (reference, _, call, _) = ThreadedWorkspaceAllRunner::completed_route_summaries(worker);
    assert_eq!(reference.routes_complete, 1);
    assert_eq!(call.routes_complete, 1);
    assert_eq!(reference.run_id, 2);
    assert_eq!(call.run_id, 3);
}

#[test]
fn with_routes_all_is_new() {
    assert_eq!(
        ThreadedWorkspaceAllConfig::with_routes(1, 2, 3, 4, 5, WorkspaceExtractionRoutes::all()),
        ThreadedWorkspaceAllConfig::new(1, 2, 3, 4, 5)
    );
    assert_eq!(WorkspaceExtractionRoutes::from_selectors(false, false, false), WorkspaceExtractionRoutes::all());
}

#[test]
fn missing_nodes_skip_or_fail_references() {
    let document_symbols = semantic_graph_extract::model::DocumentSymbolBatchExtraction {
        provider: ProviderId::CSharpLanguageServer,
        language: GraphLanguage::CSharp,
        provider_version: None,
        extractions: vec![],
    };
    let edge = |source: &str, target: &str| semantic_graph_extract::model::ExtractedReference {
        provider: ProviderId::CSharpLanguageServer,
        source_symbol_key: source.to_string(),
        target_symbol_key: target.to_string(),
        source_resolution: "symbol".to_string(),
        confidence: "EXTRACTED".to_string(),
        confidence_score_millis: 1000,
        occurrences: vec![],
    };
    let extraction = ReferenceBatchExtraction {
        provider: ProviderId::CSharpLanguageServer,
        provider_version: None,
        workspace_fingerprint: "f".to_string(),
        document_symbols,
        references: vec![edge("a", "b"), edge("c", "d"), edge("e", "f")],
        summary: semantic_graph_extract::summary::empty_reference_route_summary(),
    };
    let ok = |se, te| NodeCheck { source_exists: se, source_in_file: false, target_exists: te, target_in_file: false };
    let (kept, skipped_source, skipped_target) = ExtractionPersister
        .reference_file_extraction_with_existing_nodes(&extraction, GraphLanguage::CSharp, &vec![ok(true, true), ok(false, true), ok(true, false)])
        .unwrap();
    assert_eq!(kept.references.len(), 1);
    assert_eq!(kept.references[0].source_symbol_key, "a");
    assert_eq!((skipped_source, skipped_target), (1, 1));
    let failing = vec![ok(true, true), NodeCheck { source_exists: true, source_in_file: false, target_exists: false, target_in_file: true }, ok(true, true)];
    match ExtractionPersister.reference_file_extraction_with_existing_nodes(&extraction, GraphLanguage::CSharp, &failing) {
        Err(ExtractError::ResponseShape { message, .. }) => assert_eq!(
            message,
            "symbol node d is missing from the database; run csharp-solution --symbols, csharp-project --symbols, or csharp-file --symbols first"
        ),
        _ => panic!("expected a missing-node error"),
    }
}
