use semantic_graph_extract::providers::{CSharpLsProvider, DocumentSymbolProvider, RustAnalyzerProvider};
use semantic_graph_extract::config::{
    effective_analysis_worker_count, execution_diagnostics, ThreadedWorkspaceAllConfig,
};
use semantic_graph_extract::routes::{
    symbol_prerequisite_commands, CSharpRouteBatchContext, CSharpRouteBatchScope, GraphLanguage,
    ProviderId, RouteName, ScopedRoute, WorkspaceExtractionRoutes,
};
use semantic_graph_extract::summary::{
    empty_call_route_summary, empty_file_relation_worker_summary, empty_reference_route_summary,
    empty_summary, merge_file_relation_summary, merge_summary, BenchmarkSummary,
};

#[test]
fn merging_summaries_adds_counts_and_keeps_ids() {
    let mut total = empty_summary(7, 9);
    let mut part = empty_summary(1, 2);
    part.files = 3;
    part.reference_edges = 4;
    part.routes_complete = 1;
    merge_summary(&mut total, &part);
    merge_summary(&mut total, &part);
    assert_eq!(total.workspace_id, 7);
    assert_eq!(total.run_id, 9);
    assert_eq!(total.files, 6);
    assert_eq!(total.reference_edges, 8);
    assert_eq!(total.routes_complete, 2);
    assert_eq!(total.nodes, 0);
}

#[test]
fn merging_an_empty_summary_changes_nothing() {
    let mut s = empty_summary(1, 1);
    s.edges = 5;
    let before = s;
    merge_summary(&mut s, &empty_summary(3, 4));
    assert_eq!(s, before);
}

#[test]
fn file_relation_summaries_merge_route_counts() {
    let mut total = empty_file_relation_worker_summary(1, 2, 3);
    let mut part = empty_file_relation_worker_summary(1, 2, 3);
    part.reference_route.reference_edges = 2;
    part.call_route.call_occurrences = 5;
    merge_file_relation_summary(&mut total, &part);
    assert_eq!(total.reference_route.reference_edges, 2);
    assert_eq!(total.call_route.call_occurrences, 5);
    assert_eq!(total.reference_persistence.run_id, 2);
    assert_eq!(total.call_persistence.run_id, 3);
    assert_eq!(empty_reference_route_summary().targets_queried, 0);
    assert_eq!(empty_call_route_summary().callable_nodes, 0);
}

#[test]
fn routes_labels_name_each_selection() {
    assert_eq!(WorkspaceExtractionRoutes::all().label(), "all");
    assert_eq!(WorkspaceExtractionRoutes::from_selectors(false, false, false).label(), "all");
    assert_eq!(WorkspaceExtractionRoutes::from_selectors(true, false, true).label(), "symbols+calls");
    assert!(WorkspaceExtractionRoutes::from_selectors(false, true, false).includes_relations());
    assert!(!WorkspaceExtractionRoutes::from_selectors(true, false, false).includes_relations());
}

#[test]
fn config_reports_effective_workers() {
    let config = ThreadedWorkspaceAllConfig::new(4, 5, 6, 0, 0);
    assert_eq!(effective_analysis_worker_count(&config), 6);
    let split = ThreadedWorkspaceAllConfig::with_routes(
        4,
        5,
        6,
        2,
        3,
        WorkspaceExtractionRoutes::from_selectors(true, false, false),
    );
    assert_eq!(effective_analysis_worker_count(&split), 5);
    assert_eq!(split.reference_jobs(), 4);
    assert_eq!(split.call_jobs(), 5);
    assert_eq!(split.routes().label(), "symbols");
    let diagnostics = execution_diagnostics(8, 3, 11);
    assert_eq!(diagnostics.requested_execution_mode, "file_grained_analysis_worker_pool");
    assert_eq!(diagnostics.actual_jobs, 3);
    assert_eq!(diagnostics.scheduling_unit, "file");
    assert_eq!(diagnostics.file_work_items, 11);
}

#[test]
fn route_names_and_scopes() {
    assert_eq!(RouteName::references_for_language(GraphLanguage::CSharp).as_str(), "csharp.references");
    assert_eq!(RouteName::calls_for_language(GraphLanguage::Rust).as_str(), "rust.calls");
    assert_eq!(
        RouteName::document_symbols_for_language(GraphLanguage::Soul).as_str(),
        "soul.document_symbols"
    );
    assert_eq!(ScopedRoute::file("file:///a").scope_key, "file:///a");
    assert_eq!(CSharpRouteBatchScope::Project.benchmark_prefix(), "csharp_project");
    assert_eq!(CSharpRouteBatchScope::Solution.label(), "solution");
    let context = CSharpRouteBatchContext::new(CSharpRouteBatchScope::Solution, None);
    assert_eq!(context.scope(), CSharpRouteBatchScope::Solution);
    assert_eq!(context.discovery_elapsed(), None);
    assert_eq!(ProviderId::rust_analyzer().as_str(), "rust-analyzer");
    assert_eq!(GraphLanguage::CSharp.as_store_str(), "csharp");
    assert_eq!(
        symbol_prerequisite_commands(GraphLanguage::Soul),
        "soul-workspace --symbols or soul-file --symbols"
    );
}

#[test]
fn benchmark_entries_keep_insertion_order() {
    let mut benchmark = BenchmarkSummary::new();
    benchmark.insert_label("mode", "shared");
    benchmark.insert_count("files", 120);
    assert_eq!(
        benchmark.entries,
        vec![("mode".to_string(), "shared".to_string()), ("files".to_string(), "120".to_string())]
    );
}

#[test]
fn merging_summaries_commutes_on_counts() {
    let mut a = empty_summary(1, 1);
    a.files = 2;
    a.evidence = 5;
    let mut b = empty_summary(1, 1);
    b.files = 7;
    b.stale_edges_closed = 1;
    let mut ab = a;
    merge_summary(&mut ab, &b);
    let mut ba = b;
    merge_summary(&mut ba, &a);
    assert_eq!(ab, ba);
}

#[test]
fn execution_mode_labels() {
    assert_eq!(
        semantic_graph_extract::config::execution_mode_label(),
        "file_grained_analysis_worker_pool"
    );
    assert_eq!(
        semantic_graph_extract::config::shared_execution_mode_label(),
        "shared_analysis_snapshot"
    );
}

#[test]
fn providers_have_fixed_ids() {
    let rust = RustAnalyzerProvider::with_binary("rust-analyzer");
    assert_eq!(rust, RustAnalyzerProvider::new());
    assert_eq!(rust.provider_id().as_str(), "rust-analyzer");
    let csharp = CSharpLsProvider::default();
    assert_eq!(csharp.provider_id().as_str(), "csharp-ls");
    assert_eq!(csharp.language(), GraphLanguage::CSharp);
}

#[test]
fn worker_metrics_become_benchmark_entries() {
    let mut benchmark = BenchmarkSummary::new();
    let metrics = vec![(0usize, 3usize, 5usize, 2usize, 1500u128), (1usize, 0usize, 0usize, 0usize, 7u128)];
    semantic_graph_extract::summary::insert_file_relation_worker_metrics(&mut benchmark, &metrics);
    let entries: Vec<(&str, &str)> = benchmark.entries.iter().map(|(k, v)| (k.as_str(), v.as_str())).collect();
    assert_eq!(
        entries,
        vec![
            ("shared_workspace.file_relation_workers", "2"),
            ("shared_workspace.file_relation_active_workers", "1"),
            ("shared_workspace.worker.0.files", "3"),
            ("shared_workspace.worker.0.reference_targets", "5"),
            ("shared_workspace.worker.0.call_targets", "2"),
            ("shared_workspace.worker.0.elapsed", "1500"),
            ("shared_workspace.worker.1.files", "0"),
            ("shared_workspace.worker.1.reference_targets", "0"),
            ("shared_workspace.worker.1.call_targets", "0"),
            ("shared_workspace.worker.1.elapsed", "7"),
        ]
    );
    let mut timed = BenchmarkSummary::new();
    timed.insert_duration_ms("threaded.total", 42);
    assert_eq!(timed.entries, vec![("threaded.total".to_string(), "42".to_string())]);
}
