use semantic_graph_extract::batch::{
    combined_document_symbols, document_symbol_batch_language, file_content_hash_for_scope_key,
    fresh_unchanged_file_uris, graph_language_from_store, single_file_scope_key, symbol_count,
    WorkspaceFileHash,
};
use semantic_graph_extract::error::ExtractError;
use semantic_graph_extract::fingerprint::workspace_fingerprint;
use semantic_graph_extract::model::{
    DocumentSymbolBatchExtraction, DocumentSymbolExtraction, ExtractedSymbol, LspPosition, LspRange,
    ResolvedCallTarget, ResolvedIncomingCall, ResolvedIncomingCallSet, ResolvedLocation,
    ResolvedReferenceSet, ResolvedReferenceTarget, SourceFile, TextRange,
};
use semantic_graph_extract::origin::{
    reference_file_extraction_with_existing_files,
    call_extraction_for_origin_file, call_route_summary_for_origin_files,
    reference_extraction_for_origin_file, reference_route_summary_for_origin_files,
};
use semantic_graph_extract::persist_steps::prepare_reference_origin_file;
use semantic_graph_extract::providers::{
    CSharpLsProvider, DocumentSymbolProvider, RustAnalyzerProvider,
};
use semantic_graph_extract::routes::{GraphLanguage, ProviderId};
use semantic_graph_extract::work_items::file_semantic_work_items;

fn range(sl: i64, sc: i64, el: i64, ec: i64) -> TextRange {
    TextRange { start_line: sl, start_col: sc, end_line: el, end_col: ec }
}

fn lsp(sl: u32, sc: u32, el: u32, ec: u32) -> LspRange {
    LspRange {
        start: LspPosition { line: sl, character: sc },
        end: LspPosition { line: el, character: ec },
    }
}

fn symbol(key: &str, name: &str, kind: &str, full: TextRange, selection: TextRange) -> ExtractedSymbol {
    ExtractedSymbol {
        provider: ProviderId::CSharpLanguageServer,
        language: GraphLanguage::CSharp,
        file_uri: "file:///ws/Program.cs".to_string(),
        symbol_key: key.to_string(),
        parent_symbol_key: None,
        name: name.to_string(),
        kind: kind.to_string(),
        qualified_name: None,
        detail: None,
        range: full,
        selection_range: selection,
    }
}

fn program_file(relative_path: &str, hash: Option<&str>) -> DocumentSymbolExtraction {
    DocumentSymbolExtraction {
        provider: ProviderId::CSharpLanguageServer,
        language: GraphLanguage::CSharp,
        provider_version: Some("1.0".to_string()),
        source_file: SourceFile {
            uri: format!("file:///ws/{relative_path}"),
            relative_path: relative_path.to_string(),
            file_symbol_key: format!("file:{relative_path}"),
            language: GraphLanguage::CSharp,
            content_hash: hash.map(|h| h.to_string()),
        },
        symbols: vec![
            symbol("k:Program", "Program", "class", range(0, 0, 20, 1), range(0, 6, 0, 13)),
            symbol("k:Main", "Main", "method", range(2, 4, 6, 5), range(2, 16, 2, 20)),
            symbol("k:Helper", "Helper", "method", range(8, 4, 10, 5), range(8, 16, 8, 22)),
            symbol("k:Local", "local", "variable", range(3, 8, 3, 20), range(3, 12, 3, 17)),
        ],
        relations: vec![],
    }
}

fn batch() -> DocumentSymbolBatchExtraction {
    DocumentSymbolBatchExtraction {
        provider: ProviderId::CSharpLanguageServer,
        language: GraphLanguage::CSharp,
        provider_version: Some("1.0".to_string()),
        extractions: vec![program_file("Program.cs", Some("abc"))],
    }
}

fn paths() -> Vec<String> {
    vec!["/ws/Program.cs".to_string()]
}

fn location(path: &str, r: LspRange) -> ResolvedLocation {
    ResolvedLocation { file_path: path.to_string(), range: r }
}

fn helper_references() -> ResolvedReferenceSet {
    ResolvedReferenceSet {
        target_file_path: "/ws/Program.cs".to_string(),
        target_selection_range: lsp(8, 16, 8, 22),
        references: vec![
            location("/ws/Program.cs", lsp(4, 8, 4, 14)),
            location("/ws/Program.cs", lsp(25, 0, 25, 3)),
            location("/other/Lib.cs", lsp(1, 1, 1, 2)),
            location("/ws//Program.cs", lsp(5, 1, 5, 3)),
        ],
    }
}

#[test]
fn maps_reference_sets_into_grouped_edges() {
    let provider = CSharpLsProvider::new();
    let extraction = provider
        .map_reference_sets(batch(), &paths(), vec![helper_references()], 4)
        .unwrap();
    assert_eq!(extraction.provider, ProviderId::CSharpLanguageServer);
    assert_eq!(extraction.provider_version, Some("1.0".to_string()));
    assert_eq!(
        extraction.workspace_fingerprint,
        "3ea089cff6226077f265361dc8eb9db4083272a26c5ad3d56bdc7d82b7a3036a"
    );
    assert_eq!(extraction.references.len(), 2);

    let fallback = &extraction.references[0];
    assert_eq!(fallback.source_symbol_key, "file:Program.cs");
    assert_eq!(fallback.target_symbol_key, "k:Helper");
    assert_eq!(fallback.source_resolution, "file_fallback");
    assert_eq!(fallback.confidence, "AMBIGUOUS");
    assert_eq!(fallback.confidence_score_millis, 600);
    assert_eq!(fallback.occurrences.len(), 1);
    assert_eq!(fallback.occurrences[0].range, range(25, 0, 25, 3));
    assert_eq!(fallback.occurrences[0].enclosing_symbol_key, None);

    let from_main = &extraction.references[1];
    assert_eq!(from_main.source_symbol_key, "k:Main");
    assert_eq!(from_main.source_resolution, "symbol");
    assert_eq!(from_main.confidence, "EXTRACTED");
    assert_eq!(from_main.confidence_score_millis, 1000);
    assert_eq!(from_main.occurrences.len(), 2);
    assert_eq!(from_main.occurrences[0].range, range(4, 8, 4, 14));
    assert_eq!(from_main.occurrences[0].enclosing_symbol_key, Some("k:Main".to_string()));
    assert_eq!(from_main.occurrences[0].target_name, "Helper");
    assert_eq!(from_main.occurrences[0].file_uri, "file:///ws/Program.cs");
    assert_eq!(from_main.occurrences[1].provider_range, lsp(5, 1, 5, 3));

    assert_eq!(extraction.summary.targets_queried, 4);
    assert_eq!(extraction.summary.reference_edges, 2);
    assert_eq!(extraction.summary.reference_occurrences, 3);
    assert_eq!(extraction.summary.file_fallbacks, 1);
    assert_eq!(extraction.summary.skipped_external, 1);
}

#[test]
fn deepest_containing_symbol_wins() {
    let provider = CSharpLsProvider::new();
    let set = ResolvedReferenceSet {
        target_file_path: "/ws/Program.cs".to_string(),
        target_selection_range: lsp(8, 16, 8, 22),
        references: vec![location("/ws/Program.cs", lsp(3, 13, 3, 15))],
    };
    let extraction = provider.map_reference_sets(batch(), &paths(), vec![set], 1).unwrap();
    assert_eq!(extraction.references.len(), 1);
    assert_eq!(extraction.references[0].source_symbol_key, "k:Local");
}

#[test]
fn unknown_reference_target_is_an_error() {
    let provider = CSharpLsProvider::new();
    let set = ResolvedReferenceSet {
        target_file_path: "/ws/Program.cs".to_string(),
        target_selection_range: lsp(99, 0, 99, 1),
        references: vec![],
    };
    let result = provider.map_reference_sets(batch(), &paths(), vec![helper_references(), set], 2);
    match result {
        Err(ExtractError::ResponseShape { provider, method, message }) => {
            assert_eq!(provider, "csharp-ls");
            assert_eq!(method, "textDocument/references");
            assert_eq!(message, "csharp-ls-lib returned a reference set for an unknown target");
        }
        _ => panic!("expected an unknown-target error"),
    }
}

#[test]
fn unconvertible_target_range_is_an_error() {
    let provider = CSharpLsProvider::new();
    let mut document_symbols = batch();
    document_symbols.extractions[0].symbols[1].selection_range = range(2, -1, 2, 20);
    match provider.reference_targets_for_document_symbols(&document_symbols, &paths()) {
        Err(ExtractError::ResponseShape { message, .. }) => assert_eq!(
            message,
            "document-symbol range column could not be converted to LSP position"
        ),
        _ => panic!("expected a position error"),
    }
    document_symbols.extractions[0].symbols[0].selection_range = range(-5, 0, 0, 13);
    match provider.map_reference_sets(document_symbols, &paths(), vec![], 0) {
        Err(ExtractError::ResponseShape { message, .. }) => assert_eq!(
            message,
            "document-symbol range line could not be converted to LSP position"
        ),
        _ => panic!("expected a position error"),
    }
}

#[test]
fn targets_follow_symbol_kinds() {
    let provider = CSharpLsProvider::new();
    let references = provider.reference_targets_for_document_symbols(&batch(), &paths()).unwrap();
    assert_eq!(references.len(), 4);
    assert_eq!(references[0].file_path, "/ws/Program.cs");
    assert_eq!(references[0].selection_range, lsp(0, 6, 0, 13));
    let calls = provider.call_targets_for_document_symbols(&batch(), &paths()).unwrap();
    assert_eq!(calls.len(), 2);
    assert_eq!(calls[0].selection_range, lsp(2, 16, 2, 20));
    assert_eq!(calls[1].selection_range, lsp(8, 16, 8, 22));
}

fn incoming(name: &str, kind: &str, path: &str, full: LspRange, selection: LspRange, from: Vec<LspRange>) -> ResolvedIncomingCall {
    ResolvedIncomingCall {
        caller_file_path: path.to_string(),
        caller_name: name.to_string(),
        caller_kind: kind.to_string(),
        caller_range: full,
        caller_selection_range: selection,
        from_ranges: from,
    }
}

#[test]
fn maps_incoming_calls_into_caller_edges() {
    let provider = CSharpLsProvider::new();
    let set = ResolvedIncomingCallSet {
        target_file_path: "/ws/Program.cs".to_string(),
        target_selection_range: lsp(8, 16, 8, 22),
        incoming_calls: vec![
            incoming("Main", "Method", "/ws/Program.cs", lsp(2, 4, 6, 5), lsp(2, 16, 2, 20), vec![lsp(4, 8, 4, 14), lsp(5, 8, 5, 10)]),
            incoming("Main", "Method", "/elsewhere/X.cs", lsp(2, 4, 6, 5), lsp(2, 16, 2, 20), vec![lsp(1, 1, 1, 2)]),
            incoming("Ghost", "Method", "/ws/Program.cs", lsp(30, 0, 31, 0), lsp(30, 4, 30, 9), vec![lsp(30, 5, 30, 6)]),
            incoming("Main", "method", "/ws/Program.cs", lsp(3, 0, 3, 2), lsp(3, 0, 3, 1), vec![]),
        ],
        skipped_non_callable_prepare_items: 2,
    };
    let extraction = provider
        .map_incoming_call_sets(batch(), &paths(), "/ws", vec![set], 2)
        .unwrap();
    assert_eq!(extraction.calls.len(), 1);
    let call = &extraction.calls[0];
    assert_eq!(call.caller_symbol_key, "k:Main");
    assert_eq!(call.callee_symbol_key, "k:Helper");
    assert_eq!(call.context, "direct");
    assert_eq!(call.confidence, "EXTRACTED");
    assert_eq!(call.occurrences.len(), 2);
    assert_eq!(call.occurrences[0].caller_resolution_mode, "exact_selection_range");
    assert_eq!(call.occurrences[0].callee_name, "Helper");
    assert_eq!(call.occurrences[1].range, range(5, 8, 5, 10));
    assert_eq!(extraction.summary.callable_nodes, 2);
    assert_eq!(extraction.summary.call_edges, 1);
    assert_eq!(extraction.summary.call_occurrences, 2);
    assert_eq!(extraction.summary.skipped_external_targets, 1);
    assert_eq!(extraction.summary.skipped_unresolved_targets, 1);
    assert_eq!(extraction.summary.skipped_non_callable_prepare_items, 2);
}

#[test]
fn caller_without_call_sites_still_makes_an_edge() {
    let provider = CSharpLsProvider::new();
    let set = ResolvedIncomingCallSet {
        target_file_path: "/ws/Program.cs".to_string(),
        target_selection_range: lsp(8, 16, 8, 22),
        incoming_calls: vec![incoming("Main", "METHOD", "/ws/Program.cs", lsp(40, 0, 41, 0), lsp(40, 1, 40, 2), vec![])],
        skipped_non_callable_prepare_items: 0,
    };
    let extraction = provider.map_incoming_call_sets(batch(), &paths(), "/ws", vec![set], 1).unwrap();
    assert_eq!(extraction.calls.len(), 1);
    assert_eq!(extraction.calls[0].occurrences.len(), 0);
    assert_eq!(extraction.summary.call_occurrences, 0);
}

#[test]
fn unknown_call_target_is_an_error() {
    let provider = CSharpLsProvider::new();
    let set = ResolvedIncomingCallSet {
        target_file_path: "/ws/Program.cs".to_string(),
        target_selection_range: lsp(0, 6, 0, 13),
        incoming_calls: vec![],
        skipped_non_callable_prepare_items: 0,
    };
    match provider.map_incoming_call_sets(batch(), &paths(), "/ws", vec![set], 0) {
        Err(ExtractError::ResponseShape { method, message, .. }) => {
            assert_eq!(method, "callHierarchy/incomingCalls");
            assert_eq!(message, "csharp-ls-lib returned an incoming call set for an unknown target");
        }
        _ => panic!("expected an unknown-target error"),
    }
}

#[test]
fn fingerprint_sorts_entries_and_ignores_file_order() {
    let empty = DocumentSymbolBatchExtraction {
        provider: ProviderId::CSharpLanguageServer,
        language: GraphLanguage::CSharp,
        provider_version: None,
        extractions: vec![],
    };
    assert_eq!(
        workspace_fingerprint(&empty),
        "e3b0c44298fc1c149afbf4c8996fb92427ae41e4649b934ca495991b7852b855"
    );
    let mut two = empty;
    two.extractions = vec![program_file("b.cs", Some("h")), program_file("a.cs", None)];
    assert_eq!(
        workspace_fingerprint(&two),
        "14e194a2f0b679d47c865ba340aad7fd5fb2f0d55096aa0d9636aa435422c4b0"
    );
    two.extractions.reverse();
    assert_eq!(
        workspace_fingerprint(&two),
        "14e194a2f0b679d47c865ba340aad7fd5fb2f0d55096aa0d9636aa435422c4b0"
    );
}

#[test]
fn origin_file_restriction_keeps_only_that_file() {
    let provider = CSharpLsProvider::new();
    let extraction = provider
        .map_reference_sets(batch(), &paths(), vec![helper_references()], 4)
        .unwrap();
    let same = reference_extraction_for_origin_file(&extraction, "file:///ws/Program.cs");
    assert_eq!(same.references.len(), 2);
    assert_eq!(same.summary.reference_occurrences, 3);
    assert_eq!(same.summary.file_fallbacks, 1);
    assert_eq!(same.summary.skipped_external, 0);
    assert_eq!(same.summary.targets_queried, 4);
    assert_eq!(same.document_symbols.extractions.len(), 1);
    let other = reference_extraction_for_origin_file(&extraction, "file:///ws/Other.cs");
    assert_eq!(other.references.len(), 0);
    assert_eq!(other.summary.reference_occurrences, 0);
    let summary = reference_route_summary_for_origin_files(&extraction, &vec!["file:///ws/Program.cs".to_string()]);
    assert_eq!(summary, same.summary);
}

#[test]
fn call_origin_restriction_counts_distinct_callers() {
    let provider = CSharpLsProvider::new();
    let set = ResolvedIncomingCallSet {
        target_file_path: "/ws/Program.cs".to_string(),
        target_selection_range: lsp(8, 16, 8, 22),
        incoming_calls: vec![incoming("Main", "Method", "/ws/Program.cs", lsp(2, 4, 6, 5), lsp(2, 16, 2, 20), vec![lsp(4, 8, 4, 14)])],
        skipped_non_callable_prepare_items: 3,
    };
    let extraction = provider.map_incoming_call_sets(batch(), &paths(), "/ws", vec![set], 9).unwrap();
    let same = call_extraction_for_origin_file(&extraction, "file:///ws/Program.cs");
    assert_eq!(same.summary.callable_nodes, 1);
    assert_eq!(same.summary.call_edges, 1);
    assert_eq!(same.summary.call_occurrences, 1);
    assert_eq!(same.summary.skipped_non_callable_prepare_items, 0);
    let none = call_route_summary_for_origin_files(&extraction, &vec![]);
    assert_eq!(none.callable_nodes, 0);
    assert_eq!(none.call_edges, 0);
}

#[test]
fn batch_helpers_check_shape_and_language() {
    let one = batch();
    assert_eq!(single_file_scope_key("p", "m", &one), Ok("file:///ws/Program.cs".to_string()));
    assert_eq!(
        file_content_hash_for_scope_key("p", "m", &one, "file:///ws/Program.cs"),
        Ok(Some("abc".to_string()))
    );
    match file_content_hash_for_scope_key("p", "m", &one, "file:///ws/Gone.cs") {
        Err(ExtractError::ResponseShape { message, .. }) => {
            assert_eq!(message, "source file file:///ws/Gone.cs is missing from the relation context")
        }
        _ => panic!("expected a missing-file error"),
    }
    assert_eq!(document_symbol_batch_language("p", "m", &one), Ok(GraphLanguage::CSharp));
    assert_eq!(symbol_count(&one), 4);

    let mut mixed = batch();
    mixed.extractions[0].symbols[2].language = GraphLanguage::Rust;
    match document_symbol_batch_language("p", "m", &mixed) {
        Err(ExtractError::ResponseShape { message, .. }) => {
            assert_eq!(message, "relation batch contained mixed symbol languages")
        }
        _ => panic!("expected a mixed-language error"),
    }
    mixed.extractions[0].language = GraphLanguage::Soul;
    match document_symbol_batch_language("p", "m", &mixed) {
        Err(ExtractError::ResponseShape { message, .. }) => {
            assert_eq!(message, "relation batch contained mixed document-symbol languages")
        }
        _ => panic!("expected a mixed-language error"),
    }

    let mut empty = batch();
    empty.extractions.clear();
    match single_file_scope_key("p", "m", &empty) {
        Err(ExtractError::ResponseShape { message, .. }) => {
            assert_eq!(message, "single-file relation extraction contained no document-symbol files")
        }
        _ => panic!("expected an empty-batch error"),
    }
    match document_symbol_batch_language("p", "m", &empty) {
        Err(ExtractError::ResponseShape { message, .. }) => {
            assert_eq!(message, "relation batch contained no document-symbol files")
        }
        _ => panic!("expected an empty-batch error"),
    }
    let mut two = batch();
    two.extractions.push(program_file("Other.cs", None));
    match single_file_scope_key("p", "m", &two) {
        Err(ExtractError::ResponseShape { message, .. }) => assert_eq!(
            message,
            "single-file relation extraction contained more than one document-symbol file"
        ),
        _ => panic!("expected a many-file error"),
    }
}

#[test]
fn store_languages_map_to_graph_languages() {
    assert_eq!(graph_language_from_store("p", "m", "rust"), Ok(GraphLanguage::Rust));
    assert_eq!(graph_language_from_store("p", "m", "csharp"), Ok(GraphLanguage::CSharp));
    match graph_language_from_store("p", "m", "cobol") {
        Err(ExtractError::ResponseShape { message, .. }) => assert_eq!(message, "unsupported graph language cobol"),
        _ => panic!("expected an unsupported-language error"),
    }
}

#[test]
fn combined_batch_is_stably_sorted_by_relative_path() {
    let provider = RustAnalyzerProvider::new();
    assert_eq!(provider.provider_id(), ProviderId::RustAnalyzer);
    assert_eq!(provider.language(), GraphLanguage::Rust);
    let changed = DocumentSymbolBatchExtraction {
        provider: ProviderId::RustAnalyzer,
        language: GraphLanguage::Rust,
        provider_version: Some("ra".to_string()),
        extractions: vec![program_file("src/z.rs", Some("1")), program_file("src/a.rs", Some("2"))],
    };
    let loaded = vec![program_file("src/m.rs", None), program_file("src/a.rs", Some("3"))];
    let combined = combined_document_symbols(&provider, changed, loaded);
    let order: Vec<(String, Option<String>)> = combined
        .extractions
        .iter()
        .map(|e| (e.source_file.relative_path.clone(), e.source_file.content_hash.clone()))
        .collect();
    assert_eq!(
        order,
        vec![
            ("src/a.rs".to_string(), Some("2".to_string())),
            ("src/a.rs".to_string(), Some("3".to_string())),
            ("src/m.rs".to_string(), None),
            ("src/z.rs".to_string(), Some("1".to_string())),
        ]
    );
    assert_eq!(combined.provider_version, Some("ra".to_string()));
}

#[test]
fn fresh_files_are_those_with_matching_stored_hashes() {
    let stored = vec![
        ("file:///a".to_string(), Some("h1".to_string())),
        ("file:///b".to_string(), Some("old".to_string())),
        ("file:///c".to_string(), None),
    ];
    let hashes = vec![
        WorkspaceFileHash { file_path: "/a".to_string(), uri: "file:///a".to_string(), content_hash: "h1".to_string() },
        WorkspaceFileHash { file_path: "/b".to_string(), uri: "file:///b".to_string(), content_hash: "new".to_string() },
        WorkspaceFileHash { file_path: "/c".to_string(), uri: "file:///c".to_string(), content_hash: "h3".to_string() },
        WorkspaceFileHash { file_path: "/d".to_string(), uri: "file:///d".to_string(), content_hash: "h4".to_string() },
        WorkspaceFileHash { file_path: "/a".to_string(), uri: "file:///a".to_string(), content_hash: "h1".to_string() },
    ];
    assert_eq!(fresh_unchanged_file_uris(&stored, &hashes), vec!["file:///a".to_string()]);
}

#[test]
fn work_items_group_targets_by_file_in_path_order() {
    let refs = vec![
        ResolvedReferenceTarget { file_path: "/ws/src/b.rs".to_string(), selection_range: lsp(1, 0, 1, 1) },
        ResolvedReferenceTarget { file_path: "/ws/src/a.rs".to_string(), selection_range: lsp(2, 0, 2, 1) },
        ResolvedReferenceTarget { file_path: "/ws/src//b.rs".to_string(), selection_range: lsp(3, 0, 3, 1) },
    ];
    let calls = vec![
        ResolvedCallTarget { file_path: "/ws/src/c.rs".to_string(), selection_range: lsp(4, 0, 4, 1) },
        ResolvedCallTarget { file_path: "/ws/src/b.rs".to_string(), selection_range: lsp(5, 0, 5, 1) },
    ];
    let work = file_semantic_work_items(refs, calls);
    let files: Vec<&str> = work.iter().map(|w| w.file_path.as_str()).collect();
    assert_eq!(files, vec!["/ws/src/a.rs", "/ws/src/b.rs", "/ws/src/c.rs"]);
    assert_eq!(work[1].reference_targets.len(), 2);
    assert_eq!(work[1].reference_targets[1].selection_range, lsp(3, 0, 3, 1));
    assert_eq!(work[1].call_targets.len(), 1);
    assert_eq!(work[2].reference_targets.len(), 0);
    assert_eq!(work[2].call_targets.len(), 1);
}

#[test]
fn restricting_to_an_origin_file_twice_changes_nothing() {
    let provider = CSharpLsProvider::new();
    let extraction = provider
        .map_reference_sets(batch(), &paths(), vec![helper_references()], 4)
        .unwrap();
    let once = reference_extraction_for_origin_file(&extraction, "file:///ws/Program.cs");
    let twice = reference_extraction_for_origin_file(&once, "file:///ws/Program.cs");
    assert_eq!(twice.summary, once.summary);
    assert_eq!(twice.references.len(), once.references.len());
    for (a, b) in twice.references.iter().zip(once.references.iter()) {
        assert_eq!(a.source_symbol_key, b.source_symbol_key);
        assert_eq!(a.occurrences.len(), b.occurrences.len());
    }
}

#[test]
fn summary_totals_match_the_edges() {
    let provider = CSharpLsProvider::new();
    let extraction = provider
        .map_reference_sets(batch(), &paths(), vec![helper_references(), helper_references()], 4)
        .unwrap();
    let total: usize = extraction.references.iter().map(|r| r.occurrences.len()).sum();
    assert_eq!(extraction.summary.reference_occurrences, total);
    assert_eq!(extraction.summary.reference_occurrences, 6);
    assert_eq!(extraction.summary.reference_edges, extraction.references.len());
    assert!(extraction.references.iter().all(|r| !r.occurrences.is_empty()));
}

#[test]
fn origin_summary_ignores_repeated_files() {
    let provider = CSharpLsProvider::new();
    let extraction = provider
        .map_reference_sets(batch(), &paths(), vec![helper_references()], 4)
        .unwrap();
    let once = reference_route_summary_for_origin_files(&extraction, &vec!["file:///ws/Program.cs".to_string()]);
    let twice = reference_route_summary_for_origin_files(
        &extraction,
        &vec!["file:///ws/Program.cs".to_string(), "file:///ws/Program.cs".to_string()],
    );
    assert_eq!(once, twice);
    assert_eq!(once, reference_extraction_for_origin_file(&extraction, "file:///ws/Program.cs").summary);
}

#[test]
fn occurrences_in_unknown_files_are_dropped_and_counted() {
    let provider = CSharpLsProvider::new();
    let extraction = provider
        .map_reference_sets(batch(), &paths(), vec![helper_references()], 4)
        .unwrap();
    let (kept, skipped) = reference_file_extraction_with_existing_files(&extraction, &vec!["file:///ws/Other.cs".to_string()]);
    assert_eq!(kept.references.len(), 0);
    assert_eq!(skipped, 3);
    assert_eq!(kept.summary, extraction.summary);
    let (all, none) = reference_file_extraction_with_existing_files(&extraction, &vec!["file:///ws/Program.cs".to_string()]);
    assert_eq!(all.references.len(), 2);
    assert_eq!(none, 0);
}

#[test]
fn origin_file_preparation_checks_language_and_file() {
    let provider = CSharpLsProvider::new();
    let extraction = provider
        .map_reference_sets(batch(), &paths(), vec![helper_references()], 4)
        .unwrap();
    let prepared = prepare_reference_origin_file(&extraction, "file:///ws/Program.cs").unwrap();
    assert_eq!(prepared.route.as_str(), "csharp.references");
    assert_eq!(prepared.content_hash.as_deref(), Some("abc"));
    assert_eq!(prepared.extraction.summary.reference_occurrences, 3);
    assert!(prepare_reference_origin_file(&extraction, "file:///ws/Gone.cs").is_err());
}
