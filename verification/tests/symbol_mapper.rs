use semantic_graph_extract::error::ExtractError;
use semantic_graph_extract::model::{LspPosition, LspRange, SourceFile, TextRange};
use semantic_graph_extract::routes::{GraphLanguage, ProviderId};
use semantic_graph_extract::symbol_mapper::{
    build_symbol_key, normalize_symbol_kind, LspDocumentSymbol, LspDocumentSymbolResponse, RustDocumentSymbolMapper,
};

fn lsp(sl: u32, sc: u32, el: u32, ec: u32) -> LspRange {
    LspRange { start: LspPosition { line: sl, character: sc }, end: LspPosition { line: el, character: ec } }
}

fn source_file() -> SourceFile {
    SourceFile {
        uri: "file:///repo/src/lib.rs".to_string(),
        relative_path: "src/lib.rs".to_string(),
        file_symbol_key: "file:///repo/src/lib.rs#file".to_string(),
        language: GraphLanguage::CSharp,
        content_hash: None,
    }
}

fn symbol(name: &str, kind: u32, full: LspRange, selection: LspRange, children: Option<Vec<LspDocumentSymbol>>) -> LspDocumentSymbol {
    LspDocumentSymbol { name: name.to_string(), detail: None, kind, range: full, selection_range: selection, children }
}

#[test]
fn symbol_keys_include_parent_path() {
    let key = build_symbol_key(
        "file:///repo/src/lib.rs",
        "method",
        TextRange { start_line: 10, start_col: 8, end_line: 10, end_col: 14 },
        "render",
        &vec!["Widget".to_string()],
    );

    assert_eq!(key, "file:///repo/src/lib.rs#kind=method;selection=10:8-10:14;name=render;parent=Widget");
}

#[test]
fn flat_responses_are_rejected() {
    let result = RustDocumentSymbolMapper::map_response(source_file(), "", LspDocumentSymbolResponse::Flat, None);
    match result {
        Err(ExtractError::ResponseShape { provider, method, message }) => {
            assert_eq!(provider, "rust-analyzer");
            assert_eq!(method, "textDocument/documentSymbol");
            assert_eq!(message, "expected hierarchical DocumentSymbol[] but received SymbolInformation[]");
        }
        _ => panic!("expected a response-shape error"),
    }
}

#[test]
fn nested_symbols_map_in_preorder_with_contains_relations() {
    let tree = vec![
        symbol(
            "Widget",
            23,
            lsp(0, 0, 10, 1),
            lsp(0, 11, 0, 17),
            Some(vec![symbol("render", 6, lsp(2, 4, 4, 5), lsp(2, 7, 2, 13), None)]),
        ),
        symbol(
            "tests",
            2,
            lsp(12, 0, 20, 1),
            lsp(12, 4, 12, 9),
            Some(vec![symbol("works", 12, lsp(14, 4, 16, 5), lsp(14, 7, 14, 12), Some(vec![]))]),
        ),
    ];
    let extraction = RustDocumentSymbolMapper::map_response(
        source_file(),
        "",
        LspDocumentSymbolResponse::Nested(tree),
        Some("ra-1".to_string()),
    )
    .unwrap();
    assert_eq!(extraction.provider, ProviderId::RustAnalyzer);
    assert_eq!(extraction.source_file.language, GraphLanguage::Rust);
    assert_eq!(
        extraction.source_file.content_hash.as_deref(),
        Some("e3b0c44298fc1c149afbf4c8996fb92427ae41e4649b934ca495991b7852b855")
    );
    let names: Vec<&str> = extraction.symbols.iter().map(|s| s.name.as_str()).collect();
    assert_eq!(names, vec!["Widget", "render", "tests", "works"]);
    assert_eq!(extraction.relations.len(), 4);
    assert_eq!(extraction.symbols[1].kind, "method");
    assert_eq!(extraction.symbols[3].kind, "function");
    assert_eq!(extraction.symbols[3].qualified_name.as_deref(), Some("tests::works"));
    assert_eq!(
        extraction.symbols[1].symbol_key,
        "file:///repo/src/lib.rs#kind=method;selection=2:7-2:13;name=render;parent=Widget"
    );
    assert_eq!(extraction.symbols[1].parent_symbol_key.as_deref(), Some(extraction.symbols[0].symbol_key.as_str()));
    for (symbol, relation) in extraction.symbols.iter().zip(extraction.relations.iter()) {
        assert_eq!(relation.target_symbol_key, symbol.symbol_key);
        assert_eq!(relation.relation, "contains");
        let expected_source = symbol.parent_symbol_key.clone().unwrap_or_else(|| source_file().file_symbol_key);
        assert_eq!(relation.source_symbol_key, expected_source);
    }
    assert_eq!(extraction.relations[0].source_symbol_key, "file:///repo/src/lib.rs#file");
    assert_eq!(extraction.relations[3].range, Some(TextRange { start_line: 14, start_col: 4, end_line: 16, end_col: 5 }));
}

#[test]
fn symbol_kinds_have_graph_names() {
    assert_eq!(normalize_symbol_kind(22), "enum_member");
    assert_eq!(normalize_symbol_kind(26), "type_parameter");
    assert_eq!(normalize_symbol_kind(99), "unknown");
}

#[test]
fn mapping_the_same_response_twice_gives_the_same_keys() {
    let make = || vec![symbol("a", 12, lsp(0, 0, 1, 0), lsp(0, 3, 0, 4), None)];
    let first = RustDocumentSymbolMapper::map_nested_symbols(source_file(), "fn a() {}\n", &make(), None);
    let second = RustDocumentSymbolMapper::map_nested_symbols(source_file(), "fn a() {}\n", &make(), None);
    assert_eq!(first.symbols[0].symbol_key, second.symbols[0].symbol_key);
    assert_eq!(first.source_file.content_hash, second.source_file.content_hash);
}
