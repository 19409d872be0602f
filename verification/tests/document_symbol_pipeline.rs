use semantic_graph_extract::error::ExtractError;

#[test]
fn document_symbol_pipeline_provider_error_format_includes_method_context() {
    let error = ExtractError::protocol(
        "rust-analyzer",
        "textDocument/documentSymbol",
        Some(42),
        "server returned an error",
    )
    .to_display_string();

    assert!(error.contains("rust-analyzer"));
    assert!(error.contains("textDocument/documentSymbol"));
    assert!(error.contains("42"));
}

#[test]
fn error_text_renders_each_variant() {
    assert_eq!(
        ExtractError::response_shape("csharp-ls", "textDocument/references", "bad").to_display_string(),
        "csharp-ls textDocument/references returned an unexpected response shape: bad"
    );
    assert_eq!(
        ExtractError::protocol("p", "m", Some(-32601), "nope").to_display_string(),
        "p m failed with protocol error -32601: nope"
    );
    assert_eq!(
        ExtractError::protocol("p", "m", None, "nope").to_display_string(),
        "p m failed with protocol error: nope"
    );
    assert_eq!(
        ExtractError::json("parse LSIF line", "eof").to_display_string(),
        "parse LSIF line: eof"
    );
    assert_eq!(
        ExtractError::invalid_path("/x", "/ws", "outside").to_display_string(),
        "invalid path /x under workspace root /ws: outside"
    );
}
