use semantic_graph_extract::error::ExtractError;
use semantic_graph_extract::lsif::{file_uri, file_uri_to_path, hex_value, percent_decode_path};
use semantic_graph_extract::lsif_discovery::{discover_rust_source_files_from_lsif, LsifLine};

#[test]
fn decodes_percent_encoded_file_uris() -> Result<(), Box<dyn std::error::Error>> {
    assert_eq!(
        file_uri_to_path("file:///tmp/a%20path/lib.rs").map_err(|e| e.to_display_string())?,
        "/tmp/a path/lib.rs".to_string()
    );
    Ok(())
}

#[test]
fn file_uri_percent_encodes_spaces() -> Result<(), Box<dyn std::error::Error>> {
    let uri = file_uri("/tmp/a path/lib.rs");
    assert_eq!(uri, "file:///tmp/a%20path/lib.rs");
    Ok(())
}

#[test]
fn file_uri_round_trips_through_decoding() {
    let path = "/tmp/dir with spaces/ünïcode+%/lib.rs";
    let uri = file_uri(path);
    assert!(uri.is_ascii());
    assert_eq!(file_uri_to_path(&uri), Ok(path.to_string()));
}

#[test]
fn file_uri_to_path_rejects_other_schemes_and_hosts() {
    match file_uri_to_path("https://example.com/lib.rs") {
        Err(ExtractError::InvalidPath { message, .. }) => {
            assert_eq!(message, "LSIF document URI is not a file URI")
        }
        other => panic!("unexpected {:?}", other),
    }
    match file_uri_to_path("file://host/lib.rs") {
        Err(ExtractError::InvalidPath { message, .. }) => {
            assert_eq!(message, "LSIF document URI with a host is not supported")
        }
        other => panic!("unexpected {:?}", other),
    }
}

#[test]
fn percent_decoding_rejects_bad_escapes() {
    match percent_decode_path("/tmp/a%2") {
        Err(ExtractError::InvalidPath { message, .. }) => {
            assert_eq!(message, "LSIF document URI has incomplete percent encoding")
        }
        other => panic!("unexpected {:?}", other),
    }
    match percent_decode_path("/tmp/a%zz") {
        Err(ExtractError::InvalidPath { message, .. }) => {
            assert_eq!(message, "LSIF document URI has invalid percent encoding")
        }
        other => panic!("unexpected {:?}", other),
    }
    match percent_decode_path("/tmp/%ff") {
        Err(ExtractError::Io { context, .. }) => {
            assert_eq!(context, "decode LSIF document URI path as UTF-8")
        }
        other => panic!("unexpected {:?}", other),
    }
}

#[test]
fn hex_values_cover_both_cases() {
    assert_eq!(hex_value(b'0'), Some(0));
    assert_eq!(hex_value(b'a'), Some(10));
    assert_eq!(hex_value(b'F'), Some(15));
    assert_eq!(hex_value(b'g'), None);
}

fn document(uri: &str, language: Option<&str>) -> LsifLine {
    LsifLine::Document {
        vertex_type: "vertex".to_string(),
        label: "document".to_string(),
        uri: uri.to_string(),
        language_id: language.map(|l| l.to_string()),
    }
}

#[test]
fn lsif_discovery_filters_to_package_sorts_and_dedups() {
    let lines = vec![
        LsifLine::NotDocument,
        document("file:///ws/crates/wip/src/pipeline.rs", Some("rust")),
        document("file:///ws/crates/other/src/lib.rs", Some("rust")),
        document("file:///ws/crates/wip/src/lib.rs", Some("rust")),
        document("file:///ws/crates/wip/src/models.rs", Some("rust")),
        document("file:///ws/crates/wip/src/lib.rs", Some("rust")),
        document("file:///ws/crates/wip/README.md", Some("markdown")),
        document("file:///ws/crates/wip-extra/src/lib.rs", Some("rust")),
    ];
    let files = discover_rust_source_files_from_lsif("/ws/crates/wip", &lines).unwrap();
    assert_eq!(
        files,
        vec![
            "/ws/crates/wip/src/lib.rs".to_string(),
            "/ws/crates/wip/src/models.rs".to_string(),
            "/ws/crates/wip/src/pipeline.rs".to_string(),
        ]
    );
}

#[test]
fn lsif_discovery_reports_errors() {
    let malformed = vec![LsifLine::Malformed { message: "expected value".to_string() }];
    assert_eq!(
        discover_rust_source_files_from_lsif("/ws", &malformed),
        Err(ExtractError::Json {
            context: "parse LSIF line".to_string(),
            message: "expected value".to_string()
        })
    );
    let bad = vec![LsifLine::BadDocument { message: "missing field `uri`".to_string() }];
    assert_eq!(
        discover_rust_source_files_from_lsif("/ws", &bad),
        Err(ExtractError::Json {
            context: "parse LSIF document vertex".to_string(),
            message: "missing field `uri`".to_string()
        })
    );
    let empty = vec![document("file:///elsewhere/lib.rs", Some("rust"))];
    match discover_rust_source_files_from_lsif("/ws", &empty) {
        Err(ExtractError::ResponseShape { provider, method, message }) => {
            assert_eq!(provider, "rust-analyzer");
            assert_eq!(method, "rust-analyzer lsif");
            assert_eq!(
                message,
                "LSIF output contained no Rust document vertices under the package path"
            );
        }
        other => panic!("unexpected {:?}", other),
    }
    let host = vec![document("file://host/ws/lib.rs", Some("rust"))];
    assert!(matches!(
        discover_rust_source_files_from_lsif("/ws", &host),
        Err(ExtractError::InvalidPath { .. })
    ));
}
