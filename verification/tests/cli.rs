use semantic_graph_extract::cli::{Cli, Command};
use semantic_graph_extract::modes::{
    resolve_csharp_file_mode, resolve_csharp_workspace_routes, resolve_rust_file_mode,
    resolve_rust_workspace_routes, resolve_soul_file_mode, resolve_soul_workspace_routes,
    CSharpFileMode, FtsFileLanguage, RustFileMode, SoulFileMode,
};
use semantic_graph_extract::routes::WorkspaceExtractionRoutes;
use std::error::Error;

fn path(p: &str) -> String {
    p.to_string()
}

#[test]
fn progress_defaults_to_disabled() -> Result<(), Box<dyn Error>> {
    let cli = Cli::try_parse_from(&["semantic-graph-extract", "fts"])?;

    assert!(!cli.progress);
    Ok(())
}

#[test]
fn progress_is_global_before_subcommand() -> Result<(), Box<dyn Error>> {
    let cli = Cli::try_parse_from(&["semantic-graph-extract", "--progress", "rust-workspace"])?;

    assert!(cli.progress);
    match cli.command {
        Command::RustWorkspace { .. } => {}
        _ => return Err("expected rust-workspace command".into()),
    }
    Ok(())
}

#[test]
fn verbose_defaults_to_disabled() -> Result<(), Box<dyn Error>> {
    let cli = Cli::try_parse_from(&["semantic-graph-extract", "fts"])?;

    assert!(!cli.verbose);
    Ok(())
}

#[test]
fn verbose_is_global_before_subcommand() -> Result<(), Box<dyn Error>> {
    let cli = Cli::try_parse_from(&["semantic-graph-extract", "--verbose", "rust-workspace"])?;

    assert!(cli.verbose);
    match cli.command {
        Command::RustWorkspace { .. } => {}
        _ => return Err("expected rust-workspace command".into()),
    }
    Ok(())
}

#[test]
fn fts_defaults_to_all_text_files() -> Result<(), Box<dyn Error>> {
    let cli = Cli::try_parse_from(&["semantic-graph-extract", "fts"])?;

    match cli.command {
        Command::Fts { db, analysis_workers, no_rust, no_csharp, no_submodules } => {
            assert_eq!(db, None);
            assert_eq!(analysis_workers, None);
            assert!(!no_rust);
            assert!(!no_csharp);
            assert!(!no_submodules);
        }
        _ => return Err("expected fts command".into()),
    }

    Ok(())
}

#[test]
fn fts_accepts_exclusion_flags_and_db() -> Result<(), Box<dyn Error>> {
    let cli = Cli::try_parse_from(&[
        "semantic-graph-extract",
        "fts",
        "--db",
        "scratch.db",
        "--analysis-workers",
        "3",
        "--no-rust",
        "--no-csharp",
        "--no-submodules",
    ])?;

    match cli.command {
        Command::Fts { db, analysis_workers, no_rust, no_csharp, no_submodules } => {
            assert_eq!(db, Some(path("scratch.db")));
            assert_eq!(analysis_workers, Some(3));
            assert!(no_rust);
            assert!(no_csharp);
            assert!(no_submodules);
        }
        _ => return Err("expected fts command".into()),
    }

    Ok(())
}

#[test]
fn rust_file_requires_only_file_and_defaults_workspace_root() -> Result<(), Box<dyn Error>> {
    let cli = Cli::try_parse_from(&[
        "semantic-graph-extract",
        "rust-file",
        "crates/semantic-graph-extract/src/main.rs",
    ])?;

    match cli.command {
        Command::RustFile { db, workspace_root, calls, references, symbols, file } => {
            assert_eq!(db, None);
            assert_eq!(workspace_root, path("."));
            assert!(!calls);
            assert!(!references);
            assert!(!symbols);
            assert_eq!(file, path("crates/semantic-graph-extract/src/main.rs"));
        }
        _ => return Err("expected rust-file command".into()),
    }

    Ok(())
}

#[test]
fn rust_file_accepts_workspace_root_and_symbols_mode() -> Result<(), Box<dyn Error>> {
    let cli = Cli::try_parse_from(&[
        "semantic-graph-extract",
        "rust-file",
        "--workspace-root",
        ".",
        "crates/semantic-graph-extract/src/main.rs",
        "--symbols",
    ])?;

    match cli.command {
        Command::RustFile { workspace_root, symbols, file, .. } => {
            assert_eq!(workspace_root, path("."));
            assert!(symbols);
            assert_eq!(file, path("crates/semantic-graph-extract/src/main.rs"));
        }
        _ => return Err("expected rust-file command".into()),
    }

    Ok(())
}

#[test]
fn rust_file_modes_are_mutually_exclusive() -> Result<(), Box<dyn Error>> {
    assert_eq!(resolve_rust_file_mode(false, false, false)?, RustFileMode::Full);
    assert_eq!(resolve_rust_file_mode(false, false, true)?, RustFileMode::Symbols);
    assert!(resolve_rust_file_mode(true, true, false).is_err());
    Ok(())
}

#[test]
fn rust_file_deleted_defaults_workspace_root() -> Result<(), Box<dyn Error>> {
    let cli = Cli::try_parse_from(&[
        "semantic-graph-extract",
        "rust-file-deleted",
        "crates/wip/src/foo.rs",
    ])?;

    match cli.command {
        Command::RustFileDeleted { db, workspace_root, file } => {
            assert_eq!(db, None);
            assert_eq!(workspace_root, path("."));
            assert_eq!(file, path("crates/wip/src/foo.rs"));
        }
        _ => return Err("expected rust-file-deleted command".into()),
    }

    Ok(())
}

#[test]
fn rust_crate_defaults_workspace_root_and_routes() -> Result<(), Box<dyn Error>> {
    let cli = Cli::try_parse_from(&["semantic-graph-extract", "rust-crate", "crates/wip"])?;

    match cli.command {
        Command::RustCrate {
            db,
            workspace_root,
            analysis_workers,
            calls,
            references,
            symbols,
            package_path,
        } => {
            assert_eq!(db, None);
            assert_eq!(workspace_root, path("."));
            assert_eq!(analysis_workers, None);
            assert!(!calls);
            assert!(!references);
            assert!(!symbols);
            assert_eq!(package_path, path("crates/wip"));
        }
        _ => return Err("expected rust-crate command".into()),
    }

    Ok(())
}

#[test]
fn rust_crate_accepts_analysis_workers_and_combined_routes() -> Result<(), Box<dyn Error>> {
    let cli = Cli::try_parse_from(&[
        "semantic-graph-extract",
        "rust-crate",
        "--workspace-root",
        ".",
        "--analysis-workers",
        "3",
        "--symbols",
        "--references",
        "crates/wip",
    ])?;

    match cli.command {
        Command::RustCrate {
            workspace_root,
            analysis_workers,
            calls,
            references,
            symbols,
            package_path,
            ..
        } => {
            assert_eq!(workspace_root, path("."));
            assert_eq!(analysis_workers, Some(3));
            assert!(!calls);
            assert!(references);
            assert!(symbols);
            assert_eq!(package_path, path("crates/wip"));
        }
        _ => return Err("expected rust-crate command".into()),
    }

    Ok(())
}

#[test]
fn rust_workspace_defaults_workspace_root_and_routes() -> Result<(), Box<dyn Error>> {
    let cli = Cli::try_parse_from(&["semantic-graph-extract", "rust-workspace"])?;

    match cli.command {
        Command::RustWorkspace { db, workspace_root, analysis_workers, calls, references, symbols } => {
            assert_eq!(db, None);
            assert_eq!(workspace_root, path("."));
            assert_eq!(analysis_workers, None);
            assert!(!calls);
            assert!(!references);
            assert!(!symbols);
        }
        _ => return Err("expected rust-workspace command".into()),
    }

    Ok(())
}

#[test]
fn rust_workspace_routes_default_to_all_and_allow_combinations() {
    assert_eq!(resolve_rust_workspace_routes(false, false, false), WorkspaceExtractionRoutes::all());
    assert_eq!(resolve_rust_workspace_routes(true, true, false).label(), "references+calls");
    assert_eq!(resolve_rust_workspace_routes(false, false, true).label(), "symbols");
}

#[test]
fn soul_file_defaults_workspace_root_and_supports_symbols_mode() -> Result<(), Box<dyn Error>> {
    let cli = Cli::try_parse_from(&[
        "semantic-graph-extract",
        "soul-file",
        "--workspace-root",
        ".",
        "docs/feature.md",
        "--symbols",
    ])?;

    match cli.command {
        Command::SoulFile { db, workspace_root, references, symbols, file } => {
            assert_eq!(db, None);
            assert_eq!(workspace_root, path("."));
            assert!(!references);
            assert!(symbols);
            assert_eq!(file, path("docs/feature.md"));
        }
        _ => return Err("expected soul-file command".into()),
    }

    Ok(())
}

#[test]
fn soul_file_modes_are_mutually_exclusive() -> Result<(), Box<dyn Error>> {
    assert_eq!(resolve_soul_file_mode(false, false)?, SoulFileMode::Full);
    assert_eq!(resolve_soul_file_mode(false, true)?, SoulFileMode::Symbols);
    assert_eq!(resolve_soul_file_mode(true, false)?, SoulFileMode::References);
    assert!(resolve_soul_file_mode(true, true).is_err());
    Ok(())
}

#[test]
fn soul_workspace_defaults_to_symbols_and_references_without_calls() {
    let routes = resolve_soul_workspace_routes(false, false);
    assert!(routes.includes_symbols());
    assert!(routes.includes_references());
    assert!(!routes.includes_calls());

    let symbols = resolve_soul_workspace_routes(false, true);
    assert!(symbols.includes_symbols());
    assert!(!symbols.includes_references());
    assert!(!symbols.includes_calls());
}

#[test]
fn csharp_file_defaults_and_accepts_solution() -> Result<(), Box<dyn Error>> {
    let cli = Cli::try_parse_from(&[
        "semantic-graph-extract",
        "csharp-file",
        "--solution",
        "Demo.slnx",
        "Project/Program.cs",
    ])?;

    match cli.command {
        Command::CSharpFile { db, solution, csharp_ls, calls, references, symbols, file } => {
            assert_eq!(db, None);
            assert_eq!(solution, Some(path("Demo.slnx")));
            assert_eq!(csharp_ls, None);
            assert!(!calls);
            assert!(!references);
            assert!(!symbols);
            assert_eq!(file, path("Project/Program.cs"));
        }
        _ => return Err("expected csharp-file command".into()),
    }

    Ok(())
}

#[test]
fn csharp_file_modes_are_mutually_exclusive() -> Result<(), Box<dyn Error>> {
    assert_eq!(resolve_csharp_file_mode(false, false, false)?, CSharpFileMode::Full);
    assert_eq!(resolve_csharp_file_mode(false, true, false)?, CSharpFileMode::References);
    assert!(resolve_csharp_file_mode(true, false, true).is_err());
    Ok(())
}

#[test]
fn csharp_file_deleted_defaults_and_accepts_solution() -> Result<(), Box<dyn Error>> {
    let cli = Cli::try_parse_from(&[
        "semantic-graph-extract",
        "csharp-file-deleted",
        "--solution",
        "Demo.slnx",
        "Project/Deleted.cs",
    ])?;

    match cli.command {
        Command::CSharpFileDeleted { db, solution, csharp_ls, file } => {
            assert_eq!(db, None);
            assert_eq!(solution, Some(path("Demo.slnx")));
            assert_eq!(csharp_ls, None);
            assert_eq!(file, path("Project/Deleted.cs"));
        }
        _ => return Err("expected csharp-file-deleted command".into()),
    }

    Ok(())
}

#[test]
fn csharp_project_accepts_boundary_workers_and_combined_routes() -> Result<(), Box<dyn Error>> {
    let cli = Cli::try_parse_from(&[
        "semantic-graph-extract",
        "csharp-project",
        "--solution",
        "Demo.slnx",
        "--csharp-ls",
        "/tmp/csharp-ls",
        "--process-workers",
        "2",
        "--symbols",
        "--references",
        "Project/Project.csproj",
    ])?;

    match cli.command {
        Command::CSharpProject {
            db,
            solution,
            csharp_ls,
            process_workers,
            calls,
            references,
            symbols,
            project_or_root,
        } => {
            assert_eq!(db, None);
            assert_eq!(solution, Some(path("Demo.slnx")));
            assert_eq!(csharp_ls, Some(path("/tmp/csharp-ls")));
            assert_eq!(process_workers, Some(2));
            assert!(!calls);
            assert!(references);
            assert!(symbols);
            assert_eq!(project_or_root, path("Project/Project.csproj"));
        }
        _ => return Err("expected csharp-project command".into()),
    }

    Ok(())
}

#[test]
fn csharp_solution_accepts_workers_and_combined_routes() -> Result<(), Box<dyn Error>> {
    let cli = Cli::try_parse_from(&[
        "semantic-graph-extract",
        "csharp-solution",
        "--solution",
        "Demo.slnx",
        "--process-workers",
        "3",
        "--calls",
        "--references",
    ])?;

    match cli.command {
        Command::CSharpSolution { db, solution, csharp_ls, process_workers, calls, references, symbols } => {
            assert_eq!(db, None);
            assert_eq!(solution, Some(path("Demo.slnx")));
            assert_eq!(csharp_ls, None);
            assert_eq!(process_workers, Some(3));
            assert!(calls);
            assert!(references);
            assert!(!symbols);
        }
        _ => return Err("expected csharp-solution command".into()),
    }

    Ok(())
}

#[test]
fn csharp_workspace_routes_default_to_all_and_allow_combinations() {
    assert_eq!(resolve_csharp_workspace_routes(false, false, false), WorkspaceExtractionRoutes::all());
    assert_eq!(resolve_csharp_workspace_routes(true, true, false).label(), "references+calls");
}

#[test]
fn fts_language_classification_covers_required_languages() {
    assert_eq!(FtsFileLanguage::from_path("lib.rs"), FtsFileLanguage::Rust);
    assert_eq!(FtsFileLanguage::from_path("Program.cs"), FtsFileLanguage::CSharp);
    assert_eq!(FtsFileLanguage::from_path("README.md"), FtsFileLanguage::Markdown);
    assert_eq!(FtsFileLanguage::from_path("notes.txt"), FtsFileLanguage::Other);
}

#[test]
fn fts_language_uses_the_file_name_extension_only() {
    assert_eq!(FtsFileLanguage::from_path("src/dir.rs/notes"), FtsFileLanguage::Other);
    assert_eq!(FtsFileLanguage::from_path(".rs"), FtsFileLanguage::Other);
    assert_eq!(FtsFileLanguage::from_path("a/b.tar.md"), FtsFileLanguage::Markdown);
    assert_eq!(FtsFileLanguage::from_path("a/b.rs/."), FtsFileLanguage::Rust);
}

#[test]
fn cli_accepts_equals_values_and_globals_after_subcommand() -> Result<(), Box<dyn Error>> {
    let cli = Cli::try_parse_from(&["x", "rust-workspace", "--db=a.db", "--analysis-workers=+4", "--verbose"])?;
    assert!(cli.verbose);
    assert!(!cli.progress);
    match cli.command {
        Command::RustWorkspace { db, analysis_workers, .. } => {
            assert_eq!(db, Some(path("a.db")));
            assert_eq!(analysis_workers, Some(4));
        }
        _ => return Err("expected rust-workspace command".into()),
    }
    Ok(())
}

#[test]
fn cli_rejects_malformed_command_lines() {
    let err = |args: &[&str]| Cli::try_parse_from(args).err().unwrap_or_default();
    assert_eq!(err(&["x"]), "a subcommand is required");
    assert_eq!(err(&["x", "frobnicate"]), "unrecognized subcommand");
    assert_eq!(err(&["x", "rust-file"]), "a required argument was not provided");
    assert_eq!(err(&["x", "rust-file", "a.rs", "b.rs"]), "unexpected argument");
    assert_eq!(err(&["x", "fts", "--symbols"]), "unexpected argument");
    assert_eq!(err(&["x", "fts", "--db"]), "a value is required for an option");
    assert_eq!(err(&["x", "fts", "--db", "a", "--db", "b"]), "an argument was given more than once");
    assert_eq!(err(&["x", "fts", "--analysis-workers", "three"]), "invalid worker count");
    assert_eq!(err(&["x", "--db", "a", "fts"]), "unexpected argument");
    assert_eq!(err(&["x", "fts", "-v"]), "unexpected argument");
}
