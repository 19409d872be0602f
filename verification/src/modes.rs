use vstd::prelude::*;

use crate::paths::{path_components, path_parts, PathComponent};
use crate::routes::WorkspaceExtractionRoutes;
use crate::text::{chars_of, string_from_chars};

verus! {

/// What a `rust-file` run refreshes.
#[derive(Debug, Clone, Copy, PartialEq, Eq, Structural)]
pub enum RustFileMode {
    Full,
    Symbols,
    References,
    Calls,
}

/// What a `soul-file` run refreshes.
#[derive(Debug, Clone, Copy, PartialEq, Eq, Structural)]
pub enum SoulFileMode {
    Full,
    Symbols,
    References,
}

/// What a `csharp-file` run refreshes.
#[derive(Debug, Clone, Copy, PartialEq, Eq, Structural)]
pub enum CSharpFileMode {
    Full,
    Symbols,
    References,
    Calls,
}

/// How many of three selectors are set.
pub open spec fn selected_count(a: bool, b: bool, c: bool) -> int {
    (if a { 1int } else { 0int }) + (if b { 1int } else { 0int }) + (if c { 1int } else { 0int })
}

/// The message for more than one file-mode selector.
pub open spec fn file_mode_conflict() -> Seq<char> {
    "--calls, --references and --symbols are mutually exclusive"@
}

/// The message for both soul file-mode selectors.
pub open spec fn soul_file_mode_conflict() -> Seq<char> {
    "--references and --symbols are mutually exclusive"@
}

/// A string holding `s`.
fn owned(s: &str) -> (r: String)
    ensures
        r@ == s@,
{
    let mut r = String::new();
    crate::text::push_str(&mut r, s);
    r
}

/// The mode of a `rust-file` run: at most one selector, none meaning a
/// full refresh.
pub fn resolve_rust_file_mode(calls: bool, references: bool, symbols: bool) -> (result: Result<RustFileMode, String>)
    ensures
        selected_count(calls, references, symbols) > 1 ==> (result matches Err(m) && m@ == file_mode_conflict()),
        selected_count(calls, references, symbols) <= 1 ==> result == Ok::<RustFileMode, String>(
            if calls {
                RustFileMode::Calls
            } else if references {
                RustFileMode::References
            } else if symbols {
                RustFileMode::Symbols
            } else {
                RustFileMode::Full
            },
        ),
{
    if (calls && references) || (calls && symbols) || (references && symbols) {
        return Err(owned("--calls, --references and --symbols are mutually exclusive"));
    }
    if calls {
        Ok(RustFileMode::Calls)
    } else if references {
        Ok(RustFileMode::References)
    } else if symbols {
        Ok(RustFileMode::Symbols)
    } else {
        Ok(RustFileMode::Full)
    }
}

/// The mode of a `csharp-file` run: at most one selector, none meaning a
/// full refresh.
pub fn resolve_csharp_file_mode(calls: bool, references: bool, symbols: bool) -> (result: Result<CSharpFileMode, String>)
    ensures
        selected_count(calls, references, symbols) > 1 ==> (result matches Err(m) && m@ == file_mode_conflict()),
        selected_count(calls, references, symbols) <= 1 ==> result == Ok::<CSharpFileMode, String>(
            if calls {
                CSharpFileMode::Calls
            } else if references {
                CSharpFileMode::References
            } else if symbols {
                CSharpFileMode::Symbols
            } else {
                CSharpFileMode::Full
            },
        ),
{
    if (calls && references) || (calls && symbols) || (references && symbols) {
        return Err(owned("--calls, --references and --symbols are mutually exclusive"));
    }
    if calls {
        Ok(CSharpFileMode::Calls)
    } else if references {
        Ok(CSharpFileMode::References)
    } else if symbols {
        Ok(CSharpFileMode::Symbols)
    } else {
        Ok(CSharpFileMode::Full)
    }
}

/// The mode of a `soul-file` run: at most one selector, none meaning a
/// full refresh.
pub fn resolve_soul_file_mode(references: bool, symbols: bool) -> (result: Result<SoulFileMode, String>)
    ensures
        references && symbols ==> (result matches Err(m) && m@ == soul_file_mode_conflict()),
        !(references && symbols) ==> result == Ok::<SoulFileMode, String>(
            if references {
                SoulFileMode::References
            } else if symbols {
                SoulFileMode::Symbols
            } else {
                SoulFileMode::Full
            },
        ),
{
    if references && symbols {
        return Err(owned("--references and --symbols are mutually exclusive"));
    }
    if references {
        Ok(SoulFileMode::References)
    } else if symbols {
        Ok(SoulFileMode::Symbols)
    } else {
        Ok(SoulFileMode::Full)
    }
}

/// The routes of a `rust-workspace` or `rust-crate` run: the selected
/// ones, or every route when none is selected.
pub fn resolve_rust_workspace_routes(calls: bool, references: bool, symbols: bool) -> (routes: WorkspaceExtractionRoutes)
    ensures
        symbols || references || calls ==> routes.spec_symbols() == symbols && routes.spec_references()
            == references && routes.spec_calls() == calls,
        !(symbols || references || calls) ==> routes.spec_symbols() && routes.spec_references()
            && routes.spec_calls(),
{
    WorkspaceExtractionRoutes::from_selectors(symbols, references, calls)
}

/// The routes of a `csharp-project` or `csharp-solution` run: the selected
/// ones, or every route when none is selected.
pub fn resolve_csharp_workspace_routes(calls: bool, references: bool, symbols: bool) -> (routes:
    WorkspaceExtractionRoutes)
    ensures
        symbols || references || calls ==> routes.spec_symbols() == symbols && routes.spec_references()
            == references && routes.spec_calls() == calls,
        !(symbols || references || calls) ==> routes.spec_symbols() && routes.spec_references()
            && routes.spec_calls(),
{
    WorkspaceExtractionRoutes::from_selectors(symbols, references, calls)
}

/// The routes of a `soul-workspace` run, which has no call route: the
/// selected ones, or symbols and references when none is selected.
pub fn resolve_soul_workspace_routes(references: bool, symbols: bool) -> (routes: WorkspaceExtractionRoutes)
    ensures
        !routes.spec_calls(),
        symbols || references ==> routes.spec_symbols() == symbols && routes.spec_references() == references,
        !(symbols || references) ==> routes.spec_symbols() && routes.spec_references(),
{
    if symbols || references {
        WorkspaceExtractionRoutes::from_selectors(symbols, references, false)
    } else {
        WorkspaceExtractionRoutes::from_selectors(true, true, false)
    }
}

/// The language of a file for full-text indexing.
#[derive(Debug, Clone, Copy, PartialEq, Eq, Structural)]
pub enum FtsFileLanguage {
    Rust,
    CSharp,
    Markdown,
    Other,
}

/// The extension of a file name: the text after its last dot, where that
/// dot is not its first character (`Path::extension`).
pub open spec fn name_extension(name: Seq<char>) -> Option<Seq<char>> {
    if exists|k: int| 0 < k < name.len() && name[k] == '.' {
        let k = choose|k: int|
            0 < k < name.len() && name[k] == '.' && forall|j: int| k < j < name.len() ==> name[j] != '.';
        Some(name.subrange(k + 1, name.len() as int))
    } else {
        None
    }
}

/// The extension of a path's file name, where it has one.
pub open spec fn path_extension(path: Seq<char>) -> Option<Seq<char>> {
    let parts = path_parts(path);
    if parts.len() > 0 && parts.last() is Normal {
        name_extension(parts.last()->Normal_0)
    } else {
        None
    }
}

/// The language that a path's extension names.
pub open spec fn spec_fts_language(path: Seq<char>) -> FtsFileLanguage {
    match path_extension(path) {
        Some(e) => if e == "rs"@ {
            FtsFileLanguage::Rust
        } else if e == "cs"@ {
            FtsFileLanguage::CSharp
        } else if e == "md"@ {
            FtsFileLanguage::Markdown
        } else {
            FtsFileLanguage::Other
        },
        None => FtsFileLanguage::Other,
    }
}

/// The extension of a file name.
fn extension_of(name: &str) -> (r: Option<String>)
    ensures
        match name_extension(name@) {
            Some(e) => r matches Some(s) && s@ == e,
            None => r is None,
        },
{
    let chars = chars_of(name);
    let mut k: usize = chars.len();
    while k > 0 && chars[k - 1] != '.'
        invariant
            chars@ == name@,
            k <= chars@.len(),
            forall|j: int| k <= j < chars@.len() ==> chars@[j] != '.',
        decreases k,
    {
        k = k - 1;
    }
    if k <= 1 {
        proof {
            assert forall|j: int| 0 < j < chars@.len() implies chars@[j] != '.' by {
                if k == 1 && j == 0 {
                } else {
                    assert(j >= k);
                }
            }
        }
        return None;
    }
    let dot = k - 1;
    proof {
        let kk = choose|kk: int|
            0 < kk < name@.len() && name@[kk] == '.' && forall|j: int| kk < j < name@.len() ==> name@[j] != '.';
        assert(0 < dot < name@.len() && name@[dot as int] == '.');
        if kk < dot {
            assert(name@[dot as int] != '.');
        } else if kk > dot {
            assert(chars@[kk] != '.');
        }
    }
    Some(string_from_chars(&chars, k, chars.len()))
}

impl FtsFileLanguage {
    /// The language that a path's extension names: `rs`, `cs` or `md`.
    pub fn from_path(path: &str) -> (language: Self)
        ensures
            language == spec_fts_language(path@),
    {
        let parts = path_components(path);
        proof {
            assert(parts@.len() == path_parts(path@).len());
        }
        if parts.len() == 0 {
            return FtsFileLanguage::Other;
        }
        let last = parts.len() - 1;
        assert(path_parts(path@).last() == parts@[last as int]@);
        match &parts[last] {
            PathComponent::Normal(name) => match extension_of(name.as_str()) {
                Some(e) => {
                    if crate::text::str_eq(e.as_str(), "rs") {
                        FtsFileLanguage::Rust
                    } else if crate::text::str_eq(e.as_str(), "cs") {
                        FtsFileLanguage::CSharp
                    } else if crate::text::str_eq(e.as_str(), "md") {
                        FtsFileLanguage::Markdown
                    } else {
                        FtsFileLanguage::Other
                    }
                },
                None => FtsFileLanguage::Other,
            },
            _ => FtsFileLanguage::Other,
        }
    }
}

} // verus!
