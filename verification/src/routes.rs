use vstd::prelude::*;

verus! {

/// Which extraction routes a workspace run refreshes.
#[derive(Debug, Clone, Copy, PartialEq, Eq, Structural)]
pub struct WorkspaceExtractionRoutes {
    symbols: bool,
    references: bool,
    calls: bool,
}

/// The label of a route selection.
pub open spec fn spec_routes_label(symbols: bool, references: bool, calls: bool) -> Seq<char> {
    if symbols && references && calls {
        "all"@
    } else if symbols && !references && !calls {
        "symbols"@
    } else if !symbols && references && !calls {
        "references"@
    } else if !symbols && !references && calls {
        "calls"@
    } else if symbols && references && !calls {
        "symbols+references"@
    } else if symbols && !references && calls {
        "symbols+calls"@
    } else if !symbols && references && calls {
        "references+calls"@
    } else {
        "none"@
    }
}

impl WorkspaceExtractionRoutes {
    /// Whether document symbols are refreshed.
    pub closed spec fn spec_symbols(self) -> bool {
        self.symbols
    }

    /// Whether references are refreshed.
    pub closed spec fn spec_references(self) -> bool {
        self.references
    }

    /// Whether calls are refreshed.
    pub closed spec fn spec_calls(self) -> bool {
        self.calls
    }

    /// The selection of every route.
    pub closed spec fn spec_all() -> Self {
        Self { symbols: true, references: true, calls: true }
    }

    /// Every route.
    pub fn all() -> (routes: Self)
        ensures
            routes == Self::spec_all(),
            routes.spec_symbols() && routes.spec_references() && routes.spec_calls(),
    {
        Self { symbols: true, references: true, calls: true }
    }

    /// The selected routes, or every route when none is selected.
    pub fn from_selectors(symbols: bool, references: bool, calls: bool) -> (routes: Self)
        ensures
            symbols || references || calls ==> routes.spec_symbols() == symbols
                && routes.spec_references() == references && routes.spec_calls() == calls,
            !(symbols || references || calls) ==> routes.spec_symbols() && routes.spec_references()
                && routes.spec_calls(),
            !(symbols || references || calls) ==> routes == Self::spec_all(),
    {
        if symbols || references || calls {
            Self { symbols, references, calls }
        } else {
            Self::all()
        }
    }

    /// A selection is its three flags: selections with the same flags are
    /// the same selection.
    pub proof fn lemma_routes_equal(a: Self, b: Self)
        requires
            a.spec_symbols() == b.spec_symbols(),
            a.spec_references() == b.spec_references(),
            a.spec_calls() == b.spec_calls(),
        ensures
            a == b,
    {
    }

    /// The selection of every route selects all three routes.
    pub proof fn lemma_all_selects_everything()
        ensures
            Self::spec_all().spec_symbols() && Self::spec_all().spec_references() && Self::spec_all().spec_calls(),
    {
    }

    /// Whether document symbols are refreshed.
    pub fn includes_symbols(self) -> (r: bool)
        ensures
            r == self.spec_symbols(),
    {
        self.symbols
    }

    /// Whether references are refreshed.
    pub fn includes_references(self) -> (r: bool)
        ensures
            r == self.spec_references(),
    {
        self.references
    }

    /// Whether calls are refreshed.
    pub fn includes_calls(self) -> (r: bool)
        ensures
            r == self.spec_calls(),
    {
        self.calls
    }

    /// Whether any relation route (references or calls) is refreshed.
    pub fn includes_relations(self) -> (r: bool)
        ensures
            r == (self.spec_references() || self.spec_calls()),
    {
        self.references || self.calls
    }

    /// A short label naming the selection, such as `references+calls`.
    pub fn label(self) -> (label: &'static str)
        ensures
            label@ == spec_routes_label(self.spec_symbols(), self.spec_references(), self.spec_calls()),
    {
        match (self.symbols, self.references, self.calls) {
            (true, true, true) => "all",
            (true, false, false) => "symbols",
            (false, true, false) => "references",
            (false, false, true) => "calls",
            (true, true, false) => "symbols+references",
            (true, false, true) => "symbols+calls",
            (false, true, true) => "references+calls",
            (false, false, false) => "none",
        }
    }
}

/// A selection made from selectors never selects nothing, so its label is
/// never `none`; and the label tells selections apart.
pub proof fn lemma_selection_never_empty(symbols: bool, references: bool, calls: bool)
    ensures
        spec_routes_label(
            symbols || !(symbols || references || calls),
            references || !(symbols || references || calls),
            calls || !(symbols || references || calls),
        ) != "none"@,
{
    reveal_strlit("none");
    reveal_strlit("all");
    reveal_strlit("symbols");
    reveal_strlit("references");
    reveal_strlit("calls");
    reveal_strlit("symbols+references");
    reveal_strlit("symbols+calls");
    reveal_strlit("references+calls");
    let any = symbols || references || calls;
    let l = spec_routes_label(symbols || !any, references || !any, calls || !any);
    assert(l.len() != "none"@.len());
}

/// Distinct selections have distinct labels.
pub proof fn lemma_routes_label_injective(
    s1: bool,
    r1: bool,
    c1: bool,
    s2: bool,
    r2: bool,
    c2: bool,
)
    requires
        spec_routes_label(s1, r1, c1) == spec_routes_label(s2, r2, c2),
    ensures
        s1 == s2 && r1 == r2 && c1 == c2,
{
    reveal_strlit("none");
    reveal_strlit("all");
    reveal_strlit("symbols");
    reveal_strlit("references");
    reveal_strlit("calls");
    reveal_strlit("symbols+references");
    reveal_strlit("symbols+calls");
    reveal_strlit("references+calls");
    let l = spec_routes_label(s1, r1, c1);
    assert(l.len() == spec_routes_label(s2, r2, c2).len());
    if l.len() > 0 {
        assert(l[0] == spec_routes_label(s2, r2, c2)[0]);
    }
    if l.len() > 7 {
        assert(l[7] == spec_routes_label(s2, r2, c2)[7]);
    }
}

/// Which batch of C# files a route run covers.
#[derive(Debug, Clone, Copy, PartialEq, Eq, Structural)]
pub enum CSharpRouteBatchScope {
    Project,
    Solution,
}

impl CSharpRouteBatchScope {
    /// The prefix of the scope's benchmark entries.
    pub fn benchmark_prefix(self) -> (prefix: &'static str)
        ensures
            prefix@ == match self {
                CSharpRouteBatchScope::Project => "csharp_project"@,
                CSharpRouteBatchScope::Solution => "csharp_solution"@,
            },
    {
        match self {
            Self::Project => "csharp_project",
            Self::Solution => "csharp_solution",
        }
    }

    /// The scope's name in summaries.
    pub fn label(self) -> (label: &'static str)
        ensures
            label@ == match self {
                CSharpRouteBatchScope::Project => "project"@,
                CSharpRouteBatchScope::Solution => "solution"@,
            },
    {
        match self {
            Self::Project => "project",
            Self::Solution => "solution",
        }
    }
}

/// The scope of a C# route batch and how long its file discovery took.
#[derive(Debug, Clone, Copy, PartialEq, Eq)]
pub struct CSharpRouteBatchContext {
    scope: CSharpRouteBatchScope,
    discovery_elapsed: Option<core::time::Duration>,
}

impl CSharpRouteBatchContext {
    /// The batch's scope.
    pub closed spec fn spec_scope(self) -> CSharpRouteBatchScope {
        self.scope
    }

    /// The batch's discovery time, when it was measured.
    pub closed spec fn spec_discovery_elapsed(self) -> Option<core::time::Duration> {
        self.discovery_elapsed
    }

    /// A context for `scope` with the measured discovery time.
    pub fn new(scope: CSharpRouteBatchScope, discovery_elapsed: Option<core::time::Duration>) -> (context: Self)
        ensures
            context.spec_scope() == scope,
            context.spec_discovery_elapsed() == discovery_elapsed,
    {
        Self { scope, discovery_elapsed }
    }

    /// The measured discovery time.
    pub fn discovery_elapsed(self) -> (elapsed: Option<core::time::Duration>)
        ensures
            elapsed == self.spec_discovery_elapsed(),
    {
        self.discovery_elapsed
    }

    /// The batch's scope.
    pub fn scope(self) -> (scope: CSharpRouteBatchScope)
        ensures
            scope == self.spec_scope(),
    {
        self.scope
    }
}

/// The semantic language of a graph.
#[derive(Debug, Clone, Copy, PartialEq, Eq, Structural)]
pub enum GraphLanguage {
    Rust,
    CSharp,
    Soul,
}

impl GraphLanguage {
    /// The language's name in the store.
    pub open spec fn spec_store_str(self) -> Seq<char> {
        match self {
            GraphLanguage::Rust => "rust"@,
            GraphLanguage::CSharp => "csharp"@,
            GraphLanguage::Soul => "soul"@,
        }
    }

    /// The language's name in the store.
    pub fn as_store_str(self) -> (s: &'static str)
        ensures
            s@ == self.spec_store_str(),
    {
        match self {
            GraphLanguage::Rust => "rust",
            GraphLanguage::CSharp => "csharp",
            GraphLanguage::Soul => "soul",
        }
    }
}

/// The semantic provider that produced a fact.
#[derive(Debug, Clone, Copy, PartialEq, Eq, Structural)]
pub enum ProviderId {
    RustAnalyzer,
    CSharpLanguageServer,
}

impl ProviderId {
    /// The provider's name.
    pub open spec fn spec_str(self) -> Seq<char> {
        match self {
            ProviderId::RustAnalyzer => "rust-analyzer"@,
            ProviderId::CSharpLanguageServer => "csharp-ls"@,
        }
    }

    /// The rust-analyzer provider.
    pub fn rust_analyzer() -> (p: Self)
        ensures
            p == ProviderId::RustAnalyzer,
    {
        ProviderId::RustAnalyzer
    }

    /// The C# language server provider.
    pub fn csharp_language_server() -> (p: Self)
        ensures
            p == ProviderId::CSharpLanguageServer,
    {
        ProviderId::CSharpLanguageServer
    }

    /// The provider's name.
    pub fn as_str(self) -> (s: &'static str)
        ensures
            s@ == self.spec_str(),
    {
        match self {
            ProviderId::RustAnalyzer => "rust-analyzer",
            ProviderId::CSharpLanguageServer => "csharp-ls",
        }
    }
}

/// The scope a route status covers.
#[derive(Debug, Clone, Copy, PartialEq, Eq, Structural)]
pub enum RouteScope {
    File,
    Workspace,
}

impl RouteScope {
    /// The scope's name in the store.
    pub open spec fn spec_str(self) -> Seq<char> {
        match self {
            RouteScope::File => "file"@,
            RouteScope::Workspace => "workspace"@,
        }
    }

    /// The scope's name in the store.
    pub fn as_str(self) -> (s: &'static str)
        ensures
            s@ == self.spec_str(),
    {
        match self {
            RouteScope::File => "file",
            RouteScope::Workspace => "workspace",
        }
    }
}

/// A route status key: its scope and the key within that scope.
#[derive(Debug, Clone, Copy, PartialEq, Eq)]
pub struct ScopedRoute<'a> {
    pub scope: &'a str,
    pub scope_key: &'a str,
}

impl<'a> ScopedRoute<'a> {
    /// A file-scoped route keyed by `scope_key`.
    pub fn file(scope_key: &'a str) -> (route: Self)
        ensures
            route.scope@ == RouteScope::File.spec_str(),
            route.scope_key@ == scope_key@,
    {
        Self { scope: RouteScope::File.as_str(), scope_key }
    }

    /// A workspace-scoped route keyed by `scope_key`.
    pub fn workspace(scope_key: &'a str) -> (route: Self)
        ensures
            route.scope@ == RouteScope::Workspace.spec_str(),
            route.scope_key@ == scope_key@,
    {
        Self { scope: RouteScope::Workspace.as_str(), scope_key }
    }
}

/// The semantic routes the extractor records status for.
#[derive(Debug, Clone, Copy, PartialEq, Eq, Structural)]
pub enum RouteName {
    RustDocumentSymbols,
    RustReferences,
    RustCalls,
    CSharpDocumentSymbols,
    CSharpReferences,
    CSharpCalls,
    SoulDocumentSymbols,
    SoulReferences,
    SoulCalls,
}

impl RouteName {
    /// The route's name in the store.
    pub open spec fn spec_str(self) -> Seq<char> {
        match self {
            RouteName::RustDocumentSymbols => "rust.document_symbols"@,
            RouteName::RustReferences => "rust.references"@,
            RouteName::RustCalls => "rust.calls"@,
            RouteName::CSharpDocumentSymbols => "csharp.document_symbols"@,
            RouteName::CSharpReferences => "csharp.references"@,
            RouteName::CSharpCalls => "csharp.calls"@,
            RouteName::SoulDocumentSymbols => "soul.document_symbols"@,
            RouteName::SoulReferences => "soul.references"@,
            RouteName::SoulCalls => "soul.calls"@,
        }
    }

    /// The route's name in the store.
    pub fn as_str(self) -> (s: &'static str)
        ensures
            s@ == self.spec_str(),
    {
        match self {
            RouteName::RustDocumentSymbols => "rust.document_symbols",
            RouteName::RustReferences => "rust.references",
            RouteName::RustCalls => "rust.calls",
            RouteName::CSharpDocumentSymbols => "csharp.document_symbols",
            RouteName::CSharpReferences => "csharp.references",
            RouteName::CSharpCalls => "csharp.calls",
            RouteName::SoulDocumentSymbols => "soul.document_symbols",
            RouteName::SoulReferences => "soul.references",
            RouteName::SoulCalls => "soul.calls",
        }
    }

    /// The document-symbol route of a language.
    pub fn document_symbols_for_language(language: GraphLanguage) -> (route: Self)
        ensures
            route == match language {
                GraphLanguage::Rust => RouteName::RustDocumentSymbols,
                GraphLanguage::CSharp => RouteName::CSharpDocumentSymbols,
                GraphLanguage::Soul => RouteName::SoulDocumentSymbols,
            },
    {
        match language {
            GraphLanguage::Rust => RouteName::RustDocumentSymbols,
            GraphLanguage::CSharp => RouteName::CSharpDocumentSymbols,
            GraphLanguage::Soul => RouteName::SoulDocumentSymbols,
        }
    }

    /// The reference route of a language.
    pub fn references_for_language(language: GraphLanguage) -> (route: Self)
        ensures
            route == match language {
                GraphLanguage::Rust => RouteName::RustReferences,
                GraphLanguage::CSharp => RouteName::CSharpReferences,
                GraphLanguage::Soul => RouteName::SoulReferences,
            },
    {
        match language {
            GraphLanguage::Rust => RouteName::RustReferences,
            GraphLanguage::CSharp => RouteName::CSharpReferences,
            GraphLanguage::Soul => RouteName::SoulReferences,
        }
    }

    /// The call route of a language.
    pub fn calls_for_language(language: GraphLanguage) -> (route: Self)
        ensures
            route == match language {
                GraphLanguage::Rust => RouteName::RustCalls,
                GraphLanguage::CSharp => RouteName::CSharpCalls,
                GraphLanguage::Soul => RouteName::SoulCalls,
            },
    {
        match language {
            GraphLanguage::Rust => RouteName::RustCalls,
            GraphLanguage::CSharp => RouteName::CSharpCalls,
            GraphLanguage::Soul => RouteName::SoulCalls,
        }
    }
}

/// The commands that build the symbol graph a relation-only run needs.
pub fn symbol_prerequisite_commands(language: GraphLanguage) -> (commands: &'static str)
    ensures
        commands@ == match language {
            GraphLanguage::Rust => "rust-workspace --symbols, rust-crate --symbols, or rust-file --symbols"@,
            GraphLanguage::CSharp => "csharp-solution --symbols, csharp-project --symbols, or csharp-file --symbols"@,
            GraphLanguage::Soul => "soul-workspace --symbols or soul-file --symbols"@,
        },
{
    match language {
        GraphLanguage::Rust => "rust-workspace --symbols, rust-crate --symbols, or rust-file --symbols",
        GraphLanguage::CSharp => "csharp-solution --symbols, csharp-project --symbols, or csharp-file --symbols",
        GraphLanguage::Soul => "soul-workspace --symbols or soul-file --symbols",
    }
}

} // verus!
