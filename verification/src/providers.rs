use vstd::prelude::*;

use crate::error::ExtractError;
use crate::model::{DocumentSymbolBatchExtraction, ResolvedCallTarget, ResolvedReferenceTarget};
use crate::routes::{GraphLanguage, ProviderId};
use crate::symbols::{is_position_error, string_views};
use crate::targets::{all_candidates, candidates_failure, target_contexts};

verus! {

/// A provider of document symbols for one language.
pub trait DocumentSymbolProvider {
    /// The provider's id.
    spec fn spec_provider_id(&self) -> ProviderId;

    /// The language whose symbols it provides.
    spec fn spec_language(&self) -> GraphLanguage;

    /// The provider's id.
    fn provider_id(&self) -> (id: ProviderId)
        ensures
            id == self.spec_provider_id(),
    ;

    /// The language whose symbols it provides.
    fn language(&self) -> (language: GraphLanguage)
        ensures
            language == self.spec_language(),
    ;
}

/// The rust-analyzer document-symbol provider.
#[derive(Debug, Clone, Copy, PartialEq, Eq, Structural)]
pub struct RustAnalyzerProvider;

impl RustAnalyzerProvider {
    /// A provider that uses the bundled rust-analyzer library.
    pub fn new() -> (provider: Self)
        ensures
            provider == RustAnalyzerProvider,
    {
        RustAnalyzerProvider
    }

    /// A provider; the binary name is accepted for compatibility and not
    /// used, since the library is bundled.
    pub fn with_binary(_binary: &str) -> (provider: Self)
        ensures
            provider == RustAnalyzerProvider,
    {
        RustAnalyzerProvider
    }
}

impl Default for RustAnalyzerProvider {
    fn default() -> (provider: Self)
        ensures
            provider == RustAnalyzerProvider,
    {
        RustAnalyzerProvider::new()
    }
}

impl DocumentSymbolProvider for RustAnalyzerProvider {
    open spec fn spec_provider_id(&self) -> ProviderId {
        ProviderId::RustAnalyzer
    }

    open spec fn spec_language(&self) -> GraphLanguage {
        GraphLanguage::Rust
    }

    fn provider_id(&self) -> (id: ProviderId) {
        ProviderId::RustAnalyzer
    }

    fn language(&self) -> (language: GraphLanguage) {
        GraphLanguage::Rust
    }
}

/// The C# document-symbol, reference and call provider.
#[derive(Debug, Clone, Copy, PartialEq, Eq, Structural)]
pub struct CSharpLsProvider;

impl CSharpLsProvider {
    /// A provider that uses the bundled C# language server library.
    pub fn new() -> (provider: Self)
        ensures
            provider == CSharpLsProvider,
    {
        CSharpLsProvider
    }

    /// The provider's id: the C# language server.
    pub fn provider_id(&self) -> (id: ProviderId)
        ensures
            id == ProviderId::CSharpLanguageServer,
    {
        ProviderId::csharp_language_server()
    }

    /// The provider's language: C#.
    pub fn language(&self) -> (language: GraphLanguage)
        ensures
            language == GraphLanguage::CSharp,
    {
        GraphLanguage::CSharp
    }

    /// The symbols of a batch whose references are asked for: each symbol
    /// of a referable kind, at its file's canonical path and its selection
    /// range. `canonical_paths` holds each file's canonical path, in the
    /// order of the batch's files.
    pub fn reference_targets_for_document_symbols(
        &self,
        document_symbols: &DocumentSymbolBatchExtraction,
        canonical_paths: &Vec<String>,
    ) -> (result: Result<Vec<ResolvedReferenceTarget>, ExtractError>)
        requires
            canonical_paths@.len() == document_symbols.extractions@.len(),
        ensures
            ({
                let exs = document_symbols@.extractions;
                let cands = all_candidates(exs, false);
                match candidates_failure(exs, cands) {
                    Some(line) => result matches Err(e) && is_position_error(e, line),
                    None => result matches Ok(v) && v@.len() == cands.len() && forall|k: int|
                        0 <= k < cands.len() ==> (#[trigger] v@[k]).file_path@ == canonical_paths@[cands[k].0]@
                            && v@[k].selection_range == crate::symbols::spec_lsp_range(
                            crate::targets::candidate_selection(exs, cands[k]),
                        ),
                }
            }),
    {
        let contexts = target_contexts(document_symbols, canonical_paths, false)?;
        let mut targets: Vec<ResolvedReferenceTarget> = Vec::new();
        let mut k: usize = 0;
        while k < contexts.len()
            invariant
                k <= contexts@.len(),
                targets@.len() == k,
                forall|j: int|
                    0 <= j < k ==> (#[trigger] targets@[j]).file_path@ == contexts@[j].file_path@
                        && targets@[j].selection_range == contexts@[j].selection_range,
            decreases contexts@.len() - k,
        {
            targets.push(
                ResolvedReferenceTarget {
                    file_path: contexts[k].file_path.clone(),
                    selection_range: contexts[k].selection_range,
                },
            );
            k = k + 1;
        }
        proof {
            let cands = all_candidates(document_symbols@.extractions, false);
            assert forall|j: int| 0 <= j < cands.len() implies canonical_paths@[cands[j].0]@ == string_views(
                canonical_paths@,
            )[cands[j].0] by {
                crate::targets::lemma_candidates_valid(document_symbols@.extractions, false);
            }
        }
        Ok(targets)
    }

    /// The symbols of a batch whose incoming calls are asked for: each
    /// symbol of a callable kind, at its file's canonical path and its
    /// selection range.
    pub fn call_targets_for_document_symbols(
        &self,
        document_symbols: &DocumentSymbolBatchExtraction,
        canonical_paths: &Vec<String>,
    ) -> (result: Result<Vec<ResolvedCallTarget>, ExtractError>)
        requires
            canonical_paths@.len() == document_symbols.extractions@.len(),
        ensures
            ({
                let exs = document_symbols@.extractions;
                let cands = all_candidates(exs, true);
                match candidates_failure(exs, cands) {
                    Some(line) => result matches Err(e) && is_position_error(e, line),
                    None => result matches Ok(v) && v@.len() == cands.len() && forall|k: int|
                        0 <= k < cands.len() ==> (#[trigger] v@[k]).file_path@ == canonical_paths@[cands[k].0]@
                            && v@[k].selection_range == crate::symbols::spec_lsp_range(
                            crate::targets::candidate_selection(exs, cands[k]),
                        ),
                }
            }),
    {
        let contexts = target_contexts(document_symbols, canonical_paths, true)?;
        let mut targets: Vec<ResolvedCallTarget> = Vec::new();
        let mut k: usize = 0;
        while k < contexts.len()
            invariant
                k <= contexts@.len(),
                targets@.len() == k,
                forall|j: int|
                    0 <= j < k ==> (#[trigger] targets@[j]).file_path@ == contexts@[j].file_path@
                        && targets@[j].selection_range == contexts@[j].selection_range,
            decreases contexts@.len() - k,
        {
            targets.push(
                ResolvedCallTarget {
                    file_path: contexts[k].file_path.clone(),
                    selection_range: contexts[k].selection_range,
                },
            );
            k = k + 1;
        }
        proof {
            let cands = all_candidates(document_symbols@.extractions, true);
            assert forall|j: int| 0 <= j < cands.len() implies canonical_paths@[cands[j].0]@ == string_views(
                canonical_paths@,
            )[cands[j].0] by {
                crate::targets::lemma_candidates_valid(document_symbols@.extractions, true);
            }
        }
        Ok(targets)
    }
}

impl Default for CSharpLsProvider {
    fn default() -> (provider: Self)
        ensures
            provider == CSharpLsProvider,
    {
        CSharpLsProvider::new()
    }
}

} // verus!
