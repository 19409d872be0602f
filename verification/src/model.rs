use vstd::prelude::*;

use crate::routes::{GraphLanguage, ProviderId};
use crate::summary::{CallRouteSummary, ReferenceRouteSummary};

verus! {

/// A source range with zero-based lines and columns, as the store keeps it.
#[derive(Debug, Clone, Copy, PartialEq, Eq, Structural)]
pub struct TextRange {
    pub start_line: i64,
    pub start_col: i64,
    pub end_line: i64,
    pub end_col: i64,
}

/// A position as the language server protocol writes it.
#[derive(Debug, Clone, Copy, PartialEq, Eq, Structural)]
pub struct LspPosition {
    pub line: u32,
    pub character: u32,
}

/// A range as the language server protocol writes it.
#[derive(Debug, Clone, Copy, PartialEq, Eq, Structural)]
pub struct LspRange {
    pub start: LspPosition,
    pub end: LspPosition,
}

/// The store range of a protocol range.
pub open spec fn spec_text_range_from_lsp(range: LspRange) -> TextRange {
    TextRange {
        start_line: range.start.line as i64,
        start_col: range.start.character as i64,
        end_line: range.end.line as i64,
        end_col: range.end.character as i64,
    }
}

/// The store range of a protocol range.
pub fn text_range_from_lsp(range: LspRange) -> (r: TextRange)
    ensures
        r == spec_text_range_from_lsp(range),
{
    TextRange {
        start_line: range.start.line as i64,
        start_col: range.start.character as i64,
        end_line: range.end.line as i64,
        end_col: range.end.character as i64,
    }
}

/// The view of an optional string.
pub open spec fn opt_str(o: Option<String>) -> Option<Seq<char>> {
    match o {
        Some(s) => Some(s@),
        None => None,
    }
}

/// A copy of an optional string.
pub fn clone_opt_str(o: &Option<String>) -> (r: Option<String>)
    ensures
        opt_str(r) == opt_str(*o),
{
    match o {
        Some(s) => Some(s.clone()),
        None => None,
    }
}

/// A source file as the graph records it.
pub struct SourceFile {
    pub uri: String,
    pub relative_path: String,
    pub file_symbol_key: String,
    pub language: GraphLanguage,
    pub content_hash: Option<String>,
}

/// The view of a source file.
pub struct SourceFileView {
    pub uri: Seq<char>,
    pub relative_path: Seq<char>,
    pub file_symbol_key: Seq<char>,
    pub language: GraphLanguage,
    pub content_hash: Option<Seq<char>>,
}

impl View for SourceFile {
    type V = SourceFileView;

    open spec fn view(&self) -> SourceFileView {
        SourceFileView {
            uri: self.uri@,
            relative_path: self.relative_path@,
            file_symbol_key: self.file_symbol_key@,
            language: self.language,
            content_hash: opt_str(self.content_hash),
        }
    }
}

impl SourceFile {
    /// A copy of the source file.
    pub fn copy(&self) -> (r: Self)
        ensures
            r@ == self@,
    {
        SourceFile {
            uri: self.uri.clone(),
            relative_path: self.relative_path.clone(),
            file_symbol_key: self.file_symbol_key.clone(),
            language: self.language,
            content_hash: clone_opt_str(&self.content_hash),
        }
    }
}

/// A symbol of a document, with its key in the graph.
pub struct ExtractedSymbol {
    pub provider: ProviderId,
    pub language: GraphLanguage,
    pub file_uri: String,
    pub symbol_key: String,
    pub parent_symbol_key: Option<String>,
    pub name: String,
    pub kind: String,
    pub qualified_name: Option<String>,
    pub detail: Option<String>,
    pub range: TextRange,
    pub selection_range: TextRange,
}

/// The view of a symbol.
pub struct SymbolView {
    pub provider: ProviderId,
    pub language: GraphLanguage,
    pub file_uri: Seq<char>,
    pub symbol_key: Seq<char>,
    pub parent_symbol_key: Option<Seq<char>>,
    pub name: Seq<char>,
    pub kind: Seq<char>,
    pub qualified_name: Option<Seq<char>>,
    pub detail: Option<Seq<char>>,
    pub range: TextRange,
    pub selection_range: TextRange,
}

impl View for ExtractedSymbol {
    type V = SymbolView;

    open spec fn view(&self) -> SymbolView {
        SymbolView {
            provider: self.provider,
            language: self.language,
            file_uri: self.file_uri@,
            symbol_key: self.symbol_key@,
            parent_symbol_key: opt_str(self.parent_symbol_key),
            name: self.name@,
            kind: self.kind@,
            qualified_name: opt_str(self.qualified_name),
            detail: opt_str(self.detail),
            range: self.range,
            selection_range: self.selection_range,
        }
    }
}

impl ExtractedSymbol {
    /// A copy of the symbol.
    pub fn copy(&self) -> (r: Self)
        ensures
            r@ == self@,
    {
        ExtractedSymbol {
            provider: self.provider,
            language: self.language,
            file_uri: self.file_uri.clone(),
            symbol_key: self.symbol_key.clone(),
            parent_symbol_key: clone_opt_str(&self.parent_symbol_key),
            name: self.name.clone(),
            kind: self.kind.clone(),
            qualified_name: clone_opt_str(&self.qualified_name),
            detail: clone_opt_str(&self.detail),
            range: self.range,
            selection_range: self.selection_range,
        }
    }
}

/// A relation between two symbols of a file, such as a parent containing
/// a child.
pub struct ExtractedRelation {
    pub provider: ProviderId,
    pub source_symbol_key: String,
    pub target_symbol_key: String,
    pub relation: String,
    pub confidence: String,
    /// Confidence in thousandths.
    pub confidence_score_millis: u32,
    pub range: Option<TextRange>,
}

/// The view of a relation.
pub struct RelationView {
    pub provider: ProviderId,
    pub source_symbol_key: Seq<char>,
    pub target_symbol_key: Seq<char>,
    pub relation: Seq<char>,
    pub confidence: Seq<char>,
    pub confidence_score_millis: u32,
    pub range: Option<TextRange>,
}

impl View for ExtractedRelation {
    type V = RelationView;

    open spec fn view(&self) -> RelationView {
        RelationView {
            provider: self.provider,
            source_symbol_key: self.source_symbol_key@,
            target_symbol_key: self.target_symbol_key@,
            relation: self.relation@,
            confidence: self.confidence@,
            confidence_score_millis: self.confidence_score_millis,
            range: self.range,
        }
    }
}

impl ExtractedRelation {
    /// A copy of the relation.
    pub fn copy(&self) -> (r: Self)
        ensures
            r@ == self@,
    {
        ExtractedRelation {
            provider: self.provider,
            source_symbol_key: self.source_symbol_key.clone(),
            target_symbol_key: self.target_symbol_key.clone(),
            relation: self.relation.clone(),
            confidence: self.confidence.clone(),
            confidence_score_millis: self.confidence_score_millis,
            range: self.range,
        }
    }
}

/// The symbols that one provider found in one file, and the relations
/// between them.
pub struct DocumentSymbolExtraction {
    pub provider: ProviderId,
    pub language: GraphLanguage,
    pub provider_version: Option<String>,
    pub source_file: SourceFile,
    pub symbols: Vec<ExtractedSymbol>,
    pub relations: Vec<ExtractedRelation>,
}

/// The view of a file's symbol extraction.
pub struct DocumentSymbolExtractionView {
    pub provider: ProviderId,
    pub language: GraphLanguage,
    pub provider_version: Option<Seq<char>>,
    pub source_file: SourceFileView,
    pub symbols: Seq<SymbolView>,
    pub relations: Seq<RelationView>,
}

impl View for DocumentSymbolExtraction {
    type V = DocumentSymbolExtractionView;

    open spec fn view(&self) -> DocumentSymbolExtractionView {
        DocumentSymbolExtractionView {
            provider: self.provider,
            language: self.language,
            provider_version: opt_str(self.provider_version),
            source_file: self.source_file@,
            symbols: self.symbols@.map_values(|s: ExtractedSymbol| s@),
            relations: self.relations@.map_values(|r: ExtractedRelation| r@),
        }
    }
}

impl DocumentSymbolExtraction {
    /// A copy of the extraction.
    pub fn copy(&self) -> (r: Self)
        ensures
            r@ == self@,
    {
        let mut symbols: Vec<ExtractedSymbol> = Vec::new();
        let mut i: usize = 0;
        while i < self.symbols.len()
            invariant
                i <= self.symbols@.len(),
                symbols@.len() == i,
                forall|j: int| 0 <= j < i ==> (#[trigger] symbols@[j])@ == self.symbols@[j]@,
            decreases self.symbols@.len() - i,
        {
            symbols.push(self.symbols[i].copy());
            i = i + 1;
        }
        assert(symbols@.map_values(|s: ExtractedSymbol| s@) =~= self.symbols@.map_values(|s: ExtractedSymbol| s@));
        let mut relations: Vec<ExtractedRelation> = Vec::new();
        let mut k: usize = 0;
        while k < self.relations.len()
            invariant
                k <= self.relations@.len(),
                relations@.len() == k,
                forall|j: int| 0 <= j < k ==> (#[trigger] relations@[j])@ == self.relations@[j]@,
            decreases self.relations@.len() - k,
        {
            relations.push(self.relations[k].copy());
            k = k + 1;
        }
        assert(relations@.map_values(|r: ExtractedRelation| r@) =~= self.relations@.map_values(
            |r: ExtractedRelation| r@,
        ));
        DocumentSymbolExtraction {
            provider: self.provider,
            language: self.language,
            provider_version: clone_opt_str(&self.provider_version),
            source_file: self.source_file.copy(),
            symbols,
            relations,
        }
    }
}

/// The symbols that one provider found in a batch of files.
pub struct DocumentSymbolBatchExtraction {
    pub provider: ProviderId,
    pub language: GraphLanguage,
    pub provider_version: Option<String>,
    pub extractions: Vec<DocumentSymbolExtraction>,
}

/// The view of a batch extraction.
pub struct DocumentSymbolBatchView {
    pub provider: ProviderId,
    pub language: GraphLanguage,
    pub provider_version: Option<Seq<char>>,
    pub extractions: Seq<DocumentSymbolExtractionView>,
}

impl View for DocumentSymbolBatchExtraction {
    type V = DocumentSymbolBatchView;

    open spec fn view(&self) -> DocumentSymbolBatchView {
        DocumentSymbolBatchView {
            provider: self.provider,
            language: self.language,
            provider_version: opt_str(self.provider_version),
            extractions: self.extractions@.map_values(|e: DocumentSymbolExtraction| e@),
        }
    }
}

impl DocumentSymbolBatchExtraction {
    /// A copy of the batch.
    pub fn copy(&self) -> (r: Self)
        ensures
            r@ == self@,
    {
        let mut extractions: Vec<DocumentSymbolExtraction> = Vec::new();
        let mut i: usize = 0;
        while i < self.extractions.len()
            invariant
                i <= self.extractions@.len(),
                extractions@.len() == i,
                forall|j: int| 0 <= j < i ==> (#[trigger] extractions@[j])@ == self.extractions@[j]@,
            decreases self.extractions@.len() - i,
        {
            extractions.push(self.extractions[i].copy());
            i = i + 1;
        }
        assert(extractions@.map_values(|e: DocumentSymbolExtraction| e@) =~= self.extractions@.map_values(
            |e: DocumentSymbolExtraction| e@,
        ));
        DocumentSymbolBatchExtraction {
            provider: self.provider,
            language: self.language,
            provider_version: clone_opt_str(&self.provider_version),
            extractions,
        }
    }
}

/// One place where a target symbol is referenced.
pub struct ReferenceOccurrence {
    pub file_uri: String,
    pub file_relative_path: String,
    pub file_symbol_key: String,
    pub range: TextRange,
    pub enclosing_symbol_key: Option<String>,
    /// The range as the provider reported it.
    pub provider_range: LspRange,
    /// The name of the referenced symbol.
    pub target_name: String,
}

/// The view of a reference occurrence.
pub struct ReferenceOccurrenceView {
    pub file_uri: Seq<char>,
    pub file_relative_path: Seq<char>,
    pub file_symbol_key: Seq<char>,
    pub range: TextRange,
    pub enclosing_symbol_key: Option<Seq<char>>,
    pub provider_range: LspRange,
    pub target_name: Seq<char>,
}

impl View for ReferenceOccurrence {
    type V = ReferenceOccurrenceView;

    open spec fn view(&self) -> ReferenceOccurrenceView {
        ReferenceOccurrenceView {
            file_uri: self.file_uri@,
            file_relative_path: self.file_relative_path@,
            file_symbol_key: self.file_symbol_key@,
            range: self.range,
            enclosing_symbol_key: opt_str(self.enclosing_symbol_key),
            provider_range: self.provider_range,
            target_name: self.target_name@,
        }
    }
}

impl ReferenceOccurrence {
    /// A copy of the occurrence.
    pub fn copy(&self) -> (r: Self)
        ensures
            r@ == self@,
    {
        ReferenceOccurrence {
            file_uri: self.file_uri.clone(),
            file_relative_path: self.file_relative_path.clone(),
            file_symbol_key: self.file_symbol_key.clone(),
            range: self.range,
            enclosing_symbol_key: clone_opt_str(&self.enclosing_symbol_key),
            provider_range: self.provider_range,
            target_name: self.target_name.clone(),
        }
    }
}

/// A reference edge from a source symbol to a target symbol, with its
/// occurrences.
pub struct ExtractedReference {
    pub provider: ProviderId,
    pub source_symbol_key: String,
    pub target_symbol_key: String,
    pub source_resolution: String,
    pub confidence: String,
    /// Confidence in thousandths.
    pub confidence_score_millis: u32,
    pub occurrences: Vec<ReferenceOccurrence>,
}

/// The view of a reference edge.
pub struct ExtractedReferenceView {
    pub provider: ProviderId,
    pub source_symbol_key: Seq<char>,
    pub target_symbol_key: Seq<char>,
    pub source_resolution: Seq<char>,
    pub confidence: Seq<char>,
    pub confidence_score_millis: u32,
    pub occurrences: Seq<ReferenceOccurrenceView>,
}

impl View for ExtractedReference {
    type V = ExtractedReferenceView;

    open spec fn view(&self) -> ExtractedReferenceView {
        ExtractedReferenceView {
            provider: self.provider,
            source_symbol_key: self.source_symbol_key@,
            target_symbol_key: self.target_symbol_key@,
            source_resolution: self.source_resolution@,
            confidence: self.confidence@,
            confidence_score_millis: self.confidence_score_millis,
            occurrences: self.occurrences@.map_values(|o: ReferenceOccurrence| o@),
        }
    }
}

/// The references found for a batch of files.
pub struct ReferenceBatchExtraction {
    pub provider: ProviderId,
    pub provider_version: Option<String>,
    pub workspace_fingerprint: String,
    pub document_symbols: DocumentSymbolBatchExtraction,
    pub references: Vec<ExtractedReference>,
    pub summary: ReferenceRouteSummary,
}

/// One call site of a callee inside a caller.
pub struct CallOccurrence {
    pub file_uri: String,
    pub file_relative_path: String,
    pub file_symbol_key: String,
    pub range: TextRange,
    pub enclosing_symbol_key: String,
    /// The call site as the provider reported it.
    pub from_range: LspRange,
    pub caller_name: String,
    pub callee_name: String,
    /// How the caller was matched to a symbol.
    pub caller_resolution_mode: String,
}

/// The view of a call occurrence.
pub struct CallOccurrenceView {
    pub file_uri: Seq<char>,
    pub file_relative_path: Seq<char>,
    pub file_symbol_key: Seq<char>,
    pub range: TextRange,
    pub enclosing_symbol_key: Seq<char>,
    pub from_range: LspRange,
    pub caller_name: Seq<char>,
    pub callee_name: Seq<char>,
    pub caller_resolution_mode: Seq<char>,
}

impl View for CallOccurrence {
    type V = CallOccurrenceView;

    open spec fn view(&self) -> CallOccurrenceView {
        CallOccurrenceView {
            file_uri: self.file_uri@,
            file_relative_path: self.file_relative_path@,
            file_symbol_key: self.file_symbol_key@,
            range: self.range,
            enclosing_symbol_key: self.enclosing_symbol_key@,
            from_range: self.from_range,
            caller_name: self.caller_name@,
            callee_name: self.callee_name@,
            caller_resolution_mode: self.caller_resolution_mode@,
        }
    }
}

impl CallOccurrence {
    /// A copy of the occurrence.
    pub fn copy(&self) -> (r: Self)
        ensures
            r@ == self@,
    {
        CallOccurrence {
            file_uri: self.file_uri.clone(),
            file_relative_path: self.file_relative_path.clone(),
            file_symbol_key: self.file_symbol_key.clone(),
            range: self.range,
            enclosing_symbol_key: self.enclosing_symbol_key.clone(),
            from_range: self.from_range,
            caller_name: self.caller_name.clone(),
            callee_name: self.callee_name.clone(),
            caller_resolution_mode: self.caller_resolution_mode.clone(),
        }
    }
}

/// A call edge from a caller to a callee, with its call sites.
pub struct ExtractedCall {
    pub provider: ProviderId,
    pub caller_symbol_key: String,
    pub callee_symbol_key: String,
    pub context: String,
    pub confidence: String,
    /// Confidence in thousandths.
    pub confidence_score_millis: u32,
    pub occurrences: Vec<CallOccurrence>,
}

/// The view of a call edge.
pub struct ExtractedCallView {
    pub provider: ProviderId,
    pub caller_symbol_key: Seq<char>,
    pub callee_symbol_key: Seq<char>,
    pub context: Seq<char>,
    pub confidence: Seq<char>,
    pub confidence_score_millis: u32,
    pub occurrences: Seq<CallOccurrenceView>,
}

impl View for ExtractedCall {
    type V = ExtractedCallView;

    open spec fn view(&self) -> ExtractedCallView {
        ExtractedCallView {
            provider: self.provider,
            caller_symbol_key: self.caller_symbol_key@,
            callee_symbol_key: self.callee_symbol_key@,
            context: self.context@,
            confidence: self.confidence@,
            confidence_score_millis: self.confidence_score_millis,
            occurrences: self.occurrences@.map_values(|o: CallOccurrence| o@),
        }
    }
}

/// The calls found for a batch of files.
pub struct CallBatchExtraction {
    pub provider: ProviderId,
    pub provider_version: Option<String>,
    pub workspace_fingerprint: String,
    pub document_symbols: DocumentSymbolBatchExtraction,
    pub calls: Vec<ExtractedCall>,
    pub summary: CallRouteSummary,
}

/// A symbol whose references are asked for: its file and selection range.
pub struct ResolvedReferenceTarget {
    pub file_path: String,
    pub selection_range: LspRange,
}

impl View for ResolvedReferenceTarget {
    type V = (Seq<char>, LspRange);

    open spec fn view(&self) -> (Seq<char>, LspRange) {
        (self.file_path@, self.selection_range)
    }
}

impl ResolvedReferenceTarget {
    /// A copy of the target.
    pub fn copy(&self) -> (r: Self)
        ensures
            r@ == self@,
    {
        ResolvedReferenceTarget { file_path: self.file_path.clone(), selection_range: self.selection_range }
    }
}

/// A callable symbol whose incoming calls are asked for.
pub struct ResolvedCallTarget {
    pub file_path: String,
    pub selection_range: LspRange,
}

impl View for ResolvedCallTarget {
    type V = (Seq<char>, LspRange);

    open spec fn view(&self) -> (Seq<char>, LspRange) {
        (self.file_path@, self.selection_range)
    }
}

impl ResolvedCallTarget {
    /// A copy of the target.
    pub fn copy(&self) -> (r: Self)
        ensures
            r@ == self@,
    {
        ResolvedCallTarget { file_path: self.file_path.clone(), selection_range: self.selection_range }
    }
}

/// A location that the language server reported.
pub struct ResolvedLocation {
    pub file_path: String,
    pub range: LspRange,
}

/// The references that the language server reported for one target.
pub struct ResolvedReferenceSet {
    pub target_file_path: String,
    pub target_selection_range: LspRange,
    pub references: Vec<ResolvedLocation>,
}

/// One caller that the language server reported for a callee.
pub struct ResolvedIncomingCall {
    pub caller_file_path: String,
    pub caller_name: String,
    pub caller_kind: String,
    pub caller_range: LspRange,
    pub caller_selection_range: LspRange,
    pub from_ranges: Vec<LspRange>,
}

/// The incoming calls that the language server reported for one callee.
pub struct ResolvedIncomingCallSet {
    pub target_file_path: String,
    pub target_selection_range: LspRange,
    pub incoming_calls: Vec<ResolvedIncomingCall>,
    pub skipped_non_callable_prepare_items: usize,
}

} // verus!
