use vstd::prelude::*;

use crate::batch::{document_symbol_batch_language, file_content_hash_for_scope_key, first_file_with_uri, is_shape_error, language_mix};
use crate::error::ExtractError;
use crate::model::{
    opt_str, CallBatchExtraction, CallOccurrence, ExtractedCall, ExtractedReference, ReferenceBatchExtraction,
    ReferenceOccurrence,
};
use crate::origin::{
    call_extraction_for_origin_file, call_occurrence_total, call_views, calls_in, reference_extraction_for_origin_file,
    reference_occurrence_total, reference_views, references_in, spec_call_summary_in, spec_reference_summary_in,
};
use crate::routes::{symbol_prerequisite_commands, GraphLanguage, RouteName};
use crate::summary::{merge_summary, spec_merge_summary, summary_sum_fits, ExtractionPersister, PersistenceSummary};
use crate::text::push_str;

verus! {

/// The summary after one more file route completed: its counts added, one
/// more route complete, and the stale edges it closed.
pub open spec fn summary_after_route(
    total: PersistenceSummary,
    file_summary: PersistenceSummary,
    stale_edges_closed: nat,
) -> PersistenceSummary {
    let merged = spec_merge_summary(total, file_summary);
    PersistenceSummary {
        routes_complete: (merged.routes_complete + 1) as usize,
        stale_edges_closed: (merged.stale_edges_closed + stale_edges_closed) as usize,
        ..merged
    }
}

/// Adds a completed file route to a run's summary: its counts, one more
/// complete route and the stale edges that closing the route removed.
pub fn record_completed_file_route(
    summary: &mut PersistenceSummary,
    file_summary: &PersistenceSummary,
    stale_edges_closed: usize,
)
    requires
        summary_sum_fits(*old(summary), *file_summary),
        old(summary).routes_complete + file_summary.routes_complete + 1 <= usize::MAX,
        old(summary).stale_edges_closed + file_summary.stale_edges_closed + stale_edges_closed <= usize::MAX,
    ensures
        *final(summary) == summary_after_route(*old(summary), *file_summary, stale_edges_closed as nat),
{
    merge_summary(summary, file_summary);
    summary.routes_complete = summary.routes_complete + 1;
    summary.stale_edges_closed = summary.stale_edges_closed + stale_edges_closed;
}

/// A file route's summary once the route completed: one route complete and
/// the stale edges it closed.
pub fn complete_file_route_summary(summary: PersistenceSummary, stale_edges_closed: usize) -> (done: PersistenceSummary)
    ensures
        done == (PersistenceSummary { routes_complete: 1, stale_edges_closed, ..summary }),
{
    PersistenceSummary { routes_complete: 1, stale_edges_closed, ..summary }
}

/// The references route of a language.
pub open spec fn references_route(language: GraphLanguage) -> RouteName {
    match language {
        GraphLanguage::Rust => RouteName::RustReferences,
        GraphLanguage::CSharp => RouteName::CSharpReferences,
        GraphLanguage::Soul => RouteName::SoulReferences,
    }
}

/// What the references route needs for one origin file of a batch: the
/// route of the batch's language, the file's content hash, and the
/// references restricted to that file.
pub struct OriginFileReferences {
    pub route: RouteName,
    pub content_hash: Option<String>,
    pub extraction: ReferenceBatchExtraction,
}

/// Prepares the references route for one origin file: the batch must have
/// one language and must hold the file.
pub fn prepare_reference_origin_file(extraction: &ReferenceBatchExtraction, origin_file_uri: &str) -> (result: Result<
    OriginFileReferences,
    ExtractError,
>)
    requires
        reference_occurrence_total(reference_views(extraction.references@)) <= usize::MAX,
    ensures
        ({
            let ds = extraction.document_symbols;
            let provider = extraction.provider.spec_str();
            let method = "textDocument/references"@;
            if ds.extractions@.len() == 0 {
                result matches Err(e) && is_shape_error(e, provider, method, "relation batch contained no document-symbol files"@)
            } else if language_mix(ds@.extractions, ds.language) is Some {
                result matches Err(e) && is_shape_error(
                    e,
                    provider,
                    method,
                    if language_mix(ds@.extractions, ds.language) == Some(true) {
                        "relation batch contained mixed document-symbol languages"@
                    } else {
                        "relation batch contained mixed symbol languages"@
                    },
                )
            } else {
                match first_file_with_uri(ds@.extractions, origin_file_uri@) {
                    None => (result matches Err(e) && is_shape_error(
                        e,
                        provider,
                        method,
                        "source file "@ + origin_file_uri@ + " is missing from the relation context"@,
                    )),
                    Some(i) => (result matches Ok(o) && o.route == references_route(ds.language) && opt_str(o.content_hash) == ds@.extractions[i].source_file.content_hash
                        && reference_views(o.extraction.references@) == references_in(
                        reference_views(extraction.references@),
                        seq![origin_file_uri@],
                    ) && o.extraction.summary == spec_reference_summary_in(*extraction, seq![origin_file_uri@])
                        && o.extraction.document_symbols@ == ds@),
                }
            }
        }),
{
    let provider = extraction.provider.as_str();
    let language = document_symbol_batch_language(provider, "textDocument/references", &extraction.document_symbols)?;
    let route = RouteName::references_for_language(language);
    let content_hash = file_content_hash_for_scope_key(
        provider,
        "textDocument/references",
        &extraction.document_symbols,
        origin_file_uri,
    )?;
    let filtered = reference_extraction_for_origin_file(extraction, origin_file_uri);
    Ok(OriginFileReferences { route, content_hash, extraction: filtered })
}

/// The calls route of a language.
pub open spec fn calls_route(language: GraphLanguage) -> RouteName {
    match language {
        GraphLanguage::Rust => RouteName::RustCalls,
        GraphLanguage::CSharp => RouteName::CSharpCalls,
        GraphLanguage::Soul => RouteName::SoulCalls,
    }
}

/// What the calls route needs for one origin file of a batch: the
/// route of the batch's language, the file's content hash, and the
/// references restricted to that file.
pub struct OriginFileCalls {
    pub route: RouteName,
    pub content_hash: Option<String>,
    pub extraction: CallBatchExtraction,
}

/// Prepares the calls route for one origin file: the batch must have
/// one language and must hold the file.
pub fn prepare_call_origin_file(extraction: &CallBatchExtraction, origin_file_uri: &str) -> (result: Result<
    OriginFileCalls,
    ExtractError,
>)
    requires
        call_occurrence_total(call_views(extraction.calls@)) <= usize::MAX,
    ensures
        ({
            let ds = extraction.document_symbols;
            let provider = extraction.provider.spec_str();
            let method = "callHierarchy/outgoingCalls"@;
            if ds.extractions@.len() == 0 {
                result matches Err(e) && is_shape_error(e, provider, method, "relation batch contained no document-symbol files"@)
            } else if language_mix(ds@.extractions, ds.language) is Some {
                result matches Err(e) && is_shape_error(
                    e,
                    provider,
                    method,
                    if language_mix(ds@.extractions, ds.language) == Some(true) {
                        "relation batch contained mixed document-symbol languages"@
                    } else {
                        "relation batch contained mixed symbol languages"@
                    },
                )
            } else {
                match first_file_with_uri(ds@.extractions, origin_file_uri@) {
                    None => (result matches Err(e) && is_shape_error(
                        e,
                        provider,
                        method,
                        "source file "@ + origin_file_uri@ + " is missing from the relation context"@,
                    )),
                    Some(i) => (result matches Ok(o) && o.route == calls_route(ds.language) && opt_str(o.content_hash) == ds@.extractions[i].source_file.content_hash
                        && call_views(o.extraction.calls@) == calls_in(
                        call_views(extraction.calls@),
                        seq![origin_file_uri@],
                    ) && o.extraction.summary == spec_call_summary_in(*extraction, seq![origin_file_uri@])
                        && o.extraction.document_symbols@ == ds@),
                }
            }
        }),
{
    let provider = extraction.provider.as_str();
    let language = document_symbol_batch_language(provider, "callHierarchy/outgoingCalls", &extraction.document_symbols)?;
    let route = RouteName::calls_for_language(language);
    let content_hash = file_content_hash_for_scope_key(
        provider,
        "callHierarchy/outgoingCalls",
        &extraction.document_symbols,
        origin_file_uri,
    )?;
    let filtered = call_extraction_for_origin_file(extraction, origin_file_uri);
    Ok(OriginFileCalls { route, content_hash, extraction: filtered })
}


/// What the store holds of the two ends of a relation: whether each end's
/// node exists, and whether each end's symbol key belongs to the file the
/// route is for.
#[derive(Debug, Clone, Copy, PartialEq, Eq, Structural)]
pub struct NodeCheck {
    pub source_exists: bool,
    pub source_in_file: bool,
    pub target_exists: bool,
    pub target_in_file: bool,
}

/// What becomes of a relation given what the store holds of its ends.
#[derive(Debug, Clone, Copy, PartialEq, Eq, Structural)]
pub enum NodeOutcome {
    /// Both nodes exist: the relation is written.
    Keep,
    /// The source node is missing outside the file: skipped.
    SkipSource,
    /// The target node is missing outside the file: skipped.
    SkipTarget,
    /// The source node of the file is missing: the route fails.
    MissingSource,
    /// The target node of the file is missing: the route fails.
    MissingTarget,
}

/// What becomes of a relation: a missing end of the route's own file is an
/// error, a missing end elsewhere skips the relation, the source checked
/// first.
pub open spec fn spec_node_outcome(c: NodeCheck) -> NodeOutcome {
    if !c.source_exists {
        if c.source_in_file {
            NodeOutcome::MissingSource
        } else {
            NodeOutcome::SkipSource
        }
    } else if c.target_exists {
        NodeOutcome::Keep
    } else if c.target_in_file {
        NodeOutcome::MissingTarget
    } else {
        NodeOutcome::SkipTarget
    }
}

/// What becomes of a relation.
pub fn node_outcome(c: NodeCheck) -> (o: NodeOutcome)
    ensures
        o == spec_node_outcome(c),
{
    if !c.source_exists {
        if c.source_in_file {
            NodeOutcome::MissingSource
        } else {
            NodeOutcome::SkipSource
        }
    } else if c.target_exists {
        NodeOutcome::Keep
    } else if c.target_in_file {
        NodeOutcome::MissingTarget
    } else {
        NodeOutcome::SkipTarget
    }
}

/// The index of the first relation whose missing end belongs to the file.
pub open spec fn first_missing_node(checks: Seq<NodeCheck>) -> Option<int>
    decreases checks.len(),
{
    if checks.len() == 0 {
        None
    } else {
        match first_missing_node(checks.drop_last()) {
            Some(i) => Some(i),
            None => match spec_node_outcome(checks.last()) {
                NodeOutcome::MissingSource | NodeOutcome::MissingTarget => Some(checks.len() - 1),
                _ => None,
            },
        }
    }
}

/// How many relations have the given outcome.
pub open spec fn outcome_count(checks: Seq<NodeCheck>, o: NodeOutcome) -> nat
    decreases checks.len(),
{
    if checks.len() == 0 {
        0
    } else {
        outcome_count(checks.drop_last(), o) + if spec_node_outcome(checks.last()) == o {
            1nat
        } else {
            0nat
        }
    }
}

/// The items whose relation is kept, in order.
pub open spec fn kept_items<V>(items: Seq<V>, checks: Seq<NodeCheck>) -> Seq<V>
    decreases items.len(),
{
    if items.len() == 0 || checks.len() != items.len() {
        Seq::empty()
    } else {
        kept_items(items.drop_last(), checks.drop_last()) + if spec_node_outcome(checks.last()) == NodeOutcome::Keep {
            seq![items.last()]
        } else {
            Seq::empty()
        }
    }
}

/// The error for a node of the route's file that the store lacks.
pub open spec fn is_missing_node_error(e: ExtractError, provider: Seq<char>, method: Seq<char>, key: Seq<char>, language: GraphLanguage) -> bool {
    is_shape_error(
        e,
        provider,
        method,
        "symbol node "@ + key + " is missing from the database; run "@ + match language {
            GraphLanguage::Rust => "rust-workspace --symbols, rust-crate --symbols, or rust-file --symbols"@,
            GraphLanguage::CSharp => "csharp-solution --symbols, csharp-project --symbols, or csharp-file --symbols"@,
            GraphLanguage::Soul => "soul-workspace --symbols or soul-file --symbols"@,
        } + " first"@,
    )
}

/// A missing node found in a prefix is the first of all.
proof fn lemma_first_missing_prefix(checks: Seq<NodeCheck>, n: int)
    requires
        0 <= n <= checks.len(),
        first_missing_node(checks.take(n)) is Some,
    ensures
        first_missing_node(checks) == first_missing_node(checks.take(n)),
    decreases checks.len(),
{
    if n == checks.len() {
        assert(checks.take(n) =~= checks);
    } else {
        assert(checks.drop_last().take(n) =~= checks.take(n));
        lemma_first_missing_prefix(checks.drop_last(), n);
    }
}

/// The missing-node error for `key`.
fn missing_node_error(provider: &str, method: &str, key: &str, language: GraphLanguage) -> (e: ExtractError)
    ensures
        is_missing_node_error(e, provider@, method@, key@, language),
{
    let mut message = String::new();
    push_str(&mut message, "symbol node ");
    push_str(&mut message, key);
    push_str(&mut message, " is missing from the database; run ");
    push_str(&mut message, symbol_prerequisite_commands(language));
    push_str(&mut message, " first");
    ExtractError::response_shape(provider, method, message.as_str())
}

impl ExtractionPersister {
    /// The references of a file batch whose both ends have nodes in the
    /// store, given what the store holds of each reference's ends
    /// (`checks`, one per reference): a missing node of the route's own
    /// file fails the route; references with a missing node elsewhere are
    /// skipped and counted, source and target apart.
    pub fn reference_file_extraction_with_existing_nodes(
        &self,
        extraction: &ReferenceBatchExtraction,
        language: GraphLanguage,
        checks: &Vec<NodeCheck>,
    ) -> (result: Result<(ReferenceBatchExtraction, usize, usize), ExtractError>)
        requires
            checks@.len() == extraction.references@.len(),
        ensures
            match first_missing_node(checks@) {
                Some(i) => result matches Err(e) && is_missing_node_error(
                    e,
                    extraction.provider.spec_str(),
                    "textDocument/references"@,
                    if spec_node_outcome(checks@[i]) == NodeOutcome::MissingSource {
                        extraction.references@[i].source_symbol_key@
                    } else {
                        extraction.references@[i].target_symbol_key@
                    },
                    language,
                ),
                None => result matches Ok((r, skipped_source, skipped_target)) && r.provider == extraction.provider
                    && opt_str(r.provider_version) == opt_str(extraction.provider_version)
                    && r.workspace_fingerprint@ == extraction.workspace_fingerprint@
                    && r.document_symbols@ == extraction.document_symbols@ && r.summary == extraction.summary
                    && reference_views(r.references@) == kept_items(reference_views(extraction.references@), checks@)
                    && skipped_source == outcome_count(checks@, NodeOutcome::SkipSource)
                    && skipped_target == outcome_count(checks@, NodeOutcome::SkipTarget),
            },
    {
        let ghost rv = reference_views(extraction.references@);
        let ghost cs = checks@;
        let mut kept: Vec<ExtractedReference> = Vec::new();
        let mut skipped_source: usize = 0;
        let mut skipped_target: usize = 0;
        let mut i: usize = 0;
        while i < extraction.references.len()
            invariant
                rv == reference_views(extraction.references@),
                cs == checks@,
                cs.len() == rv.len(),
                i <= rv.len(),
                first_missing_node(cs.take(i as int)) is None,
                reference_views(kept@) == kept_items(rv.take(i as int), cs.take(i as int)),
                skipped_source == outcome_count(cs.take(i as int), NodeOutcome::SkipSource),
                skipped_target == outcome_count(cs.take(i as int), NodeOutcome::SkipTarget),
                skipped_source <= i,
                skipped_target <= i,
            decreases rv.len() - i,
        {
            let reference = &extraction.references[i];
            proof {
                assert(cs.take(i + 1).drop_last() =~= cs.take(i as int));
                assert(cs.take(i + 1).last() == checks@[i as int]);
                assert(rv.take(i + 1).drop_last() =~= rv.take(i as int));
                assert(rv.take(i + 1).last() == reference@);
            }
            match node_outcome(checks[i]) {
                NodeOutcome::MissingSource => {
                    proof {
                        lemma_first_missing_prefix(cs, i + 1);
                    }
                    return Err(
                        missing_node_error(
                            extraction.provider.as_str(),
                            "textDocument/references",
                            reference.source_symbol_key.as_str(),
                            language,
                        ),
                    );
                },
                NodeOutcome::MissingTarget => {
                    proof {
                        lemma_first_missing_prefix(cs, i + 1);
                    }
                    return Err(
                        missing_node_error(
                            extraction.provider.as_str(),
                            "textDocument/references",
                            reference.target_symbol_key.as_str(),
                            language,
                        ),
                    );
                },
                NodeOutcome::SkipSource => {
                    skipped_source = skipped_source + 1;
                },
                NodeOutcome::SkipTarget => {
                    skipped_target = skipped_target + 1;
                },
                NodeOutcome::Keep => {
                    let ghost before = reference_views(kept@);
                    kept.push(copy_reference(reference));
                    assert(reference_views(kept@) =~= before.push(reference@));
                },
            }
            proof {
                assert(reference_views(kept@) =~= kept_items(rv.take(i + 1), cs.take(i + 1)));
            }
            i = i + 1;
        }
        proof {
            assert(rv.take(i as int) =~= rv);
            assert(cs.take(i as int) =~= cs);
        }
        Ok(
            (
                ReferenceBatchExtraction {
                    provider: extraction.provider,
                    provider_version: crate::model::clone_opt_str(&extraction.provider_version),
                    workspace_fingerprint: extraction.workspace_fingerprint.clone(),
                    document_symbols: extraction.document_symbols.copy(),
                    references: kept,
                    summary: extraction.summary,
                },
                skipped_source,
                skipped_target,
            ),
        )
    }
}

impl ExtractionPersister {
    /// The calls of a file batch whose caller and callee have nodes in the
    /// store, given what the store holds of each call's ends (`checks`,
    /// one per call): a missing node of the route's own
    /// file fails the route; calls with a missing node elsewhere are skipped
    /// and counted, caller and callee apart.
    pub fn call_file_extraction_with_existing_nodes(
        &self,
        extraction: &CallBatchExtraction,
        language: GraphLanguage,
        checks: &Vec<NodeCheck>,
    ) -> (result: Result<(CallBatchExtraction, usize, usize), ExtractError>)
        requires
            checks@.len() == extraction.calls@.len(),
        ensures
            match first_missing_node(checks@) {
                Some(i) => result matches Err(e) && is_missing_node_error(
                    e,
                    extraction.provider.spec_str(),
                    "callHierarchy/outgoingCalls"@,
                    if spec_node_outcome(checks@[i]) == NodeOutcome::MissingSource {
                        extraction.calls@[i].caller_symbol_key@
                    } else {
                        extraction.calls@[i].callee_symbol_key@
                    },
                    language,
                ),
                None => result matches Ok((r, skipped_source, skipped_target)) && r.provider == extraction.provider
                    && opt_str(r.provider_version) == opt_str(extraction.provider_version)
                    && r.workspace_fingerprint@ == extraction.workspace_fingerprint@
                    && r.document_symbols@ == extraction.document_symbols@ && r.summary == extraction.summary
                    && call_views(r.calls@) == kept_items(call_views(extraction.calls@), checks@)
                    && skipped_source == outcome_count(checks@, NodeOutcome::SkipSource)
                    && skipped_target == outcome_count(checks@, NodeOutcome::SkipTarget),
            },
    {
        let ghost rv = call_views(extraction.calls@);
        let ghost cs = checks@;
        let mut kept: Vec<ExtractedCall> = Vec::new();
        let mut skipped_source: usize = 0;
        let mut skipped_target: usize = 0;
        let mut i: usize = 0;
        while i < extraction.calls.len()
            invariant
                rv == call_views(extraction.calls@),
                cs == checks@,
                cs.len() == rv.len(),
                i <= rv.len(),
                first_missing_node(cs.take(i as int)) is None,
                call_views(kept@) == kept_items(rv.take(i as int), cs.take(i as int)),
                skipped_source == outcome_count(cs.take(i as int), NodeOutcome::SkipSource),
                skipped_target == outcome_count(cs.take(i as int), NodeOutcome::SkipTarget),
                skipped_source <= i,
                skipped_target <= i,
            decreases rv.len() - i,
        {
            let call = &extraction.calls[i];
            proof {
                assert(cs.take(i + 1).drop_last() =~= cs.take(i as int));
                assert(cs.take(i + 1).last() == checks@[i as int]);
                assert(rv.take(i + 1).drop_last() =~= rv.take(i as int));
                assert(rv.take(i + 1).last() == call@);
            }
            match node_outcome(checks[i]) {
                NodeOutcome::MissingSource => {
                    proof {
                        lemma_first_missing_prefix(cs, i + 1);
                    }
                    return Err(
                        missing_node_error(
                            extraction.provider.as_str(),
                            "callHierarchy/outgoingCalls",
                            call.caller_symbol_key.as_str(),
                            language,
                        ),
                    );
                },
                NodeOutcome::MissingTarget => {
                    proof {
                        lemma_first_missing_prefix(cs, i + 1);
                    }
                    return Err(
                        missing_node_error(
                            extraction.provider.as_str(),
                            "callHierarchy/outgoingCalls",
                            call.callee_symbol_key.as_str(),
                            language,
                        ),
                    );
                },
                NodeOutcome::SkipSource => {
                    skipped_source = skipped_source + 1;
                },
                NodeOutcome::SkipTarget => {
                    skipped_target = skipped_target + 1;
                },
                NodeOutcome::Keep => {
                    let ghost before = call_views(kept@);
                    kept.push(copy_call(call));
                    assert(call_views(kept@) =~= before.push(call@));
                },
            }
            proof {
                assert(call_views(kept@) =~= kept_items(rv.take(i + 1), cs.take(i + 1)));
            }
            i = i + 1;
        }
        proof {
            assert(rv.take(i as int) =~= rv);
            assert(cs.take(i as int) =~= cs);
        }
        Ok(
            (
                CallBatchExtraction {
                    provider: extraction.provider,
                    provider_version: crate::model::clone_opt_str(&extraction.provider_version),
                    workspace_fingerprint: extraction.workspace_fingerprint.clone(),
                    document_symbols: extraction.document_symbols.copy(),
                    calls: kept,
                    summary: extraction.summary,
                },
                skipped_source,
                skipped_target,
            ),
        )
    }
}

/// A copy of a call edge.
fn copy_call(r: &ExtractedCall) -> (c: ExtractedCall)
    ensures
        c@ == r@,
{
    let mut occurrences: Vec<CallOccurrence> = Vec::new();
    let mut i: usize = 0;
    while i < r.occurrences.len()
        invariant
            i <= r.occurrences@.len(),
            occurrences@.len() == i,
            forall|j: int| 0 <= j < i ==> (#[trigger] occurrences@[j])@ == r.occurrences@[j]@,
        decreases r.occurrences@.len() - i,
    {
        occurrences.push(r.occurrences[i].copy());
        i = i + 1;
    }
    let c = ExtractedCall {
        provider: r.provider,
        caller_symbol_key: r.caller_symbol_key.clone(),
        callee_symbol_key: r.callee_symbol_key.clone(),
        context: r.context.clone(),
        confidence: r.confidence.clone(),
        confidence_score_millis: r.confidence_score_millis,
        occurrences,
    };
    assert(c@.occurrences =~= r@.occurrences);
    c
}

/// A copy of a reference edge.
fn copy_reference(r: &ExtractedReference) -> (c: ExtractedReference)
    ensures
        c@ == r@,
{
    let mut occurrences: Vec<ReferenceOccurrence> = Vec::new();
    let mut i: usize = 0;
    while i < r.occurrences.len()
        invariant
            i <= r.occurrences@.len(),
            occurrences@.len() == i,
            forall|j: int| 0 <= j < i ==> (#[trigger] occurrences@[j])@ == r.occurrences@[j]@,
        decreases r.occurrences@.len() - i,
    {
        occurrences.push(r.occurrences[i].copy());
        i = i + 1;
    }
    let c = ExtractedReference {
        provider: r.provider,
        source_symbol_key: r.source_symbol_key.clone(),
        target_symbol_key: r.target_symbol_key.clone(),
        source_resolution: r.source_resolution.clone(),
        confidence: r.confidence.clone(),
        confidence_score_millis: r.confidence_score_millis,
        occurrences,
    };
    assert(c@.occurrences =~= r@.occurrences);
    c
}


/// What becomes of a relation, by what the store holds of its ends: both
/// nodes present keeps it; a missing source (checked first) or target of
/// the route's own file fails the route; a missing one elsewhere skips it.
pub proof fn lemma_node_outcome_rules(c: NodeCheck)
    ensures
        !c.source_exists && c.source_in_file ==> spec_node_outcome(c) == NodeOutcome::MissingSource,
        !c.source_exists && !c.source_in_file ==> spec_node_outcome(c) == NodeOutcome::SkipSource,
        c.source_exists && c.target_exists ==> spec_node_outcome(c) == NodeOutcome::Keep,
        c.source_exists && !c.target_exists && c.target_in_file ==> spec_node_outcome(c) == NodeOutcome::MissingTarget,
        c.source_exists && !c.target_exists && !c.target_in_file ==> spec_node_outcome(c) == NodeOutcome::SkipTarget,
{
}

/// A relation whose node of the route's own file is missing fails the
/// route: the first such relation, at or before it, decides the error, and
/// it is never counted as a skip.
pub proof fn lemma_missing_node_of_file_fails(checks: Seq<NodeCheck>, i: int)
    requires
        0 <= i < checks.len(),
        (!checks[i].source_exists && checks[i].source_in_file) || (checks[i].source_exists
            && !checks[i].target_exists && checks[i].target_in_file),
    ensures
        first_missing_node(checks) matches Some(j) && j <= i && (spec_node_outcome(checks[j])
            == NodeOutcome::MissingSource || spec_node_outcome(checks[j]) == NodeOutcome::MissingTarget),
        spec_node_outcome(checks[i]) != NodeOutcome::SkipSource && spec_node_outcome(checks[i]) != NodeOutcome::SkipTarget,
    decreases checks.len(),
{
    lemma_node_outcome_rules(checks[i]);
    let p = checks.drop_last();
    if i < checks.len() - 1 {
        assert(p[i] == checks[i]);
        lemma_missing_node_of_file_fails(p, i);
        lemma_first_missing_in_range(p);
        let j = first_missing_node(p)->0;
        assert(p[j] == checks[j]);
    } else {
        match first_missing_node(p) {
            Some(j) => {
                lemma_first_missing_in_range(p);
                assert(p[j] == checks[j]);
            },
            None => {},
        }
    }
}

/// The first missing node's index is in range and its outcome is missing.
proof fn lemma_first_missing_in_range(checks: Seq<NodeCheck>)
    ensures
        first_missing_node(checks) matches Some(j) ==> 0 <= j < checks.len() && (spec_node_outcome(checks[j])
            == NodeOutcome::MissingSource || spec_node_outcome(checks[j]) == NodeOutcome::MissingTarget),
    decreases checks.len(),
{
    if checks.len() > 0 {
        lemma_first_missing_in_range(checks.drop_last());
        match first_missing_node(checks.drop_last()) {
            Some(j) => {
                assert(checks.drop_last()[j] == checks[j]);
            },
            None => {},
        }
    }
}

} // verus!
