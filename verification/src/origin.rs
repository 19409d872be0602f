use vstd::prelude::*;

use crate::model::{
    clone_opt_str, CallBatchExtraction, CallOccurrence, CallOccurrenceView, ExtractedCall, ExtractedCallView,
    ExtractedReference, ExtractedReferenceView, ReferenceBatchExtraction, ReferenceOccurrence,
    ReferenceOccurrenceView,
};
use crate::summary::{CallRouteSummary, ReferenceRouteSummary};
use crate::symbols::string_views;
use crate::text::str_eq;

verus! {

/// The reference occurrences that lie in one of the files `uris`, in order.
pub open spec fn reference_occurrences_in(occs: Seq<ReferenceOccurrenceView>, uris: Seq<Seq<char>>) -> Seq<ReferenceOccurrenceView>
    decreases occs.len(),
{
    if occs.len() == 0 {
        Seq::empty()
    } else {
        reference_occurrences_in(occs.drop_last(), uris) + if uris.contains(occs.last().file_uri) {
            seq![occs.last()]
        } else {
            Seq::empty()
        }
    }
}

/// The call occurrences that lie in one of the files `uris`, in order.
pub open spec fn call_occurrences_in(occs: Seq<CallOccurrenceView>, uris: Seq<Seq<char>>) -> Seq<CallOccurrenceView>
    decreases occs.len(),
{
    if occs.len() == 0 {
        Seq::empty()
    } else {
        call_occurrences_in(occs.drop_last(), uris) + if uris.contains(occs.last().file_uri) {
            seq![occs.last()]
        } else {
            Seq::empty()
        }
    }
}

/// The reference edges restricted to the files `uris`: each edge keeps its
/// occurrences in those files, and edges left without occurrences go.
pub open spec fn references_in(refs: Seq<ExtractedReferenceView>, uris: Seq<Seq<char>>) -> Seq<ExtractedReferenceView>
    decreases refs.len(),
{
    if refs.len() == 0 {
        Seq::empty()
    } else {
        let r = refs.last();
        let occs = reference_occurrences_in(r.occurrences, uris);
        references_in(refs.drop_last(), uris) + if occs.len() > 0 {
            seq![ExtractedReferenceView { occurrences: occs, ..r }]
        } else {
            Seq::empty()
        }
    }
}

/// The call edges restricted to the files `uris`.
pub open spec fn calls_in(calls: Seq<ExtractedCallView>, uris: Seq<Seq<char>>) -> Seq<ExtractedCallView>
    decreases calls.len(),
{
    if calls.len() == 0 {
        Seq::empty()
    } else {
        let c = calls.last();
        let occs = call_occurrences_in(c.occurrences, uris);
        calls_in(calls.drop_last(), uris) + if occs.len() > 0 {
            seq![ExtractedCallView { occurrences: occs, ..c }]
        } else {
            Seq::empty()
        }
    }
}

/// How many occurrences the reference edges hold.
pub open spec fn reference_occurrence_total(refs: Seq<ExtractedReferenceView>) -> nat
    decreases refs.len(),
{
    if refs.len() == 0 {
        0
    } else {
        reference_occurrence_total(refs.drop_last()) + refs.last().occurrences.len()
    }
}

/// How many occurrences the call edges hold.
pub open spec fn call_occurrence_total(calls: Seq<ExtractedCallView>) -> nat
    decreases calls.len(),
{
    if calls.len() == 0 {
        0
    } else {
        call_occurrence_total(calls.drop_last()) + calls.last().occurrences.len()
    }
}

/// How many reference edges fall back to their file as the source.
pub open spec fn file_fallback_total(refs: Seq<ExtractedReferenceView>) -> nat
    decreases refs.len(),
{
    if refs.len() == 0 {
        0
    } else {
        file_fallback_total(refs.drop_last()) + if refs.last().source_resolution == "file_fallback"@ {
            1nat
        } else {
            0nat
        }
    }
}

/// The distinct callers of a list of call edges.
pub open spec fn callers(calls: Seq<ExtractedCallView>) -> Set<Seq<char>> {
    calls.map_values(|c: ExtractedCallView| c.caller_symbol_key).to_set()
}

/// The views of reference edges.
pub open spec fn reference_views(refs: Seq<ExtractedReference>) -> Seq<ExtractedReferenceView> {
    refs.map_values(|r: ExtractedReference| r@)
}

/// The views of call edges.
pub open spec fn call_views(calls: Seq<ExtractedCall>) -> Seq<ExtractedCallView> {
    calls.map_values(|c: ExtractedCall| c@)
}

/// The reference route summary of the edges restricted to `uris`.
pub open spec fn spec_reference_summary_in(e: ReferenceBatchExtraction, uris: Seq<Seq<char>>) -> ReferenceRouteSummary {
    let refs = references_in(reference_views(e.references@), uris);
    ReferenceRouteSummary {
        targets_queried: e.summary.targets_queried,
        reference_edges: refs.len() as usize,
        reference_occurrences: reference_occurrence_total(refs) as usize,
        file_fallbacks: file_fallback_total(refs) as usize,
        skipped_external: 0,
    }
}

/// The call route summary of the edges restricted to `uris`.
pub open spec fn spec_call_summary_in(e: CallBatchExtraction, uris: Seq<Seq<char>>) -> CallRouteSummary {
    let calls = calls_in(call_views(e.calls@), uris);
    CallRouteSummary {
        callable_nodes: callers(calls).len() as usize,
        call_edges: calls.len() as usize,
        call_occurrences: call_occurrence_total(calls) as usize,
        skipped_external_targets: 0,
        skipped_unresolved_targets: 0,
        skipped_non_callable_prepare_items: 0,
    }
}

/// Restricting occurrences keeps no more than there were.
proof fn lemma_reference_occurrences_in_len(occs: Seq<ReferenceOccurrenceView>, uris: Seq<Seq<char>>)
    ensures
        reference_occurrences_in(occs, uris).len() <= occs.len(),
    decreases occs.len(),
{
    if occs.len() > 0 {
        lemma_reference_occurrences_in_len(occs.drop_last(), uris);
    }
}

/// Restricting occurrences keeps no more than there were.
proof fn lemma_call_occurrences_in_len(occs: Seq<CallOccurrenceView>, uris: Seq<Seq<char>>)
    ensures
        call_occurrences_in(occs, uris).len() <= occs.len(),
    decreases occs.len(),
{
    if occs.len() > 0 {
        lemma_call_occurrences_in_len(occs.drop_last(), uris);
    }
}

/// Restricting edges keeps no more edges, occurrences or fallbacks.
proof fn lemma_references_in_bounds(refs: Seq<ExtractedReferenceView>, uris: Seq<Seq<char>>)
    ensures
        references_in(refs, uris).len() <= refs.len(),
        reference_occurrence_total(references_in(refs, uris)) <= reference_occurrence_total(refs),
        file_fallback_total(references_in(refs, uris)) <= references_in(refs, uris).len(),
    decreases refs.len(),
{
    if refs.len() > 0 {
        lemma_references_in_bounds(refs.drop_last(), uris);
        lemma_reference_occurrences_in_len(refs.last().occurrences, uris);
        let pre = references_in(refs.drop_last(), uris);
        let all = references_in(refs, uris);
        if all.len() > pre.len() {
            assert(all.drop_last() =~= pre);
        } else {
            assert(all =~= pre);
        }
    }
}

/// Restricting edges keeps no more edges or occurrences.
proof fn lemma_calls_in_bounds(calls: Seq<ExtractedCallView>, uris: Seq<Seq<char>>)
    ensures
        calls_in(calls, uris).len() <= calls.len(),
        call_occurrence_total(calls_in(calls, uris)) <= call_occurrence_total(calls),
    decreases calls.len(),
{
    if calls.len() > 0 {
        lemma_calls_in_bounds(calls.drop_last(), uris);
        lemma_call_occurrences_in_len(calls.last().occurrences, uris);
        let pre = calls_in(calls.drop_last(), uris);
        let all = calls_in(calls, uris);
        if all.len() > pre.len() {
            assert(all.drop_last() =~= pre);
        } else {
            assert(all =~= pre);
        }
    }
}

/// Whether `uri` is one of `uris`.
fn contains_uri(uris: &Vec<String>, uri: &str) -> (r: bool)
    ensures
        r == string_views(uris@).contains(uri@),
{
    let mut i: usize = 0;
    while i < uris.len()
        invariant
            i <= uris@.len(),
            forall|j: int| 0 <= j < i ==> uris@[j]@ != uri@,
        decreases uris@.len() - i,
    {
        if str_eq(uris[i].as_str(), uri) {
            assert(string_views(uris@)[i as int] == uri@);
            return true;
        }
        i = i + 1;
    }
    proof {
        if string_views(uris@).contains(uri@) {
            let j = choose|j: int| 0 <= j < string_views(uris@).len() && string_views(uris@)[j] == uri@;
            assert(uris@[j]@ == uri@);
        }
    }
    false
}

/// The occurrences of a reference edge in the files `uris`.
fn reference_occurrences_for(occs: &Vec<ReferenceOccurrence>, uris: &Vec<String>) -> (r: Vec<ReferenceOccurrence>)
    ensures
        r@.map_values(|o: ReferenceOccurrence| o@) == reference_occurrences_in(
            occs@.map_values(|o: ReferenceOccurrence| o@),
            string_views(uris@),
        ),
{
    let ghost ov = occs@.map_values(|o: ReferenceOccurrence| o@);
    let mut r: Vec<ReferenceOccurrence> = Vec::new();
    let mut i: usize = 0;
    while i < occs.len()
        invariant
            ov == occs@.map_values(|o: ReferenceOccurrence| o@),
            i <= occs@.len(),
            r@.map_values(|o: ReferenceOccurrence| o@) == reference_occurrences_in(ov.take(i as int), string_views(uris@)),
        decreases occs@.len() - i,
    {
        let ghost before = r@.map_values(|o: ReferenceOccurrence| o@);
        assert(ov.take(i + 1).drop_last() =~= ov.take(i as int));
        assert(ov.take(i + 1).last() == occs@[i as int]@);
        if contains_uri(uris, occs[i].file_uri.as_str()) {
            r.push(occs[i].copy());
            assert(r@.map_values(|o: ReferenceOccurrence| o@) =~= before.push(occs@[i as int]@));
        }
        assert(r@.map_values(|o: ReferenceOccurrence| o@) =~= reference_occurrences_in(ov.take(i + 1), string_views(uris@)));
        i = i + 1;
    }
    assert(ov.take(i as int) =~= ov);
    r
}

/// The occurrences of a call edge in the files `uris`.
fn call_occurrences_for(occs: &Vec<CallOccurrence>, uris: &Vec<String>) -> (r: Vec<CallOccurrence>)
    ensures
        r@.map_values(|o: CallOccurrence| o@) == call_occurrences_in(
            occs@.map_values(|o: CallOccurrence| o@),
            string_views(uris@),
        ),
{
    let ghost ov = occs@.map_values(|o: CallOccurrence| o@);
    let mut r: Vec<CallOccurrence> = Vec::new();
    let mut i: usize = 0;
    while i < occs.len()
        invariant
            ov == occs@.map_values(|o: CallOccurrence| o@),
            i <= occs@.len(),
            r@.map_values(|o: CallOccurrence| o@) == call_occurrences_in(ov.take(i as int), string_views(uris@)),
        decreases occs@.len() - i,
    {
        let ghost before = r@.map_values(|o: CallOccurrence| o@);
        assert(ov.take(i + 1).drop_last() =~= ov.take(i as int));
        assert(ov.take(i + 1).last() == occs@[i as int]@);
        if contains_uri(uris, occs[i].file_uri.as_str()) {
            r.push(occs[i].copy());
            assert(r@.map_values(|o: CallOccurrence| o@) =~= before.push(occs@[i as int]@));
        }
        assert(r@.map_values(|o: CallOccurrence| o@) =~= call_occurrences_in(ov.take(i + 1), string_views(uris@)));
        i = i + 1;
    }
    assert(ov.take(i as int) =~= ov);
    r
}

/// The reference edges restricted to the files `uris`, with their totals.
fn references_for(refs: &Vec<ExtractedReference>, uris: &Vec<String>) -> (r: (Vec<ExtractedReference>, usize, usize))
    requires
        reference_occurrence_total(reference_views(refs@)) <= usize::MAX,
    ensures
        reference_views(r.0@) == references_in(reference_views(refs@), string_views(uris@)),
        r.1 == reference_occurrence_total(references_in(reference_views(refs@), string_views(uris@))),
        r.2 == file_fallback_total(references_in(reference_views(refs@), string_views(uris@))),
{
    let ghost rv = reference_views(refs@);
    let ghost us = string_views(uris@);
    let mut out: Vec<ExtractedReference> = Vec::new();
    let mut occurrences: usize = 0;
    let mut fallbacks: usize = 0;
    let mut i: usize = 0;
    proof {
        lemma_references_in_bounds(rv, us);
    }
    while i < refs.len()
        invariant
            rv == reference_views(refs@),
            us == string_views(uris@),
            i <= refs@.len(),
            reference_views(out@) == references_in(rv.take(i as int), us),
            occurrences == reference_occurrence_total(references_in(rv.take(i as int), us)),
            fallbacks == file_fallback_total(references_in(rv.take(i as int), us)),
            reference_occurrence_total(rv) <= usize::MAX,
        decreases refs@.len() - i,
    {
        let ghost before = reference_views(out@);
        let reference = &refs[i];
        proof {
            assert(rv.take(i + 1).drop_last() =~= rv.take(i as int));
            assert(rv.take(i + 1).last() == reference@);
            assert(rv.take(i + 1) =~= rv.take(i + 1));
            lemma_references_in_bounds(rv.take(i + 1), us);
            lemma_total_prefix(rv, i + 1);
        }
        let occs = reference_occurrences_for(&reference.occurrences, uris);
        if occs.len() > 0 {
            let n = occs.len();
            let is_fallback = str_eq(reference.source_resolution.as_str(), "file_fallback");
            let kept = ExtractedReference {
                provider: reference.provider,
                source_symbol_key: reference.source_symbol_key.clone(),
                target_symbol_key: reference.target_symbol_key.clone(),
                source_resolution: reference.source_resolution.clone(),
                confidence: reference.confidence.clone(),
                confidence_score_millis: reference.confidence_score_millis,
                occurrences: occs,
            };
            out.push(kept);
            proof {
                assert(reference_views(out@) =~= before.push(kept@));
                let now = references_in(rv.take(i + 1), us);
                assert(now.drop_last() =~= references_in(rv.take(i as int), us));
            }
            occurrences = occurrences + n;
            if is_fallback {
                fallbacks = fallbacks + 1;
            }
        } else {
            proof {
                assert(references_in(rv.take(i + 1), us) =~= references_in(rv.take(i as int), us));
            }
        }
        i = i + 1;
    }
    assert(rv.take(i as int) =~= rv);
    (out, occurrences, fallbacks)
}

/// The total of a prefix of the edges is no more than of all of them.
proof fn lemma_total_prefix(refs: Seq<ExtractedReferenceView>, i: int)
    requires
        0 <= i <= refs.len(),
    ensures
        reference_occurrence_total(refs.take(i)) <= reference_occurrence_total(refs),
    decreases refs.len(),
{
    if i < refs.len() {
        lemma_total_prefix(refs.drop_last(), i);
        assert(refs.drop_last().take(i) =~= refs.take(i));
    } else {
        assert(refs.take(i) =~= refs);
    }
}

/// The total of a prefix of the edges is no more than of all of them.
proof fn lemma_call_total_prefix(calls: Seq<ExtractedCallView>, i: int)
    requires
        0 <= i <= calls.len(),
    ensures
        call_occurrence_total(calls.take(i)) <= call_occurrence_total(calls),
    decreases calls.len(),
{
    if i < calls.len() {
        lemma_call_total_prefix(calls.drop_last(), i);
        assert(calls.drop_last().take(i) =~= calls.take(i));
    } else {
        assert(calls.take(i) =~= calls);
    }
}

/// The call edges restricted to the files `uris`, with their occurrence
/// total.
fn calls_for(calls: &Vec<ExtractedCall>, uris: &Vec<String>) -> (r: (Vec<ExtractedCall>, usize))
    requires
        call_occurrence_total(call_views(calls@)) <= usize::MAX,
    ensures
        call_views(r.0@) == calls_in(call_views(calls@), string_views(uris@)),
        r.1 == call_occurrence_total(calls_in(call_views(calls@), string_views(uris@))),
{
    let ghost cv = call_views(calls@);
    let ghost us = string_views(uris@);
    let mut out: Vec<ExtractedCall> = Vec::new();
    let mut occurrences: usize = 0;
    let mut i: usize = 0;
    while i < calls.len()
        invariant
            cv == call_views(calls@),
            us == string_views(uris@),
            i <= calls@.len(),
            call_views(out@) == calls_in(cv.take(i as int), us),
            occurrences == call_occurrence_total(calls_in(cv.take(i as int), us)),
            call_occurrence_total(cv) <= usize::MAX,
        decreases calls@.len() - i,
    {
        let ghost before = call_views(out@);
        let call = &calls[i];
        proof {
            assert(cv.take(i + 1).drop_last() =~= cv.take(i as int));
            assert(cv.take(i + 1).last() == call@);
            lemma_calls_in_bounds(cv.take(i + 1), us);
            lemma_call_total_prefix(cv, i + 1);
        }
        let occs = call_occurrences_for(&call.occurrences, uris);
        if occs.len() > 0 {
            let n = occs.len();
            let kept = ExtractedCall {
                provider: call.provider,
                caller_symbol_key: call.caller_symbol_key.clone(),
                callee_symbol_key: call.callee_symbol_key.clone(),
                context: call.context.clone(),
                confidence: call.confidence.clone(),
                confidence_score_millis: call.confidence_score_millis,
                occurrences: occs,
            };
            out.push(kept);
            proof {
                assert(call_views(out@) =~= before.push(kept@));
                let now = calls_in(cv.take(i + 1), us);
                assert(now.drop_last() =~= calls_in(cv.take(i as int), us));
            }
            occurrences = occurrences + n;
        } else {
            proof {
                assert(calls_in(cv.take(i + 1), us) =~= calls_in(cv.take(i as int), us));
            }
        }
        i = i + 1;
    }
    assert(cv.take(i as int) =~= cv);
    (out, occurrences)
}

/// How many distinct callers the call edges have.
fn distinct_caller_count(calls: &Vec<ExtractedCall>) -> (n: usize)
    ensures
        n == callers(call_views(calls@)).len(),
{
    let ghost keys_of = call_views(calls@).map_values(|c: ExtractedCallView| c.caller_symbol_key);
    let mut keys: Vec<String> = Vec::new();
    let mut i: usize = 0;
    while i < calls.len()
        invariant
            keys_of == call_views(calls@).map_values(|c: ExtractedCallView| c.caller_symbol_key),
            i <= calls@.len(),
            keys@.len() <= i,
            string_views(keys@).no_duplicates(),
            string_views(keys@).to_set() == keys_of.take(i as int).to_set(),
        decreases calls@.len() - i,
    {
        let key = &calls[i].caller_symbol_key;
        let ghost before = string_views(keys@);
        assert(keys_of.take(i + 1) =~= keys_of.take(i as int).push(key@));
        proof {
            keys_of.take(i as int).lemma_push_to_set_commute(key@);
        }
        if !contains_uri(&keys, key.as_str()) {
            keys.push(key.clone());
            proof {
                assert(string_views(keys@) =~= before.push(key@));
                before.lemma_push_to_set_commute(key@);
                assert forall|a: int, b: int|
                    0 <= a < string_views(keys@).len() && 0 <= b < string_views(keys@).len() && a != b implies string_views(
                    keys@,
                )[a] != string_views(keys@)[b] by {
                    if a < before.len() && b < before.len() {
                    } else if a == before.len() {
                        assert(before.contains(before[b]));
                    } else {
                        assert(before.contains(before[a]));
                    }
                }
            }
        } else {
            proof {
                assert(before.to_set().contains(key@));
                assert(before.to_set().insert(key@) =~= before.to_set());
            }
        }
        i = i + 1;
    }
    proof {
        assert(keys_of.take(i as int) =~= keys_of);
        string_views(keys@).unique_seq_to_set();
    }
    keys.len()
}

/// The references of an extraction restricted to one origin file, with
/// its summary recomputed for that file.
pub fn reference_extraction_for_origin_file(extraction: &ReferenceBatchExtraction, origin_file_uri: &str) -> (r:
    ReferenceBatchExtraction)
    requires
        reference_occurrence_total(reference_views(extraction.references@)) <= usize::MAX,
    ensures
        r.provider == extraction.provider,
        crate::model::opt_str(r.provider_version) == crate::model::opt_str(extraction.provider_version),
        r.workspace_fingerprint@ == extraction.workspace_fingerprint@,
        r.document_symbols@ == extraction.document_symbols@,
        reference_views(r.references@) == references_in(reference_views(extraction.references@), seq![origin_file_uri@]),
        r.summary == spec_reference_summary_in(*extraction, seq![origin_file_uri@]),
{
    let mut uris: Vec<String> = Vec::new();
    let mut uri = String::new();
    crate::text::push_str(&mut uri, origin_file_uri);
    uris.push(uri);
    assert(string_views(uris@) =~= seq![origin_file_uri@]);
    let (references, occurrences, fallbacks) = references_for(&extraction.references, &uris);
    proof {
        lemma_references_in_bounds(reference_views(extraction.references@), string_views(uris@));
    }
    let edges = references.len();
    ReferenceBatchExtraction {
        provider: extraction.provider,
        provider_version: clone_opt_str(&extraction.provider_version),
        workspace_fingerprint: extraction.workspace_fingerprint.clone(),
        document_symbols: extraction.document_symbols.copy(),
        references,
        summary: ReferenceRouteSummary {
            targets_queried: extraction.summary.targets_queried,
            reference_edges: edges,
            reference_occurrences: occurrences,
            file_fallbacks: fallbacks,
            skipped_external: 0,
        },
    }
}

/// The calls of an extraction restricted to one origin file, with its
/// summary recomputed for that file.
pub fn call_extraction_for_origin_file(extraction: &CallBatchExtraction, origin_file_uri: &str) -> (r: CallBatchExtraction)
    requires
        call_occurrence_total(call_views(extraction.calls@)) <= usize::MAX,
    ensures
        r.provider == extraction.provider,
        crate::model::opt_str(r.provider_version) == crate::model::opt_str(extraction.provider_version),
        r.workspace_fingerprint@ == extraction.workspace_fingerprint@,
        r.document_symbols@ == extraction.document_symbols@,
        call_views(r.calls@) == calls_in(call_views(extraction.calls@), seq![origin_file_uri@]),
        r.summary == spec_call_summary_in(*extraction, seq![origin_file_uri@]),
{
    let mut uris: Vec<String> = Vec::new();
    let mut uri = String::new();
    crate::text::push_str(&mut uri, origin_file_uri);
    uris.push(uri);
    assert(string_views(uris@) =~= seq![origin_file_uri@]);
    let (calls, occurrences) = calls_for(&extraction.calls, &uris);
    let callable_nodes = distinct_caller_count(&calls);
    let edges = calls.len();
    CallBatchExtraction {
        provider: extraction.provider,
        provider_version: clone_opt_str(&extraction.provider_version),
        workspace_fingerprint: extraction.workspace_fingerprint.clone(),
        document_symbols: extraction.document_symbols.copy(),
        calls,
        summary: CallRouteSummary {
            callable_nodes,
            call_edges: edges,
            call_occurrences: occurrences,
            skipped_external_targets: 0,
            skipped_unresolved_targets: 0,
            skipped_non_callable_prepare_items: 0,
        },
    }
}

/// The reference route summary of an extraction restricted to the origin
/// files `origin_file_uris`.
pub fn reference_route_summary_for_origin_files(extraction: &ReferenceBatchExtraction, origin_file_uris: &Vec<String>) -> (r:
    ReferenceRouteSummary)
    requires
        reference_occurrence_total(reference_views(extraction.references@)) <= usize::MAX,
    ensures
        r == spec_reference_summary_in(*extraction, string_views(origin_file_uris@)),
{
    let (references, occurrences, fallbacks) = references_for(&extraction.references, origin_file_uris);
    ReferenceRouteSummary {
        targets_queried: extraction.summary.targets_queried,
        reference_edges: references.len(),
        reference_occurrences: occurrences,
        file_fallbacks: fallbacks,
        skipped_external: 0,
    }
}

/// The call route summary of an extraction restricted to the origin files
/// `origin_file_uris`.
pub fn call_route_summary_for_origin_files(extraction: &CallBatchExtraction, origin_file_uris: &Vec<String>) -> (r:
    CallRouteSummary)
    requires
        call_occurrence_total(call_views(extraction.calls@)) <= usize::MAX,
    ensures
        r == spec_call_summary_in(*extraction, string_views(origin_file_uris@)),
{
    let (calls, occurrences) = calls_for(&extraction.calls, origin_file_uris);
    let callable_nodes = distinct_caller_count(&calls);
    CallRouteSummary {
        callable_nodes,
        call_edges: calls.len(),
        call_occurrences: occurrences,
        skipped_external_targets: 0,
        skipped_unresolved_targets: 0,
        skipped_non_callable_prepare_items: 0,
    }
}


/// Restricting joined occurrences restricts each part.
proof fn lemma_reference_occurrences_in_concat(a: Seq<ReferenceOccurrenceView>, b: Seq<ReferenceOccurrenceView>, uris: Seq<Seq<char>>)
    ensures
        reference_occurrences_in(a + b, uris) == reference_occurrences_in(a, uris) + reference_occurrences_in(b, uris),
    decreases b.len(),
{
    if b.len() == 0 {
        assert(a + b =~= a);
        assert(reference_occurrences_in(a, uris) + reference_occurrences_in(b, uris) =~= reference_occurrences_in(a, uris));
    } else {
        assert((a + b).drop_last() =~= a + b.drop_last());
        lemma_reference_occurrences_in_concat(a, b.drop_last(), uris);
        assert(reference_occurrences_in(a + b, uris) =~= reference_occurrences_in(a, uris) + reference_occurrences_in(b, uris));
    }
}

/// Restricting occurrences twice to the same files restricts them once;
/// what is kept lies in those files.
pub proof fn lemma_reference_occurrences_in_idempotent(occs: Seq<ReferenceOccurrenceView>, uris: Seq<Seq<char>>)
    ensures
        reference_occurrences_in(reference_occurrences_in(occs, uris), uris) == reference_occurrences_in(occs, uris),
        forall|j: int| 0 <= j < reference_occurrences_in(occs, uris).len() ==> uris.contains(
            (#[trigger] reference_occurrences_in(occs, uris)[j]).file_uri,
        ),
    decreases occs.len(),
{
    if occs.len() > 0 {
        let p = occs.drop_last();
        let o = occs.last();
        lemma_reference_occurrences_in_idempotent(p, uris);
        let tail = if uris.contains(o.file_uri) {
            seq![o]
        } else {
            Seq::<ReferenceOccurrenceView>::empty()
        };
        lemma_reference_occurrences_in_concat(reference_occurrences_in(p, uris), tail, uris);
        if uris.contains(o.file_uri) {
            assert(seq![o].drop_last() =~= Seq::<ReferenceOccurrenceView>::empty());
            assert(reference_occurrences_in(Seq::<ReferenceOccurrenceView>::empty(), uris) =~= Seq::<ReferenceOccurrenceView>::empty());
            assert(reference_occurrences_in(tail, uris) =~= tail);
        } else {
            assert(reference_occurrences_in(tail, uris) =~= tail);
        }
        let all = reference_occurrences_in(occs, uris);
        let pre = reference_occurrences_in(p, uris);
        assert forall|j: int| 0 <= j < all.len() implies uris.contains((#[trigger] all[j]).file_uri) by {
            if j < pre.len() {
                assert(all[j] == pre[j]);
            }
        }
    }
}

/// Restricting joined edges restricts each part.
proof fn lemma_references_in_concat(a: Seq<ExtractedReferenceView>, b: Seq<ExtractedReferenceView>, uris: Seq<Seq<char>>)
    ensures
        references_in(a + b, uris) == references_in(a, uris) + references_in(b, uris),
    decreases b.len(),
{
    if b.len() == 0 {
        assert(a + b =~= a);
        assert(references_in(a, uris) + references_in(b, uris) =~= references_in(a, uris));
    } else {
        assert((a + b).drop_last() =~= a + b.drop_last());
        lemma_references_in_concat(a, b.drop_last(), uris);
        assert(references_in(a + b, uris) =~= references_in(a, uris) + references_in(b, uris));
    }
}

/// Restricting edges twice to the same files restricts them once: a
/// per-file extraction restricted to its own file is unchanged.
pub proof fn lemma_references_in_idempotent(edges: Seq<ExtractedReferenceView>, uris: Seq<Seq<char>>)
    ensures
        references_in(references_in(edges, uris), uris) == references_in(edges, uris),
    decreases edges.len(),
{
    if edges.len() > 0 {
        let p = edges.drop_last();
        let r = edges.last();
        lemma_references_in_idempotent(p, uris);
        let occs = reference_occurrences_in(r.occurrences, uris);
        let kept = ExtractedReferenceView { occurrences: occs, ..r };
        let tail = if occs.len() > 0 {
            seq![kept]
        } else {
            Seq::<ExtractedReferenceView>::empty()
        };
        lemma_references_in_concat(references_in(p, uris), tail, uris);
        if occs.len() > 0 {
            lemma_reference_occurrences_in_idempotent(r.occurrences, uris);
            assert(seq![kept].drop_last() =~= Seq::<ExtractedReferenceView>::empty());
            let again = ExtractedReferenceView { occurrences: reference_occurrences_in(kept.occurrences, uris), ..kept };
            assert(again == kept);
            assert(references_in(Seq::<ExtractedReferenceView>::empty(), uris) =~= Seq::<ExtractedReferenceView>::empty());
            assert(references_in(tail, uris) =~= tail);
        } else {
            assert(references_in(tail, uris) =~= tail);
        }
    }
}

/// Restricting joined occurrences restricts each part.
proof fn lemma_call_occurrences_in_concat(a: Seq<CallOccurrenceView>, b: Seq<CallOccurrenceView>, uris: Seq<Seq<char>>)
    ensures
        call_occurrences_in(a + b, uris) == call_occurrences_in(a, uris) + call_occurrences_in(b, uris),
    decreases b.len(),
{
    if b.len() == 0 {
        assert(a + b =~= a);
        assert(call_occurrences_in(a, uris) + call_occurrences_in(b, uris) =~= call_occurrences_in(a, uris));
    } else {
        assert((a + b).drop_last() =~= a + b.drop_last());
        lemma_call_occurrences_in_concat(a, b.drop_last(), uris);
        assert(call_occurrences_in(a + b, uris) =~= call_occurrences_in(a, uris) + call_occurrences_in(b, uris));
    }
}

/// Restricting occurrences twice to the same files restricts them once;
/// what is kept lies in those files.
pub proof fn lemma_call_occurrences_in_idempotent(occs: Seq<CallOccurrenceView>, uris: Seq<Seq<char>>)
    ensures
        call_occurrences_in(call_occurrences_in(occs, uris), uris) == call_occurrences_in(occs, uris),
        forall|j: int| 0 <= j < call_occurrences_in(occs, uris).len() ==> uris.contains(
            (#[trigger] call_occurrences_in(occs, uris)[j]).file_uri,
        ),
    decreases occs.len(),
{
    if occs.len() > 0 {
        let p = occs.drop_last();
        let o = occs.last();
        lemma_call_occurrences_in_idempotent(p, uris);
        let tail = if uris.contains(o.file_uri) {
            seq![o]
        } else {
            Seq::<CallOccurrenceView>::empty()
        };
        lemma_call_occurrences_in_concat(call_occurrences_in(p, uris), tail, uris);
        if uris.contains(o.file_uri) {
            assert(seq![o].drop_last() =~= Seq::<CallOccurrenceView>::empty());
            assert(call_occurrences_in(Seq::<CallOccurrenceView>::empty(), uris) =~= Seq::<CallOccurrenceView>::empty());
            assert(call_occurrences_in(tail, uris) =~= tail);
        } else {
            assert(call_occurrences_in(tail, uris) =~= tail);
        }
        let all = call_occurrences_in(occs, uris);
        let pre = call_occurrences_in(p, uris);
        assert forall|j: int| 0 <= j < all.len() implies uris.contains((#[trigger] all[j]).file_uri) by {
            if j < pre.len() {
                assert(all[j] == pre[j]);
            }
        }
    }
}

/// Restricting joined edges restricts each part.
proof fn lemma_calls_in_concat(a: Seq<ExtractedCallView>, b: Seq<ExtractedCallView>, uris: Seq<Seq<char>>)
    ensures
        calls_in(a + b, uris) == calls_in(a, uris) + calls_in(b, uris),
    decreases b.len(),
{
    if b.len() == 0 {
        assert(a + b =~= a);
        assert(calls_in(a, uris) + calls_in(b, uris) =~= calls_in(a, uris));
    } else {
        assert((a + b).drop_last() =~= a + b.drop_last());
        lemma_calls_in_concat(a, b.drop_last(), uris);
        assert(calls_in(a + b, uris) =~= calls_in(a, uris) + calls_in(b, uris));
    }
}

/// Restricting edges twice to the same files restricts them once: a
/// per-file extraction restricted to its own file is unchanged.
pub proof fn lemma_calls_in_idempotent(edges: Seq<ExtractedCallView>, uris: Seq<Seq<char>>)
    ensures
        calls_in(calls_in(edges, uris), uris) == calls_in(edges, uris),
    decreases edges.len(),
{
    if edges.len() > 0 {
        let p = edges.drop_last();
        let r = edges.last();
        lemma_calls_in_idempotent(p, uris);
        let occs = call_occurrences_in(r.occurrences, uris);
        let kept = ExtractedCallView { occurrences: occs, ..r };
        let tail = if occs.len() > 0 {
            seq![kept]
        } else {
            Seq::<ExtractedCallView>::empty()
        };
        lemma_calls_in_concat(calls_in(p, uris), tail, uris);
        if occs.len() > 0 {
            lemma_call_occurrences_in_idempotent(r.occurrences, uris);
            assert(seq![kept].drop_last() =~= Seq::<ExtractedCallView>::empty());
            let again = ExtractedCallView { occurrences: call_occurrences_in(kept.occurrences, uris), ..kept };
            assert(again == kept);
            assert(calls_in(Seq::<ExtractedCallView>::empty(), uris) =~= Seq::<ExtractedCallView>::empty());
            assert(calls_in(tail, uris) =~= tail);
        } else {
            assert(calls_in(tail, uris) =~= tail);
        }
    }
}

/// A per-file reference extraction is its own summary for that file:
/// restricting it to its origin file again gives the summary it carries.
pub proof fn lemma_reference_origin_extraction_is_own_summary(
    extraction: ReferenceBatchExtraction,
    restricted: ReferenceBatchExtraction,
    origin_file_uri: Seq<char>,
)
    requires
        reference_views(restricted.references@) == references_in(
            reference_views(extraction.references@),
            seq![origin_file_uri],
        ),
        restricted.summary == spec_reference_summary_in(extraction, seq![origin_file_uri]),
    ensures
        spec_reference_summary_in(restricted, seq![origin_file_uri]) == restricted.summary,
{
    lemma_references_in_idempotent(reference_views(extraction.references@), seq![origin_file_uri]);
}

/// A per-file call extraction is its own summary for that file.
pub proof fn lemma_call_origin_extraction_is_own_summary(
    extraction: CallBatchExtraction,
    restricted: CallBatchExtraction,
    origin_file_uri: Seq<char>,
)
    requires
        call_views(restricted.calls@) == calls_in(call_views(extraction.calls@), seq![origin_file_uri]),
        restricted.summary == spec_call_summary_in(extraction, seq![origin_file_uri]),
    ensures
        spec_call_summary_in(restricted, seq![origin_file_uri]) == restricted.summary,
{
    lemma_calls_in_idempotent(call_views(extraction.calls@), seq![origin_file_uri]);
}


/// Restricting occurrences depends only on which files are listed.
proof fn lemma_reference_occurrences_in_same_files(occs: Seq<ReferenceOccurrenceView>, a: Seq<Seq<char>>, b: Seq<Seq<char>>)
    requires
        forall|x: Seq<char>| a.contains(x) <==> b.contains(x),
    ensures
        reference_occurrences_in(occs, a) == reference_occurrences_in(occs, b),
    decreases occs.len(),
{
    if occs.len() > 0 {
        lemma_reference_occurrences_in_same_files(occs.drop_last(), a, b);
        assert(a.contains(occs.last().file_uri) == b.contains(occs.last().file_uri));
    }
}

/// Restricting edges depends only on which files are listed.
proof fn lemma_references_in_same_files(edges: Seq<ExtractedReferenceView>, a: Seq<Seq<char>>, b: Seq<Seq<char>>)
    requires
        forall|x: Seq<char>| a.contains(x) <==> b.contains(x),
    ensures
        references_in(edges, a) == references_in(edges, b),
    decreases edges.len(),
{
    if edges.len() > 0 {
        lemma_references_in_same_files(edges.drop_last(), a, b);
        lemma_reference_occurrences_in_same_files(edges.last().occurrences, a, b);
    }
}

/// Restricting occurrences depends only on which files are listed.
proof fn lemma_call_occurrences_in_same_files(occs: Seq<CallOccurrenceView>, a: Seq<Seq<char>>, b: Seq<Seq<char>>)
    requires
        forall|x: Seq<char>| a.contains(x) <==> b.contains(x),
    ensures
        call_occurrences_in(occs, a) == call_occurrences_in(occs, b),
    decreases occs.len(),
{
    if occs.len() > 0 {
        lemma_call_occurrences_in_same_files(occs.drop_last(), a, b);
        assert(a.contains(occs.last().file_uri) == b.contains(occs.last().file_uri));
    }
}

/// Restricting edges depends only on which files are listed.
proof fn lemma_calls_in_same_files(edges: Seq<ExtractedCallView>, a: Seq<Seq<char>>, b: Seq<Seq<char>>)
    requires
        forall|x: Seq<char>| a.contains(x) <==> b.contains(x),
    ensures
        calls_in(edges, a) == calls_in(edges, b),
    decreases edges.len(),
{
    if edges.len() > 0 {
        lemma_calls_in_same_files(edges.drop_last(), a, b);
        lemma_call_occurrences_in_same_files(edges.last().occurrences, a, b);
    }
}

/// The route summary for a set of origin files that holds one file, however
/// often it is listed, is the summary of that file's own extraction.
pub proof fn lemma_reference_origin_summary_is_file_summary(
    extraction: ReferenceBatchExtraction,
    origin_file_uris: Seq<Seq<char>>,
    uri: Seq<char>,
)
    requires
        forall|x: Seq<char>| origin_file_uris.contains(x) <==> x == uri,
    ensures
        spec_reference_summary_in(extraction, origin_file_uris) == spec_reference_summary_in(extraction, seq![uri]),
{
    assert forall|x: Seq<char>| origin_file_uris.contains(x) <==> seq![uri].contains(x) by {
        if x == uri {
            assert(seq![uri][0] == x);
        }
    }
    lemma_references_in_same_files(reference_views(extraction.references@), origin_file_uris, seq![uri]);
}

/// The call route summary for a set of origin files that holds one file is
/// the summary of that file's own extraction.
pub proof fn lemma_call_origin_summary_is_file_summary(
    extraction: CallBatchExtraction,
    origin_file_uris: Seq<Seq<char>>,
    uri: Seq<char>,
)
    requires
        forall|x: Seq<char>| origin_file_uris.contains(x) <==> x == uri,
    ensures
        spec_call_summary_in(extraction, origin_file_uris) == spec_call_summary_in(extraction, seq![uri]),
{
    assert forall|x: Seq<char>| origin_file_uris.contains(x) <==> seq![uri].contains(x) by {
        if x == uri {
            assert(seq![uri][0] == x);
        }
    }
    lemma_calls_in_same_files(call_views(extraction.calls@), origin_file_uris, seq![uri]);
}


/// How many occurrences of an extraction's references lie in none of the
/// files `uris`.
pub open spec fn reference_occurrences_outside(e: ReferenceBatchExtraction, uris: Seq<Seq<char>>) -> int {
    reference_occurrence_total(reference_views(e.references@)) - reference_occurrence_total(
        references_in(reference_views(e.references@), uris),
    )
}

/// How many call sites of an extraction lie in none of the files `uris`.
pub open spec fn call_occurrences_outside(e: CallBatchExtraction, uris: Seq<Seq<char>>) -> int {
    call_occurrence_total(call_views(e.calls@)) - call_occurrence_total(calls_in(call_views(e.calls@), uris))
}

/// The references of a file batch whose occurrences lie in files the store
/// already holds (`existing_file_uris`): occurrences in other files are
/// dropped and counted, and references left without occurrences go. The
/// rest of the extraction, its summary included, stays as it was.
pub fn reference_file_extraction_with_existing_files(
    extraction: &ReferenceBatchExtraction,
    existing_file_uris: &Vec<String>,
) -> (r: (ReferenceBatchExtraction, usize))
    requires
        reference_occurrence_total(reference_views(extraction.references@)) <= usize::MAX,
    ensures
        r.0.provider == extraction.provider,
        crate::model::opt_str(r.0.provider_version) == crate::model::opt_str(extraction.provider_version),
        r.0.workspace_fingerprint@ == extraction.workspace_fingerprint@,
        r.0.document_symbols@ == extraction.document_symbols@,
        r.0.summary == extraction.summary,
        reference_views(r.0.references@) == references_in(
            reference_views(extraction.references@),
            string_views(existing_file_uris@),
        ),
        r.1 == reference_occurrences_outside(*extraction, string_views(existing_file_uris@)),
{
    let total = reference_occurrence_count(&extraction.references);
    let (references, kept, _fallbacks) = references_for(&extraction.references, existing_file_uris);
    proof {
        lemma_references_in_bounds(reference_views(extraction.references@), string_views(existing_file_uris@));
    }
    (
        ReferenceBatchExtraction {
            provider: extraction.provider,
            provider_version: clone_opt_str(&extraction.provider_version),
            workspace_fingerprint: extraction.workspace_fingerprint.clone(),
            document_symbols: extraction.document_symbols.copy(),
            references,
            summary: extraction.summary,
        },
        total - kept,
    )
}

/// The calls of a file batch whose call sites lie in files the store
/// already holds: call sites in other files are dropped and counted, and
/// calls left without call sites go. The rest of the extraction stays.
pub fn call_file_extraction_with_existing_files(
    extraction: &CallBatchExtraction,
    existing_file_uris: &Vec<String>,
) -> (r: (CallBatchExtraction, usize))
    requires
        call_occurrence_total(call_views(extraction.calls@)) <= usize::MAX,
    ensures
        r.0.provider == extraction.provider,
        crate::model::opt_str(r.0.provider_version) == crate::model::opt_str(extraction.provider_version),
        r.0.workspace_fingerprint@ == extraction.workspace_fingerprint@,
        r.0.document_symbols@ == extraction.document_symbols@,
        r.0.summary == extraction.summary,
        call_views(r.0.calls@) == calls_in(call_views(extraction.calls@), string_views(existing_file_uris@)),
        r.1 == call_occurrences_outside(*extraction, string_views(existing_file_uris@)),
{
    let total = call_occurrence_count(&extraction.calls);
    let (calls, kept) = calls_for(&extraction.calls, existing_file_uris);
    proof {
        lemma_calls_in_bounds(call_views(extraction.calls@), string_views(existing_file_uris@));
    }
    (
        CallBatchExtraction {
            provider: extraction.provider,
            provider_version: clone_opt_str(&extraction.provider_version),
            workspace_fingerprint: extraction.workspace_fingerprint.clone(),
            document_symbols: extraction.document_symbols.copy(),
            calls,
            summary: extraction.summary,
        },
        total - kept,
    )
}

/// How many occurrences the references hold.
fn reference_occurrence_count(refs: &Vec<ExtractedReference>) -> (n: usize)
    requires
        reference_occurrence_total(reference_views(refs@)) <= usize::MAX,
    ensures
        n == reference_occurrence_total(reference_views(refs@)),
{
    let ghost rv = reference_views(refs@);
    let mut n: usize = 0;
    let mut i: usize = 0;
    while i < refs.len()
        invariant
            rv == reference_views(refs@),
            reference_occurrence_total(rv) <= usize::MAX,
            i <= refs@.len(),
            n == reference_occurrence_total(rv.take(i as int)),
        decreases refs@.len() - i,
    {
        proof {
            assert(rv.take(i + 1).drop_last() =~= rv.take(i as int));
            assert(rv.take(i + 1).last() == refs@[i as int]@);
            lemma_total_prefix(rv, i + 1);
        }
        n = n + refs[i].occurrences.len();
        i = i + 1;
    }
    assert(rv.take(i as int) =~= rv);
    n
}

/// How many call sites the calls hold.
fn call_occurrence_count(calls: &Vec<ExtractedCall>) -> (n: usize)
    requires
        call_occurrence_total(call_views(calls@)) <= usize::MAX,
    ensures
        n == call_occurrence_total(call_views(calls@)),
{
    let ghost cv = call_views(calls@);
    let mut n: usize = 0;
    let mut i: usize = 0;
    while i < calls.len()
        invariant
            cv == call_views(calls@),
            call_occurrence_total(cv) <= usize::MAX,
            i <= calls@.len(),
            n == call_occurrence_total(cv.take(i as int)),
        decreases calls@.len() - i,
    {
        proof {
            assert(cv.take(i + 1).drop_last() =~= cv.take(i as int));
            assert(cv.take(i + 1).last() == calls@[i as int]@);
            lemma_call_total_prefix(cv, i + 1);
        }
        n = n + calls[i].occurrences.len();
        i = i + 1;
    }
    assert(cv.take(i as int) =~= cv);
    n
}


/// A restricted call summary counts each caller once: its callable nodes are
/// the distinct caller keys of the kept call edges, never more than the
/// edges, and exactly one where every kept edge has the same caller.
pub proof fn lemma_callable_nodes_are_distinct_callers(e: CallBatchExtraction, uris: Seq<Seq<char>>)
    ensures
        ({
            let kept = calls_in(call_views(e.calls@), uris);
            let summary = spec_call_summary_in(e, uris);
            &&& summary.callable_nodes == kept.map_values(|c: ExtractedCallView| c.caller_symbol_key).to_set().len()
            &&& summary.callable_nodes <= summary.call_edges
            &&& summary.call_edges == kept.len()
            &&& (kept.len() > 0 && forall|i: int| 0 <= i < kept.len() ==> (#[trigger] kept[i]).caller_symbol_key
                == kept[0].caller_symbol_key) ==> summary.callable_nodes == 1
        }),
{
    broadcast use vstd::std_specs::vec::axiom_spec_len;
    broadcast use vstd::set::group_set_axioms;

    let kept = calls_in(call_views(e.calls@), uris);
    let keys = kept.map_values(|c: ExtractedCallView| c.caller_symbol_key);
    lemma_calls_in_bounds(call_views(e.calls@), uris);
    keys.lemma_cardinality_of_set();
    assert(e.calls@.len() == vstd::std_specs::vec::spec_vec_len(&e.calls));
    if kept.len() > 0 && forall|i: int| 0 <= i < kept.len() ==> (#[trigger] kept[i]).caller_symbol_key
        == kept[0].caller_symbol_key {
        let k = kept[0].caller_symbol_key;
        assert forall|x: Seq<char>| keys.to_set().contains(x) <==> x == k by {
            if x == k {
                assert(keys[0] == k);
            }
            if keys.to_set().contains(x) {
                let i = choose|i: int| 0 <= i < keys.len() && keys[i] == x;
                assert(kept[i].caller_symbol_key == k);
            }
        }
        assert(keys.to_set() =~= set![k]);
        assert(set![k].len() == 1) by {
            assert(set![k] =~= Set::<Seq<char>>::empty().insert(k));
        }
    }
}

} // verus!
