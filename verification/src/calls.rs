use vstd::prelude::*;

use crate::error::ExtractError;
use crate::fingerprint::{spec_workspace_fingerprint, workspace_fingerprint};
use crate::grouping::{group_item_total, lemma_grouped_total, count_items, grouped, groups_view, insert_grouped, lemma_grouped_empty, Group, GroupKey};
use crate::origin::{call_occurrence_total, call_views};
use crate::model::{
    spec_text_range_from_lsp, text_range_from_lsp, CallBatchExtraction, CallOccurrence, CallOccurrenceView,
    DocumentSymbolBatchExtraction, DocumentSymbolBatchView, DocumentSymbolExtractionView, ExtractedCall,
    ExtractedCallView, ExtractedSymbol, LspRange, ResolvedIncomingCall, ResolvedIncomingCallSet, SymbolView,
};
use crate::paths::{path_starts_with, starts_with_path};
use crate::references::{last_target, lemma_last_target_in_range, symbol_at};
use crate::providers::CSharpLsProvider;
use crate::routes::ProviderId;
use crate::summary::CallRouteSummary;
use crate::symbols::{
    call_target_mapping, file_context, last_path_match, lemma_last_path_match_in_range, spec_call_target_mapping,
    string_views, symbol_views, CallResolutionMode,
};
use crate::targets::{all_candidates, lemma_candidates_valid};
use crate::text::push_str;

verus! {

/// What becomes of one incoming call: its caller lies outside the
/// workspace or the batch, matches no symbol, or is the symbol at (file,
/// symbol) indices, matched in the given way.
pub enum CallOutcome {
    External,
    Unresolved,
    Mapped(int, int, CallResolutionMode),
}

/// What becomes of one incoming call.
pub open spec fn call_outcome(
    exs: Seq<DocumentSymbolExtractionView>,
    paths: Seq<Seq<char>>,
    root: Seq<char>,
    ic: ResolvedIncomingCall,
) -> CallOutcome {
    if !path_starts_with(ic.caller_file_path@, root) {
        CallOutcome::External
    } else {
        match last_path_match(paths, ic.caller_file_path@) {
            None => CallOutcome::External,
            Some(fi) => match spec_call_target_mapping(
                exs[fi].symbols,
                ic.caller_name@,
                ic.caller_kind@,
                spec_text_range_from_lsp(ic.caller_range),
                spec_text_range_from_lsp(ic.caller_selection_range),
            ) {
                None => CallOutcome::Unresolved,
                Some((si, mode)) => CallOutcome::Mapped(fi, si, mode),
            },
        }
    }
}

/// The grouping key of a call edge from a caller to a callee.
pub open spec fn call_key(caller: SymbolView, callee: SymbolView) -> GroupKey {
    (caller.symbol_key, callee.symbol_key, "direct"@)
}

/// The occurrence of one call site of a mapped caller.
pub open spec fn call_occurrence_view(
    exs: Seq<DocumentSymbolExtractionView>,
    fi: int,
    si: int,
    mode: CallResolutionMode,
    callee: SymbolView,
    from_range: LspRange,
) -> CallOccurrenceView {
    CallOccurrenceView {
        file_uri: exs[fi].source_file.uri,
        file_relative_path: exs[fi].source_file.relative_path,
        file_symbol_key: exs[fi].source_file.file_symbol_key,
        range: spec_text_range_from_lsp(from_range),
        enclosing_symbol_key: exs[fi].symbols[si].symbol_key,
        from_range,
        caller_name: exs[fi].symbols[si].name,
        callee_name: callee.name,
        caller_resolution_mode: mode.spec_str(),
    }
}

/// The events of the call sites of a mapped caller, in order.
pub open spec fn from_range_events(
    exs: Seq<DocumentSymbolExtractionView>,
    fi: int,
    si: int,
    mode: CallResolutionMode,
    callee: SymbolView,
    ranges: Seq<LspRange>,
) -> Seq<(GroupKey, Option<CallOccurrenceView>)>
    decreases ranges.len(),
{
    if ranges.len() == 0 {
        Seq::empty()
    } else {
        from_range_events(exs, fi, si, mode, callee, ranges.drop_last()).push(
            (
                call_key(exs[fi].symbols[si], callee),
                Some(call_occurrence_view(exs, fi, si, mode, callee, ranges.last())),
            ),
        )
    }
}

/// The events of one incoming call: for a mapped caller, its edge (made
/// even without call sites), then each call site.
pub open spec fn incoming_call_events(
    exs: Seq<DocumentSymbolExtractionView>,
    paths: Seq<Seq<char>>,
    root: Seq<char>,
    callee: SymbolView,
    ic: ResolvedIncomingCall,
) -> Seq<(GroupKey, Option<CallOccurrenceView>)> {
    match call_outcome(exs, paths, root, ic) {
        CallOutcome::Mapped(fi, si, mode) => seq![(call_key(exs[fi].symbols[si], callee), None)]
            + from_range_events(exs, fi, si, mode, callee, ic.from_ranges@),
        _ => Seq::empty(),
    }
}

/// The events of the incoming calls of one callee, in order.
pub open spec fn incoming_events(
    exs: Seq<DocumentSymbolExtractionView>,
    paths: Seq<Seq<char>>,
    root: Seq<char>,
    callee: SymbolView,
    ics: Seq<ResolvedIncomingCall>,
) -> Seq<(GroupKey, Option<CallOccurrenceView>)>
    decreases ics.len(),
{
    if ics.len() == 0 {
        Seq::empty()
    } else {
        incoming_events(exs, paths, root, callee, ics.drop_last()) + incoming_call_events(
            exs,
            paths,
            root,
            callee,
            ics.last(),
        )
    }
}

/// How many incoming calls of a list come from outside the workspace or
/// the batch.
pub open spec fn count_external(
    exs: Seq<DocumentSymbolExtractionView>,
    paths: Seq<Seq<char>>,
    root: Seq<char>,
    ics: Seq<ResolvedIncomingCall>,
) -> nat
    decreases ics.len(),
{
    if ics.len() == 0 {
        0
    } else {
        count_external(exs, paths, root, ics.drop_last()) + if call_outcome(exs, paths, root, ics.last()) is External {
            1nat
        } else {
            0nat
        }
    }
}

/// How many incoming calls of a list have a caller that matches no symbol.
pub open spec fn count_unresolved(
    exs: Seq<DocumentSymbolExtractionView>,
    paths: Seq<Seq<char>>,
    root: Seq<char>,
    ics: Seq<ResolvedIncomingCall>,
) -> nat
    decreases ics.len(),
{
    if ics.len() == 0 {
        0
    } else {
        count_unresolved(exs, paths, root, ics.drop_last()) + if call_outcome(
            exs,
            paths,
            root,
            ics.last(),
        ) is Unresolved {
            1nat
        } else {
            0nat
        }
    }
}

/// How many call sites the incoming calls of a list hold.
pub open spec fn count_from_ranges(ics: Seq<ResolvedIncomingCall>) -> nat
    decreases ics.len(),
{
    if ics.len() == 0 {
        0
    } else {
        count_from_ranges(ics.drop_last()) + ics.last().from_ranges@.len()
    }
}

/// The callee of an incoming call set.
pub open spec fn call_set_target(
    exs: Seq<DocumentSymbolExtractionView>,
    paths: Seq<Seq<char>>,
    cands: Seq<(int, int)>,
    set: ResolvedIncomingCallSet,
) -> Option<int> {
    last_target(exs, paths, cands, set.target_file_path@, set.target_selection_range)
}

/// Whether every incoming call set names a known callee.
pub open spec fn all_callees_known(
    exs: Seq<DocumentSymbolExtractionView>,
    paths: Seq<Seq<char>>,
    cands: Seq<(int, int)>,
    sets: Seq<ResolvedIncomingCallSet>,
) -> bool {
    forall|i: int| 0 <= i < sets.len() ==> (#[trigger] call_set_target(exs, paths, cands, sets[i])) is Some
}

/// The events of all incoming call sets, set by set.
pub open spec fn call_events(
    exs: Seq<DocumentSymbolExtractionView>,
    paths: Seq<Seq<char>>,
    cands: Seq<(int, int)>,
    root: Seq<char>,
    sets: Seq<ResolvedIncomingCallSet>,
) -> Seq<(GroupKey, Option<CallOccurrenceView>)>
    decreases sets.len(),
{
    if sets.len() == 0 {
        Seq::empty()
    } else {
        call_events(exs, paths, cands, root, sets.drop_last()) + match call_set_target(
            exs,
            paths,
            cands,
            sets.last(),
        ) {
            Some(t) => incoming_events(exs, paths, root, symbol_at(exs, cands[t]), sets.last().incoming_calls@),
            None => Seq::empty(),
        }
    }
}

/// How many incoming calls of all sets come from outside.
pub open spec fn call_externals(
    exs: Seq<DocumentSymbolExtractionView>,
    paths: Seq<Seq<char>>,
    root: Seq<char>,
    sets: Seq<ResolvedIncomingCallSet>,
) -> nat
    decreases sets.len(),
{
    if sets.len() == 0 {
        0
    } else {
        call_externals(exs, paths, root, sets.drop_last()) + count_external(
            exs,
            paths,
            root,
            sets.last().incoming_calls@,
        )
    }
}

/// How many incoming calls of all sets have an unmatched caller.
pub open spec fn call_unresolved(
    exs: Seq<DocumentSymbolExtractionView>,
    paths: Seq<Seq<char>>,
    root: Seq<char>,
    sets: Seq<ResolvedIncomingCallSet>,
) -> nat
    decreases sets.len(),
{
    if sets.len() == 0 {
        0
    } else {
        call_unresolved(exs, paths, root, sets.drop_last()) + count_unresolved(
            exs,
            paths,
            root,
            sets.last().incoming_calls@,
        )
    }
}

/// How many items the language server could not prepare as callables,
/// over all sets.
pub open spec fn prepare_skips(sets: Seq<ResolvedIncomingCallSet>) -> nat
    decreases sets.len(),
{
    if sets.len() == 0 {
        0
    } else {
        prepare_skips(sets.drop_last()) + sets.last().skipped_non_callable_prepare_items as nat
    }
}

/// How many incoming calls all sets report.
pub open spec fn total_incoming(sets: Seq<ResolvedIncomingCallSet>) -> nat
    decreases sets.len(),
{
    if sets.len() == 0 {
        0
    } else {
        total_incoming(sets.drop_last()) + sets.last().incoming_calls@.len()
    }
}

/// How many call sites all sets report.
pub open spec fn total_from_ranges(sets: Seq<ResolvedIncomingCallSet>) -> nat
    decreases sets.len(),
{
    if sets.len() == 0 {
        0
    } else {
        total_from_ranges(sets.drop_last()) + count_from_ranges(sets.last().incoming_calls@)
    }
}

/// A call edge as a group: its key and its occurrences.
pub open spec fn call_group(c: ExtractedCallView) -> (GroupKey, Seq<CallOccurrenceView>) {
    ((c.caller_symbol_key, c.callee_symbol_key, c.context), c.occurrences)
}

/// A call edge's provider and confidence.
pub open spec fn call_labels(c: ExtractedCallView) -> bool {
    &&& c.provider == ProviderId::CSharpLanguageServer
    &&& c.confidence == "EXTRACTED"@
    &&& c.confidence_score_millis == 1000
}

/// The call edges grouped from a stream of events, with their labels.
pub open spec fn calls_from_events(calls: Seq<ExtractedCall>, events: Seq<(GroupKey, Option<CallOccurrenceView>)>) -> bool {
    &&& grouped(calls.map_values(|c: ExtractedCall| call_group(c@)), events)
    &&& forall|k: int| 0 <= k < calls.len() ==> call_labels(#[trigger] calls[k]@)
}

/// The error for an incoming call set whose callee is not among the targets.
pub open spec fn is_unknown_call_target(e: ExtractError) -> bool {
    e matches ExtractError::ResponseShape { provider, method, message } && provider@ == "csharp-ls"@ && method@
        == "callHierarchy/incomingCalls"@ && message@
        == "csharp-ls-lib returned an incoming call set for an unknown target"@
}

/// What a successful call mapping holds.
pub open spec fn call_batch_ok(
    b: CallBatchExtraction,
    ds: DocumentSymbolBatchView,
    paths: Seq<Seq<char>>,
    root: Seq<char>,
    sets: Seq<ResolvedIncomingCallSet>,
    callable_nodes: usize,
) -> bool {
    let exs = ds.extractions;
    let cands = all_candidates(exs, true);
    let events = call_events(exs, paths, cands, root, sets);
    &&& b.provider == ProviderId::CSharpLanguageServer
    &&& crate::model::opt_str(b.provider_version) == ds.provider_version
    &&& b.workspace_fingerprint@ == spec_workspace_fingerprint(exs)
    &&& b.document_symbols@ == ds
    &&& calls_from_events(b.calls@, events)
    &&& b.summary.callable_nodes == callable_nodes
    &&& b.summary.call_edges == b.calls@.len()
    &&& b.summary.call_occurrences == count_items(events)
    &&& b.summary.skipped_external_targets == call_externals(exs, paths, root, sets)
    &&& b.summary.skipped_unresolved_targets == call_unresolved(exs, paths, root, sets)
    &&& b.summary.skipped_non_callable_prepare_items == prepare_skips(sets)
}

/// Sums over a prefix of the sets, then the next set, are no more than over
/// all of them.
proof fn lemma_call_totals_prefix(sets: Seq<ResolvedIncomingCallSet>, i: int)
    requires
        0 <= i < sets.len(),
    ensures
        total_incoming(sets.take(i)) + sets[i].incoming_calls@.len() <= total_incoming(sets),
        total_from_ranges(sets.take(i)) + count_from_ranges(sets[i].incoming_calls@) <= total_from_ranges(sets),
        prepare_skips(sets.take(i)) + sets[i].skipped_non_callable_prepare_items <= prepare_skips(sets),
    decreases sets.len(),
{
    assert(sets.take(i + 1).drop_last() =~= sets.take(i));
    if i + 1 < sets.len() {
        lemma_call_totals_prefix(sets.drop_last(), i);
        assert(sets.drop_last().take(i) =~= sets.take(i));
        assert(sets.drop_last()[i] == sets[i]);
    } else {
        assert(sets.take(i + 1) =~= sets);
    }
}

/// Call sites of a prefix of the incoming calls, then the next, are no more
/// than of them all.
proof fn lemma_from_ranges_prefix(ics: Seq<ResolvedIncomingCall>, j: int)
    requires
        0 <= j < ics.len(),
    ensures
        count_from_ranges(ics.take(j)) + ics[j].from_ranges@.len() <= count_from_ranges(ics),
    decreases ics.len(),
{
    assert(ics.take(j + 1).drop_last() =~= ics.take(j));
    if j + 1 < ics.len() {
        lemma_from_ranges_prefix(ics.drop_last(), j);
        assert(ics.drop_last().take(j) =~= ics.take(j));
        assert(ics.drop_last()[j] == ics[j]);
    } else {
        assert(ics.take(j + 1) =~= ics);
    }
}

/// Counting the items of joined streams adds the counts.
proof fn lemma_count_items_concat<V>(a: Seq<(GroupKey, Option<V>)>, b: Seq<(GroupKey, Option<V>)>)
    ensures
        count_items(a + b) == count_items(a) + count_items(b),
    decreases b.len(),
{
    if b.len() == 0 {
        assert(a + b =~= a);
    } else {
        assert((a + b).drop_last() =~= a + b.drop_last());
        lemma_count_items_concat(a, b.drop_last());
    }
}

/// An edge event carries no occurrence.
proof fn lemma_count_items_edge(key: GroupKey)
    ensures
        count_items(seq![(key, None::<CallOccurrenceView>)]) == 0,
{
    let s = seq![(key, None::<CallOccurrenceView>)];
    assert(s.drop_last() =~= Seq::<(GroupKey, Option<CallOccurrenceView>)>::empty());
    assert(count_items(s.drop_last()) == 0);
}

/// Each call-site event carries an occurrence.
proof fn lemma_from_range_events_count(
    exs: Seq<DocumentSymbolExtractionView>,
    fi: int,
    si: int,
    mode: CallResolutionMode,
    callee: SymbolView,
    ranges: Seq<LspRange>,
)
    ensures
        count_items(from_range_events(exs, fi, si, mode, callee, ranges)) == ranges.len(),
        from_range_events(exs, fi, si, mode, callee, ranges).len() == ranges.len(),
    decreases ranges.len(),
{
    if ranges.len() > 0 {
        lemma_from_range_events_count(exs, fi, si, mode, callee, ranges.drop_last());
        let e = from_range_events(exs, fi, si, mode, callee, ranges);
        assert(e.drop_last() =~= from_range_events(exs, fi, si, mode, callee, ranges.drop_last()));
    }
}

/// What becomes of one incoming call, in indices.
enum MappedCall {
    External,
    Unresolved,
    Mapped(usize, usize, CallResolutionMode),
}

/// Maps the caller of one incoming call onto a symbol of the batch.
fn map_incoming_call(
    ds: &DocumentSymbolBatchExtraction,
    canonical_paths: &Vec<String>,
    workspace_root: &str,
    ic: &ResolvedIncomingCall,
) -> (r: MappedCall)
    requires
        canonical_paths@.len() == ds.extractions@.len(),
    ensures
        match call_outcome(ds@.extractions, string_views(canonical_paths@), workspace_root@, *ic) {
            CallOutcome::External => r is External,
            CallOutcome::Unresolved => r is Unresolved,
            CallOutcome::Mapped(fi, si, mode) => r matches MappedCall::Mapped(f, s, m) && f == fi && s == si && m
                == mode && f < ds.extractions@.len() && s < ds.extractions@[f as int].symbols@.len(),
        },
{
    let ghost paths = string_views(canonical_paths@);
    if !starts_with_path(ic.caller_file_path.as_str(), workspace_root) {
        return MappedCall::External;
    }
    proof {
        lemma_last_path_match_in_range(paths, ic.caller_file_path@);
    }
    let fi = match file_context(canonical_paths, ic.caller_file_path.as_str()) {
        None => return MappedCall::External,
        Some(fi) => fi,
    };
    let ex = &ds.extractions[fi];
    assert(ds@.extractions[fi as int] == ex@);
    assert(symbol_views(ex.symbols@) == ex@.symbols);
    let caller_range = text_range_from_lsp(ic.caller_range);
    let caller_selection_range = text_range_from_lsp(ic.caller_selection_range);
    match call_target_mapping(
        &ex.symbols,
        ic.caller_name.as_str(),
        ic.caller_kind.as_str(),
        caller_range,
        caller_selection_range,
    ) {
        None => MappedCall::Unresolved,
        Some((si, mode)) => {
            proof {
                crate::symbols::lemma_first_min_in_range(
                    ex@.symbols,
                    |s: SymbolView| s.selection_range == caller_selection_range,
                    |s: SymbolView| 0,
                );
                crate::symbols::lemma_first_min_in_range(
                    ex@.symbols,
                    |s: SymbolView| s.name == ic.caller_name@ && crate::symbols::spec_contains_range(s.range, caller_range),
                    |s: SymbolView| crate::symbols::spec_range_size(s.range),
                );
                crate::symbols::lemma_first_min_in_range(
                    ex@.symbols,
                    |s: SymbolView| s.name == ic.caller_name@ && crate::symbols::spec_call_kind_matches(
                        s.kind,
                        ic.caller_kind@,
                    ),
                    |s: SymbolView| crate::symbols::spec_range_distance(s.selection_range, caller_selection_range),
                );
            }
            MappedCall::Mapped(fi, si, mode)
        },
    }
}

/// Turns the groups into call edges, keeping their order.
fn calls_from_groups(groups: Vec<Group<CallOccurrence>>) -> (calls: Vec<ExtractedCall>)
    ensures
        calls@.map_values(|c: ExtractedCall| call_group(c@)) == groups_view(groups@),
        forall|k: int| 0 <= k < calls@.len() ==> call_labels(#[trigger] calls@[k]@),
{
    let ghost gv = groups_view(groups@);
    let mut groups = groups;
    let mut reversed: Vec<ExtractedCall> = Vec::new();
    let ghost n = groups@.len();
    while groups.len() > 0
        invariant
            n == gv.len(),
            groups@.len() + reversed@.len() == n,
            forall|k: int| 0 <= k < groups@.len() ==> crate::grouping::group_view(#[trigger] groups@[k]) == gv[k],
            forall|k: int| 0 <= k < reversed@.len() ==> call_group((#[trigger] reversed@[k])@) == gv[n - 1 - k],
            forall|k: int| 0 <= k < reversed@.len() ==> call_labels(#[trigger] reversed@[k]@),
        decreases groups@.len(),
    {
        let g = groups.pop().unwrap();
        let mut confidence = String::new();
        push_str(&mut confidence, "EXTRACTED");
        let c = ExtractedCall {
            provider: ProviderId::CSharpLanguageServer,
            caller_symbol_key: g.key.0,
            callee_symbol_key: g.key.1,
            context: g.key.2,
            confidence,
            confidence_score_millis: 1000,
            occurrences: g.items,
        };
        proof {
            assert(c@.occurrences =~= crate::grouping::group_view(g).1);
        }
        reversed.push(c);
    }
    let mut calls: Vec<ExtractedCall> = Vec::new();
    while reversed.len() > 0
        invariant
            n == gv.len(),
            calls@.len() + reversed@.len() == n,
            forall|k: int| 0 <= k < reversed@.len() ==> call_group((#[trigger] reversed@[k])@) == gv[n - 1 - k],
            forall|k: int| 0 <= k < reversed@.len() ==> call_labels(#[trigger] reversed@[k]@),
            forall|k: int| 0 <= k < calls@.len() ==> call_group((#[trigger] calls@[k])@) == gv[k],
            forall|k: int| 0 <= k < calls@.len() ==> call_labels(#[trigger] calls@[k]@),
        decreases reversed@.len(),
    {
        let c = reversed.pop().unwrap();
        calls.push(c);
    }
    assert(calls@.map_values(|c: ExtractedCall| call_group(c@)) =~= gv);
    calls
}

/// Adds the edge of a mapped caller and each of its call sites to the
/// groups.
fn add_incoming_call(
    ds: &DocumentSymbolBatchExtraction,
    fi: usize,
    si: usize,
    mode: CallResolutionMode,
    callee: &ExtractedSymbol,
    ic: &ResolvedIncomingCall,
    groups: &mut Vec<Group<CallOccurrence>>,
    Ghost(events): Ghost<Seq<(GroupKey, Option<CallOccurrenceView>)>>,
)
    requires
        fi < ds.extractions@.len(),
        si < ds.extractions@[fi as int].symbols@.len(),
        grouped(groups_view(old(groups)@), events),
    ensures
        grouped(
            groups_view(final(groups)@),
            events + seq![(call_key(ds@.extractions[fi as int].symbols[si as int], callee@), None)]
                + from_range_events(ds@.extractions, fi as int, si as int, mode, callee@, ic.from_ranges@),
        ),
{
    let ghost exs = ds@.extractions;
    let ex = &ds.extractions[fi];
    let caller = &ex.symbols[si];
    assert(exs[fi as int] == ex@);
    assert(exs[fi as int].symbols[si as int] == caller@);
    let ghost key = call_key(caller@, callee@);
    let mut direct = String::new();
    push_str(&mut direct, "direct");
    let group_key = (caller.symbol_key.clone(), callee.symbol_key.clone(), direct);
    insert_grouped(groups, group_key, None, Ghost(events));
    let ghost mut evs = events.push((key, None));
    let ghost start = evs;
    let mut k: usize = 0;
    proof {
        assert(ic.from_ranges@.take(0) =~= Seq::<LspRange>::empty());
        assert(evs =~= start + from_range_events(exs, fi as int, si as int, mode, callee@, ic.from_ranges@.take(0)));
    }
    while k < ic.from_ranges.len()
        invariant
            exs == ds@.extractions,
            fi < exs.len(),
            si < exs[fi as int].symbols.len(),
            ex == ds.extractions@[fi as int],
            caller == ex.symbols@[si as int],
            exs[fi as int] == ex@,
            exs[fi as int].symbols[si as int] == caller@,
            key == call_key(caller@, callee@),
            k <= ic.from_ranges@.len(),
            evs == start + from_range_events(exs, fi as int, si as int, mode, callee@, ic.from_ranges@.take(k as int)),
            grouped(groups_view(groups@), evs),
        decreases ic.from_ranges@.len() - k,
    {
        let from_range = ic.from_ranges[k];
        let mut resolution = String::new();
        push_str(&mut resolution, mode.as_str());
        let occurrence = CallOccurrence {
            file_uri: ex.source_file.uri.clone(),
            file_relative_path: ex.source_file.relative_path.clone(),
            file_symbol_key: ex.source_file.file_symbol_key.clone(),
            range: text_range_from_lsp(from_range),
            enclosing_symbol_key: caller.symbol_key.clone(),
            from_range,
            caller_name: caller.name.clone(),
            callee_name: callee.name.clone(),
            caller_resolution_mode: resolution,
        };
        let ghost ov = occurrence@;
        let mut direct = String::new();
        push_str(&mut direct, "direct");
        let group_key = (caller.symbol_key.clone(), callee.symbol_key.clone(), direct);
        insert_grouped(groups, group_key, Some(occurrence), Ghost(evs));
        proof {
            assert(ov == call_occurrence_view(exs, fi as int, si as int, mode, callee@, from_range));
            evs = evs.push((key, Some(ov)));
            assert(ic.from_ranges@.take(k + 1).drop_last() =~= ic.from_ranges@.take(k as int));
            assert(ic.from_ranges@.take(k + 1).last() == from_range);
            assert(evs =~= start + from_range_events(exs, fi as int, si as int, mode, callee@, ic.from_ranges@.take(k + 1)));
        }
        k = k + 1;
    }
    proof {
        assert(ic.from_ranges@.take(k as int) =~= ic.from_ranges@);
        assert(evs =~= events + seq![(key, None)] + from_range_events(exs, fi as int, si as int, mode, callee@, ic.from_ranges@));
    }
}

impl CSharpLsProvider {
    /// Maps the incoming call sets that the language server resolved onto the
    /// symbols of a batch: each call site of a caller inside the workspace
    /// whose symbol is found becomes an occurrence, grouped into edges by
    /// caller and callee. `canonical_paths` holds each file's canonical path,
    /// in the order of the batch's files.
    pub fn map_incoming_call_sets(
        &self,
        document_symbols: DocumentSymbolBatchExtraction,
        canonical_paths: &Vec<String>,
        workspace_root: &str,
        incoming_call_sets: Vec<ResolvedIncomingCallSet>,
        callable_nodes: usize,
    ) -> (result: Result<CallBatchExtraction, ExtractError>)
        requires
            canonical_paths@.len() == document_symbols.extractions@.len(),
            total_incoming(incoming_call_sets@) <= usize::MAX,
            total_from_ranges(incoming_call_sets@) <= usize::MAX,
            prepare_skips(incoming_call_sets@) <= usize::MAX,
        ensures
            ({
                let exs = document_symbols@.extractions;
                let paths = string_views(canonical_paths@);
                let cands = all_candidates(exs, true);
                match crate::targets::candidates_failure(exs, cands) {
                    Some(line) => result matches Err(e) && crate::symbols::is_position_error(e, line),
                    None => if all_callees_known(exs, paths, cands, incoming_call_sets@) {
                        result matches Ok(b) && call_batch_ok(
                            b,
                            document_symbols@,
                            paths,
                            workspace_root@,
                            incoming_call_sets@,
                            callable_nodes,
                        )
                    } else {
                        result matches Err(e) && is_unknown_call_target(e)
                    },
                }
            }),
    {
        let ghost exs = document_symbols@.extractions;
        let ghost paths = string_views(canonical_paths@);
        let ghost cands = all_candidates(exs, true);
        let ghost sets = incoming_call_sets@;
        let ghost root = workspace_root@;
        let contexts = crate::targets::target_contexts(&document_symbols, canonical_paths, true)?;
        let fingerprint = workspace_fingerprint(&document_symbols);
        proof {
            lemma_candidates_valid(exs, true);
            lemma_grouped_empty::<CallOccurrenceView>();
            assert(groups_view(Seq::<Group<CallOccurrence>>::empty()) =~= Seq::<(GroupKey, Seq<CallOccurrenceView>)>::empty());
        }
        let mut groups: Vec<Group<CallOccurrence>> = Vec::new();
        let ghost mut events: Seq<(GroupKey, Option<CallOccurrenceView>)> = Seq::empty();
        let mut skipped_external: usize = 0;
        let mut skipped_unresolved: usize = 0;
        let mut skipped_prepare: usize = 0;
        let mut occurrences: usize = 0;
        let mut i: usize = 0;
        while i < incoming_call_sets.len()
            invariant
                exs == document_symbols@.extractions,
                paths == string_views(canonical_paths@),
                cands == all_candidates(exs, true),
                sets == incoming_call_sets@,
                root == workspace_root@,
                canonical_paths@.len() == exs.len(),
                total_incoming(sets) <= usize::MAX,
                total_from_ranges(sets) <= usize::MAX,
                prepare_skips(sets) <= usize::MAX,
                crate::targets::candidates_failure(exs, cands) is None,
                crate::targets::contexts_match(contexts@, exs, paths, cands),
                forall|k: int|
                    0 <= k < cands.len() ==> {
                        let c = #[trigger] cands[k];
                        &&& 0 <= c.0 < exs.len()
                        &&& 0 <= c.1 < exs[c.0].symbols.len()
                    },
                i <= sets.len(),
                forall|k: int| 0 <= k < i ==> (#[trigger] call_set_target(exs, paths, cands, sets[k])) is Some,
                events == call_events(exs, paths, cands, root, sets.take(i as int)),
                grouped(groups_view(groups@), events),
                occurrences == count_items(events),
                occurrences <= total_from_ranges(sets.take(i as int)),
                skipped_external == call_externals(exs, paths, root, sets.take(i as int)),
                skipped_unresolved == call_unresolved(exs, paths, root, sets.take(i as int)),
                skipped_external + skipped_unresolved <= total_incoming(sets.take(i as int)),
                skipped_prepare == prepare_skips(sets.take(i as int)),
            decreases sets.len() - i,
        {
            let set = &incoming_call_sets[i];
            proof {
                lemma_last_target_in_range(exs, paths, cands, set.target_file_path@, set.target_selection_range);
                lemma_call_totals_prefix(sets, i as int);
                assert(sets.take(i + 1).drop_last() =~= sets.take(i as int));
                assert(sets.take(i + 1).last() == sets[i as int]);
            }
            skipped_prepare = skipped_prepare + set.skipped_non_callable_prepare_items;
            let t = match crate::references::find_target_index(&contexts, &set.target_file_path, set.target_selection_range) {
                Some(t) => t,
                None => {
                    assert(call_set_target(exs, paths, cands, sets[i as int]) is None);
                    assert(!all_callees_known(exs, paths, cands, sets));
                    return Err(
                        ExtractError::response_shape(
                            "csharp-ls",
                            "callHierarchy/incomingCalls",
                            "csharp-ls-lib returned an incoming call set for an unknown target",
                        ),
                    );
                },
            };
            let ctx = &contexts[t];
            assert(ctx.file_index == cands[t as int].0 && ctx.symbol_index == cands[t as int].1);
            let callee = &document_symbols.extractions[ctx.file_index].symbols[ctx.symbol_index];
            assert(callee@ == symbol_at(exs, cands[t as int]));
            let ghost ics = set.incoming_calls@;
            let ghost base_events = events;
            let ghost base_external = skipped_external as nat;
            let ghost base_unresolved = skipped_unresolved as nat;
            let ghost base_occurrences = occurrences as nat;
            let mut j: usize = 0;
            proof {
                assert(ics.take(0) =~= Seq::<ResolvedIncomingCall>::empty());
                assert(base_events + incoming_events(exs, paths, root, callee@, ics.take(0)) =~= base_events);
            }
            while j < set.incoming_calls.len()
                invariant
                    exs == document_symbols@.extractions,
                    paths == string_views(canonical_paths@),
                    root == workspace_root@,
                    canonical_paths@.len() == exs.len(),
                    ics == set.incoming_calls@,
                    j <= ics.len(),
                    events == base_events + incoming_events(exs, paths, root, callee@, ics.take(j as int)),
                    grouped(groups_view(groups@), events),
                    occurrences == count_items(events),
                    occurrences <= base_occurrences + count_from_ranges(ics.take(j as int)),
                    skipped_external == base_external + count_external(exs, paths, root, ics.take(j as int)),
                    skipped_unresolved == base_unresolved + count_unresolved(exs, paths, root, ics.take(j as int)),
                    skipped_external + skipped_unresolved <= base_external + base_unresolved + j,
                    base_external + base_unresolved + ics.len() <= usize::MAX,
                    base_occurrences + count_from_ranges(ics) <= usize::MAX,
                decreases ics.len() - j,
            {
                let ic = &set.incoming_calls[j];
                proof {
                    assert(ics.take(j + 1).drop_last() =~= ics.take(j as int));
                    assert(ics.take(j + 1).last() == *ic);
                    lemma_from_ranges_prefix(ics, j as int);
                }
                match map_incoming_call(&document_symbols, canonical_paths, workspace_root, ic) {
                    MappedCall::External => {
                        skipped_external = skipped_external + 1;
                    },
                    MappedCall::Unresolved => {
                        skipped_unresolved = skipped_unresolved + 1;
                    },
                    MappedCall::Mapped(fi, si, mode) => {
                        let ghost added = seq![(call_key(exs[fi as int].symbols[si as int], callee@), None)]
                            + from_range_events(exs, fi as int, si as int, mode, callee@, ic.from_ranges@);
                        add_incoming_call(&document_symbols, fi, si, mode, callee, ic, &mut groups, Ghost(events));
                        proof {
                            lemma_from_range_events_count(exs, fi as int, si as int, mode, callee@, ic.from_ranges@);
                            lemma_count_items_concat(
                                seq![(call_key(exs[fi as int].symbols[si as int], callee@), None::<CallOccurrenceView>)],
                                from_range_events(exs, fi as int, si as int, mode, callee@, ic.from_ranges@),
                            );
                            lemma_count_items_edge(call_key(exs[fi as int].symbols[si as int], callee@));
                            lemma_count_items_concat(events, added);
                            assert(events + seq![(call_key(exs[fi as int].symbols[si as int], callee@), None)] + from_range_events(
                                exs,
                                fi as int,
                                si as int,
                                mode,
                                callee@,
                                ic.from_ranges@,
                            ) =~= events + added);
                            events = events + added;
                        }
                        occurrences = occurrences + ic.from_ranges.len();
                    },
                }
                proof {
                    assert(events =~= base_events + incoming_events(exs, paths, root, callee@, ics.take(j + 1)));
                }
                j = j + 1;
            }
            proof {
                assert(ics.take(j as int) =~= ics);
                assert(call_set_target(exs, paths, cands, sets[i as int]) == Some(t as int));
                assert(events =~= call_events(exs, paths, cands, root, sets.take(i + 1)));
            }
            i = i + 1;
        }
        proof {
            assert(sets.take(i as int) =~= sets);
        }
        let calls = calls_from_groups(groups);
        let summary = CallRouteSummary {
            callable_nodes,
            call_edges: calls.len(),
            call_occurrences: occurrences,
            skipped_external_targets: skipped_external,
            skipped_unresolved_targets: skipped_unresolved,
            skipped_non_callable_prepare_items: skipped_prepare,
        };
        let provider_version = crate::model::clone_opt_str(&document_symbols.provider_version);
        Ok(
            CallBatchExtraction {
                provider: ProviderId::CSharpLanguageServer,
                provider_version,
                workspace_fingerprint: fingerprint,
                document_symbols,
                calls,
                summary,
            },
        )
    }

}


/// The occurrence total of call edges is the item total of their groups.
proof fn lemma_call_totals(calls: Seq<ExtractedCall>)
    ensures
        call_occurrence_total(call_views(calls)) == group_item_total(calls.map_values(|c: ExtractedCall| call_group(c@))),
    decreases calls.len(),
{
    if calls.len() > 0 {
        lemma_call_totals(calls.drop_last());
        assert(call_views(calls).drop_last() =~= call_views(calls.drop_last()));
        assert(calls.map_values(|c: ExtractedCall| call_group(c@)).drop_last() =~= calls.drop_last().map_values(
            |c: ExtractedCall| call_group(c@),
        ));
    }
}

/// The summary of a call mapping agrees with its edges: one edge per
/// counted edge, and the call sites of all edges together as the counted
/// occurrences.
pub proof fn lemma_call_summary_matches_edges(
    b: CallBatchExtraction,
    ds: DocumentSymbolBatchView,
    paths: Seq<Seq<char>>,
    root: Seq<char>,
    sets: Seq<ResolvedIncomingCallSet>,
    callable_nodes: usize,
)
    requires
        call_batch_ok(b, ds, paths, root, sets, callable_nodes),
    ensures
        b.summary.call_edges == b.calls@.len(),
        b.summary.call_occurrences == call_occurrence_total(call_views(b.calls@)),
{
    let cands = all_candidates(ds.extractions, true);
    let events = call_events(ds.extractions, paths, cands, root, sets);
    lemma_grouped_total(b.calls@.map_values(|c: ExtractedCall| call_group(c@)), events);
    lemma_call_totals(b.calls@);
}

} // verus!
