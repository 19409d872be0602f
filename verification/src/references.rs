use vstd::prelude::*;

use crate::error::ExtractError;
use crate::fingerprint::{spec_workspace_fingerprint, workspace_fingerprint};
use crate::grouping::{group_item_total, lemma_count_items_all, lemma_grouped_nonempty, lemma_grouped_total, grouped, groups_view, insert_grouped, lemma_grouped_empty, Group, GroupKey};
use crate::origin::{reference_occurrence_total, reference_views};
use crate::model::{
    spec_text_range_from_lsp, text_range_from_lsp, DocumentSymbolBatchExtraction, DocumentSymbolBatchView,
    DocumentSymbolExtractionView, ExtractedReference, ExtractedReferenceView, ExtractedSymbol, LspRange,
    ReferenceBatchExtraction, ReferenceOccurrence, ReferenceOccurrenceView, ResolvedLocation, ResolvedReferenceSet,
    SymbolView,
};
use crate::providers::CSharpLsProvider;
use crate::routes::ProviderId;
use crate::summary::ReferenceRouteSummary;
use crate::symbols::{
    deepest_containing, deepest_symbol_containing, file_context, last_path_match, lemma_first_min_in_range,
    lemma_last_path_match_in_range, spec_lsp_range, string_views, symbol_views,
};
use crate::targets::{all_candidates, candidate_selection, lemma_candidates_valid, TargetContext};
use crate::text::push_str;

verus! {

/// The symbol at (file, symbol) indices of a batch.
pub open spec fn symbol_at(exs: Seq<DocumentSymbolExtractionView>, c: (int, int)) -> SymbolView {
    exs[c.0].symbols[c.1]
}

/// The index of the last target with this path and protocol selection
/// range: the target that a map keyed by them gives, the last insert
/// winning.
pub open spec fn last_target(
    exs: Seq<DocumentSymbolExtractionView>,
    paths: Seq<Seq<char>>,
    cands: Seq<(int, int)>,
    path: Seq<char>,
    range: LspRange,
) -> Option<int>
    decreases cands.len(),
{
    if cands.len() == 0 {
        None
    } else if paths[cands.last().0] == path && spec_lsp_range(candidate_selection(exs, cands.last())) == range {
        Some(cands.len() - 1)
    } else {
        last_target(exs, paths, cands.drop_last(), path, range)
    }
}

/// `last_target` picks an index in range.
pub proof fn lemma_last_target_in_range(
    exs: Seq<DocumentSymbolExtractionView>,
    paths: Seq<Seq<char>>,
    cands: Seq<(int, int)>,
    path: Seq<char>,
    range: LspRange,
)
    ensures
        last_target(exs, paths, cands, path, range) matches Some(t) ==> 0 <= t < cands.len(),
    decreases cands.len(),
{
    if cands.len() > 0 {
        lemma_last_target_in_range(exs, paths, cands.drop_last(), path, range);
    }
}

/// The grouping key and occurrence that a reported reference location
/// gives: `None` where the location lies in no file of the batch. The
/// source is the deepest symbol containing the location, else the file.
pub open spec fn reference_location_event(
    exs: Seq<DocumentSymbolExtractionView>,
    paths: Seq<Seq<char>>,
    target: SymbolView,
    loc: ResolvedLocation,
) -> Option<(GroupKey, Option<ReferenceOccurrenceView>)> {
    match last_path_match(paths, loc.file_path@) {
        None => None,
        Some(fi) => {
            let ex = exs[fi];
            let range = spec_text_range_from_lsp(loc.range);
            let source = match deepest_containing(ex.symbols, range) {
                Some(si) => (ex.symbols[si].symbol_key, "symbol"@, Some(ex.symbols[si].symbol_key)),
                None => (ex.source_file.file_symbol_key, "file_fallback"@, None),
            };
            Some(
                (
                    (source.0, target.symbol_key, source.1),
                    Some(
                        ReferenceOccurrenceView {
                            file_uri: ex.source_file.uri,
                            file_relative_path: ex.source_file.relative_path,
                            file_symbol_key: ex.source_file.file_symbol_key,
                            range,
                            enclosing_symbol_key: source.2,
                            provider_range: loc.range,
                            target_name: target.name,
                        },
                    ),
                ),
            )
        },
    }
}

/// Whether a reported location lies in no file of the batch.
pub open spec fn location_skipped(paths: Seq<Seq<char>>, loc: ResolvedLocation) -> bool {
    last_path_match(paths, loc.file_path@) is None
}

/// Whether a reported location falls back to its file as the source.
pub open spec fn location_falls_back(
    exs: Seq<DocumentSymbolExtractionView>,
    paths: Seq<Seq<char>>,
    loc: ResolvedLocation,
) -> bool {
    match last_path_match(paths, loc.file_path@) {
        None => false,
        Some(fi) => deepest_containing(exs[fi].symbols, spec_text_range_from_lsp(loc.range)) is None,
    }
}

/// The events of the locations of one target, in order.
pub open spec fn location_events(
    exs: Seq<DocumentSymbolExtractionView>,
    paths: Seq<Seq<char>>,
    target: SymbolView,
    locs: Seq<ResolvedLocation>,
) -> Seq<(GroupKey, Option<ReferenceOccurrenceView>)>
    decreases locs.len(),
{
    if locs.len() == 0 {
        Seq::empty()
    } else {
        location_events(exs, paths, target, locs.drop_last()) + match reference_location_event(
            exs,
            paths,
            target,
            locs.last(),
        ) {
            Some(e) => seq![e],
            None => Seq::empty(),
        }
    }
}

/// How many locations of a list lie in no file of the batch.
pub open spec fn count_skipped(paths: Seq<Seq<char>>, locs: Seq<ResolvedLocation>) -> nat
    decreases locs.len(),
{
    if locs.len() == 0 {
        0
    } else {
        count_skipped(paths, locs.drop_last()) + if location_skipped(paths, locs.last()) {
            1nat
        } else {
            0nat
        }
    }
}

/// How many locations of a list fall back to their file.
pub open spec fn count_fallbacks(
    exs: Seq<DocumentSymbolExtractionView>,
    paths: Seq<Seq<char>>,
    locs: Seq<ResolvedLocation>,
) -> nat
    decreases locs.len(),
{
    if locs.len() == 0 {
        0
    } else {
        count_fallbacks(exs, paths, locs.drop_last()) + if location_falls_back(exs, paths, locs.last()) {
            1nat
        } else {
            0nat
        }
    }
}

/// The target of a reference set.
pub open spec fn set_target(
    exs: Seq<DocumentSymbolExtractionView>,
    paths: Seq<Seq<char>>,
    cands: Seq<(int, int)>,
    set: ResolvedReferenceSet,
) -> Option<int> {
    last_target(exs, paths, cands, set.target_file_path@, set.target_selection_range)
}

/// Whether every reference set names a known target.
pub open spec fn all_targets_known(
    exs: Seq<DocumentSymbolExtractionView>,
    paths: Seq<Seq<char>>,
    cands: Seq<(int, int)>,
    sets: Seq<ResolvedReferenceSet>,
) -> bool {
    forall|i: int| 0 <= i < sets.len() ==> (#[trigger] set_target(exs, paths, cands, sets[i])) is Some
}

/// The events of all reference sets, set by set.
pub open spec fn reference_events(
    exs: Seq<DocumentSymbolExtractionView>,
    paths: Seq<Seq<char>>,
    cands: Seq<(int, int)>,
    sets: Seq<ResolvedReferenceSet>,
) -> Seq<(GroupKey, Option<ReferenceOccurrenceView>)>
    decreases sets.len(),
{
    if sets.len() == 0 {
        Seq::empty()
    } else {
        reference_events(exs, paths, cands, sets.drop_last()) + match set_target(exs, paths, cands, sets.last()) {
            Some(t) => location_events(exs, paths, symbol_at(exs, cands[t]), sets.last().references@),
            None => Seq::empty(),
        }
    }
}

/// How many reported locations of all sets lie in no file of the batch.
pub open spec fn reference_skips(paths: Seq<Seq<char>>, sets: Seq<ResolvedReferenceSet>) -> nat
    decreases sets.len(),
{
    if sets.len() == 0 {
        0
    } else {
        reference_skips(paths, sets.drop_last()) + count_skipped(paths, sets.last().references@)
    }
}

/// How many reported locations of all sets fall back to their file.
pub open spec fn reference_fallbacks(
    exs: Seq<DocumentSymbolExtractionView>,
    paths: Seq<Seq<char>>,
    sets: Seq<ResolvedReferenceSet>,
) -> nat
    decreases sets.len(),
{
    if sets.len() == 0 {
        0
    } else {
        reference_fallbacks(exs, paths, sets.drop_last()) + count_fallbacks(exs, paths, sets.last().references@)
    }
}

/// How many locations all sets report.
pub open spec fn total_locations(sets: Seq<ResolvedReferenceSet>) -> nat
    decreases sets.len(),
{
    if sets.len() == 0 {
        0
    } else {
        total_locations(sets.drop_last()) + sets.last().references@.len()
    }
}

/// A reference edge as a group: its key and its occurrences.
pub open spec fn reference_group(r: ExtractedReferenceView) -> (GroupKey, Seq<ReferenceOccurrenceView>) {
    ((r.source_symbol_key, r.target_symbol_key, r.source_resolution), r.occurrences)
}

/// A reference edge's provider and confidence: extracted for a symbol
/// source, ambiguous for a file fallback.
pub open spec fn reference_labels(r: ExtractedReferenceView) -> bool {
    &&& r.provider == ProviderId::CSharpLanguageServer
    &&& if r.source_resolution == "symbol"@ {
        r.confidence == "EXTRACTED"@ && r.confidence_score_millis == 1000
    } else {
        r.confidence == "AMBIGUOUS"@ && r.confidence_score_millis == 600
    }
}

/// The reference edges grouped from a stream of events, with their labels.
pub open spec fn references_from_events(
    refs: Seq<ExtractedReference>,
    events: Seq<(GroupKey, Option<ReferenceOccurrenceView>)>,
) -> bool {
    &&& grouped(refs.map_values(|r: ExtractedReference| reference_group(r@)), events)
    &&& forall|k: int| 0 <= k < refs.len() ==> reference_labels(#[trigger] refs[k]@)
}

/// The error for a reference set whose target is not among the targets.
pub open spec fn is_unknown_reference_target(e: ExtractError) -> bool {
    e matches ExtractError::ResponseShape { provider, method, message } && provider@ == "csharp-ls"@ && method@
        == "textDocument/references"@ && message@ == "csharp-ls-lib returned a reference set for an unknown target"@
}

/// What a successful reference mapping holds.
pub open spec fn reference_batch_ok(
    b: ReferenceBatchExtraction,
    ds: DocumentSymbolBatchView,
    paths: Seq<Seq<char>>,
    sets: Seq<ResolvedReferenceSet>,
    targets_queried: usize,
) -> bool {
    let cands = all_candidates(ds.extractions, false);
    let events = reference_events(ds.extractions, paths, cands, sets);
    &&& b.provider == ProviderId::CSharpLanguageServer
    &&& crate::model::opt_str(b.provider_version) == ds.provider_version
    &&& b.workspace_fingerprint@ == spec_workspace_fingerprint(ds.extractions)
    &&& b.document_symbols@ == ds
    &&& references_from_events(b.references@, events)
    &&& b.summary.targets_queried == targets_queried
    &&& b.summary.reference_edges == b.references@.len()
    &&& b.summary.reference_occurrences == events.len()
    &&& b.summary.file_fallbacks == reference_fallbacks(ds.extractions, paths, sets)
    &&& b.summary.skipped_external == reference_skips(paths, sets)
}

/// Locations of a prefix of the sets, then of the next set, are no more
/// than all of them.
proof fn lemma_total_locations_prefix(sets: Seq<ResolvedReferenceSet>, i: int)
    requires
        0 <= i < sets.len(),
    ensures
        total_locations(sets.take(i)) + sets[i].references@.len() <= total_locations(sets),
    decreases sets.len(),
{
    assert(sets.take(i + 1).drop_last() =~= sets.take(i));
    if i + 1 < sets.len() {
        lemma_total_locations_prefix(sets.drop_last(), i);
        assert(sets.drop_last().take(i) =~= sets.take(i));
        assert(sets.drop_last()[i] == sets[i]);
    } else {
        assert(sets.take(i + 1) =~= sets);
    }
}

/// The target context of a reference set: the last with its path and range.
pub(crate) fn find_target_index(contexts: &Vec<TargetContext>, path: &String, range: LspRange) -> (r: Option<usize>)
    ensures
        r matches Some(t) ==> t < contexts@.len() && forall|cands: Seq<(int, int)>, exs: Seq<DocumentSymbolExtractionView>, paths: Seq<Seq<char>>|
            crate::targets::contexts_match(contexts@, exs, paths, cands) ==> last_target(exs, paths, cands, path@, range)
                == Some(t as int),
        r is None ==> forall|cands: Seq<(int, int)>, exs: Seq<DocumentSymbolExtractionView>, paths: Seq<Seq<char>>|
            crate::targets::contexts_match(contexts@, exs, paths, cands) ==> last_target(exs, paths, cands, path@, range)
                is None,
{
    let mut i: usize = contexts.len();
    proof {
        assert forall|cands: Seq<(int, int)>, exs: Seq<DocumentSymbolExtractionView>, paths: Seq<Seq<char>>|
            crate::targets::contexts_match(contexts@, exs, paths, cands) implies last_target(exs, paths, cands, path@, range)
            == last_target(exs, paths, cands.take(i as int), path@, range) by {
            assert(cands.take(i as int) =~= cands);
        }
    }
    while i > 0
        invariant
            i <= contexts@.len(),
            forall|cands: Seq<(int, int)>, exs: Seq<DocumentSymbolExtractionView>, paths: Seq<Seq<char>>|
                crate::targets::contexts_match(contexts@, exs, paths, cands) ==> last_target(exs, paths, cands, path@, range)
                    == last_target(exs, paths, cands.take(i as int), path@, range),
        decreases i,
    {
        let c = &contexts[i - 1];
        let hit = c.file_path == *path && c.selection_range == range;
        proof {
            assert forall|cands: Seq<(int, int)>, exs: Seq<DocumentSymbolExtractionView>, paths: Seq<Seq<char>>|
                crate::targets::contexts_match(contexts@, exs, paths, cands) implies {
                let pre = cands.take(i as int);
                &&& pre.drop_last() =~= cands.take(i - 1)
                &&& pre.last() == cands[i - 1]
                &&& hit == (paths[cands[i - 1].0] == path@ && spec_lsp_range(candidate_selection(exs, cands[i - 1]))
                    == range)
            } by {
                assert(contexts@[i - 1] == *c);
            }
        }
        if hit {
            return Some(i - 1);
        }
        i = i - 1;
    }
    proof {
        assert forall|cands: Seq<(int, int)>, exs: Seq<DocumentSymbolExtractionView>, paths: Seq<Seq<char>>|
            crate::targets::contexts_match(contexts@, exs, paths, cands) implies last_target(
            exs,
            paths,
            cands,
            path@,
            range,
        ) is None by {
            assert(cands.take(0) =~= Seq::<(int, int)>::empty());
        }
    }
    None
}

/// The grouping key and occurrence of one reported location, and whether
/// its source fell back to the file; `None` where it lies in no file.
fn reference_event(
    ds: &DocumentSymbolBatchExtraction,
    canonical_paths: &Vec<String>,
    target: &ExtractedSymbol,
    loc: &ResolvedLocation,
) -> (r: Option<((String, String, String), ReferenceOccurrence, bool)>)
    requires
        canonical_paths@.len() == ds.extractions@.len(),
    ensures
        match reference_location_event(ds@.extractions, string_views(canonical_paths@), target@, *loc) {
            None => r is None,
            Some(e) => r matches Some((k, o, fb)) && e == ((k.0@, k.1@, k.2@), Some(o@)) && fb == location_falls_back(
                ds@.extractions,
                string_views(canonical_paths@),
                *loc,
            ),
        },
{
    let ghost exs = ds@.extractions;
    let ghost paths = string_views(canonical_paths@);
    proof {
        lemma_last_path_match_in_range(paths, loc.file_path@);
    }
    let fi = match file_context(canonical_paths, loc.file_path.as_str()) {
        None => return None,
        Some(fi) => fi,
    };
    let ex = &ds.extractions[fi];
    assert(exs[fi as int] == ex@);
    let range = text_range_from_lsp(loc.range);
    let deepest = deepest_symbol_containing(&ex.symbols, range);
    proof {
        lemma_first_min_in_range(
            symbol_views(ex.symbols@),
            |s: SymbolView| crate::symbols::spec_contains_range(s.range, range),
            |s: SymbolView| crate::symbols::spec_range_size(s.range),
        );
        assert(symbol_views(ex.symbols@) == ex@.symbols);
    }
    let (source_key, resolution, enclosing, fallback) = match deepest {
        Some(si) => {
            assert(ex@.symbols[si as int] == ex.symbols@[si as int]@);
            let mut resolution = String::new();
            push_str(&mut resolution, "symbol");
            (ex.symbols[si].symbol_key.clone(), resolution, Some(ex.symbols[si].symbol_key.clone()), false)
        },
        None => {
            let mut resolution = String::new();
            push_str(&mut resolution, "file_fallback");
            (ex.source_file.file_symbol_key.clone(), resolution, None, true)
        },
    };
    let occurrence = ReferenceOccurrence {
        file_uri: ex.source_file.uri.clone(),
        file_relative_path: ex.source_file.relative_path.clone(),
        file_symbol_key: ex.source_file.file_symbol_key.clone(),
        range,
        enclosing_symbol_key: enclosing,
        provider_range: loc.range,
        target_name: target.name.clone(),
    };
    Some(((source_key, target.symbol_key.clone(), resolution), occurrence, fallback))
}

/// Turns the groups into reference edges, keeping their order.
fn references_from_groups(groups: Vec<Group<ReferenceOccurrence>>) -> (refs: Vec<ExtractedReference>)
    ensures
        refs@.map_values(|r: ExtractedReference| reference_group(r@)) == groups_view(groups@),
        forall|k: int| 0 <= k < refs@.len() ==> reference_labels(#[trigger] refs@[k]@),
{
    let ghost gv = groups_view(groups@);
    let mut groups = groups;
    let mut reversed: Vec<ExtractedReference> = Vec::new();
    let ghost n = groups@.len();
    while groups.len() > 0
        invariant
            n == gv.len(),
            groups@.len() + reversed@.len() == n,
            forall|k: int| 0 <= k < groups@.len() ==> crate::grouping::group_view(#[trigger] groups@[k]) == gv[k],
            forall|k: int| 0 <= k < reversed@.len() ==> reference_group((#[trigger] reversed@[k])@) == gv[n - 1 - k],
            forall|k: int| 0 <= k < reversed@.len() ==> reference_labels(#[trigger] reversed@[k]@),
        decreases groups@.len(),
    {
        let g = groups.pop().unwrap();
        let ghost gk = gv[groups@.len() as int];
        let is_symbol = crate::text::str_eq(g.key.2.as_str(), "symbol");
        let mut confidence = String::new();
        let score: u32;
        if is_symbol {
            push_str(&mut confidence, "EXTRACTED");
            score = 1000;
        } else {
            push_str(&mut confidence, "AMBIGUOUS");
            score = 600;
        }
        let r = ExtractedReference {
            provider: ProviderId::CSharpLanguageServer,
            source_symbol_key: g.key.0,
            target_symbol_key: g.key.1,
            source_resolution: g.key.2,
            confidence,
            confidence_score_millis: score,
            occurrences: g.items,
        };
        proof {
            assert(r@.occurrences =~= crate::grouping::group_view(g).1);
        }
        reversed.push(r);
    }
    let mut refs: Vec<ExtractedReference> = Vec::new();
    while reversed.len() > 0
        invariant
            n == gv.len(),
            refs@.len() + reversed@.len() == n,
            forall|k: int| 0 <= k < reversed@.len() ==> reference_group((#[trigger] reversed@[k])@) == gv[n - 1 - k],
            forall|k: int| 0 <= k < reversed@.len() ==> reference_labels(#[trigger] reversed@[k]@),
            forall|k: int| 0 <= k < refs@.len() ==> reference_group((#[trigger] refs@[k])@) == gv[k],
            forall|k: int| 0 <= k < refs@.len() ==> reference_labels(#[trigger] refs@[k]@),
        decreases reversed@.len(),
    {
        let r = reversed.pop().unwrap();
        refs.push(r);
    }
    assert(refs@.map_values(|r: ExtractedReference| reference_group(r@)) =~= gv);
    refs
}

impl CSharpLsProvider {
    /// Maps the reference sets that the language server resolved onto the
    /// symbols of a batch: each reported location in a file of the batch
    /// becomes an occurrence, grouped into edges by source symbol, target
    /// symbol and source resolution. `canonical_paths` holds each file's
    /// canonical path, in the order of the batch's files.
    pub fn map_reference_sets(
        &self,
        document_symbols: DocumentSymbolBatchExtraction,
        canonical_paths: &Vec<String>,
        reference_sets: Vec<ResolvedReferenceSet>,
        targets_queried: usize,
    ) -> (result: Result<ReferenceBatchExtraction, ExtractError>)
        requires
            canonical_paths@.len() == document_symbols.extractions@.len(),
            total_locations(reference_sets@) <= usize::MAX,
        ensures
            ({
                let exs = document_symbols@.extractions;
                let paths = string_views(canonical_paths@);
                let cands = all_candidates(exs, false);
                match crate::targets::candidates_failure(exs, cands) {
                    Some(line) => result matches Err(e) && crate::symbols::is_position_error(e, line),
                    None => if all_targets_known(exs, paths, cands, reference_sets@) {
                        result matches Ok(b) && reference_batch_ok(
                            b,
                            document_symbols@,
                            paths,
                            reference_sets@,
                            targets_queried,
                        )
                    } else {
                        result matches Err(e) && is_unknown_reference_target(e)
                    },
                }
            }),
    {
        let ghost exs = document_symbols@.extractions;
        let ghost paths = string_views(canonical_paths@);
        let ghost cands = all_candidates(exs, false);
        let ghost sets = reference_sets@;
        let contexts = crate::targets::target_contexts(&document_symbols, canonical_paths, false)?;
        let fingerprint = workspace_fingerprint(&document_symbols);
        proof {
            lemma_candidates_valid(exs, false);
            lemma_grouped_empty::<ReferenceOccurrenceView>();
            assert(groups_view(Seq::<Group<ReferenceOccurrence>>::empty()) =~= Seq::<(GroupKey, Seq<ReferenceOccurrenceView>)>::empty());
        }
        let mut groups: Vec<Group<ReferenceOccurrence>> = Vec::new();
        let ghost mut events: Seq<(GroupKey, Option<ReferenceOccurrenceView>)> = Seq::empty();
        let mut skipped: usize = 0;
        let mut fallbacks: usize = 0;
        let mut occurrences: usize = 0;
        let mut i: usize = 0;
        while i < reference_sets.len()
            invariant
                exs == document_symbols@.extractions,
                paths == string_views(canonical_paths@),
                cands == all_candidates(exs, false),
                sets == reference_sets@,
                canonical_paths@.len() == exs.len(),
                total_locations(sets) <= usize::MAX,
                crate::targets::candidates_failure(exs, cands) is None,
                crate::targets::contexts_match(contexts@, exs, paths, cands),
                forall|k: int|
                    0 <= k < cands.len() ==> {
                        let c = #[trigger] cands[k];
                        &&& 0 <= c.0 < exs.len()
                        &&& 0 <= c.1 < exs[c.0].symbols.len()
                    },
                i <= sets.len(),
                forall|k: int| 0 <= k < i ==> (#[trigger] set_target(exs, paths, cands, sets[k])) is Some,
                events == reference_events(exs, paths, cands, sets.take(i as int)),
                grouped(groups_view(groups@), events),
                occurrences == events.len(),
                skipped == reference_skips(paths, sets.take(i as int)),
                fallbacks == reference_fallbacks(exs, paths, sets.take(i as int)),
                fallbacks <= occurrences,
                occurrences + skipped == total_locations(sets.take(i as int)),
            decreases sets.len() - i,
        {
            let set = &reference_sets[i];
            proof {
                lemma_last_target_in_range(exs, paths, cands, set.target_file_path@, set.target_selection_range);
                lemma_total_locations_prefix(sets, i as int);
                assert(sets.take(i + 1).drop_last() =~= sets.take(i as int));
                assert(sets.take(i + 1).last() == sets[i as int]);
            }
            let t = match find_target_index(&contexts, &set.target_file_path, set.target_selection_range) {
                Some(t) => t,
                None => {
                    assert(set_target(exs, paths, cands, sets[i as int]) is None);
                    assert(!all_targets_known(exs, paths, cands, sets));
                    return Err(
                        ExtractError::response_shape(
                            "csharp-ls",
                            "textDocument/references",
                            "csharp-ls-lib returned a reference set for an unknown target",
                        ),
                    );
                },
            };
            let ctx = &contexts[t];
            assert(ctx.file_index == cands[t as int].0 && ctx.symbol_index == cands[t as int].1);
            let target = &document_symbols.extractions[ctx.file_index].symbols[ctx.symbol_index];
            assert(target@ == symbol_at(exs, cands[t as int]));
            let ghost locs = set.references@;
            let ghost base_events = events;
            let ghost base_skipped = skipped as nat;
            let ghost base_fallbacks = fallbacks as nat;
            let mut j: usize = 0;
            proof {
                assert(locs.take(0) =~= Seq::<ResolvedLocation>::empty());
                assert(base_events + location_events(exs, paths, target@, locs.take(0)) =~= base_events);
            }
            while j < set.references.len()
                invariant
                    exs == document_symbols@.extractions,
                    paths == string_views(canonical_paths@),
                    canonical_paths@.len() == exs.len(),
                    locs == set.references@,
                    j <= locs.len(),
                    events == base_events + location_events(exs, paths, target@, locs.take(j as int)),
                    grouped(groups_view(groups@), events),
                    occurrences == events.len(),
                    skipped == base_skipped + count_skipped(paths, locs.take(j as int)),
                    fallbacks == base_fallbacks + count_fallbacks(exs, paths, locs.take(j as int)),
                    fallbacks <= occurrences,
                    occurrences + skipped == total_locations(sets.take(i as int)) + j,
                    total_locations(sets.take(i as int)) + locs.len() <= usize::MAX,
                decreases locs.len() - j,
            {
                let loc = &set.references[j];
                proof {
                    assert(locs.take(j + 1).drop_last() =~= locs.take(j as int));
                    assert(locs.take(j + 1).last() == *loc);
                }
                match reference_event(&document_symbols, canonical_paths, target, loc) {
                    None => {
                        skipped = skipped + 1;
                    },
                    Some((key, occurrence, fallback)) => {
                        let ghost ev = ((key.0@, key.1@, key.2@), Some(occurrence@));
                        insert_grouped(&mut groups, key, Some(occurrence), Ghost(events));
                        proof {
                            events = events.push(ev);
                        }
                        occurrences = occurrences + 1;
                        if fallback {
                            fallbacks = fallbacks + 1;
                        }
                    },
                }
                proof {
                    assert(events =~= base_events + location_events(exs, paths, target@, locs.take(j + 1)));
                }
                j = j + 1;
            }
            proof {
                assert(locs.take(j as int) =~= locs);
                assert(set_target(exs, paths, cands, sets[i as int]) == Some(t as int));
                assert(events =~= reference_events(exs, paths, cands, sets.take(i + 1)));
            }
            i = i + 1;
        }
        proof {
            assert(sets.take(i as int) =~= sets);
        }
        let references = references_from_groups(groups);
        proof {
            assert(references@.map_values(|r: ExtractedReference| reference_group(r@)) == groups_view(groups@));
        }
        let summary = ReferenceRouteSummary {
            targets_queried,
            reference_edges: references.len(),
            reference_occurrences: occurrences,
            file_fallbacks: fallbacks,
            skipped_external: skipped,
        };
        let provider_version = crate::model::clone_opt_str(&document_symbols.provider_version);
        Ok(
            ReferenceBatchExtraction {
                provider: ProviderId::CSharpLanguageServer,
                provider_version,
                workspace_fingerprint: fingerprint,
                document_symbols,
                references,
                summary,
            },
        )
    }

}


/// Every event of one target's locations carries an occurrence.
proof fn lemma_location_events_carry_items(
    exs: Seq<DocumentSymbolExtractionView>,
    paths: Seq<Seq<char>>,
    target: SymbolView,
    locs: Seq<ResolvedLocation>,
)
    ensures
        forall|j: int|
            0 <= j < location_events(exs, paths, target, locs).len() ==> (#[trigger] location_events(
                exs,
                paths,
                target,
                locs,
            )[j]).1 is Some,
    decreases locs.len(),
{
    if locs.len() > 0 {
        lemma_location_events_carry_items(exs, paths, target, locs.drop_last());
        let a = location_events(exs, paths, target, locs.drop_last());
        let all = location_events(exs, paths, target, locs);
        assert forall|j: int| 0 <= j < all.len() implies (#[trigger] all[j]).1 is Some by {
            if j < a.len() {
                assert(all[j] == a[j]);
            }
        }
    }
}

/// Every event of a reference mapping carries an occurrence.
proof fn lemma_reference_events_carry_items(
    exs: Seq<DocumentSymbolExtractionView>,
    paths: Seq<Seq<char>>,
    cands: Seq<(int, int)>,
    sets: Seq<ResolvedReferenceSet>,
)
    ensures
        forall|j: int|
            0 <= j < reference_events(exs, paths, cands, sets).len() ==> (#[trigger] reference_events(
                exs,
                paths,
                cands,
                sets,
            )[j]).1 is Some,
    decreases sets.len(),
{
    if sets.len() > 0 {
        lemma_reference_events_carry_items(exs, paths, cands, sets.drop_last());
        let a = reference_events(exs, paths, cands, sets.drop_last());
        let all = reference_events(exs, paths, cands, sets);
        match set_target(exs, paths, cands, sets.last()) {
            Some(t) => {
                let b = location_events(exs, paths, symbol_at(exs, cands[t]), sets.last().references@);
                lemma_location_events_carry_items(exs, paths, symbol_at(exs, cands[t]), sets.last().references@);
                assert forall|j: int| 0 <= j < all.len() implies (#[trigger] all[j]).1 is Some by {
                    if j < a.len() {
                        assert(all[j] == a[j]);
                    } else {
                        assert(all[j] == b[j - a.len()]);
                    }
                }
            },
            None => {
                assert(all =~= a);
            },
        }
    }
}

/// The occurrence total of reference edges is the item total of their
/// groups.
proof fn lemma_reference_totals(refs: Seq<ExtractedReference>)
    ensures
        reference_occurrence_total(reference_views(refs)) == group_item_total(
            refs.map_values(|r: ExtractedReference| reference_group(r@)),
        ),
    decreases refs.len(),
{
    if refs.len() > 0 {
        lemma_reference_totals(refs.drop_last());
        assert(reference_views(refs).drop_last() =~= reference_views(refs.drop_last()));
        assert(refs.map_values(|r: ExtractedReference| reference_group(r@)).drop_last() =~= refs.drop_last().map_values(
            |r: ExtractedReference| reference_group(r@),
        ));
    }
}

/// The summary of a reference mapping agrees with its edges: one edge per
/// counted edge, the occurrences of all edges together as the counted
/// occurrences, and no edge without an occurrence.
pub proof fn lemma_reference_summary_matches_edges(
    b: ReferenceBatchExtraction,
    ds: DocumentSymbolBatchView,
    paths: Seq<Seq<char>>,
    sets: Seq<ResolvedReferenceSet>,
    targets_queried: usize,
)
    requires
        reference_batch_ok(b, ds, paths, sets, targets_queried),
    ensures
        b.summary.reference_edges == b.references@.len(),
        b.summary.reference_occurrences == reference_occurrence_total(reference_views(b.references@)),
        forall|k: int| 0 <= k < b.references@.len() ==> (#[trigger] b.references@[k])@.occurrences.len() > 0,
{
    let cands = all_candidates(ds.extractions, false);
    let events = reference_events(ds.extractions, paths, cands, sets);
    let gs = b.references@.map_values(|r: ExtractedReference| reference_group(r@));
    lemma_reference_events_carry_items(ds.extractions, paths, cands, sets);
    lemma_count_items_all(events);
    lemma_grouped_total(gs, events);
    lemma_reference_totals(b.references@);
    lemma_grouped_nonempty(gs, events);
    assert forall|k: int| 0 <= k < b.references@.len() implies (#[trigger] b.references@[k])@.occurrences.len() > 0 by {
        assert(gs[k].1 == b.references@[k]@.occurrences);
    }
}

} // verus!
