use vstd::prelude::*;

use crate::error::ExtractError;
use crate::model::{DocumentSymbolBatchExtraction, DocumentSymbolExtractionView, LspRange, SymbolView};
use crate::symbols::{
    is_callable_symbol_kind, is_reference_target_kind, is_position_error, lsp_range_from_text_range,
    range_failure, spec_is_callable_symbol_kind, spec_is_reference_target_kind, spec_lsp_range,
    string_views,
};

verus! {

/// A symbol that relations are asked for, with the protocol location the
/// language server is asked about.
pub struct TargetContext {
    pub file_path: String,
    pub selection_range: LspRange,
    /// The file of the symbol in the batch.
    pub file_index: usize,
    /// The symbol in its file.
    pub symbol_index: usize,
}

/// Whether a symbol of `kind` is a target: a callable one for calls, a
/// referable one for references.
pub open spec fn target_kind_ok(kind: Seq<char>, callable: bool) -> bool {
    if callable {
        spec_is_callable_symbol_kind(kind)
    } else {
        spec_is_reference_target_kind(kind)
    }
}

/// The targets of one file, as (file, symbol) indices in symbol order.
pub open spec fn file_candidates(symbols: Seq<SymbolView>, f: int, callable: bool) -> Seq<(int, int)>
    decreases symbols.len(),
{
    if symbols.len() == 0 {
        Seq::<(int, int)>::empty()
    } else {
        file_candidates(symbols.drop_last(), f, callable) + if target_kind_ok(symbols.last().kind, callable) {
            seq![(f, symbols.len() - 1)]
        } else {
            Seq::<(int, int)>::empty()
        }
    }
}

/// The targets of a batch, file by file.
pub open spec fn all_candidates(exs: Seq<DocumentSymbolExtractionView>, callable: bool) -> Seq<(int, int)>
    decreases exs.len(),
{
    if exs.len() == 0 {
        Seq::<(int, int)>::empty()
    } else {
        all_candidates(exs.drop_last(), callable) + file_candidates(exs.last().symbols, exs.len() - 1, callable)
    }
}

/// The selection range of the symbol at (file, symbol) indices.
pub open spec fn candidate_selection(exs: Seq<DocumentSymbolExtractionView>, c: (int, int)) -> crate::model::TextRange {
    exs[c.0].symbols[c.1].selection_range
}

/// Why the first target whose selection range cannot be written as a
/// protocol range fails (see `range_failure`), or `None`.
pub open spec fn candidates_failure(exs: Seq<DocumentSymbolExtractionView>, cands: Seq<(int, int)>) -> Option<bool>
    decreases cands.len(),
{
    if cands.len() == 0 {
        None
    } else {
        match candidates_failure(exs, cands.drop_last()) {
            Some(line) => Some(line),
            None => range_failure(candidate_selection(exs, cands.last())),
        }
    }
}

/// The contexts for the targets of a batch, given each file's canonical
/// path.
pub open spec fn contexts_match(
    contexts: Seq<TargetContext>,
    exs: Seq<DocumentSymbolExtractionView>,
    paths: Seq<Seq<char>>,
    cands: Seq<(int, int)>,
) -> bool {
    &&& contexts.len() == cands.len()
    &&& forall|k: int|
        0 <= k < cands.len() ==> {
            let c = #[trigger] contexts[k];
            &&& c.file_index == cands[k].0
            &&& c.symbol_index == cands[k].1
            &&& c.file_path@ == paths[cands[k].0]
            &&& c.selection_range == spec_lsp_range(candidate_selection(exs, cands[k]))
        }
}

/// What the target contexts of a batch are: an error for the first target
/// whose selection range does not fit the protocol, else one context per
/// target.
pub open spec fn target_contexts_result(
    result: Result<Vec<TargetContext>, ExtractError>,
    exs: Seq<DocumentSymbolExtractionView>,
    paths: Seq<Seq<char>>,
    callable: bool,
) -> bool {
    let cands = all_candidates(exs, callable);
    match candidates_failure(exs, cands) {
        Some(line) => result matches Err(e) && is_position_error(e, line),
        None => result matches Ok(v) && contexts_match(v@, exs, paths, cands),
    }
}

/// Candidates are indices of symbols of the batch.
pub proof fn lemma_candidates_valid(exs: Seq<DocumentSymbolExtractionView>, callable: bool)
    ensures
        forall|k: int|
            0 <= k < all_candidates(exs, callable).len() ==> {
                let c = #[trigger] all_candidates(exs, callable)[k];
                &&& 0 <= c.0 < exs.len()
                &&& 0 <= c.1 < exs[c.0].symbols.len()
                &&& target_kind_ok(exs[c.0].symbols[c.1].kind, callable)
            },
    decreases exs.len(),
{
    if exs.len() > 0 {
        lemma_candidates_valid(exs.drop_last(), callable);
        lemma_file_candidates_valid(exs.last().symbols, exs.len() - 1, callable);
        let a = all_candidates(exs.drop_last(), callable);
        let b = file_candidates(exs.last().symbols, exs.len() - 1, callable);
        assert forall|k: int| 0 <= k < all_candidates(exs, callable).len() implies {
            let c = #[trigger] all_candidates(exs, callable)[k];
            &&& 0 <= c.0 < exs.len()
            &&& 0 <= c.1 < exs[c.0].symbols.len()
            &&& target_kind_ok(exs[c.0].symbols[c.1].kind, callable)
        } by {
            if k < a.len() {
                assert(all_candidates(exs, callable)[k] == a[k]);
                assert(exs.drop_last()[a[k].0] == exs[a[k].0]);
            } else {
                assert(all_candidates(exs, callable)[k] == b[k - a.len()]);
            }
        }
    }
}

/// Candidates of one file are indices of its symbols.
proof fn lemma_file_candidates_valid(symbols: Seq<SymbolView>, f: int, callable: bool)
    ensures
        forall|k: int|
            0 <= k < file_candidates(symbols, f, callable).len() ==> {
                let c = #[trigger] file_candidates(symbols, f, callable)[k];
                &&& c.0 == f
                &&& 0 <= c.1 < symbols.len()
                &&& target_kind_ok(symbols[c.1].kind, callable)
            },
    decreases symbols.len(),
{
    if symbols.len() > 0 {
        lemma_file_candidates_valid(symbols.drop_last(), f, callable);
        let a = file_candidates(symbols.drop_last(), f, callable);
        assert forall|k: int| 0 <= k < file_candidates(symbols, f, callable).len() implies {
            let c = #[trigger] file_candidates(symbols, f, callable)[k];
            &&& c.0 == f
            &&& 0 <= c.1 < symbols.len()
            &&& target_kind_ok(symbols[c.1].kind, callable)
        } by {
            if k < a.len() {
                assert(file_candidates(symbols, f, callable)[k] == a[k]);
                assert(symbols.drop_last()[a[k].1] == symbols[a[k].1]);
            }
        }
    }
}

/// A failure in a prefix of the candidates is the failure of them all.
proof fn lemma_failure_prefix(exs: Seq<DocumentSymbolExtractionView>, a: Seq<(int, int)>, b: Seq<(int, int)>)
    requires
        a.len() <= b.len(),
        b.subrange(0, a.len() as int) == a,
        candidates_failure(exs, a) is Some,
    ensures
        candidates_failure(exs, b) == candidates_failure(exs, a),
    decreases b.len(),
{
    if b.len() == a.len() {
        assert(b =~= a);
    } else {
        assert(b.drop_last().subrange(0, a.len() as int) =~= a);
        lemma_failure_prefix(exs, a, b.drop_last());
    }
}

/// The candidates of a prefix of the files, then of a prefix of the next
/// file's symbols, begin the candidates of the whole batch.
proof fn lemma_candidates_prefix(exs: Seq<DocumentSymbolExtractionView>, f: int, s: int, callable: bool)
    requires
        0 <= f < exs.len(),
        0 <= s <= exs[f].symbols.len(),
    ensures
        ({
            let pre = all_candidates(exs.take(f), callable) + file_candidates(exs[f].symbols.take(s), f, callable);
            let all = all_candidates(exs, callable);
            pre.len() <= all.len() && all.subrange(0, pre.len() as int) == pre
        }),
{
    lemma_file_prefix(exs[f].symbols, s, f, callable);
    lemma_all_prefix(exs, f + 1, callable);
    assert(exs.take(f + 1).drop_last() =~= exs.take(f));
    assert(exs.take(f + 1).last() == exs[f]);
    let a = all_candidates(exs.take(f), callable);
    let fs = file_candidates(exs[f].symbols.take(s), f, callable);
    let ff = file_candidates(exs[f].symbols, f, callable);
    let mid = all_candidates(exs.take(f + 1), callable);
    let all = all_candidates(exs, callable);
    assert(mid == a + ff);
    assert((a + ff).subrange(0, (a + fs).len() as int) =~= a + fs);
    assert(all.subrange(0, (a + fs).len() as int) =~= mid.subrange(0, (a + fs).len() as int));
}

/// The candidates of a prefix of a file's symbols begin its candidates.
proof fn lemma_file_prefix(symbols: Seq<SymbolView>, s: int, f: int, callable: bool)
    requires
        0 <= s <= symbols.len(),
    ensures
        ({
            let pre = file_candidates(symbols.take(s), f, callable);
            let all = file_candidates(symbols, f, callable);
            pre.len() <= all.len() && all.subrange(0, pre.len() as int) == pre
        }),
    decreases symbols.len(),
{
    if s == symbols.len() {
        assert(symbols.take(s) =~= symbols);
        assert(file_candidates(symbols, f, callable).subrange(0, file_candidates(symbols, f, callable).len() as int)
            =~= file_candidates(symbols, f, callable));
    } else {
        lemma_file_prefix(symbols.drop_last(), s, f, callable);
        assert(symbols.drop_last().take(s) =~= symbols.take(s));
        let pre = file_candidates(symbols.take(s), f, callable);
        let mid = file_candidates(symbols.drop_last(), f, callable);
        let all = file_candidates(symbols, f, callable);
        assert(all.subrange(0, pre.len() as int) =~= mid.subrange(0, pre.len() as int));
    }
}

/// The candidates of a prefix of the files begin the candidates of all.
proof fn lemma_all_prefix(exs: Seq<DocumentSymbolExtractionView>, f: int, callable: bool)
    requires
        0 <= f <= exs.len(),
    ensures
        ({
            let pre = all_candidates(exs.take(f), callable);
            let all = all_candidates(exs, callable);
            pre.len() <= all.len() && all.subrange(0, pre.len() as int) == pre
        }),
    decreases exs.len(),
{
    if f == exs.len() {
        assert(exs.take(f) =~= exs);
        assert(all_candidates(exs, callable).subrange(0, all_candidates(exs, callable).len() as int)
            =~= all_candidates(exs, callable));
    } else {
        lemma_all_prefix(exs.drop_last(), f, callable);
        assert(exs.drop_last().take(f) =~= exs.take(f));
        let pre = all_candidates(exs.take(f), callable);
        let mid = all_candidates(exs.drop_last(), callable);
        let all = all_candidates(exs, callable);
        assert(all.subrange(0, pre.len() as int) =~= mid.subrange(0, pre.len() as int));
    }
}

/// The target contexts of a batch: each symbol of a target kind, with its
/// file's canonical path and its selection range as a protocol range.
pub fn target_contexts(
    document_symbols: &DocumentSymbolBatchExtraction,
    canonical_paths: &Vec<String>,
    callable: bool,
) -> (result: Result<Vec<TargetContext>, ExtractError>)
    requires
        canonical_paths@.len() == document_symbols.extractions@.len(),
    ensures
        target_contexts_result(result, document_symbols@.extractions, string_views(canonical_paths@), callable),
{
    let ghost exs = document_symbols@.extractions;
    let ghost paths = string_views(canonical_paths@);
    let mut targets: Vec<TargetContext> = Vec::new();
    let mut f: usize = 0;
    while f < document_symbols.extractions.len()
        invariant
            exs == document_symbols@.extractions,
            paths == string_views(canonical_paths@),
            canonical_paths@.len() == exs.len(),
            f <= exs.len(),
            candidates_failure(exs, all_candidates(exs.take(f as int), callable)) is None,
            contexts_match(targets@, exs, paths, all_candidates(exs.take(f as int), callable)),
        decreases exs.len() - f,
    {
        let file_extraction = &document_symbols.extractions[f];
        let ghost syms = exs[f as int].symbols;
        assert(syms == file_extraction.symbols@.map_values(|s: crate::model::ExtractedSymbol| s@));
        let mut s: usize = 0;
        proof {
            assert(syms.take(0) =~= Seq::<SymbolView>::empty());
            assert(all_candidates(exs.take(f as int), callable) + file_candidates(syms.take(0), f as int, callable)
                =~= all_candidates(exs.take(f as int), callable));
        }
        while s < file_extraction.symbols.len()
            invariant
                exs == document_symbols@.extractions,
                paths == string_views(canonical_paths@),
                canonical_paths@.len() == exs.len(),
                f < exs.len(),
                file_extraction == document_symbols.extractions@[f as int],
                syms == exs[f as int].symbols,
                syms == file_extraction.symbols@.map_values(|x: crate::model::ExtractedSymbol| x@),
                s <= syms.len(),
                candidates_failure(
                    exs,
                    all_candidates(exs.take(f as int), callable) + file_candidates(syms.take(s as int), f as int, callable),
                ) is None,
                contexts_match(
                    targets@,
                    exs,
                    paths,
                    all_candidates(exs.take(f as int), callable) + file_candidates(syms.take(s as int), f as int, callable),
                ),
            decreases syms.len() - s,
        {
            let ghost pre = all_candidates(exs.take(f as int), callable) + file_candidates(
                syms.take(s as int),
                f as int,
                callable,
            );
            let symbol = &file_extraction.symbols[s];
            proof {
                assert(syms.take(s + 1).drop_last() =~= syms.take(s as int));
                assert(syms.take(s + 1).last() == syms[s as int]);
                assert(syms[s as int] == symbol@);
            }
            let ok = if callable {
                is_callable_symbol_kind(symbol.kind.as_str())
            } else {
                is_reference_target_kind(symbol.kind.as_str())
            };
            if ok {
                let ghost c = (f as int, s as int);
                let ghost next = pre.push(c);
                proof {
                    assert(all_candidates(exs.take(f as int), callable) + file_candidates(syms.take(s + 1), f as int, callable)
                        =~= next);
                    assert(next.drop_last() =~= pre);
                    assert(candidate_selection(exs, c) == symbol.selection_range);
                }
                match lsp_range_from_text_range(symbol.selection_range) {
                    Err(e) => {
                        proof {
                            assert(candidates_failure(exs, next) is Some);
                            lemma_candidates_prefix(exs, f as int, s + 1, callable);
                            lemma_failure_prefix(exs, next, all_candidates(exs, callable));
                        }
                        return Err(e);
                    },
                    Ok(selection_range) => {
                        let ctx = TargetContext {
                            file_path: canonical_paths[f].clone(),
                            selection_range,
                            file_index: f,
                            symbol_index: s,
                        };
                        let ghost before = targets@;
                        targets.push(ctx);
                        proof {
                            assert(paths[f as int] == canonical_paths@[f as int]@);
                            assert forall|k: int| 0 <= k < next.len() implies {
                                let t = #[trigger] targets@[k];
                                &&& t.file_index == next[k].0
                                &&& t.symbol_index == next[k].1
                                &&& t.file_path@ == paths[next[k].0]
                                &&& t.selection_range == spec_lsp_range(candidate_selection(exs, next[k]))
                            } by {
                                if k < pre.len() {
                                    assert(targets@[k] == before[k]);
                                }
                            }
                        }
                    },
                }
            } else {
                proof {
                    assert(all_candidates(exs.take(f as int), callable) + file_candidates(syms.take(s + 1), f as int, callable)
                        =~= pre);
                }
            }
            s = s + 1;
        }
        proof {
            assert(syms.take(s as int) =~= syms);
            assert(exs.take(f + 1).drop_last() =~= exs.take(f as int));
            assert(exs.take(f + 1).last() == exs[f as int]);
        }
        f = f + 1;
    }
    proof {
        assert(exs.take(f as int) =~= exs);
    }
    Ok(targets)
}


/// Every symbol of a target kind in a file is among the file's targets.
proof fn lemma_file_candidates_complete(symbols: Seq<SymbolView>, f: int, callable: bool, s: int)
    requires
        0 <= s < symbols.len(),
        target_kind_ok(symbols[s].kind, callable),
    ensures
        file_candidates(symbols, f, callable).contains((f, s)),
    decreases symbols.len(),
{
    let a = file_candidates(symbols.drop_last(), f, callable);
    if s == symbols.len() - 1 {
        assert(file_candidates(symbols, f, callable)[a.len() as int] == (f, s));
    } else {
        assert(symbols.drop_last()[s] == symbols[s]);
        lemma_file_candidates_complete(symbols.drop_last(), f, callable, s);
        let k = choose|k: int| 0 <= k < a.len() && a[k] == (f, s);
        assert(file_candidates(symbols, f, callable)[k] == (f, s));
    }
}

/// Every symbol of a target kind in a batch is among its targets.
proof fn lemma_all_candidates_complete(exs: Seq<DocumentSymbolExtractionView>, callable: bool, f: int, s: int)
    requires
        0 <= f < exs.len(),
        0 <= s < exs[f].symbols.len(),
        target_kind_ok(exs[f].symbols[s].kind, callable),
    ensures
        all_candidates(exs, callable).contains((f, s)),
    decreases exs.len(),
{
    let a = all_candidates(exs.drop_last(), callable);
    let b = file_candidates(exs.last().symbols, exs.len() - 1, callable);
    if f == exs.len() - 1 {
        lemma_file_candidates_complete(exs.last().symbols, f, callable, s);
        let k = choose|k: int| 0 <= k < b.len() && b[k] == (f, s);
        assert(all_candidates(exs, callable)[a.len() + k] == (f, s));
    } else {
        assert(exs.drop_last()[f] == exs[f]);
        lemma_all_candidates_complete(exs.drop_last(), callable, f, s);
        let k = choose|k: int| 0 <= k < a.len() && a[k] == (f, s);
        assert(all_candidates(exs, callable)[k] == (f, s));
    }
}

/// The reference targets of a batch are exactly its symbols of the
/// referable kinds (methods, constructors, classes, structs, enums, enum
/// members, interfaces, fields, properties, events, modules, variables,
/// constants): each such symbol is a target and every target is one.
pub proof fn lemma_reference_targets_are_referable_symbols(exs: Seq<DocumentSymbolExtractionView>, f: int, s: int)
    requires
        0 <= f < exs.len(),
        0 <= s < exs[f].symbols.len(),
    ensures
        all_candidates(exs, false).contains((f, s)) <==> crate::symbols::reference_target_kinds().contains(
            exs[f].symbols[s].kind,
        ),
{
    crate::symbols::lemma_reference_target_kinds(exs[f].symbols[s].kind);
    if crate::symbols::reference_target_kinds().contains(exs[f].symbols[s].kind) {
        lemma_all_candidates_complete(exs, false, f, s);
    }
    if all_candidates(exs, false).contains((f, s)) {
        lemma_candidates_valid(exs, false);
        let k = choose|k: int| 0 <= k < all_candidates(exs, false).len() && all_candidates(exs, false)[k] == (f, s);
        assert(target_kind_ok(exs[f].symbols[s].kind, false));
    }
}

/// The call targets of a batch are exactly its symbols of the callable
/// kinds (methods, constructors, properties, fields, events).
pub proof fn lemma_call_targets_are_callable_symbols(exs: Seq<DocumentSymbolExtractionView>, f: int, s: int)
    requires
        0 <= f < exs.len(),
        0 <= s < exs[f].symbols.len(),
    ensures
        all_candidates(exs, true).contains((f, s)) <==> crate::symbols::callable_kinds().contains(
            exs[f].symbols[s].kind,
        ),
{
    crate::symbols::lemma_callable_kinds(exs[f].symbols[s].kind);
    if crate::symbols::callable_kinds().contains(exs[f].symbols[s].kind) {
        lemma_all_candidates_complete(exs, true, f, s);
    }
    if all_candidates(exs, true).contains((f, s)) {
        lemma_candidates_valid(exs, true);
        let k = choose|k: int| 0 <= k < all_candidates(exs, true).len() && all_candidates(exs, true)[k] == (f, s);
        assert(target_kind_ok(exs[f].symbols[s].kind, true));
    }
}

} // verus!
