use vstd::prelude::*;

use crate::error::ExtractError;
use crate::model::{opt_str, DocumentSymbolExtraction, RelationView, SymbolView, TextRange};
use crate::routes::{GraphLanguage, ProviderId, RouteName};
use crate::summary::{ExtractionPersister, PersistenceSummary};
use crate::text::{chars_of, push_str, str_eq, string_from_chars};

verus! {

/// A graph node that a file's symbol batch writes. Its node id is derived
/// from the workspace, its language and its symbol key; its display name
/// is its name.
pub struct NodeRecord {
    pub language: GraphLanguage,
    pub kind: String,
    pub name: String,
    pub qualified_name: Option<String>,
    pub symbol_key: String,
    pub range: Option<TextRange>,
    pub selection_range: Option<TextRange>,
    /// The symbol key of the containing node.
    pub container_key: Option<String>,
}

/// The definition occurrence of a symbol.
pub struct OccurrenceRecord {
    pub symbol_key: String,
    pub range: TextRange,
    /// The symbol key of the enclosing node.
    pub enclosing_key: Option<String>,
}

/// A contains edge between two nodes of the file.
pub struct EdgeRecord {
    pub source_key: String,
    pub target_key: String,
    pub relation: String,
    pub confidence: String,
    pub confidence_score_millis: u32,
    pub range: Option<TextRange>,
}

/// Everything one file's document-symbol batch writes: the file row, the
/// route status started and completed for the file, its nodes (the file
/// node first, then each symbol), their observations and definition
/// occurrences, the contains edges with their observations and evidence,
/// and, where asked, the closing of stale nodes and edges of the route.
pub struct DocumentSymbolFileRecords {
    pub workspace_id: i64,
    pub run_id: i64,
    pub route: RouteName,
    pub provider: ProviderId,
    pub provider_version: Option<String>,
    pub file_uri: String,
    pub file_path: String,
    pub source_language: GraphLanguage,
    pub content_hash: Option<String>,
    pub nodes: Vec<NodeRecord>,
    pub occurrences: Vec<OccurrenceRecord>,
    pub edges: Vec<EdgeRecord>,
    /// How many distinct nodes the file has.
    pub node_count: usize,
    pub close_stale: bool,
}

/// Whether `k` is the file key or the key of one of `syms`.
pub open spec fn key_known(file_key: Seq<char>, syms: Seq<SymbolView>, k: Seq<char>) -> bool {
    k == file_key || exists|j: int| 0 <= j < syms.len() && (#[trigger] syms[j]).symbol_key == k
}

/// The index of the first symbol whose parent is neither the file nor a
/// symbol before it.
pub open spec fn first_orphan(file_key: Seq<char>, syms: Seq<SymbolView>) -> Option<int>
    decreases syms.len(),
{
    if syms.len() == 0 {
        None
    } else {
        match first_orphan(file_key, syms.drop_last()) {
            Some(i) => Some(i),
            None => match syms.last().parent_symbol_key {
                Some(p) => if key_known(file_key, syms.drop_last(), p) {
                    None
                } else {
                    Some(syms.len() - 1)
                },
                None => None,
            },
        }
    }
}

/// The first relation with an end that is no node of the file, and whether
/// its source (rather than its target) is the missing end.
pub open spec fn first_dangling(file_key: Seq<char>, syms: Seq<SymbolView>, rels: Seq<RelationView>) -> Option<(int, bool)>
    decreases rels.len(),
{
    if rels.len() == 0 {
        None
    } else {
        match first_dangling(file_key, syms, rels.drop_last()) {
            Some(x) => Some(x),
            None => if !key_known(file_key, syms, rels.last().source_symbol_key) {
                Some((rels.len() - 1, true))
            } else if !key_known(file_key, syms, rels.last().target_symbol_key) {
                Some((rels.len() - 1, false))
            } else {
                None
            },
        }
    }
}

/// The last segment of a relative path.
pub open spec fn basename(path: Seq<char>) -> Seq<char> {
    if exists|k: int| 0 <= k < path.len() && path[k] == '/' {
        let k = choose|k: int| 0 <= k < path.len() && path[k] == '/' && forall|j: int| k < j < path.len() ==> path[j] != '/';
        path.subrange(k + 1, path.len() as int)
    } else {
        path
    }
}

/// The distinct node keys of a file: the file key and each symbol key.
pub open spec fn node_keys(file_key: Seq<char>, syms: Seq<SymbolView>) -> Set<Seq<char>> {
    syms.map_values(|s: SymbolView| s.symbol_key).to_set().insert(file_key)
}

/// The records of a file whose symbols and relations are all connected.
pub open spec fn records_match(r: DocumentSymbolFileRecords, e: DocumentSymbolExtraction, workspace_id: i64, run_id: i64, close_stale: bool) -> bool {
    let ev = e@;
    let syms = ev.symbols;
    let rels = ev.relations;
    let file = ev.source_file;
    &&& r.workspace_id == workspace_id
    &&& r.run_id == run_id
    &&& r.route == match e.language {
        GraphLanguage::Rust => RouteName::RustDocumentSymbols,
        GraphLanguage::CSharp => RouteName::CSharpDocumentSymbols,
        GraphLanguage::Soul => RouteName::SoulDocumentSymbols,
    }
    &&& r.provider == e.provider
    &&& opt_str(r.provider_version) == ev.provider_version
    &&& r.file_uri@ == file.uri
    &&& r.file_path@ == file.relative_path
    &&& r.source_language == file.language
    &&& opt_str(r.content_hash) == file.content_hash
    &&& r.close_stale == close_stale
    &&& r.node_count == node_keys(file.file_symbol_key, syms).len()
    &&& r.nodes@.len() == syms.len() + 1
    &&& r.nodes@[0].language == e.language
    &&& r.nodes@[0].kind@ == "file"@
    &&& r.nodes@[0].name@ == basename(file.relative_path)
    &&& opt_str(r.nodes@[0].qualified_name) == Some(file.relative_path)
    &&& r.nodes@[0].symbol_key@ == file.file_symbol_key
    &&& r.nodes@[0].range is None && r.nodes@[0].selection_range is None && r.nodes@[0].container_key is None
    &&& forall|j: int|
        0 <= j < syms.len() ==> {
            let n = #[trigger] r.nodes@[j + 1];
            let s = syms[j];
            &&& n.language == s.language
            &&& n.kind@ == s.kind
            &&& n.name@ == s.name
            &&& opt_str(n.qualified_name) == s.qualified_name
            &&& n.symbol_key@ == s.symbol_key
            &&& n.range == Some(s.range)
            &&& n.selection_range == Some(s.selection_range)
            &&& opt_str(n.container_key) == s.parent_symbol_key
        }
    &&& r.occurrences@.len() == syms.len()
    &&& forall|j: int|
        0 <= j < syms.len() ==> {
            let o = #[trigger] r.occurrences@[j];
            &&& o.symbol_key@ == syms[j].symbol_key
            &&& o.range == syms[j].selection_range
            &&& opt_str(o.enclosing_key) == syms[j].parent_symbol_key
        }
    &&& r.edges@.len() == rels.len()
    &&& forall|k: int|
        0 <= k < rels.len() ==> {
            let d = #[trigger] r.edges@[k];
            &&& d.source_key@ == rels[k].source_symbol_key
            &&& d.target_key@ == rels[k].target_symbol_key
            &&& d.relation@ == rels[k].relation
            &&& d.confidence@ == rels[k].confidence
            &&& d.confidence_score_millis == rels[k].confidence_score_millis
            &&& d.range == rels[k].range
        }
}

/// The error for a symbol whose parent is missing.
pub open spec fn orphan_error(e: ExtractError, provider: ProviderId, key: Seq<char>, parent: Seq<char>) -> bool {
    e matches ExtractError::ResponseShape { provider: p, method, message } && p@ == provider.spec_str() && method@
        == "textDocument/documentSymbol"@ && message@ == "symbol "@ + key + " references missing parent "@ + parent
}

/// The error for a relation whose source or target is missing.
pub open spec fn dangling_error(e: ExtractError, provider: ProviderId, key: Seq<char>, source: bool) -> bool {
    e matches ExtractError::ResponseShape { provider: p, method, message } && p@ == provider.spec_str() && method@
        == "textDocument/documentSymbol"@ && message@ == (if source {
        "relation source "@
    } else {
        "relation target "@
    }) + key + " was not persisted"@
}

/// The summary after a file's batch: one more file and route, its distinct
/// nodes, and one edge, evidence row and occurrence per relation or symbol.
pub open spec fn summary_after_file(s: PersistenceSummary, node_count: nat, symbols: nat, relations: nat) -> PersistenceSummary {
    PersistenceSummary {
        files: (s.files + 1) as usize,
        nodes: (s.nodes + node_count) as usize,
        edges: (s.edges + relations) as usize,
        occurrences: (s.occurrences + symbols) as usize,
        evidence: (s.evidence + relations) as usize,
        routes_complete: (s.routes_complete + 1) as usize,
        ..s
    }
}

/// The last segment of a relative path.
fn file_basename(path: &str) -> (name: String)
    ensures
        name@ == basename(path@),
{
    let chars = chars_of(path);
    let mut k: usize = chars.len();
    while k > 0 && chars[k - 1] != '/'
        invariant
            chars@ == path@,
            k <= chars@.len(),
            forall|j: int| k <= j < chars@.len() ==> chars@[j] != '/',
        decreases k,
    {
        k = k - 1;
    }
    if k == 0 {
        assert(chars@.subrange(0, chars@.len() as int) =~= chars@);
        return string_from_chars(&chars, 0, chars.len());
    }
    proof {
        let kk = choose|kk: int| 0 <= kk < path@.len() && path@[kk] == '/' && forall|j: int| kk < j < path@.len() ==> path@[j] != '/';
        if kk < k - 1 {
            assert(path@[k - 1] != '/');
        } else if kk > k - 1 {
            assert(chars@[kk] != '/');
        }
    }
    string_from_chars(&chars, k, chars.len())
}

/// Whether `k` is among `keys`.
fn has_key(keys: &Vec<String>, k: &str) -> (r: bool)
    ensures
        r == keys@.map_values(|s: String| s@).contains(k@),
{
    let mut i: usize = 0;
    while i < keys.len()
        invariant
            i <= keys@.len(),
            forall|j: int| 0 <= j < i ==> keys@[j]@ != k@,
        decreases keys@.len() - i,
    {
        if str_eq(keys[i].as_str(), k) {
            assert(keys@.map_values(|s: String| s@)[i as int] == k@);
            return true;
        }
        i = i + 1;
    }
    proof {
        let kv = keys@.map_values(|s: String| s@);
        if kv.contains(k@) {
            let j = choose|j: int| 0 <= j < kv.len() && #[trigger] kv[j] == k@;
            assert(keys@[j]@ == k@);
        }
    }
    false
}

/// An orphan found in a prefix of the symbols is the first of all.
proof fn lemma_first_orphan_prefix(file_key: Seq<char>, syms: Seq<SymbolView>, n: int)
    requires
        0 <= n <= syms.len(),
        first_orphan(file_key, syms.take(n)) is Some,
    ensures
        first_orphan(file_key, syms) == first_orphan(file_key, syms.take(n)),
    decreases syms.len(),
{
    if n == syms.len() {
        assert(syms.take(n) =~= syms);
    } else {
        assert(syms.drop_last().take(n) =~= syms.take(n));
        lemma_first_orphan_prefix(file_key, syms.drop_last(), n);
    }
}

/// A dangling relation found in a prefix of the relations is the first of
/// all.
proof fn lemma_first_dangling_prefix(file_key: Seq<char>, syms: Seq<SymbolView>, rels: Seq<RelationView>, n: int)
    requires
        0 <= n <= rels.len(),
        first_dangling(file_key, syms, rels.take(n)) is Some,
    ensures
        first_dangling(file_key, syms, rels) == first_dangling(file_key, syms, rels.take(n)),
    decreases rels.len(),
{
    if n == rels.len() {
        assert(rels.take(n) =~= rels);
    } else {
        assert(rels.drop_last().take(n) =~= rels.take(n));
        lemma_first_dangling_prefix(file_key, syms, rels.drop_last(), n);
    }
}

impl ExtractionPersister {
    /// The records that one file's document-symbol batch writes, with the
    /// summary counted on. Every symbol's parent must be the file or an
    /// earlier symbol, and every relation must join nodes of the file.
    pub fn push_document_symbol_file_write_batch(
        &self,
        summary: &mut PersistenceSummary,
        workspace_id: i64,
        run_id: i64,
        extraction: &DocumentSymbolExtraction,
        close_stale: bool,
    ) -> (result: Result<DocumentSymbolFileRecords, ExtractError>)
        requires
            old(summary).files + 1 <= usize::MAX,
            old(summary).nodes + extraction.symbols@.len() + 1 <= usize::MAX,
            old(summary).edges + extraction.relations@.len() <= usize::MAX,
            old(summary).occurrences + extraction.symbols@.len() <= usize::MAX,
            old(summary).evidence + extraction.relations@.len() <= usize::MAX,
            old(summary).routes_complete + 1 <= usize::MAX,
        ensures
            ({
                let ev = extraction@;
                let file_key = ev.source_file.file_symbol_key;
                match first_orphan(file_key, ev.symbols) {
                    Some(i) => result matches Err(e) && orphan_error(
                        e,
                        extraction.provider,
                        ev.symbols[i].symbol_key,
                        ev.symbols[i].parent_symbol_key->0,
                    ) && *final(summary) == *old(summary),
                    None => match first_dangling(file_key, ev.symbols, ev.relations) {
                        Some((k, source)) => result matches Err(e) && dangling_error(
                            e,
                            extraction.provider,
                            if source {
                                ev.relations[k].source_symbol_key
                            } else {
                                ev.relations[k].target_symbol_key
                            },
                            source,
                        ) && *final(summary) == *old(summary),
                        None => result matches Ok(r) && records_match(r, *extraction, workspace_id, run_id, close_stale)
                            && *final(summary) == summary_after_file(
                            *old(summary),
                            r.node_count as nat,
                            ev.symbols.len(),
                            ev.relations.len(),
                        ),
                    },
                }
            }),
    {
        let ghost ev = extraction@;
        let ghost syms = ev.symbols;
        let ghost rels = ev.relations;
        let file = &extraction.source_file;
        let ghost file_key = file.file_symbol_key@;
        let route = RouteName::document_symbols_for_language(extraction.language);
        let mut nodes: Vec<NodeRecord> = Vec::new();
        nodes.push(
            NodeRecord {
                language: extraction.language,
                kind: {
                    let mut k = String::new();
                    push_str(&mut k, "file");
                    k
                },
                name: file_basename(file.relative_path.as_str()),
                qualified_name: Some(file.relative_path.clone()),
                symbol_key: file.file_symbol_key.clone(),
                range: None,
                selection_range: None,
                container_key: None,
            },
        );
        let mut occurrences: Vec<OccurrenceRecord> = Vec::new();
        let mut seen: Vec<String> = Vec::new();
        let mut distinct: Vec<String> = Vec::new();
        seen.push(file.file_symbol_key.clone());
        distinct.push(file.file_symbol_key.clone());
        proof {
            assert(seen@.map_values(|s: String| s@) =~= seq![file_key]);
            assert(distinct@.map_values(|s: String| s@) =~= seq![file_key]);
            assert(syms.take(0) =~= Seq::<SymbolView>::empty());
            broadcast use vstd::set::group_set_axioms;
            assert(syms.take(0).map_values(|s: SymbolView| s.symbol_key) =~= Seq::<Seq<char>>::empty());
            assert(Seq::<Seq<char>>::empty().to_set() =~= Set::<Seq<char>>::empty());
            assert forall|x: Seq<char>| seq![file_key].to_set().contains(x) <==> x == file_key by {
                if x == file_key {
                    assert(seq![file_key][0] == x);
                }
            }
            assert(node_keys(file_key, syms.take(0)) =~= seq![file_key].to_set());
            assert(seq![file_key].no_duplicates());
        }
        let mut i: usize = 0;
        while i < extraction.symbols.len()
            invariant
                ev == extraction@,
                syms == ev.symbols,
                file_key == ev.source_file.file_symbol_key,
                file == extraction.source_file,
                i <= syms.len(),
                first_orphan(file_key, syms.take(i as int)) is None,
                seen@.map_values(|s: String| s@) == seq![file_key] + syms.take(i as int).map_values(|s: SymbolView| s.symbol_key),
                distinct@.map_values(|s: String| s@).no_duplicates(),
                distinct@.map_values(|s: String| s@).to_set() == node_keys(file_key, syms.take(i as int)),
                distinct@.len() <= i + 1,
                nodes@.len() == i + 1,
                nodes@[0].language == extraction.language,
                nodes@[0].kind@ == "file"@,
                nodes@[0].name@ == basename(ev.source_file.relative_path),
                opt_str(nodes@[0].qualified_name) == Some(ev.source_file.relative_path),
                nodes@[0].symbol_key@ == file_key,
                nodes@[0].range is None && nodes@[0].selection_range is None && nodes@[0].container_key is None,
                forall|j: int|
                    0 <= j < i ==> {
                        let n = #[trigger] nodes@[j + 1];
                        let s = syms[j];
                        &&& n.language == s.language
                        &&& n.kind@ == s.kind
                        &&& n.name@ == s.name
                        &&& opt_str(n.qualified_name) == s.qualified_name
                        &&& n.symbol_key@ == s.symbol_key
                        &&& n.range == Some(s.range)
                        &&& n.selection_range == Some(s.selection_range)
                        &&& opt_str(n.container_key) == s.parent_symbol_key
                    },
                occurrences@.len() == i,
                forall|j: int|
                    0 <= j < i ==> {
                        let o = #[trigger] occurrences@[j];
                        &&& o.symbol_key@ == syms[j].symbol_key
                        &&& o.range == syms[j].selection_range
                        &&& opt_str(o.enclosing_key) == syms[j].parent_symbol_key
                    },
            decreases syms.len() - i,
        {
            let symbol = &extraction.symbols[i];
            let ghost pre = syms.take(i as int);
            proof {
                assert(syms[i as int] == symbol@);
                assert(syms.take(i + 1).drop_last() =~= pre);
                assert(syms.take(i + 1).last() == symbol@);
            }
            match &symbol.parent_symbol_key {
                Some(parent) => {
                    let known = has_key(&seen, parent.as_str());
                    proof {
                        let sv = seen@.map_values(|s: String| s@);
                        if known {
                            let j = choose|j: int| 0 <= j < sv.len() && sv[j] == parent@;
                            if j > 0 {
                                assert(pre[j - 1].symbol_key == parent@);
                            }
                        } else {
                            assert(sv[0] == file_key);
                            assert forall|j: int| 0 <= j < pre.len() implies (#[trigger] pre[j]).symbol_key != parent@ by {
                                assert(sv[j + 1] == pre[j].symbol_key);
                            }
                        }
                    }
                    if !known {
                        proof {
                            lemma_first_orphan_prefix(file_key, syms, i + 1);
                        }
                        let mut message = String::new();
                        push_str(&mut message, "symbol ");
                        push_str(&mut message, symbol.symbol_key.as_str());
                        push_str(&mut message, " references missing parent ");
                        push_str(&mut message, parent.as_str());
                        return Err(
                            ExtractError::response_shape(
                                extraction.provider.as_str(),
                                "textDocument/documentSymbol",
                                message.as_str(),
                            ),
                        );
                    }
                },
                None => {},
            }
            nodes.push(
                NodeRecord {
                    language: symbol.language,
                    kind: symbol.kind.clone(),
                    name: symbol.name.clone(),
                    qualified_name: crate::model::clone_opt_str(&symbol.qualified_name),
                    symbol_key: symbol.symbol_key.clone(),
                    range: Some(symbol.range),
                    selection_range: Some(symbol.selection_range),
                    container_key: crate::model::clone_opt_str(&symbol.parent_symbol_key),
                },
            );
            occurrences.push(
                OccurrenceRecord {
                    symbol_key: symbol.symbol_key.clone(),
                    range: symbol.selection_range,
                    enclosing_key: crate::model::clone_opt_str(&symbol.parent_symbol_key),
                },
            );
            let ghost before_seen = seen@.map_values(|s: String| s@);
            seen.push(symbol.symbol_key.clone());
            let ghost before_distinct = distinct@.map_values(|s: String| s@);
            let present = has_key(&distinct, symbol.symbol_key.as_str());
            if !present {
                distinct.push(symbol.symbol_key.clone());
            }
            proof {
                let next = syms.take(i + 1);
                assert(seen@.map_values(|s: String| s@) =~= before_seen.push(symbol@.symbol_key));
                assert(next.map_values(|s: SymbolView| s.symbol_key) =~= pre.map_values(|s: SymbolView| s.symbol_key).push(
                    symbol@.symbol_key,
                ));
                assert(seen@.map_values(|s: String| s@) =~= seq![file_key] + next.map_values(|s: SymbolView| s.symbol_key));
                pre.map_values(|s: SymbolView| s.symbol_key).lemma_push_to_set_commute(symbol@.symbol_key);
                assert(node_keys(file_key, next) =~= node_keys(file_key, pre).insert(symbol@.symbol_key));
                if !present {
                    let now = distinct@.map_values(|s: String| s@);
                    assert(now =~= before_distinct.push(symbol@.symbol_key));
                    before_distinct.lemma_push_to_set_commute(symbol@.symbol_key);
                    assert forall|a: int, b: int| 0 <= a < now.len() && 0 <= b < now.len() && a != b implies now[a]
                        != now[b] by {
                        if a < before_distinct.len() && b < before_distinct.len() {
                        } else if a == before_distinct.len() {
                            assert(before_distinct.contains(before_distinct[b]));
                        } else {
                            assert(before_distinct.contains(before_distinct[a]));
                        }
                    }
                } else {
                    assert(before_distinct.to_set().contains(symbol@.symbol_key));
                    assert(before_distinct.to_set().insert(symbol@.symbol_key) =~= before_distinct.to_set());
                }
                if let Some(p) = symbol@.parent_symbol_key {
                    assert(key_known(file_key, pre, p));
                }
            }
            i = i + 1;
        }
        proof {
            assert(syms.take(i as int) =~= syms);
            distinct@.map_values(|s: String| s@).unique_seq_to_set();
        }
        let node_count = distinct.len();
        let ghost all_keys = seen@.map_values(|s: String| s@);
        let mut edges: Vec<EdgeRecord> = Vec::new();
        let mut k: usize = 0;
        assert(rels.take(0) =~= Seq::<RelationView>::empty());
        while k < extraction.relations.len()
            invariant
                ev == extraction@,
                syms == ev.symbols,
                rels == ev.relations,
                file_key == ev.source_file.file_symbol_key,
                all_keys == seen@.map_values(|s: String| s@),
                all_keys == seq![file_key] + syms.map_values(|s: SymbolView| s.symbol_key),
                k <= rels.len(),
                first_orphan(file_key, syms) is None,
                first_dangling(file_key, syms, rels.take(k as int)) is None,
                edges@.len() == k,
                forall|j: int|
                    0 <= j < k ==> {
                        let d = #[trigger] edges@[j];
                        &&& d.source_key@ == rels[j].source_symbol_key
                        &&& d.target_key@ == rels[j].target_symbol_key
                        &&& d.relation@ == rels[j].relation
                        &&& d.confidence@ == rels[j].confidence
                        &&& d.confidence_score_millis == rels[j].confidence_score_millis
                        &&& d.range == rels[j].range
                    },
            decreases rels.len() - k,
        {
            let relation = &extraction.relations[k];
            proof {
                assert(rels[k as int] == relation@);
                assert(rels.take(k + 1).drop_last() =~= rels.take(k as int));
                assert(rels.take(k + 1).last() == relation@);
                assert forall|x: Seq<char>| all_keys.contains(x) <==> key_known(file_key, syms, x) by {
                    if all_keys.contains(x) {
                        let j = choose|j: int| 0 <= j < all_keys.len() && all_keys[j] == x;
                        if j > 0 {
                            assert(syms[j - 1].symbol_key == x);
                        }
                    }
                    if key_known(file_key, syms, x) {
                        if x == file_key {
                            assert(all_keys[0] == x);
                        } else {
                            let j = choose|j: int| 0 <= j < syms.len() && (#[trigger] syms[j]).symbol_key == x;
                            assert(all_keys[j + 1] == x);
                        }
                    }
                }
            }
            if !has_key(&seen, relation.source_symbol_key.as_str()) {
                proof {
                    lemma_first_dangling_prefix(file_key, syms, rels, k + 1);
                }
                let mut message = String::new();
                push_str(&mut message, "relation source ");
                push_str(&mut message, relation.source_symbol_key.as_str());
                push_str(&mut message, " was not persisted");
                return Err(
                    ExtractError::response_shape(extraction.provider.as_str(), "textDocument/documentSymbol", message.as_str()),
                );
            }
            if !has_key(&seen, relation.target_symbol_key.as_str()) {
                proof {
                    lemma_first_dangling_prefix(file_key, syms, rels, k + 1);
                }
                let mut message = String::new();
                push_str(&mut message, "relation target ");
                push_str(&mut message, relation.target_symbol_key.as_str());
                push_str(&mut message, " was not persisted");
                return Err(
                    ExtractError::response_shape(extraction.provider.as_str(), "textDocument/documentSymbol", message.as_str()),
                );
            }
            edges.push(
                EdgeRecord {
                    source_key: relation.source_symbol_key.clone(),
                    target_key: relation.target_symbol_key.clone(),
                    relation: relation.relation.clone(),
                    confidence: relation.confidence.clone(),
                    confidence_score_millis: relation.confidence_score_millis,
                    range: relation.range,
                },
            );
            k = k + 1;
        }
        assert(rels.take(k as int) =~= rels);
        summary.files = summary.files + 1;
        summary.nodes = summary.nodes + node_count;
        summary.edges = summary.edges + extraction.relations.len();
        summary.occurrences = summary.occurrences + extraction.symbols.len();
        summary.evidence = summary.evidence + extraction.relations.len();
        summary.routes_complete = summary.routes_complete + 1;
        Ok(
            DocumentSymbolFileRecords {
                workspace_id,
                run_id,
                route,
                provider: extraction.provider,
                provider_version: crate::model::clone_opt_str(&extraction.provider_version),
                file_uri: file.uri.clone(),
                file_path: file.relative_path.clone(),
                source_language: file.language,
                content_hash: crate::model::clone_opt_str(&file.content_hash),
                nodes,
                occurrences,
                edges,
                node_count,
                close_stale,
            },
        )
    }
}

} // verus!
