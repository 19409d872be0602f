use vstd::prelude::*;

use crate::error::ExtractError;
use crate::model::{DocumentSymbolBatchExtraction, DocumentSymbolExtraction, DocumentSymbolExtractionView};
use crate::providers::{DocumentSymbolProvider, RustAnalyzerProvider};
use crate::routes::{GraphLanguage, ProviderId};
use crate::text::{lemma_seq_less_total, lemma_seq_less_transitive, order_str, push_str, seq_less, str_eq, Order};

verus! {

/// A response-shape error with this provider, method and message.
pub open spec fn is_shape_error(e: ExtractError, provider: Seq<char>, method: Seq<char>, message: Seq<char>) -> bool {
    e matches ExtractError::ResponseShape { provider: p, method: m, message: msg } && p@ == provider && m@ == method
        && msg@ == message
}

/// The scope key of a single-file relation batch: the URI of its one file.
pub fn single_file_scope_key(provider: &str, method: &str, extraction: &DocumentSymbolBatchExtraction) -> (result:
    Result<String, ExtractError>)
    ensures
        extraction.extractions@.len() == 1 ==> (result matches Ok(k) && k@
            == extraction.extractions@[0].source_file.uri@),
        extraction.extractions@.len() == 0 ==> (result matches Err(e) && is_shape_error(
            e,
            provider@,
            method@,
            "single-file relation extraction contained no document-symbol files"@,
        )),
        extraction.extractions@.len() > 1 ==> (result matches Err(e) && is_shape_error(
            e,
            provider@,
            method@,
            "single-file relation extraction contained more than one document-symbol file"@,
        )),
{
    if extraction.extractions.len() == 1 {
        Ok(extraction.extractions[0].source_file.uri.clone())
    } else if extraction.extractions.len() == 0 {
        Err(
            ExtractError::response_shape(
                provider,
                method,
                "single-file relation extraction contained no document-symbol files",
            ),
        )
    } else {
        Err(
            ExtractError::response_shape(
                provider,
                method,
                "single-file relation extraction contained more than one document-symbol file",
            ),
        )
    }
}

/// The index of the first file of a batch with this URI.
pub open spec fn first_file_with_uri(exs: Seq<DocumentSymbolExtractionView>, uri: Seq<char>) -> Option<int>
    decreases exs.len(),
{
    if exs.len() == 0 {
        None
    } else {
        match first_file_with_uri(exs.drop_last(), uri) {
            Some(i) => Some(i),
            None => if exs.last().source_file.uri == uri {
                Some(exs.len() - 1)
            } else {
                None
            },
        }
    }
}

/// The content hash of the file of a batch whose URI is the scope key.
pub fn file_content_hash_for_scope_key(
    provider: &str,
    method: &str,
    extraction: &DocumentSymbolBatchExtraction,
    file_scope_key: &str,
) -> (result: Result<Option<String>, ExtractError>)
    ensures
        match first_file_with_uri(extraction@.extractions, file_scope_key@) {
            Some(i) => result matches Ok(h) && crate::model::opt_str(h) == extraction@.extractions[i].source_file.content_hash,
            None => result matches Err(e) && is_shape_error(
                e,
                provider@,
                method@,
                "source file "@ + file_scope_key@ + " is missing from the relation context"@,
            ),
        },
{
    let ghost exs = extraction@.extractions;
    let mut i: usize = 0;
    while i < extraction.extractions.len()
        invariant
            exs == extraction@.extractions,
            i <= exs.len(),
            first_file_with_uri(exs.take(i as int), file_scope_key@) is None,
        decreases exs.len() - i,
    {
        let file = &extraction.extractions[i];
        proof {
            assert(exs.take(i + 1).drop_last() =~= exs.take(i as int));
            assert(exs.take(i + 1).last() == file@);
        }
        if str_eq(file.source_file.uri.as_str(), file_scope_key) {
            proof {
                lemma_first_file_prefix(exs, i + 1, file_scope_key@);
            }
            return Ok(crate::model::clone_opt_str(&file.source_file.content_hash));
        }
        i = i + 1;
    }
    assert(exs.take(i as int) =~= exs);
    let mut message = String::new();
    push_str(&mut message, "source file ");
    push_str(&mut message, file_scope_key);
    push_str(&mut message, " is missing from the relation context");
    Err(ExtractError::response_shape(provider, method, message.as_str()))
}

/// A file found in a prefix of the batch is the first of the whole batch.
proof fn lemma_first_file_prefix(exs: Seq<DocumentSymbolExtractionView>, n: int, uri: Seq<char>)
    requires
        0 <= n <= exs.len(),
        first_file_with_uri(exs.take(n), uri) is Some,
    ensures
        first_file_with_uri(exs, uri) == first_file_with_uri(exs.take(n), uri),
    decreases exs.len(),
{
    if n == exs.len() {
        assert(exs.take(n) =~= exs);
    } else {
        assert(exs.drop_last().take(n) =~= exs.take(n));
        lemma_first_file_prefix(exs.drop_last(), n, uri);
    }
}

/// Where a batch first mixes languages: `Some(true)` where a file's
/// language differs from the batch's, `Some(false)` where a symbol's does,
/// `None` where nothing differs.
pub open spec fn language_mix(exs: Seq<DocumentSymbolExtractionView>, language: GraphLanguage) -> Option<bool>
    decreases exs.len(),
{
    if exs.len() == 0 {
        None
    } else {
        match language_mix(exs.drop_last(), language) {
            Some(b) => Some(b),
            None => if exs.last().language != language {
                Some(true)
            } else if exists|j: int| 0 <= j < exs.last().symbols.len() && exs.last().symbols[j].language != language {
                Some(false)
            } else {
                None
            },
        }
    }
}

/// A mix found in a prefix of the batch is the first of the whole batch.
proof fn lemma_language_mix_prefix(exs: Seq<DocumentSymbolExtractionView>, n: int, language: GraphLanguage)
    requires
        0 <= n <= exs.len(),
        language_mix(exs.take(n), language) is Some,
    ensures
        language_mix(exs, language) == language_mix(exs.take(n), language),
    decreases exs.len(),
{
    if n == exs.len() {
        assert(exs.take(n) =~= exs);
    } else {
        assert(exs.drop_last().take(n) =~= exs.take(n));
        lemma_language_mix_prefix(exs.drop_last(), n, language);
    }
}

/// The language of a relation batch: the batch's own, once every file and
/// symbol is checked to have it.
pub fn document_symbol_batch_language(provider: &str, method: &str, extraction: &DocumentSymbolBatchExtraction) -> (result:
    Result<GraphLanguage, ExtractError>)
    ensures
        extraction.extractions@.len() == 0 ==> (result matches Err(e) && is_shape_error(
            e,
            provider@,
            method@,
            "relation batch contained no document-symbol files"@,
        )),
        extraction.extractions@.len() > 0 ==> match language_mix(extraction@.extractions, extraction.language) {
            None => result == Ok::<GraphLanguage, ExtractError>(extraction.language),
            Some(true) => result matches Err(e) && is_shape_error(
                e,
                provider@,
                method@,
                "relation batch contained mixed document-symbol languages"@,
            ),
            Some(false) => result matches Err(e) && is_shape_error(
                e,
                provider@,
                method@,
                "relation batch contained mixed symbol languages"@,
            ),
        },
{
    if extraction.extractions.len() == 0 {
        return Err(ExtractError::response_shape(provider, method, "relation batch contained no document-symbol files"));
    }
    let ghost exs = extraction@.extractions;
    let language = extraction.language;
    let mut i: usize = 0;
    while i < extraction.extractions.len()
        invariant
            exs == extraction@.extractions,
            language == extraction.language,
            i <= exs.len(),
            language_mix(exs.take(i as int), language) is None,
        decreases exs.len() - i,
    {
        let file = &extraction.extractions[i];
        proof {
            assert(exs.take(i + 1).drop_last() =~= exs.take(i as int));
            assert(exs.take(i + 1).last() == file@);
        }
        if file.language != language {
            proof {
                lemma_language_mix_prefix(exs, i + 1, language);
            }
            return Err(
                ExtractError::response_shape(provider, method, "relation batch contained mixed document-symbol languages"),
            );
        }
        let mut j: usize = 0;
        while j < file.symbols.len()
            invariant
                exs == extraction@.extractions,
                language == extraction.language,
                i < exs.len(),
                file == extraction.extractions@[i as int],
                exs.take(i + 1).drop_last() == exs.take(i as int),
                exs.take(i + 1).last() == file@,
                language_mix(exs.take(i as int), language) is None,
                file.language == language,
                j <= file.symbols@.len(),
                forall|k: int| 0 <= k < j ==> file.symbols@[k].language == language,
            decreases file.symbols@.len() - j,
        {
            if file.symbols[j].language != language {
                proof {
                    assert(file@.symbols[j as int].language != language);
                    lemma_language_mix_prefix(exs, i + 1, language);
                }
                return Err(ExtractError::response_shape(provider, method, "relation batch contained mixed symbol languages"));
            }
            j = j + 1;
        }
        proof {
            assert forall|k: int| 0 <= k < file@.symbols.len() implies file@.symbols[k].language == language by {
                assert(file@.symbols[k] == file.symbols@[k]@);
            }
        }
        i = i + 1;
    }
    assert(exs.take(i as int) =~= exs);
    Ok(language)
}

/// How many symbols the files of a batch hold.
pub open spec fn total_symbols(exs: Seq<DocumentSymbolExtractionView>) -> nat
    decreases exs.len(),
{
    if exs.len() == 0 {
        0
    } else {
        total_symbols(exs.drop_last()) + exs.last().symbols.len()
    }
}

/// A prefix of the files holds no more symbols than the whole batch.
proof fn lemma_total_symbols_prefix(exs: Seq<DocumentSymbolExtractionView>, n: int)
    requires
        0 <= n <= exs.len(),
    ensures
        total_symbols(exs.take(n)) <= total_symbols(exs),
    decreases exs.len(),
{
    if n == exs.len() {
        assert(exs.take(n) =~= exs);
    } else {
        assert(exs.drop_last().take(n) =~= exs.take(n));
        lemma_total_symbols_prefix(exs.drop_last(), n);
    }
}

/// How many symbols the files of a batch hold.
pub fn symbol_count(document_symbols: &DocumentSymbolBatchExtraction) -> (n: usize)
    requires
        total_symbols(document_symbols@.extractions) <= usize::MAX,
    ensures
        n == total_symbols(document_symbols@.extractions),
{
    let ghost exs = document_symbols@.extractions;
    let mut n: usize = 0;
    let mut i: usize = 0;
    while i < document_symbols.extractions.len()
        invariant
            exs == document_symbols@.extractions,
            i <= exs.len(),
            n == total_symbols(exs.take(i as int)),
            total_symbols(exs) <= usize::MAX,
        decreases exs.len() - i,
    {
        proof {
            assert(exs.take(i + 1).drop_last() =~= exs.take(i as int));
            assert(exs.take(i + 1).last() == document_symbols.extractions@[i as int]@);
            lemma_total_symbols_prefix(exs, i + 1);
        }
        n = n + document_symbols.extractions[i].symbols.len();
        i = i + 1;
    }
    assert(exs.take(i as int) =~= exs);
    n
}

/// The graph language that the store names: `rust` or `csharp`.
pub fn graph_language_from_store(provider: &str, method: &str, language: &str) -> (result: Result<
    GraphLanguage,
    ExtractError,
>)
    ensures
        language@ == "rust"@ ==> result == Ok::<GraphLanguage, ExtractError>(GraphLanguage::Rust),
        language@ == "csharp"@ ==> result == Ok::<GraphLanguage, ExtractError>(GraphLanguage::CSharp),
        language@ != "rust"@ && language@ != "csharp"@ ==> (result matches Err(e) && is_shape_error(
            e,
            provider@,
            method@,
            "unsupported graph language "@ + language@,
        )),
{
    proof {
        reveal_strlit("rust");
        reveal_strlit("csharp");
        assert("rust"@ != "csharp"@) by {
            assert("rust"@.len() != "csharp"@.len());
        }
    }
    if str_eq(language, "rust") {
        Ok(GraphLanguage::Rust)
    } else if str_eq(language, "csharp") {
        Ok(GraphLanguage::CSharp)
    } else {
        let mut message = String::new();
        push_str(&mut message, "unsupported graph language ");
        push_str(&mut message, language);
        Err(ExtractError::response_shape(provider, method, message.as_str()))
    }
}

/// Inserts `x` into a list kept in stable order of relative path: after
/// every file whose path is not above its own.
pub open spec fn insert_by_path(sorted: Seq<DocumentSymbolExtractionView>, x: DocumentSymbolExtractionView) -> Seq<
    DocumentSymbolExtractionView,
>
    decreases sorted.len(),
{
    if sorted.len() == 0 {
        seq![x]
    } else if !seq_less(x.source_file.relative_path, sorted.last().source_file.relative_path) {
        sorted.push(x)
    } else {
        insert_by_path(sorted.drop_last(), x).push(sorted.last())
    }
}

/// The files in ascending order of relative path, files with equal paths in
/// the order they came in (a stable sort).
pub open spec fn sort_by_path(exs: Seq<DocumentSymbolExtractionView>) -> Seq<DocumentSymbolExtractionView>
    decreases exs.len(),
{
    if exs.len() == 0 {
        Seq::empty()
    } else {
        insert_by_path(sort_by_path(exs.drop_last()), exs.last())
    }
}

/// Inserts a file into a list kept in stable order of relative path.
fn insert_extraction_by_path(sorted: &mut Vec<DocumentSymbolExtraction>, x: DocumentSymbolExtraction)
    ensures
        final(sorted)@.map_values(|e: DocumentSymbolExtraction| e@) == insert_by_path(
            old(sorted)@.map_values(|e: DocumentSymbolExtraction| e@),
            x@,
        ),
{
    let ghost old_v = sorted@.map_values(|e: DocumentSymbolExtraction| e@);
    let mut i: usize = sorted.len();
    proof {
        assert(old_v.take(i as int) =~= old_v);
        assert(old_v.skip(i as int) =~= Seq::<DocumentSymbolExtractionView>::empty());
        assert(insert_by_path(old_v, x@) == insert_by_path(old_v.take(i as int), x@) + old_v.skip(i as int));
    }
    while i > 0 && order_str(x.source_file.relative_path.as_str(), sorted[i - 1].source_file.relative_path.as_str())
        == Order::Less
        invariant
            old_v == sorted@.map_values(|e: DocumentSymbolExtraction| e@),
            i <= sorted@.len(),
            insert_by_path(old_v, x@) == insert_by_path(old_v.take(i as int), x@) + old_v.skip(i as int),
        decreases i,
    {
        proof {
            let pre = old_v.take(i as int);
            assert(pre.last() == sorted@[i - 1]@);
            assert(pre.drop_last() =~= old_v.take(i - 1));
            assert(old_v.skip(i - 1) =~= seq![pre.last()] + old_v.skip(i as int));
            assert(insert_by_path(pre.drop_last(), x@).push(pre.last()) + old_v.skip(i as int) =~= insert_by_path(
                pre.drop_last(),
                x@,
            ) + old_v.skip(i - 1));
        }
        i = i - 1;
    }
    proof {
        let pre = old_v.take(i as int);
        if i > 0 {
            assert(pre.last() == sorted@[i - 1]@);
            assert(insert_by_path(pre, x@) == pre.push(x@));
        } else {
            assert(pre =~= Seq::<DocumentSymbolExtractionView>::empty());
        }
    }
    sorted.insert(i, x);
    proof {
        assert(sorted@.map_values(|e: DocumentSymbolExtraction| e@) =~= old_v.take(i as int).push(x@) + old_v.skip(
            i as int,
        ));
    }
}

/// The batch that joins freshly extracted files with files loaded from the
/// store, in stable order of relative path.
pub fn combined_document_symbols(
    provider: &RustAnalyzerProvider,
    changed_document_symbols: DocumentSymbolBatchExtraction,
    loaded_extractions: Vec<DocumentSymbolExtraction>,
) -> (combined: DocumentSymbolBatchExtraction)
    ensures
        combined.provider == ProviderId::RustAnalyzer,
        crate::model::opt_str(combined.provider_version) == changed_document_symbols@.provider_version,
        combined.language == changed_document_symbols.language,
        combined@.extractions == sort_by_path(
            changed_document_symbols@.extractions + loaded_extractions@.map_values(|e: DocumentSymbolExtraction| e@),
        ),
{
    let ghost all = changed_document_symbols@.extractions + loaded_extractions@.map_values(
        |e: DocumentSymbolExtraction| e@,
    );
    let DocumentSymbolBatchExtraction { provider: _, language, provider_version, extractions } =
        changed_document_symbols;
    let mut pending = extractions;
    let mut loaded = loaded_extractions;
    pending.append(&mut loaded);
    assert(pending@.map_values(|e: DocumentSymbolExtraction| e@) =~= all);
    assert(all.len() == pending@.len());
    let mut sorted: Vec<DocumentSymbolExtraction> = Vec::new();
    let mut rest: Vec<DocumentSymbolExtraction> = Vec::new();
    while pending.len() > 0
        invariant
            rest@.len() + pending@.len() == all.len(),
            forall|k: int| 0 <= k < pending@.len() ==> (#[trigger] pending@[k])@ == all[k],
            forall|k: int| 0 <= k < rest@.len() ==> (#[trigger] rest@[k])@ == all[all.len() - 1 - k],
        decreases pending@.len(),
    {
        let e = pending.pop().unwrap();
        rest.push(e);
    }
    let mut i: usize = 0;
    let ghost n = all.len();
    let total = rest.len();
    assert(n == total);
    while rest.len() > 0
        invariant
            n == all.len(),
            n <= usize::MAX,
            rest@.len() + i == n,
            forall|k: int| 0 <= k < rest@.len() ==> (#[trigger] rest@[k])@ == all[n - 1 - k],
            sorted@.map_values(|e: DocumentSymbolExtraction| e@) == sort_by_path(all.take(i as int)),
        decreases rest@.len(),
    {
        let e = rest.pop().unwrap();
        proof {
            assert(e@ == all[i as int]);
            assert(all.take(i + 1).drop_last() =~= all.take(i as int));
            assert(all.take(i + 1).last() == all[i as int]);
        }
        insert_extraction_by_path(&mut sorted, e);
        i = i + 1;
    }
    assert(all.take(i as int) =~= all);
    DocumentSymbolBatchExtraction {
        provider: provider.provider_id(),
        language,
        provider_version,
        extractions: sorted,
    }
}

/// The content hash of one file of a workspace.
pub struct WorkspaceFileHash {
    pub file_path: String,
    pub uri: String,
    pub content_hash: String,
}

/// The hash that the store holds for a URI: the entry with that URI, if
/// any, and its hash, if it has one.
pub open spec fn stored_hash(stored: Seq<(String, Option<String>)>, uri: Seq<char>) -> Option<Option<Seq<char>>>
    decreases stored.len(),
{
    if stored.len() == 0 {
        None
    } else if stored.last().0@ == uri {
        Some(crate::model::opt_str(stored.last().1))
    } else {
        stored_hash(stored.drop_last(), uri)
    }
}

/// Whether a file's stored hash is its current one.
pub open spec fn is_fresh(stored: Seq<(String, Option<String>)>, fh: WorkspaceFileHash) -> bool {
    stored_hash(stored, fh.uri@) == Some(Some(fh.content_hash@))
}

/// The stored hash of a URI.
fn lookup_stored_hash<'a>(stored: &'a Vec<(String, Option<String>)>, uri: &str) -> (r: Option<&'a Option<String>>)
    ensures
        match stored_hash(stored@, uri@) {
            None => r is None,
            Some(h) => r matches Some(x) && crate::model::opt_str(*x) == h,
        },
{
    let mut i: usize = stored.len();
    assert(stored@.take(i as int) =~= stored@);
    while i > 0
        invariant
            i <= stored@.len(),
            stored_hash(stored@, uri@) == stored_hash(stored@.take(i as int), uri@),
        decreases i,
    {
        assert(stored@.take(i as int).drop_last() =~= stored@.take(i - 1));
        assert(stored@.take(i as int).last() == stored@[i - 1]);
        if str_eq(stored[i - 1].0.as_str(), uri) {
            return Some(&stored[i - 1].1);
        }
        i = i - 1;
    }
    None
}

/// Whether `uri` is in the list.
fn has_uri(list: &Vec<String>, uri: &str) -> (r: bool)
    ensures
        r == crate::symbols::string_views(list@).contains(uri@),
{
    let mut i: usize = 0;
    while i < list.len()
        invariant
            i <= list@.len(),
            forall|j: int| 0 <= j < i ==> list@[j]@ != uri@,
        decreases list@.len() - i,
    {
        if str_eq(list[i].as_str(), uri) {
            assert(crate::symbols::string_views(list@)[i as int] == uri@);
            return true;
        }
        i = i + 1;
    }
    proof {
        if crate::symbols::string_views(list@).contains(uri@) {
            let j = choose|j: int| 0 <= j < list@.len() && crate::symbols::string_views(list@)[j] == uri@;
            assert(list@[j]@ == uri@);
        }
    }
    false
}

/// The URIs of the files whose hash the store already holds, each once:
/// their route results can be reused. `stored_hashes` holds the store's
/// hash for each URI it knows.
pub fn fresh_unchanged_file_uris(stored_hashes: &Vec<(String, Option<String>)>, file_hashes: &Vec<WorkspaceFileHash>) -> (uris:
    Vec<String>)
    ensures
        crate::symbols::string_views(uris@).no_duplicates(),
        forall|u: Seq<char>|
            crate::symbols::string_views(uris@).contains(u) <==> exists|k: int|
                0 <= k < file_hashes@.len() && #[trigger] file_hashes@[k].uri@ == u && is_fresh(
                    stored_hashes@,
                    file_hashes@[k],
                ),
{
    let mut uris: Vec<String> = Vec::new();
    let mut i: usize = 0;
    while i < file_hashes.len()
        invariant
            i <= file_hashes@.len(),
            crate::symbols::string_views(uris@).no_duplicates(),
            forall|u: Seq<char>|
                crate::symbols::string_views(uris@).contains(u) <==> exists|k: int|
                    0 <= k < i && #[trigger] file_hashes@[k].uri@ == u && is_fresh(stored_hashes@, file_hashes@[k]),
        decreases file_hashes@.len() - i,
    {
        let fh = &file_hashes[i];
        let ghost before = crate::symbols::string_views(uris@);
        let fresh = match lookup_stored_hash(stored_hashes, fh.uri.as_str()) {
            Some(Some(h)) => str_eq(h.as_str(), fh.content_hash.as_str()),
            _ => false,
        };
        assert(fresh == is_fresh(stored_hashes@, *fh));
        if fresh && !has_uri(&uris, fh.uri.as_str()) {
            uris.push(fh.uri.clone());
            proof {
                let now = crate::symbols::string_views(uris@);
                assert(now =~= before.push(fh.uri@));
                assert forall|a: int, b: int| 0 <= a < now.len() && 0 <= b < now.len() && a != b implies now[a]
                    != now[b] by {
                    if a < before.len() && b < before.len() {
                    } else if a == before.len() {
                        assert(before.contains(before[b]));
                    } else {
                        assert(before.contains(before[a]));
                    }
                }
                assert forall|u: Seq<char>| now.contains(u) <==> exists|k: int|
                    0 <= k < i + 1 && #[trigger] file_hashes@[k].uri@ == u && is_fresh(stored_hashes@, file_hashes@[k]) by {
                    if now.contains(u) {
                        let a = choose|a: int| 0 <= a < now.len() && now[a] == u;
                        if a < before.len() {
                            assert(before.contains(u));
                        } else {
                            assert(file_hashes@[i as int].uri@ == u);
                        }
                    }
                    if exists|k: int| 0 <= k < i + 1 && #[trigger] file_hashes@[k].uri@ == u && is_fresh(
                        stored_hashes@,
                        file_hashes@[k],
                    ) {
                        let k = choose|k: int| 0 <= k < i + 1 && #[trigger] file_hashes@[k].uri@ == u && is_fresh(
                            stored_hashes@,
                            file_hashes@[k],
                        );
                        if k < i {
                            assert(before.contains(u));
                            let a = choose|a: int| 0 <= a < before.len() && before[a] == u;
                            assert(now[a] == u);
                        } else {
                            assert(now[before.len() as int] == u);
                        }
                    }
                }
            }
        } else {
            proof {
                assert forall|u: Seq<char>| before.contains(u) <==> exists|k: int|
                    0 <= k < i + 1 && #[trigger] file_hashes@[k].uri@ == u && is_fresh(stored_hashes@, file_hashes@[k]) by {
                    if exists|k: int| 0 <= k < i + 1 && #[trigger] file_hashes@[k].uri@ == u && is_fresh(
                        stored_hashes@,
                        file_hashes@[k],
                    ) {
                        let k = choose|k: int| 0 <= k < i + 1 && #[trigger] file_hashes@[k].uri@ == u && is_fresh(
                            stored_hashes@,
                            file_hashes@[k],
                        );
                        if k == i {
                            assert(before.contains(fh.uri@));
                        }
                    }
                }
            }
        }
        i = i + 1;
    }
    uris
}


/// Whether files are in ascending order of relative path.
pub open spec fn sorted_by_path(exs: Seq<DocumentSymbolExtractionView>) -> bool {
    forall|i: int, j: int|
        0 <= i < j < exs.len() ==> !seq_less(#[trigger] exs[j].source_file.relative_path, #[trigger] exs[i].source_file.relative_path)
}

/// Inserting into a sorted list keeps it sorted and adds the file.
proof fn lemma_insert_by_path_sorted(sorted: Seq<DocumentSymbolExtractionView>, x: DocumentSymbolExtractionView)
    requires
        sorted_by_path(sorted),
    ensures
        sorted_by_path(insert_by_path(sorted, x)),
        insert_by_path(sorted, x).to_multiset() == sorted.to_multiset().insert(x),
    decreases sorted.len(),
{
    broadcast use vstd::seq_lib::group_to_multiset_ensures;

    let r = insert_by_path(sorted, x);
    if sorted.len() == 0 {
        assert(r =~= seq![x]);
        assert(seq![x] =~= Seq::<DocumentSymbolExtractionView>::empty().push(x));
    } else if !seq_less(x.source_file.relative_path, sorted.last().source_file.relative_path) {
        assert forall|i: int, j: int| 0 <= i < j < r.len() implies !seq_less(
            #[trigger] r[j].source_file.relative_path,
            #[trigger] r[i].source_file.relative_path,
        ) by {
            if j == sorted.len() && i < sorted.len() - 1 {
                let a = r[i].source_file.relative_path;
                let b = sorted.last().source_file.relative_path;
                let c = x.source_file.relative_path;
                lemma_seq_less_total(a, b);
                lemma_seq_less_total(b, c);
                if seq_less(c, a) {
                    if a == b {
                    } else {
                        lemma_seq_less_transitive(c, a, b);
                    }
                }
            }
        }
    } else {
        let p = sorted.drop_last();
        let l = sorted.last();
        assert forall|i: int, j: int| 0 <= i < j < p.len() implies !seq_less(
            #[trigger] p[j].source_file.relative_path,
            #[trigger] p[i].source_file.relative_path,
        ) by {
            assert(p[i] == sorted[i] && p[j] == sorted[j]);
        }
        lemma_insert_by_path_sorted(p, x);
        let q = insert_by_path(p, x);
        assert(r == q.push(l));
        assert(q.to_multiset().contains(x));
        assert forall|i: int| 0 <= i < q.len() implies !seq_less(l.source_file.relative_path, (#[trigger] q[i]).source_file.relative_path) by {
            assert(q.to_multiset().contains(q[i]));
            assert(p.to_multiset().insert(x).contains(q[i]));
            if q[i] != x {
                assert(p.to_multiset().contains(q[i]));
                assert(p.contains(q[i]));
                let k = choose|k: int| 0 <= k < p.len() && p[k] == q[i];
                assert(sorted[k] == p[k]);
            } else {
                lemma_seq_less_total(x.source_file.relative_path, l.source_file.relative_path);
            }
        }
        assert(sorted =~= p.push(l));
    }
}

/// Stable sorting by relative path gives the same files, in ascending
/// order of relative path.
pub proof fn lemma_sort_by_path_sorted(exs: Seq<DocumentSymbolExtractionView>)
    ensures
        sorted_by_path(sort_by_path(exs)),
        sort_by_path(exs).to_multiset() == exs.to_multiset(),
    decreases exs.len(),
{
    broadcast use vstd::seq_lib::group_to_multiset_ensures;

    if exs.len() > 0 {
        lemma_sort_by_path_sorted(exs.drop_last());
        lemma_insert_by_path_sorted(sort_by_path(exs.drop_last()), exs.last());
        assert(exs =~= exs.drop_last().push(exs.last()));
    } else {
        assert(sort_by_path(exs) =~= Seq::<DocumentSymbolExtractionView>::empty());
    }
}

} // verus!
