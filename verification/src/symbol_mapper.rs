use vstd::prelude::*;

use crate::error::{push_signed_decimal, signed_decimal, ExtractError};
use crate::fingerprint::{content_hash, spec_content_hash};
use crate::model::{
    opt_str, spec_text_range_from_lsp, text_range_from_lsp, DocumentSymbolExtraction, ExtractedRelation,
    ExtractedSymbol, LspRange, RelationView, SourceFile, SourceFileView, SymbolView, TextRange,
};
use crate::routes::{GraphLanguage, ProviderId};
use crate::text::push_str;

verus! {

/// A document symbol as the language server protocol reports it, with its
/// children.
pub struct LspDocumentSymbol {
    pub name: String,
    pub detail: Option<String>,
    /// The protocol's numeric symbol kind.
    pub kind: u32,
    pub range: LspRange,
    pub selection_range: LspRange,
    pub children: Option<Vec<LspDocumentSymbol>>,
}

/// A document-symbol response: a flat list of symbol information, or a
/// hierarchy of document symbols.
pub enum LspDocumentSymbolResponse {
    Flat,
    Nested(Vec<LspDocumentSymbol>),
}

/// The graph's name for a protocol symbol kind.
pub open spec fn spec_symbol_kind_name(kind: u32) -> Seq<char> {
    if kind == 1 {
        "file"@
    } else if kind == 2 {
        "module"@
    } else if kind == 3 {
        "namespace"@
    } else if kind == 4 {
        "package"@
    } else if kind == 5 {
        "class"@
    } else if kind == 6 {
        "method"@
    } else if kind == 7 {
        "property"@
    } else if kind == 8 {
        "field"@
    } else if kind == 9 {
        "constructor"@
    } else if kind == 10 {
        "enum"@
    } else if kind == 11 {
        "interface"@
    } else if kind == 12 {
        "function"@
    } else if kind == 13 {
        "variable"@
    } else if kind == 14 {
        "constant"@
    } else if kind == 15 {
        "string"@
    } else if kind == 16 {
        "number"@
    } else if kind == 17 {
        "boolean"@
    } else if kind == 18 {
        "array"@
    } else if kind == 19 {
        "object"@
    } else if kind == 20 {
        "key"@
    } else if kind == 21 {
        "null"@
    } else if kind == 22 {
        "enum_member"@
    } else if kind == 23 {
        "struct"@
    } else if kind == 24 {
        "event"@
    } else if kind == 25 {
        "operator"@
    } else if kind == 26 {
        "type_parameter"@
    } else {
        "unknown"@
    }
}

/// The graph's name for a protocol symbol kind.
pub fn normalize_symbol_kind(kind: u32) -> (name: &'static str)
    ensures
        name@ == spec_symbol_kind_name(kind),
{
    match kind {
        1 => "file",
        2 => "module",
        3 => "namespace",
        4 => "package",
        5 => "class",
        6 => "method",
        7 => "property",
        8 => "field",
        9 => "constructor",
        10 => "enum",
        11 => "interface",
        12 => "function",
        13 => "variable",
        14 => "constant",
        15 => "string",
        16 => "number",
        17 => "boolean",
        18 => "array",
        19 => "object",
        20 => "key",
        21 => "null",
        22 => "enum_member",
        23 => "struct",
        24 => "event",
        25 => "operator",
        26 => "type_parameter",
        _ => "unknown",
    }
}

/// The names joined with `::`.
pub open spec fn join_path(names: Seq<Seq<char>>) -> Seq<char>
    decreases names.len(),
{
    if names.len() == 0 {
        Seq::empty()
    } else if names.len() == 1 {
        names[0]
    } else {
        join_path(names.drop_last()) + "::"@ + names.last()
    }
}

/// The names joined with `::`.
fn join_names(names: &Vec<String>) -> (text: String)
    ensures
        text@ == join_path(names@.map_values(|n: String| n@)),
{
    let ghost nv = names@.map_values(|n: String| n@);
    let mut text = String::new();
    let mut i: usize = 0;
    while i < names.len()
        invariant
            nv == names@.map_values(|n: String| n@),
            i <= names@.len(),
            text@ == join_path(nv.take(i as int)),
        decreases names@.len() - i,
    {
        let ghost pre = nv.take(i as int);
        assert(nv.take(i + 1).drop_last() =~= pre);
        assert(nv.take(i + 1).last() == names@[i as int]@);
        if i > 0 {
            push_str(&mut text, "::");
        } else {
            assert(pre =~= Seq::<Seq<char>>::empty());
        }
        push_str(&mut text, names[i].as_str());
        i = i + 1;
    }
    assert(nv.take(i as int) =~= nv);
    text
}

/// The qualified name of a symbol: its ancestors' names and its own,
/// joined with `::`.
pub open spec fn spec_qualified_name(parents: Seq<Seq<char>>, name: Seq<char>) -> Seq<char> {
    join_path(parents.push(name))
}

/// The key of a symbol: its file URI, kind, selection range, name and the
/// names of its ancestors.
pub open spec fn spec_symbol_key(
    uri: Seq<char>,
    kind: Seq<char>,
    selection: TextRange,
    name: Seq<char>,
    parents: Seq<Seq<char>>,
) -> Seq<char> {
    uri + "#kind="@ + kind + ";selection="@ + signed_decimal(selection.start_line as int) + ":"@ + signed_decimal(
        selection.start_col as int,
    ) + "-"@ + signed_decimal(selection.end_line as int) + ":"@ + signed_decimal(selection.end_col as int)
        + ";name="@ + name + ";parent="@ + join_path(parents)
}

/// The key of a symbol.
pub fn build_symbol_key(uri: &str, kind: &str, selection: TextRange, name: &str, parents: &Vec<String>) -> (key: String)
    ensures
        key@ == spec_symbol_key(uri@, kind@, selection, name@, parents@.map_values(|n: String| n@)),
{
    let mut key = String::new();
    push_str(&mut key, uri);
    push_str(&mut key, "#kind=");
    push_str(&mut key, kind);
    push_str(&mut key, ";selection=");
    push_signed_decimal(&mut key, selection.start_line);
    push_str(&mut key, ":");
    push_signed_decimal(&mut key, selection.start_col);
    push_str(&mut key, "-");
    push_signed_decimal(&mut key, selection.end_line);
    push_str(&mut key, ":");
    push_signed_decimal(&mut key, selection.end_col);
    push_str(&mut key, ";name=");
    push_str(&mut key, name);
    push_str(&mut key, ";parent=");
    let joined = join_names(parents);
    push_str(&mut key, joined.as_str());
    key
}

/// The children of a symbol, none where it has none.
pub open spec fn children_of(s: LspDocumentSymbol) -> Seq<LspDocumentSymbol> {
    match s.children {
        Some(c) => c@,
        None => Seq::empty(),
    }
}

/// The children of a listed symbol are below the list.
pub proof fn lemma_children_decrease(list: Seq<LspDocumentSymbol>, i: int)
    requires
        0 <= i < list.len(),
    ensures
        list[i].children is Some ==> decreases_to!(list => children_of(list[i])),
{
    assert(decreases_to!(list => list[i]));
    match list[i].children {
        Some(c) => {
            assert(decreases_to!(list[i] => c));
            assert(decreases_to!(c => c@));
        },
        None => {},
    }
}

/// The key of the symbol `s` whose ancestors are named `parents`.
pub open spec fn key_of_symbol(uri: Seq<char>, s: LspDocumentSymbol, parents: Seq<Seq<char>>) -> Seq<char> {
    spec_symbol_key(uri, spec_symbol_kind_name(s.kind), spec_text_range_from_lsp(s.selection_range), s.name@, parents)
}

/// The graph symbol for `s`.
pub open spec fn symbol_entry(
    uri: Seq<char>,
    s: LspDocumentSymbol,
    parent: Option<Seq<char>>,
    parents: Seq<Seq<char>>,
) -> SymbolView {
    SymbolView {
        provider: ProviderId::RustAnalyzer,
        language: GraphLanguage::Rust,
        file_uri: uri,
        symbol_key: key_of_symbol(uri, s, parents),
        parent_symbol_key: parent,
        name: s.name@,
        kind: spec_symbol_kind_name(s.kind),
        qualified_name: Some(spec_qualified_name(parents, s.name@)),
        detail: opt_str(s.detail),
        range: spec_text_range_from_lsp(s.range),
        selection_range: spec_text_range_from_lsp(s.selection_range),
    }
}

/// The relation by which the parent (or the file) contains `s`.
pub open spec fn relation_entry(
    uri: Seq<char>,
    file_key: Seq<char>,
    s: LspDocumentSymbol,
    parent: Option<Seq<char>>,
    parents: Seq<Seq<char>>,
) -> RelationView {
    RelationView {
        provider: ProviderId::RustAnalyzer,
        source_symbol_key: match parent {
            Some(p) => p,
            None => file_key,
        },
        target_symbol_key: key_of_symbol(uri, s, parents),
        relation: "contains"@,
        confidence: "EXTRACTED"@,
        confidence_score_millis: 1000,
        range: Some(spec_text_range_from_lsp(s.range)),
    }
}

/// The graph symbols of `list[i..]` and all their descendants, in preorder.
pub open spec fn symbol_entries(
    uri: Seq<char>,
    list: Seq<LspDocumentSymbol>,
    i: int,
    parent: Option<Seq<char>>,
    parents: Seq<Seq<char>>,
) -> Seq<SymbolView>
    decreases list, list.len() - i,
{
    if 0 <= i < list.len() {
        let s = list[i];
        proof {
            lemma_children_decrease(list, i);
        }
        seq![symbol_entry(uri, s, parent, parents)] + (if s.children is Some {
            symbol_entries(uri, children_of(s), 0, Some(key_of_symbol(uri, s, parents)), parents.push(s.name@))
        } else {
            Seq::empty()
        }) + symbol_entries(uri, list, i + 1, parent, parents)
    } else {
        Seq::empty()
    }
}

/// The contains relations of `list[i..]` and all their descendants, in
/// preorder, one per symbol.
pub open spec fn relation_entries(
    uri: Seq<char>,
    file_key: Seq<char>,
    list: Seq<LspDocumentSymbol>,
    i: int,
    parent: Option<Seq<char>>,
    parents: Seq<Seq<char>>,
) -> Seq<RelationView>
    decreases list, list.len() - i,
{
    if 0 <= i < list.len() {
        let s = list[i];
        proof {
            lemma_children_decrease(list, i);
        }
        seq![relation_entry(uri, file_key, s, parent, parents)] + (if s.children is Some {
            relation_entries(
                uri,
                file_key,
                children_of(s),
                0,
                Some(key_of_symbol(uri, s, parents)),
                parents.push(s.name@),
            )
        } else {
            Seq::empty()
        }) + relation_entries(uri, file_key, list, i + 1, parent, parents)
    } else {
        Seq::empty()
    }
}

/// The message for a flat response.
pub open spec fn flat_response_message() -> Seq<char> {
    "expected hierarchical DocumentSymbol[] but received SymbolInformation[]"@
}

/// The source file as the extraction records it: the given file, a Rust
/// file, with the hash of its contents.
pub open spec fn mapped_source_file(source_file: SourceFileView, contents: Seq<char>) -> SourceFileView {
    SourceFileView { language: GraphLanguage::Rust, content_hash: Some(spec_content_hash(contents)), ..source_file }
}

/// What mapping the hierarchy `symbols` of a file gives.
pub open spec fn mapped_extraction(
    e: DocumentSymbolExtraction,
    source_file: SourceFileView,
    contents: Seq<char>,
    symbols: Seq<LspDocumentSymbol>,
    provider_version: Option<Seq<char>>,
) -> bool {
    let uri = source_file.uri;
    &&& e.provider == ProviderId::RustAnalyzer
    &&& e.language == GraphLanguage::Rust
    &&& opt_str(e.provider_version) == provider_version
    &&& e.source_file@ == mapped_source_file(source_file, contents)
    &&& e.symbols@.map_values(|x: ExtractedSymbol| x@) == symbol_entries(uri, symbols, 0, None, Seq::empty())
    &&& e.relations@.map_values(|x: ExtractedRelation| x@) == relation_entries(
        uri,
        source_file.file_symbol_key,
        symbols,
        0,
        None,
        Seq::empty(),
    )
}

/// A string holding `s`.
fn owned(s: &str) -> (r: String)
    ensures
        r@ == s@,
{
    let mut r = String::new();
    push_str(&mut r, s);
    r
}

/// The names of `parents` with `name` added.
fn with_name(parents: &Vec<String>, name: &String) -> (r: Vec<String>)
    ensures
        r@.map_values(|n: String| n@) == parents@.map_values(|n: String| n@).push(name@),
{
    let mut r: Vec<String> = Vec::new();
    let mut i: usize = 0;
    while i < parents.len()
        invariant
            i <= parents@.len(),
            r@.len() == i,
            forall|j: int| 0 <= j < i ==> (#[trigger] r@[j])@ == parents@[j]@,
        decreases parents@.len() - i,
    {
        r.push(parents[i].clone());
        i = i + 1;
    }
    r.push(name.clone());
    assert(r@.map_values(|n: String| n@) =~= parents@.map_values(|n: String| n@).push(name@));
    r
}

/// Maps `list` and the descendants of its symbols, in preorder, appending
/// the symbols and their contains relations.
fn map_symbols(
    uri: &String,
    file_key: &String,
    list: &Vec<LspDocumentSymbol>,
    parent: Option<&String>,
    parents: &Vec<String>,
    symbols: &mut Vec<ExtractedSymbol>,
    relations: &mut Vec<ExtractedRelation>,
)
    ensures
        final(symbols)@.map_values(|x: ExtractedSymbol| x@) == old(symbols)@.map_values(|x: ExtractedSymbol| x@)
            + symbol_entries(
            uri@,
            list@,
            0,
            match parent {
                Some(p) => Some(p@),
                None => None,
            },
            parents@.map_values(|n: String| n@),
        ),
        final(relations)@.map_values(|x: ExtractedRelation| x@) == old(relations)@.map_values(
            |x: ExtractedRelation| x@,
        ) + relation_entries(
            uri@,
            file_key@,
            list@,
            0,
            match parent {
                Some(p) => Some(p@),
                None => None,
            },
            parents@.map_values(|n: String| n@),
        ),
    decreases list@,
{
    let ghost pv = match parent {
        Some(p) => Some(p@),
        None => None::<Seq<char>>,
    };
    let ghost names = parents@.map_values(|n: String| n@);
    let ghost base_s = symbols@.map_values(|x: ExtractedSymbol| x@);
    let ghost base_r = relations@.map_values(|x: ExtractedRelation| x@);
    let mut i: usize = 0;
    while i < list.len()
        invariant
            i <= list@.len(),
            pv == match parent {
                Some(p) => Some(p@),
                None => None::<Seq<char>>,
            },
            names == parents@.map_values(|n: String| n@),
            base_s + symbol_entries(uri@, list@, 0, pv, names) == symbols@.map_values(|x: ExtractedSymbol| x@)
                + symbol_entries(uri@, list@, i as int, pv, names),
            base_r + relation_entries(uri@, file_key@, list@, 0, pv, names) == relations@.map_values(
                |x: ExtractedRelation| x@,
            ) + relation_entries(uri@, file_key@, list@, i as int, pv, names),
        decreases list@.len() - i,
    {
        let s = &list[i];
        let ghost sv = symbols@.map_values(|x: ExtractedSymbol| x@);
        let ghost rv = relations@.map_values(|x: ExtractedRelation| x@);
        let kind = normalize_symbol_kind(s.kind);
        let key = build_symbol_key(uri.as_str(), kind, text_range_from_lsp(s.selection_range), s.name.as_str(), parents);
        let qualified = {
            let all = with_name(parents, &s.name);
            join_names(&all)
        };
        let source_key = match parent {
            Some(p) => p.clone(),
            None => file_key.clone(),
        };
        let parent_key = match parent {
            Some(p) => Some(p.clone()),
            None => None,
        };
        let symbol = ExtractedSymbol {
            provider: ProviderId::RustAnalyzer,
            language: GraphLanguage::Rust,
            file_uri: uri.clone(),
            symbol_key: key.clone(),
            parent_symbol_key: parent_key,
            name: s.name.clone(),
            kind: owned(kind),
            qualified_name: Some(qualified),
            detail: crate::model::clone_opt_str(&s.detail),
            range: text_range_from_lsp(s.range),
            selection_range: text_range_from_lsp(s.selection_range),
        };
        let relation = ExtractedRelation {
            provider: ProviderId::RustAnalyzer,
            source_symbol_key: source_key,
            target_symbol_key: key.clone(),
            relation: owned("contains"),
            confidence: owned("EXTRACTED"),
            confidence_score_millis: 1000,
            range: Some(text_range_from_lsp(s.range)),
        };
        proof {
            assert(symbol@ == symbol_entry(uri@, list@[i as int], pv, names));
            assert(relation@ == relation_entry(uri@, file_key@, list@[i as int], pv, names));
        }
        symbols.push(symbol);
        relations.push(relation);
        proof {
            assert(symbols@.map_values(|x: ExtractedSymbol| x@) =~= sv.push(symbol_entry(uri@, list@[i as int], pv, names)));
            assert(relations@.map_values(|x: ExtractedRelation| x@) =~= rv.push(
                relation_entry(uri@, file_key@, list@[i as int], pv, names),
            ));
        }
        let child_parents = with_name(parents, &s.name);
        let ghost child_names = names.push(s.name@);
        let ghost before_s = symbols@.map_values(|x: ExtractedSymbol| x@);
        let ghost before_r = relations@.map_values(|x: ExtractedRelation| x@);
        match &s.children {
            Some(children) => {
                proof {
                    assert(decreases_to!(list@ => list@[i as int]));
                    assert(decreases_to!(children => children@));
                }
                map_symbols(uri, file_key, children, Some(&key), &child_parents, symbols, relations);
            },
            None => {},
        }
        proof {
            let cs = if s.children is Some {
                symbol_entries(uri@, children_of(list@[i as int]), 0, Some(key@), child_names)
            } else {
                Seq::<SymbolView>::empty()
            };
            let cr = if s.children is Some {
                relation_entries(uri@, file_key@, children_of(list@[i as int]), 0, Some(key@), child_names)
            } else {
                Seq::<RelationView>::empty()
            };
            if s.children is None {
                assert(symbols@.map_values(|x: ExtractedSymbol| x@) =~= before_s + cs);
                assert(relations@.map_values(|x: ExtractedRelation| x@) =~= before_r + cr);
            }
            assert(key@ == key_of_symbol(uri@, list@[i as int], names));
            assert(symbol_entries(uri@, list@, i as int, pv, names) == seq![
                symbol_entry(uri@, list@[i as int], pv, names),
            ] + cs + symbol_entries(uri@, list@, i + 1, pv, names));
            assert(relation_entries(uri@, file_key@, list@, i as int, pv, names) == seq![
                relation_entry(uri@, file_key@, list@[i as int], pv, names),
            ] + cr + relation_entries(uri@, file_key@, list@, i + 1, pv, names));
            assert(base_s + symbol_entries(uri@, list@, 0, pv, names) =~= symbols@.map_values(
                |x: ExtractedSymbol| x@,
            ) + symbol_entries(uri@, list@, i + 1, pv, names));
            assert(base_r + relation_entries(uri@, file_key@, list@, 0, pv, names) =~= relations@.map_values(
                |x: ExtractedRelation| x@,
            ) + relation_entries(uri@, file_key@, list@, i + 1, pv, names));
        }
        i = i + 1;
    }
    proof {
        assert(symbol_entries(uri@, list@, i as int, pv, names) =~= Seq::<SymbolView>::empty());
        assert(relation_entries(uri@, file_key@, list@, i as int, pv, names) =~= Seq::<RelationView>::empty());
    }
}

/// Maps rust-analyzer document-symbol responses to graph records.
pub struct RustDocumentSymbolMapper;

impl RustDocumentSymbolMapper {
    /// Maps the symbol hierarchy of one file, whose contents are given, to
    /// graph symbols and contains relations, in preorder. Top-level symbols
    /// are contained by the file.
    pub fn map_nested_symbols(
        source_file: SourceFile,
        file_contents: &str,
        symbols: &Vec<LspDocumentSymbol>,
        provider_version: Option<String>,
    ) -> (e: DocumentSymbolExtraction)
        ensures
            mapped_extraction(e, source_file@, file_contents@, symbols@, opt_str(provider_version)),
    {
        let hash = content_hash(file_contents);
        let source_file = SourceFile {
            uri: source_file.uri,
            relative_path: source_file.relative_path,
            file_symbol_key: source_file.file_symbol_key,
            language: GraphLanguage::Rust,
            content_hash: Some(hash),
        };
        let mut mapped: Vec<ExtractedSymbol> = Vec::new();
        let mut relations: Vec<ExtractedRelation> = Vec::new();
        let parents: Vec<String> = Vec::new();
        proof {
            assert(parents@.map_values(|n: String| n@) =~= Seq::<Seq<char>>::empty());
            assert(mapped@.map_values(|x: ExtractedSymbol| x@) =~= Seq::<SymbolView>::empty());
            assert(relations@.map_values(|x: ExtractedRelation| x@) =~= Seq::<RelationView>::empty());
        }
        map_symbols(
            &source_file.uri,
            &source_file.file_symbol_key,
            symbols,
            None,
            &parents,
            &mut mapped,
            &mut relations,
        );
        assert(Seq::<SymbolView>::empty() + symbol_entries(source_file.uri@, symbols@, 0, None, Seq::empty()) =~= symbol_entries(
            source_file.uri@,
            symbols@,
            0,
            None,
            Seq::empty(),
        ));
        assert(Seq::<RelationView>::empty() + relation_entries(
            source_file.uri@,
            source_file.file_symbol_key@,
            symbols@,
            0,
            None,
            Seq::empty(),
        ) =~= relation_entries(source_file.uri@, source_file.file_symbol_key@, symbols@, 0, None, Seq::empty()));
        DocumentSymbolExtraction {
            provider: ProviderId::RustAnalyzer,
            language: GraphLanguage::Rust,
            provider_version,
            source_file,
            symbols: mapped,
            relations,
        }
    }

    /// Maps a document-symbol response for one file: a hierarchy gives the
    /// file's symbols and contains relations; a flat list is refused.
    pub fn map_response(
        source_file: SourceFile,
        file_contents: &str,
        response: LspDocumentSymbolResponse,
        provider_version: Option<String>,
    ) -> (r: Result<DocumentSymbolExtraction, ExtractError>)
        ensures
            match response {
                LspDocumentSymbolResponse::Flat => r matches Err(ExtractError::ResponseShape { provider, method, message })
                    && provider@ == "rust-analyzer"@ && method@ == "textDocument/documentSymbol"@ && message@
                    == flat_response_message(),
                LspDocumentSymbolResponse::Nested(symbols) => r matches Ok(e) && mapped_extraction(
                    e,
                    source_file@,
                    file_contents@,
                    symbols@,
                    opt_str(provider_version),
                ),
            },
    {
        match response {
            LspDocumentSymbolResponse::Nested(symbols) => Ok(
                Self::map_nested_symbols(source_file, file_contents, &symbols, provider_version),
            ),
            LspDocumentSymbolResponse::Flat => Err(
                ExtractError::response_shape(
                    "rust-analyzer",
                    "textDocument/documentSymbol",
                    "expected hierarchical DocumentSymbol[] but received SymbolInformation[]",
                ),
            ),
        }
    }
}

/// Each mapped symbol has exactly one contains relation, at the same
/// position: its target is the symbol's key, and its source is the
/// symbol's parent, or the file for a top-level symbol.
pub proof fn lemma_one_contains_relation_per_symbol(
    uri: Seq<char>,
    file_key: Seq<char>,
    list: Seq<LspDocumentSymbol>,
    i: int,
    parent: Option<Seq<char>>,
    parents: Seq<Seq<char>>,
)
    ensures
        ({
            let syms = symbol_entries(uri, list, i, parent, parents);
            let rels = relation_entries(uri, file_key, list, i, parent, parents);
            &&& rels.len() == syms.len()
            &&& forall|k: int|
                0 <= k < syms.len() ==> (#[trigger] rels[k]).target_symbol_key == syms[k].symbol_key
                    && rels[k].source_symbol_key == match syms[k].parent_symbol_key {
                    Some(p) => p,
                    None => file_key,
                } && rels[k].relation == "contains"@
        }),
    decreases list, list.len() - i,
{
    if 0 <= i < list.len() {
        let s = list[i];
        lemma_children_decrease(list, i);
        lemma_one_contains_relation_per_symbol(uri, file_key, list, i + 1, parent, parents);
        let key = key_of_symbol(uri, s, parents);
        let cs = if s.children is Some {
            symbol_entries(uri, children_of(s), 0, Some(key), parents.push(s.name@))
        } else {
            Seq::<SymbolView>::empty()
        };
        let cr = if s.children is Some {
            relation_entries(uri, file_key, children_of(s), 0, Some(key), parents.push(s.name@))
        } else {
            Seq::<RelationView>::empty()
        };
        if s.children is Some {
            lemma_one_contains_relation_per_symbol(uri, file_key, children_of(s), 0, Some(key), parents.push(s.name@));
        }
        let rs = symbol_entries(uri, list, i + 1, parent, parents);
        let rr = relation_entries(uri, file_key, list, i + 1, parent, parents);
        let syms = seq![symbol_entry(uri, s, parent, parents)] + cs + rs;
        let rels = seq![relation_entry(uri, file_key, s, parent, parents)] + cr + rr;
        assert(symbol_entries(uri, list, i, parent, parents) == syms);
        assert(relation_entries(uri, file_key, list, i, parent, parents) == rels);
        assert forall|k: int| 0 <= k < syms.len() implies (#[trigger] rels[k]).target_symbol_key == syms[k].symbol_key
            && rels[k].source_symbol_key == match syms[k].parent_symbol_key {
            Some(p) => p,
            None => file_key,
        } && rels[k].relation == "contains"@ by {
            if k == 0 {
            } else if k < 1 + cs.len() {
                assert(syms[k] == cs[k - 1]);
                assert(rels[k] == cr[k - 1]);
            } else {
                assert(syms[k] == rs[k - 1 - cs.len()]);
                assert(rels[k] == rr[k - 1 - cs.len()]);
            }
        }
    }
}


/// A character in lower case, where it is an upper-case ASCII letter.
pub open spec fn lower_char(c: char) -> char {
    match c {
        'A' => 'a',
        'B' => 'b',
        'C' => 'c',
        'D' => 'd',
        'E' => 'e',
        'F' => 'f',
        'G' => 'g',
        'H' => 'h',
        'I' => 'i',
        'J' => 'j',
        'K' => 'k',
        'L' => 'l',
        'M' => 'm',
        'N' => 'n',
        'O' => 'o',
        'P' => 'p',
        'Q' => 'q',
        'R' => 'r',
        'S' => 's',
        'T' => 't',
        'U' => 'u',
        'V' => 'v',
        'W' => 'w',
        'X' => 'x',
        'Y' => 'y',
        'Z' => 'z',
        _ => c,
    }
}

/// Text in lower case.
pub open spec fn ascii_lower(text: Seq<char>) -> Seq<char> {
    text.map_values(|c: char| lower_char(c))
}

/// The names of the protocol's symbol kinds 1 to 26, in order, as the
/// protocol's constants write them.
pub open spec fn lsp_symbol_kind_constants() -> Seq<Seq<char>> {
    seq![
        "FILE"@,
        "MODULE"@,
        "NAMESPACE"@,
        "PACKAGE"@,
        "CLASS"@,
        "METHOD"@,
        "PROPERTY"@,
        "FIELD"@,
        "CONSTRUCTOR"@,
        "ENUM"@,
        "INTERFACE"@,
        "FUNCTION"@,
        "VARIABLE"@,
        "CONSTANT"@,
        "STRING"@,
        "NUMBER"@,
        "BOOLEAN"@,
        "ARRAY"@,
        "OBJECT"@,
        "KEY"@,
        "NULL"@,
        "ENUM_MEMBER"@,
        "STRUCT"@,
        "EVENT"@,
        "OPERATOR"@,
        "TYPE_PARAMETER"@,
    ]
}

/// The graph names all protocol symbol kinds.
proof fn lemma_kind_names_table()
    ensures
        forall|k: int| 1 <= k <= 26 ==> #[trigger] spec_symbol_kind_name(k as u32) == ascii_lower(lsp_symbol_kind_constants()[k - 1]),
{
    reveal_strlit("FILE");
    reveal_strlit("file");
    assert(spec_symbol_kind_name(1) =~= ascii_lower("FILE"@));
    reveal_strlit("MODULE");
    reveal_strlit("module");
    assert(spec_symbol_kind_name(2) =~= ascii_lower("MODULE"@));
    reveal_strlit("NAMESPACE");
    reveal_strlit("namespace");
    assert(spec_symbol_kind_name(3) =~= ascii_lower("NAMESPACE"@));
    reveal_strlit("PACKAGE");
    reveal_strlit("package");
    assert(spec_symbol_kind_name(4) =~= ascii_lower("PACKAGE"@));
    reveal_strlit("CLASS");
    reveal_strlit("class");
    assert(spec_symbol_kind_name(5) =~= ascii_lower("CLASS"@));
    reveal_strlit("METHOD");
    reveal_strlit("method");
    assert(spec_symbol_kind_name(6) =~= ascii_lower("METHOD"@));
    reveal_strlit("PROPERTY");
    reveal_strlit("property");
    assert(spec_symbol_kind_name(7) =~= ascii_lower("PROPERTY"@));
    reveal_strlit("FIELD");
    reveal_strlit("field");
    assert(spec_symbol_kind_name(8) =~= ascii_lower("FIELD"@));
    reveal_strlit("CONSTRUCTOR");
    reveal_strlit("constructor");
    assert(spec_symbol_kind_name(9) =~= ascii_lower("CONSTRUCTOR"@));
    reveal_strlit("ENUM");
    reveal_strlit("enum");
    assert(spec_symbol_kind_name(10) =~= ascii_lower("ENUM"@));
    reveal_strlit("INTERFACE");
    reveal_strlit("interface");
    assert(spec_symbol_kind_name(11) =~= ascii_lower("INTERFACE"@));
    reveal_strlit("FUNCTION");
    reveal_strlit("function");
    assert(spec_symbol_kind_name(12) =~= ascii_lower("FUNCTION"@));
    reveal_strlit("VARIABLE");
    reveal_strlit("variable");
    assert(spec_symbol_kind_name(13) =~= ascii_lower("VARIABLE"@));
    reveal_strlit("CONSTANT");
    reveal_strlit("constant");
    assert(spec_symbol_kind_name(14) =~= ascii_lower("CONSTANT"@));
    reveal_strlit("STRING");
    reveal_strlit("string");
    assert(spec_symbol_kind_name(15) =~= ascii_lower("STRING"@));
    reveal_strlit("NUMBER");
    reveal_strlit("number");
    assert(spec_symbol_kind_name(16) =~= ascii_lower("NUMBER"@));
    reveal_strlit("BOOLEAN");
    reveal_strlit("boolean");
    assert(spec_symbol_kind_name(17) =~= ascii_lower("BOOLEAN"@));
    reveal_strlit("ARRAY");
    reveal_strlit("array");
    assert(spec_symbol_kind_name(18) =~= ascii_lower("ARRAY"@));
    reveal_strlit("OBJECT");
    reveal_strlit("object");
    assert(spec_symbol_kind_name(19) =~= ascii_lower("OBJECT"@));
    reveal_strlit("KEY");
    reveal_strlit("key");
    assert(spec_symbol_kind_name(20) =~= ascii_lower("KEY"@));
    reveal_strlit("NULL");
    reveal_strlit("null");
    assert(spec_symbol_kind_name(21) =~= ascii_lower("NULL"@));
    reveal_strlit("ENUM_MEMBER");
    reveal_strlit("enum_member");
    assert(spec_symbol_kind_name(22) =~= ascii_lower("ENUM_MEMBER"@));
    reveal_strlit("STRUCT");
    reveal_strlit("struct");
    assert(spec_symbol_kind_name(23) =~= ascii_lower("STRUCT"@));
    reveal_strlit("EVENT");
    reveal_strlit("event");
    assert(spec_symbol_kind_name(24) =~= ascii_lower("EVENT"@));
    reveal_strlit("OPERATOR");
    reveal_strlit("operator");
    assert(spec_symbol_kind_name(25) =~= ascii_lower("OPERATOR"@));
    reveal_strlit("TYPE_PARAMETER");
    reveal_strlit("type_parameter");
    assert(spec_symbol_kind_name(26) =~= ascii_lower("TYPE_PARAMETER"@));
    assert forall|k: int| 1 <= k <= 26 implies #[trigger] spec_symbol_kind_name(k as u32) == ascii_lower(
        lsp_symbol_kind_constants()[k - 1],
    ) by {
        assert(lsp_symbol_kind_constants()[k - 1] == lsp_symbol_kind_constants()[k - 1]);
    }
}

/// The graph name of a protocol symbol kind is the protocol's own name for
/// it in lower case (kind 23, `STRUCT`, is `struct`; kind 5, `CLASS`, is
/// `class`); kinds outside the protocol's 26 are `unknown`.
pub proof fn lemma_symbol_kind_names_follow_the_protocol(kind: u32)
    ensures
        1 <= kind <= 26 ==> spec_symbol_kind_name(kind) == ascii_lower(lsp_symbol_kind_constants()[kind - 1]),
        !(1 <= kind <= 26) ==> spec_symbol_kind_name(kind) == "unknown"@,
{
    lemma_kind_names_table();
    if 1 <= kind <= 26 {
        assert(spec_symbol_kind_name((kind as int) as u32) == ascii_lower(lsp_symbol_kind_constants()[kind - 1]));
    }
}

} // verus!
