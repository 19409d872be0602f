use vstd::prelude::*;

use crate::error::ExtractError;
use crate::model::{ExtractedSymbol, LspPosition, LspRange, SymbolView, TextRange};
use crate::paths::{path_eq, path_parts};
use crate::text::str_eq;

verus! {

/// Whether a symbol kind is one whose references are extracted.
pub open spec fn spec_is_reference_target_kind(kind: Seq<char>) -> bool {
    kind == "method"@ || kind == "constructor"@ || kind == "class"@ || kind == "struct"@ || kind == "enum"@
        || kind == "enum_member"@ || kind == "interface"@ || kind == "field"@ || kind == "property"@
        || kind == "event"@ || kind == "module"@ || kind == "variable"@ || kind == "constant"@
}

/// Whether a symbol kind is one whose references are extracted.
pub fn is_reference_target_kind(kind: &str) -> (r: bool)
    ensures
        r == spec_is_reference_target_kind(kind@),
{
    str_eq(kind, "method") || str_eq(kind, "constructor") || str_eq(kind, "class") || str_eq(kind, "struct")
        || str_eq(kind, "enum") || str_eq(kind, "enum_member") || str_eq(kind, "interface") || str_eq(
        kind,
        "field",
    ) || str_eq(kind, "property") || str_eq(kind, "event") || str_eq(kind, "module") || str_eq(kind, "variable")
        || str_eq(kind, "constant")
}

/// Whether a symbol kind can be called.
pub open spec fn spec_is_callable_symbol_kind(kind: Seq<char>) -> bool {
    kind == "method"@ || kind == "constructor"@ || kind == "property"@ || kind == "field"@ || kind == "event"@
}

/// Whether a symbol kind can be called.
pub fn is_callable_symbol_kind(kind: &str) -> (r: bool)
    ensures
        r == spec_is_callable_symbol_kind(kind@),
{
    str_eq(kind, "method") || str_eq(kind, "constructor") || str_eq(kind, "property") || str_eq(kind, "field")
        || str_eq(kind, "event")
}

/// Whether a symbol's kind matches the kind that a call hierarchy item
/// reports: equal, or the same word capitalised or in capitals.
pub open spec fn spec_call_kind_matches(symbol_kind: Seq<char>, target_kind: Seq<char>) -> bool {
    symbol_kind == target_kind || (symbol_kind == "method"@ && (target_kind == "Method"@ || target_kind == "METHOD"@))
        || (symbol_kind == "constructor"@ && (target_kind == "Constructor"@ || target_kind == "CONSTRUCTOR"@))
        || (symbol_kind == "property"@ && (target_kind == "Property"@ || target_kind == "PROPERTY"@))
        || (symbol_kind == "field"@ && (target_kind == "Field"@ || target_kind == "FIELD"@))
        || (symbol_kind == "event"@ && (target_kind == "Event"@ || target_kind == "EVENT"@))
}

/// Whether a symbol's kind matches the kind that a call hierarchy item
/// reports.
pub fn call_kind_matches(symbol_kind: &str, target_kind: &str) -> (r: bool)
    ensures
        r == spec_call_kind_matches(symbol_kind@, target_kind@),
{
    str_eq(symbol_kind, target_kind) || (str_eq(symbol_kind, "method") && (str_eq(target_kind, "Method") || str_eq(
        target_kind,
        "METHOD",
    ))) || (str_eq(symbol_kind, "constructor") && (str_eq(target_kind, "Constructor") || str_eq(
        target_kind,
        "CONSTRUCTOR",
    ))) || (str_eq(symbol_kind, "property") && (str_eq(target_kind, "Property") || str_eq(target_kind, "PROPERTY")))
        || (str_eq(symbol_kind, "field") && (str_eq(target_kind, "Field") || str_eq(target_kind, "FIELD"))) || (
    str_eq(symbol_kind, "event") && (str_eq(target_kind, "Event") || str_eq(target_kind, "EVENT")))
}

/// Whether `left` starts no later than `right`.
pub open spec fn spec_range_start_le(left: TextRange, right: TextRange) -> bool {
    left.start_line < right.start_line || (left.start_line == right.start_line && left.start_col <= right.start_col)
}

/// Whether `left` ends no earlier than `right`.
pub open spec fn spec_range_end_ge(left: TextRange, right: TextRange) -> bool {
    left.end_line > right.end_line || (left.end_line == right.end_line && left.end_col >= right.end_col)
}

/// Whether `container` contains `inner`.
pub open spec fn spec_contains_range(container: TextRange, inner: TextRange) -> bool {
    spec_range_start_le(container, inner) && spec_range_end_ge(container, inner)
}

/// The size of a range: lines weigh a million columns.
pub open spec fn spec_range_size(range: TextRange) -> int {
    (range.end_line - range.start_line) * 1_000_000 + (range.end_col - range.start_col)
}

/// How far apart two ranges are: lines weigh a million columns.
pub open spec fn spec_range_distance(left: TextRange, right: TextRange) -> int {
    abs(left.start_line - right.start_line) * 1_000_000 + abs(left.start_col - right.start_col) + abs(
        left.end_line - right.end_line,
    ) * 1_000_000 + abs(left.end_col - right.end_col)
}

/// The absolute value of an integer.
pub open spec fn abs(x: int) -> int {
    if x < 0 {
        -x
    } else {
        x
    }
}

/// Whether `left` starts no later than `right`.
pub fn range_start_le(left: TextRange, right: TextRange) -> (r: bool)
    ensures
        r == spec_range_start_le(left, right),
{
    left.start_line < right.start_line || (left.start_line == right.start_line && left.start_col <= right.start_col)
}

/// Whether `left` ends no earlier than `right`.
pub fn range_end_ge(left: TextRange, right: TextRange) -> (r: bool)
    ensures
        r == spec_range_end_ge(left, right),
{
    left.end_line > right.end_line || (left.end_line == right.end_line && left.end_col >= right.end_col)
}

/// Whether `container` contains `inner`.
pub fn contains_range(container: TextRange, inner: TextRange) -> (r: bool)
    ensures
        r == spec_contains_range(container, inner),
{
    range_start_le(container, inner) && range_end_ge(container, inner)
}

/// The size of a range: lines weigh a million columns.
pub fn range_size(range: TextRange) -> (r: i128)
    ensures
        r == spec_range_size(range),
{
    let lines: i128 = range.end_line as i128 - range.start_line as i128;
    let cols: i128 = range.end_col as i128 - range.start_col as i128;
    lines * 1_000_000 + cols
}

/// The absolute difference of two integers.
fn abs_diff(a: i64, b: i64) -> (r: i128)
    ensures
        r == abs(a - b),
{
    let d: i128 = a as i128 - b as i128;
    if d < 0 {
        -d
    } else {
        d
    }
}

/// How far apart two ranges are: lines weigh a million columns.
pub fn range_distance(left: TextRange, right: TextRange) -> (r: i128)
    ensures
        r == spec_range_distance(left, right),
{
    abs_diff(left.start_line, right.start_line) * 1_000_000 + abs_diff(left.start_col, right.start_col) + abs_diff(
        left.end_line,
        right.end_line,
    ) * 1_000_000 + abs_diff(left.end_col, right.end_col)
}

/// Whether a value fits a protocol position coordinate.
pub open spec fn fits_u32(x: i64) -> bool {
    0 <= x <= u32::MAX
}

/// Why a range cannot be written as a protocol range: `Some(true)` where
/// the first coordinate that does not fit is a line, `Some(false)` where it
/// is a column, `None` where every coordinate fits.
pub open spec fn range_failure(range: TextRange) -> Option<bool> {
    if !fits_u32(range.start_line) {
        Some(true)
    } else if !fits_u32(range.start_col) {
        Some(false)
    } else if !fits_u32(range.end_line) {
        Some(true)
    } else if !fits_u32(range.end_col) {
        Some(false)
    } else {
        None
    }
}

/// The protocol range of a store range whose coordinates fit.
pub open spec fn spec_lsp_range(range: TextRange) -> LspRange {
    LspRange {
        start: LspPosition { line: range.start_line as u32, character: range.start_col as u32 },
        end: LspPosition { line: range.end_line as u32, character: range.end_col as u32 },
    }
}

/// The error for a range that cannot be written as a protocol range.
pub open spec fn is_position_error(e: ExtractError, line: bool) -> bool {
    e matches ExtractError::ResponseShape { provider, method, message } && provider@ == "csharp-ls"@ && method@
        == "textDocument/references"@ && message@ == if line {
        "document-symbol range line could not be converted to LSP position"@
    } else {
        "document-symbol range column could not be converted to LSP position"@
    }
}

/// A protocol position from store coordinates.
pub fn lsp_position(line: i64, character: i64) -> (result: Result<LspPosition, ExtractError>)
    ensures
        fits_u32(line) && fits_u32(character) ==> result == Ok::<LspPosition, ExtractError>(
            LspPosition { line: line as u32, character: character as u32 },
        ),
        !fits_u32(line) ==> (result matches Err(e) && is_position_error(e, true)),
        fits_u32(line) && !fits_u32(character) ==> (result matches Err(e) && is_position_error(e, false)),
{
    if line < 0 || line > 4294967295 {
        return Err(
            ExtractError::response_shape(
                "csharp-ls",
                "textDocument/references",
                "document-symbol range line could not be converted to LSP position",
            ),
        );
    }
    if character < 0 || character > 4294967295 {
        return Err(
            ExtractError::response_shape(
                "csharp-ls",
                "textDocument/references",
                "document-symbol range column could not be converted to LSP position",
            ),
        );
    }
    Ok(LspPosition { line: line as u32, character: character as u32 })
}

/// A protocol range from a store range.
pub fn lsp_range_from_text_range(range: TextRange) -> (result: Result<LspRange, ExtractError>)
    ensures
        range_failure(range) is None ==> result == Ok::<LspRange, ExtractError>(spec_lsp_range(range)),
        range_failure(range) matches Some(line) ==> (result matches Err(e) && is_position_error(e, line)),
{
    let start = lsp_position(range.start_line, range.start_col)?;
    let end = lsp_position(range.end_line, range.end_col)?;
    Ok(LspRange { start, end })
}

/// The index of the first element of `s` with the least measure among those
/// that satisfy `pred`, as `Iterator::min_by_key` picks it after a
/// `filter`.
pub open spec fn first_min(s: Seq<SymbolView>, pred: spec_fn(SymbolView) -> bool, measure: spec_fn(SymbolView) -> int) -> Option<int>
    decreases s.len(),
{
    if s.len() == 0 {
        None
    } else {
        let prev = first_min(s.drop_last(), pred, measure);
        if !pred(s.last()) {
            prev
        } else {
            match prev {
                None => Some(s.len() - 1),
                Some(j) => if measure(s.last()) < measure(s[j]) {
                    Some(s.len() - 1)
                } else {
                    Some(j)
                },
            }
        }
    }
}

/// `first_min` picks an index in range.
pub proof fn lemma_first_min_in_range(s: Seq<SymbolView>, pred: spec_fn(SymbolView) -> bool, measure: spec_fn(SymbolView) -> int)
    ensures
        first_min(s, pred, measure) matches Some(i) ==> 0 <= i < s.len() && pred(s[i]),
    decreases s.len(),
{
    if s.len() > 0 {
        lemma_first_min_in_range(s.drop_last(), pred, measure);
    }
}

/// `first_min` picks the first element of least measure among those that
/// satisfy the predicate, and picks nothing only where none does.
pub proof fn lemma_first_min_is_least(
    s: Seq<SymbolView>,
    pred: spec_fn(SymbolView) -> bool,
    measure: spec_fn(SymbolView) -> int,
)
    ensures
        first_min(s, pred, measure) is None <==> forall|j: int| 0 <= j < s.len() ==> !pred(#[trigger] s[j]),
        first_min(s, pred, measure) matches Some(i) ==> {
            &&& 0 <= i < s.len()
            &&& pred(s[i])
            &&& forall|j: int| 0 <= j < s.len() && pred(#[trigger] s[j]) ==> measure(s[i]) <= measure(s[j])
            &&& forall|j: int| 0 <= j < i && pred(#[trigger] s[j]) ==> measure(s[i]) < measure(s[j])
        },
    decreases s.len(),
{
    if s.len() > 0 {
        let p = s.drop_last();
        lemma_first_min_is_least(p, pred, measure);
        assert forall|j: int| 0 <= j < p.len() implies p[j] == s[j] by {}
        let r = first_min(s, pred, measure);
        if r is None {
            assert forall|j: int| 0 <= j < s.len() implies !pred(#[trigger] s[j]) by {
                if j < p.len() {
                    assert(p[j] == s[j]);
                }
            }
        }
        match r {
            Some(i) => {
                assert forall|j: int| 0 <= j < s.len() && pred(#[trigger] s[j]) implies measure(s[i]) <= measure(s[j]) by {
                    if j < p.len() {
                        assert(p[j] == s[j]);
                    }
                }
                assert forall|j: int| 0 <= j < i && pred(#[trigger] s[j]) implies measure(s[i]) < measure(s[j]) by {
                    if j < p.len() {
                        assert(p[j] == s[j]);
                    }
                }
            },
            None => {},
        }
    }
}

/// The deepest symbol containing a range contains it, and no symbol that
/// contains it is smaller; it is the first of that size. Where none is
/// picked, no symbol contains the range.
pub proof fn lemma_deepest_containing_is_smallest(symbols: Seq<SymbolView>, range: TextRange)
    ensures
        deepest_containing(symbols, range) is None <==> forall|j: int|
            0 <= j < symbols.len() ==> !spec_contains_range(#[trigger] symbols[j].range, range),
        deepest_containing(symbols, range) matches Some(i) ==> {
            &&& 0 <= i < symbols.len()
            &&& spec_contains_range(symbols[i].range, range)
            &&& forall|j: int|
                0 <= j < symbols.len() && spec_contains_range(#[trigger] symbols[j].range, range) ==> spec_range_size(
                    symbols[i].range,
                ) <= spec_range_size(symbols[j].range)
            &&& forall|j: int|
                0 <= j < i && spec_contains_range(#[trigger] symbols[j].range, range) ==> spec_range_size(
                    symbols[i].range,
                ) < spec_range_size(symbols[j].range)
        },
{
    let pred = |s: SymbolView| spec_contains_range(s.range, range);
    let measure = |s: SymbolView| spec_range_size(s.range);
    lemma_first_min_is_least(symbols, pred, measure);
    assert forall|j: int| 0 <= j < symbols.len() implies pred(#[trigger] symbols[j]) == spec_contains_range(
        symbols[j].range,
        range,
    ) by {}
}

/// The views of a list of symbols.
pub open spec fn symbol_views(symbols: Seq<ExtractedSymbol>) -> Seq<SymbolView> {
    symbols.map_values(|s: ExtractedSymbol| s@)
}

/// The deepest symbol containing `range`: the first of least size among
/// those whose range contains it.
pub open spec fn deepest_containing(symbols: Seq<SymbolView>, range: TextRange) -> Option<int> {
    first_min(
        symbols,
        |s: SymbolView| spec_contains_range(s.range, range),
        |s: SymbolView| spec_range_size(s.range),
    )
}

/// The index of the deepest symbol that contains `range`.
pub fn deepest_symbol_containing(symbols: &Vec<ExtractedSymbol>, range: TextRange) -> (r: Option<usize>)
    ensures
        r matches Some(i) ==> deepest_containing(symbol_views(symbols@), range) == Some(i as int),
        r is None ==> deepest_containing(symbol_views(symbols@), range) is None,
{
    let ghost sv = symbol_views(symbols@);
    let ghost pred = |s: SymbolView| spec_contains_range(s.range, range);
    let ghost measure = |s: SymbolView| spec_range_size(s.range);
    let mut best: Option<usize> = None;
    let mut best_size: i128 = 0;
    let mut i: usize = 0;
    while i < symbols.len()
        invariant
            sv == symbol_views(symbols@),
            pred == (|s: SymbolView| spec_contains_range(s.range, range)),
            measure == (|s: SymbolView| spec_range_size(s.range)),
            i <= symbols@.len(),
            match best {
                Some(b) => first_min(sv.subrange(0, i as int), pred, measure) == Some(b as int) && b < i
                    && best_size == spec_range_size(symbols@[b as int].range),
                None => first_min(sv.subrange(0, i as int), pred, measure) is None,
            },
        decreases symbols@.len() - i,
    {
        let ghost pre = sv.subrange(0, i as int);
        let ghost next = sv.subrange(0, i + 1);
        assert(next.drop_last() =~= pre);
        assert(next.last() == symbols@[i as int]@);
        let symbol = &symbols[i];
        if contains_range(symbol.range, range) {
            let size = range_size(symbol.range);
            match best {
                None => {
                    best = Some(i);
                    best_size = size;
                },
                Some(b) => {
                    assert(pre[b as int] == symbols@[b as int]@);
                    assert(next[b as int] == pre[b as int]);
                    if size < best_size {
                        best = Some(i);
                        best_size = size;
                    }
                },
            }
        }
        i = i + 1;
    }
    assert(sv.subrange(0, i as int) =~= sv);
    best
}

/// How a caller of an incoming call was matched to a symbol.
#[derive(Debug, Clone, Copy, PartialEq, Eq, Structural)]
pub enum CallResolutionMode {
    ExactSelectionRange,
    ContainingNameRange,
    NearestNameKindRange,
}

impl CallResolutionMode {
    /// The mode's name.
    pub open spec fn spec_str(self) -> Seq<char> {
        match self {
            CallResolutionMode::ExactSelectionRange => "exact_selection_range"@,
            CallResolutionMode::ContainingNameRange => "containing_name_range"@,
            CallResolutionMode::NearestNameKindRange => "nearest_name_kind_range"@,
        }
    }

    /// The mode's name.
    pub fn as_str(self) -> (s: &'static str)
        ensures
            s@ == self.spec_str(),
    {
        match self {
            CallResolutionMode::ExactSelectionRange => "exact_selection_range",
            CallResolutionMode::ContainingNameRange => "containing_name_range",
            CallResolutionMode::NearestNameKindRange => "nearest_name_kind_range",
        }
    }
}

/// The index of the first symbol whose selection range is `selection`.
pub open spec fn first_with_selection(symbols: Seq<SymbolView>, selection: TextRange) -> Option<int> {
    first_min(symbols, |s: SymbolView| s.selection_range == selection, |s: SymbolView| 0)
}

/// The symbol that a call hierarchy item stands for: the first symbol with
/// its selection range; else, of the symbols with its name whose range
/// contains its range, the first of least size; else, of the symbols with
/// its name and a matching kind, the first nearest to its selection range.
pub open spec fn spec_call_target_mapping(
    symbols: Seq<SymbolView>,
    name: Seq<char>,
    kind: Seq<char>,
    range: TextRange,
    selection: TextRange,
) -> Option<(int, CallResolutionMode)> {
    match first_with_selection(symbols, selection) {
        Some(i) => Some((i, CallResolutionMode::ExactSelectionRange)),
        None => match first_min(
            symbols,
            |s: SymbolView| s.name == name && spec_contains_range(s.range, range),
            |s: SymbolView| spec_range_size(s.range),
        ) {
            Some(i) => Some((i, CallResolutionMode::ContainingNameRange)),
            None => match first_min(
                symbols,
                |s: SymbolView| s.name == name && spec_call_kind_matches(s.kind, kind),
                |s: SymbolView| spec_range_distance(s.selection_range, selection),
            ) {
                Some(i) => Some((i, CallResolutionMode::NearestNameKindRange)),
                None => None,
            },
        },
    }
}

/// The first symbol whose selection range is `selection`.
fn find_selection(symbols: &Vec<ExtractedSymbol>, selection: TextRange) -> (r: Option<usize>)
    ensures
        r matches Some(i) ==> first_with_selection(symbol_views(symbols@), selection) == Some(i as int),
        r is None ==> first_with_selection(symbol_views(symbols@), selection) is None,
{
    let ghost sv = symbol_views(symbols@);
    let ghost pred = |s: SymbolView| s.selection_range == selection;
    let ghost measure = |s: SymbolView| 0int;
    let mut best: Option<usize> = None;
    let mut i: usize = 0;
    while i < symbols.len()
        invariant
            sv == symbol_views(symbols@),
            pred == (|s: SymbolView| s.selection_range == selection),
            measure == (|s: SymbolView| 0int),
            i <= symbols@.len(),
            match best {
                Some(b) => first_min(sv.subrange(0, i as int), pred, measure) == Some(b as int) && b < i,
                None => first_min(sv.subrange(0, i as int), pred, measure) is None,
            },
        decreases symbols@.len() - i,
    {
        let ghost pre = sv.subrange(0, i as int);
        let ghost next = sv.subrange(0, i + 1);
        assert(next.drop_last() =~= pre);
        assert(next.last() == symbols@[i as int]@);
        if best.is_none() && symbols[i].selection_range == selection {
            best = Some(i);
        }
        i = i + 1;
    }
    assert(sv.subrange(0, i as int) =~= sv);
    best
}

/// The first symbol of least size with `name` whose range contains `range`.
fn find_containing_named(symbols: &Vec<ExtractedSymbol>, name: &str, range: TextRange) -> (r: Option<usize>)
    ensures
        r matches Some(i) ==> first_min(
            symbol_views(symbols@),
            |s: SymbolView| s.name == name@ && spec_contains_range(s.range, range),
            |s: SymbolView| spec_range_size(s.range),
        ) == Some(i as int),
        r is None ==> first_min(
            symbol_views(symbols@),
            |s: SymbolView| s.name == name@ && spec_contains_range(s.range, range),
            |s: SymbolView| spec_range_size(s.range),
        ) is None,
{
    let ghost sv = symbol_views(symbols@);
    let ghost pred = |s: SymbolView| s.name == name@ && spec_contains_range(s.range, range);
    let ghost measure = |s: SymbolView| spec_range_size(s.range);
    let mut best: Option<usize> = None;
    let mut best_size: i128 = 0;
    let mut i: usize = 0;
    while i < symbols.len()
        invariant
            sv == symbol_views(symbols@),
            pred == (|s: SymbolView| s.name == name@ && spec_contains_range(s.range, range)),
            measure == (|s: SymbolView| spec_range_size(s.range)),
            i <= symbols@.len(),
            match best {
                Some(b) => first_min(sv.subrange(0, i as int), pred, measure) == Some(b as int) && b < i
                    && best_size == spec_range_size(symbols@[b as int].range),
                None => first_min(sv.subrange(0, i as int), pred, measure) is None,
            },
        decreases symbols@.len() - i,
    {
        let ghost pre = sv.subrange(0, i as int);
        let ghost next = sv.subrange(0, i + 1);
        assert(next.drop_last() =~= pre);
        assert(next.last() == symbols@[i as int]@);
        let symbol = &symbols[i];
        if str_eq(symbol.name.as_str(), name) && contains_range(symbol.range, range) {
            let size = range_size(symbol.range);
            match best {
                None => {
                    best = Some(i);
                    best_size = size;
                },
                Some(b) => {
                    assert(pre[b as int] == symbols@[b as int]@);
                    assert(next[b as int] == pre[b as int]);
                    if size < best_size {
                        best = Some(i);
                        best_size = size;
                    }
                },
            }
        }
        i = i + 1;
    }
    assert(sv.subrange(0, i as int) =~= sv);
    best
}

/// The first symbol with `name` and a matching kind nearest to `selection`.
fn find_nearest_named(symbols: &Vec<ExtractedSymbol>, name: &str, kind: &str, selection: TextRange) -> (r: Option<usize>)
    ensures
        r matches Some(i) ==> first_min(
            symbol_views(symbols@),
            |s: SymbolView| s.name == name@ && spec_call_kind_matches(s.kind, kind@),
            |s: SymbolView| spec_range_distance(s.selection_range, selection),
        ) == Some(i as int),
        r is None ==> first_min(
            symbol_views(symbols@),
            |s: SymbolView| s.name == name@ && spec_call_kind_matches(s.kind, kind@),
            |s: SymbolView| spec_range_distance(s.selection_range, selection),
        ) is None,
{
    let ghost sv = symbol_views(symbols@);
    let ghost pred = |s: SymbolView| s.name == name@ && spec_call_kind_matches(s.kind, kind@);
    let ghost measure = |s: SymbolView| spec_range_distance(s.selection_range, selection);
    let mut best: Option<usize> = None;
    let mut best_distance: i128 = 0;
    let mut i: usize = 0;
    while i < symbols.len()
        invariant
            sv == symbol_views(symbols@),
            pred == (|s: SymbolView| s.name == name@ && spec_call_kind_matches(s.kind, kind@)),
            measure == (|s: SymbolView| spec_range_distance(s.selection_range, selection)),
            i <= symbols@.len(),
            match best {
                Some(b) => first_min(sv.subrange(0, i as int), pred, measure) == Some(b as int) && b < i
                    && best_distance == spec_range_distance(symbols@[b as int].selection_range, selection),
                None => first_min(sv.subrange(0, i as int), pred, measure) is None,
            },
        decreases symbols@.len() - i,
    {
        let ghost pre = sv.subrange(0, i as int);
        let ghost next = sv.subrange(0, i + 1);
        assert(next.drop_last() =~= pre);
        assert(next.last() == symbols@[i as int]@);
        let symbol = &symbols[i];
        if str_eq(symbol.name.as_str(), name) && call_kind_matches(symbol.kind.as_str(), kind) {
            let distance = range_distance(symbol.selection_range, selection);
            match best {
                None => {
                    best = Some(i);
                    best_distance = distance;
                },
                Some(b) => {
                    assert(pre[b as int] == symbols@[b as int]@);
                    assert(next[b as int] == pre[b as int]);
                    if distance < best_distance {
                        best = Some(i);
                        best_distance = distance;
                    }
                },
            }
        }
        i = i + 1;
    }
    assert(sv.subrange(0, i as int) =~= sv);
    best
}

/// The symbol of a file that a call hierarchy item stands for, and how it
/// was matched.
pub fn call_target_mapping(
    symbols: &Vec<ExtractedSymbol>,
    target_name: &str,
    target_kind: &str,
    target_range: TextRange,
    target_selection_range: TextRange,
) -> (r: Option<(usize, CallResolutionMode)>)
    ensures
        r matches Some((i, mode)) ==> spec_call_target_mapping(
            symbol_views(symbols@),
            target_name@,
            target_kind@,
            target_range,
            target_selection_range,
        ) == Some((i as int, mode)),
        r is None ==> spec_call_target_mapping(
            symbol_views(symbols@),
            target_name@,
            target_kind@,
            target_range,
            target_selection_range,
        ) is None,
{
    if let Some(i) = find_selection(symbols, target_selection_range) {
        return Some((i, CallResolutionMode::ExactSelectionRange));
    }
    if let Some(i) = find_containing_named(symbols, target_name, target_range) {
        return Some((i, CallResolutionMode::ContainingNameRange));
    }
    match find_nearest_named(symbols, target_name, target_kind, target_selection_range) {
        Some(i) => Some((i, CallResolutionMode::NearestNameKindRange)),
        None => None,
    }
}

/// The index of the last path in `paths` with the components of `path`:
/// the file that a map keyed by path gives for it, the last insert winning.
pub open spec fn last_path_match(paths: Seq<Seq<char>>, path: Seq<char>) -> Option<int>
    decreases paths.len(),
{
    if paths.len() == 0 {
        None
    } else if path_parts(paths.last()) == path_parts(path) {
        Some(paths.len() - 1)
    } else {
        last_path_match(paths.drop_last(), path)
    }
}

/// `last_path_match` picks an index in range.
pub proof fn lemma_last_path_match_in_range(paths: Seq<Seq<char>>, path: Seq<char>)
    ensures
        last_path_match(paths, path) matches Some(i) ==> 0 <= i < paths.len(),
    decreases paths.len(),
{
    if paths.len() > 0 {
        lemma_last_path_match_in_range(paths.drop_last(), path);
    }
}

/// The views of a list of strings.
pub open spec fn string_views(v: Seq<String>) -> Seq<Seq<char>> {
    v.map_values(|s: String| s@)
}

/// The index of the file whose path has the components of `path`.
pub fn file_context(paths: &Vec<String>, path: &str) -> (r: Option<usize>)
    ensures
        r matches Some(i) ==> last_path_match(string_views(paths@), path@) == Some(i as int),
        r is None ==> last_path_match(string_views(paths@), path@) is None,
{
    let ghost pv = string_views(paths@);
    let mut i: usize = paths.len();
    assert(pv.subrange(0, paths@.len() as int) =~= pv);
    while i > 0
        invariant
            pv == string_views(paths@),
            i <= paths@.len(),
            last_path_match(pv, path@) == last_path_match(pv.subrange(0, i as int), path@),
        decreases i,
    {
        let ghost pre = pv.subrange(0, i as int);
        assert(pre.drop_last() =~= pv.subrange(0, i - 1));
        assert(pre.last() == paths@[i - 1]@);
        if path_eq(paths[i - 1].as_str(), path) {
            return Some(i - 1);
        }
        i = i - 1;
    }
    assert(pv.subrange(0, 0) =~= Seq::<Seq<char>>::empty());
    None
}


/// The symbol kinds whose references are extracted.
pub open spec fn reference_target_kinds() -> Set<Seq<char>> {
    set![
        "method"@,
        "constructor"@,
        "class"@,
        "struct"@,
        "enum"@,
        "enum_member"@,
        "interface"@,
        "field"@,
        "property"@,
        "event"@,
        "module"@,
        "variable"@,
        "constant"@,
    ]
}

/// The symbol kinds whose incoming calls are extracted.
pub open spec fn callable_kinds() -> Set<Seq<char>> {
    set!["method"@, "constructor"@, "property"@, "field"@, "event"@]
}

/// A kind is a reference target exactly when it is one of the thirteen
/// referable kinds: methods, constructors, classes, structs, enums, enum
/// members, interfaces, fields, properties, events, modules, variables and
/// constants.
pub proof fn lemma_reference_target_kinds(kind: Seq<char>)
    ensures
        spec_is_reference_target_kind(kind) <==> reference_target_kinds().contains(kind),
        spec_is_reference_target_kind("interface"@),
        spec_is_reference_target_kind("class"@) && spec_is_reference_target_kind("struct"@),
{
}

/// A kind can be called exactly when it is a method, constructor, property,
/// field or event; every callable kind is also a reference target.
pub proof fn lemma_callable_kinds(kind: Seq<char>)
    ensures
        spec_is_callable_symbol_kind(kind) <==> callable_kinds().contains(kind),
        spec_is_callable_symbol_kind("constructor"@),
        spec_is_callable_symbol_kind(kind) ==> spec_is_reference_target_kind(kind),
{
}

} // verus!
