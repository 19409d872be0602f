use vstd::prelude::*;

use crate::error::ExtractError;
use crate::lsif::{file_scheme, file_uri_to_path, file_uri_to_path_result, spec_decode_path, PathDecodeOutcome};
use crate::paths::{
    lemma_parts_less_total, lemma_parts_less_transitive, order_path, path_less, path_parts, path_starts_with,
    starts_with_path,
};
use crate::symbols::string_views;
use crate::text::{str_eq, Order};

verus! {

/// One non-blank line of `rust-analyzer lsif` output, as far as discovery
/// reads it.
pub enum LsifLine {
    /// The line is not JSON.
    Malformed { message: String },
    /// The line is JSON whose label is not `document`.
    NotDocument,
    /// The line is labelled `document` but is not a document vertex.
    BadDocument { message: String },
    /// A document vertex.
    Document { vertex_type: String, label: String, uri: String, language_id: Option<String> },
}

/// Whether a document vertex is a Rust document.
pub open spec fn is_rust_document(line: LsifLine) -> bool {
    line matches LsifLine::Document { vertex_type, label, language_id, .. } && vertex_type@ == "vertex"@ && label@
        == "document"@ && (language_id matches Some(l) && l@ == "rust"@)
}

/// The local path of a file URI, where it has one.
pub open spec fn uri_path(uri: Seq<char>) -> Option<Seq<char>> {
    if uri.len() > 7 && uri.subrange(0, 7) == file_scheme() && uri[7] == '/' {
        match spec_decode_path(uri.subrange(7, uri.len() as int)) {
            PathDecodeOutcome::Decoded(p) => Some(p),
            _ => None,
        }
    } else {
        None
    }
}

/// Whether a line stops discovery with an error.
pub open spec fn line_fails(line: LsifLine) -> bool {
    match line {
        LsifLine::Malformed { .. } => true,
        LsifLine::BadDocument { .. } => true,
        LsifLine::Document { uri, .. } => is_rust_document(line) && uri_path(uri@) is None,
        LsifLine::NotDocument => false,
    }
}

/// The index of the first line that stops discovery.
pub open spec fn first_failing_line(lines: Seq<LsifLine>) -> Option<int>
    decreases lines.len(),
{
    if lines.len() == 0 {
        None
    } else {
        match first_failing_line(lines.drop_last()) {
            Some(i) => Some(i),
            None => if line_fails(lines.last()) {
                Some(lines.len() - 1)
            } else {
                None
            },
        }
    }
}

/// The paths of the Rust documents under the package, in line order.
pub open spec fn package_document_paths(lines: Seq<LsifLine>, package_path: Seq<char>) -> Seq<Seq<char>>
    decreases lines.len(),
{
    if lines.len() == 0 {
        Seq::empty()
    } else {
        package_document_paths(lines.drop_last(), package_path) + match lines.last() {
            LsifLine::Document { uri, .. } => if is_rust_document(lines.last()) && uri_path(uri@) is Some
                && path_starts_with(uri_path(uri@)->0, package_path) {
                seq![uri_path(uri@)->0]
            } else {
                Seq::empty()
            },
            _ => Seq::empty(),
        }
    }
}

/// `v` holds the paths of `ps` sorted by path order with paths of equal
/// components once, each as it first occurs in `ps`.
pub open spec fn sorted_unique_paths(v: Seq<Seq<char>>, ps: Seq<Seq<char>>) -> bool {
    &&& forall|i: int, j: int| 0 <= i < j < v.len() ==> path_less(#[trigger] v[i], #[trigger] v[j])
    &&& forall|i: int| 0 <= i < v.len() ==> #[trigger] first_of_parts(ps, v[i])
    &&& forall|k: int| 0 <= k < ps.len() ==> #[trigger] has_parts(v, ps[k])
}

/// `p` occurs in `ps` before any other path with its components.
pub open spec fn first_of_parts(ps: Seq<Seq<char>>, p: Seq<char>) -> bool {
    exists|k: int|
        0 <= k < ps.len() && ps[k] == p && forall|k2: int| 0 <= k2 < k ==> path_parts(#[trigger] ps[k2]) != path_parts(p)
}

/// Some path of `v` has the components of `p`.
pub open spec fn has_parts(v: Seq<Seq<char>>, p: Seq<char>) -> bool {
    exists|i: int| 0 <= i < v.len() && path_parts(#[trigger] v[i]) == path_parts(p)
}

/// Whether a line of an accepted document vertex is a Rust document.
fn accepts_document(vertex_type: &str, label: &str, language_id: &Option<String>) -> (r: bool)
    ensures
        r == (vertex_type@ == "vertex"@ && label@ == "document"@ && (language_id matches Some(l) && l@ == "rust"@)),
{
    let is_rust = match language_id {
        Some(l) => str_eq(l.as_str(), "rust"),
        None => false,
    };
    str_eq(vertex_type, "vertex") && str_eq(label, "document") && is_rust
}

/// A `file_uri_to_path` error is owed exactly where the URI has no path.
proof fn lemma_uri_path_result(uri: Seq<char>, result: Result<String, ExtractError>)
    requires
        file_uri_to_path_result(uri, result),
    ensures
        result is Ok <==> uri_path(uri) is Some,
        result matches Ok(p) ==> uri_path(uri) == Some(p@),
{
}

/// Adds a path to a list sorted by path order with unique components,
/// unless a path with its components is there already.
pub(crate) fn insert_unique_path(v: &mut Vec<String>, p: String, Ghost(ps): Ghost<Seq<Seq<char>>>)
    requires
        sorted_unique_paths(string_views(old(v)@), ps),
    ensures
        sorted_unique_paths(string_views(final(v)@), ps.push(p@)),
{
    let ghost old_v = string_views(v@);
    let ghost ps2 = ps.push(p@);
    let mut lo: usize = 0;
    let mut hi: usize = v.len();
    while lo < hi
        invariant
            old_v == string_views(v@),
            old_v.len() == v@.len(),
            sorted_unique_paths(old_v, ps),
            lo <= hi <= old_v.len(),
            forall|j: int| 0 <= j < lo ==> path_less(#[trigger] old_v[j], p@),
            forall|j: int| hi <= j < old_v.len() ==> !path_less(#[trigger] old_v[j], p@),
        decreases hi - lo,
    {
        let mid = lo + (hi - lo) / 2;
        assert(old_v[mid as int] == v@[mid as int]@);
        if order_path(v[mid].as_str(), p.as_str()) == Order::Less {
            proof {
                assert forall|j: int| 0 <= j < mid + 1 implies path_less(#[trigger] old_v[j], p@) by {
                    if j < mid {
                        assert(path_less(old_v[j], old_v[mid as int]));
                        lemma_parts_less_transitive(path_parts(old_v[j]), path_parts(old_v[mid as int]), path_parts(p@));
                    }
                }
            }
            lo = mid + 1;
        } else {
            proof {
                assert forall|j: int| mid <= j < old_v.len() implies !path_less(#[trigger] old_v[j], p@) by {
                    if j > mid {
                        assert(path_less(old_v[mid as int], old_v[j]));
                        if path_less(old_v[j], p@) {
                            lemma_parts_less_transitive(path_parts(old_v[mid as int]), path_parts(old_v[j]), path_parts(p@));
                        }
                    }
                }
            }
            hi = mid;
        }
    }
    let i = lo;
    if i < v.len() && order_path(v[i].as_str(), p.as_str()) == Order::Equal {
        proof {
            assert(old_v[i as int] == v@[i as int]@);
            assert forall|a: int| 0 <= a < old_v.len() implies #[trigger] first_of_parts(ps2, old_v[a]) by {
                assert(first_of_parts(ps, old_v[a]));
                let k = choose|k: int|
                    0 <= k < ps.len() && ps[k] == old_v[a] && forall|k2: int|
                        0 <= k2 < k ==> path_parts(#[trigger] ps[k2]) != path_parts(old_v[a]);
                assert(ps2[k] == ps[k]);
                assert forall|k2: int| 0 <= k2 < k implies path_parts(#[trigger] ps2[k2]) != path_parts(old_v[a]) by {
                    assert(ps2[k2] == ps[k2]);
                }
            }
            assert forall|k: int| 0 <= k < ps2.len() implies #[trigger] has_parts(old_v, ps2[k]) by {
                if k < ps.len() {
                    assert(ps2[k] == ps[k]);
                    assert(has_parts(old_v, ps[k]));
                } else {
                    assert(path_parts(old_v[i as int]) == path_parts(ps2[k]));
                }
            }
        }
        return;
    }
    proof {
        if i < old_v.len() {
            assert(old_v[i as int] == v@[i as int]@);
            lemma_parts_less_total(path_parts(old_v[i as int]), path_parts(p@));
        }
        assert forall|a: int| 0 <= a < old_v.len() implies path_parts(old_v[a]) != path_parts(p@) by {
            if a < i {
                lemma_parts_less_total(path_parts(old_v[a]), path_parts(p@));
            } else {
                if a > i {
                    lemma_parts_less_transitive(path_parts(p@), path_parts(old_v[i as int]), path_parts(old_v[a]));
                }
                lemma_parts_less_total(path_parts(old_v[a]), path_parts(p@));
            }
        }
    }
    v.insert(i, p);
    proof {
        let nv = string_views(v@);
        assert(nv =~= old_v.insert(i as int, ps2.last()));
        assert forall|a: int, b: int| 0 <= a < b < nv.len() implies path_less(#[trigger] nv[a], #[trigger] nv[b]) by {
            if b < i {
                assert(nv[a] == old_v[a] && nv[b] == old_v[b]);
            } else if b == i {
                assert(nv[a] == old_v[a]);
            } else if a == i {
                assert(nv[b] == old_v[b - 1]);
                if b - 1 > i {
                    lemma_parts_less_transitive(path_parts(p@), path_parts(old_v[i as int]), path_parts(old_v[b - 1]));
                }
            } else if a < i {
                assert(nv[a] == old_v[a] && nv[b] == old_v[b - 1]);
                lemma_parts_less_transitive(path_parts(old_v[a]), path_parts(p@), path_parts(old_v[i as int]));
                if b - 1 > i {
                    lemma_parts_less_transitive(path_parts(old_v[a]), path_parts(old_v[i as int]), path_parts(old_v[b - 1]));
                }
            } else {
                assert(nv[a] == old_v[a - 1] && nv[b] == old_v[b - 1]);
            }
        }
        assert forall|a: int| 0 <= a < nv.len() implies #[trigger] first_of_parts(ps2, nv[a]) by {
            if a == i {
                let k = ps.len() as int;
                assert(ps2[k] == p@);
                assert forall|k2: int| 0 <= k2 < k implies path_parts(#[trigger] ps2[k2]) != path_parts(p@) by {
                    assert(ps2[k2] == ps[k2]);
                    assert(has_parts(old_v, ps[k2]));
                    let b = choose|b: int| 0 <= b < old_v.len() && path_parts(#[trigger] old_v[b]) == path_parts(ps[k2]);
                }
            } else {
                let oa = if a < i { a } else { a - 1 };
                assert(nv[a] == old_v[oa]);
                assert(first_of_parts(ps, old_v[oa]));
                let k = choose|k: int|
                    0 <= k < ps.len() && ps[k] == old_v[oa] && forall|k2: int|
                        0 <= k2 < k ==> path_parts(#[trigger] ps[k2]) != path_parts(old_v[oa]);
                assert(ps2[k] == ps[k]);
                assert forall|k2: int| 0 <= k2 < k implies path_parts(#[trigger] ps2[k2]) != path_parts(nv[a]) by {
                    assert(ps2[k2] == ps[k2]);
                }
            }
        }
        assert forall|k: int| 0 <= k < ps2.len() implies #[trigger] has_parts(nv, ps2[k]) by {
            if k < ps.len() {
                assert(ps2[k] == ps[k]);
                assert(has_parts(old_v, ps[k]));
                let b = choose|b: int| 0 <= b < old_v.len() && path_parts(#[trigger] old_v[b]) == path_parts(ps[k]);
                if b < i {
                    assert(nv[b] == old_v[b]);
                } else {
                    assert(nv[b + 1] == old_v[b]);
                }
            } else {
                assert(nv[i as int] == ps2[k]);
            }
        }
    }
}

/// The Rust source files under `package_path` that `rust-analyzer lsif`
/// output names, from its non-blank lines in order: sorted by path, each
/// path once. Lines that are not JSON or not document vertices, and URIs
/// that are not local file paths, are errors; no file at all is an error
/// too.
pub fn discover_rust_source_files_from_lsif(package_path: &str, lines: &Vec<LsifLine>) -> (result: Result<
    Vec<String>,
    ExtractError,
>)
    ensures
        match first_failing_line(lines@) {
            Some(i) => match lines@[i] {
                LsifLine::Malformed { message } => result matches Err(ExtractError::Json { context, message: m })
                    && context@ == "parse LSIF line"@ && m@ == message@,
                LsifLine::BadDocument { message } => result matches Err(ExtractError::Json { context, message: m })
                    && context@ == "parse LSIF document vertex"@ && m@ == message@,
                LsifLine::Document { uri, .. } => result matches Err(e) && file_uri_to_path_result(
                    uri@,
                    Err::<String, ExtractError>(e),
                ),
                LsifLine::NotDocument => false,
            },
            None => {
                let ps = package_document_paths(lines@, package_path@);
                if ps.len() == 0 {
                    result matches Err(ExtractError::ResponseShape { provider, method, message }) && provider@
                        == "rust-analyzer"@ && method@ == "rust-analyzer lsif"@ && message@
                        == "LSIF output contained no Rust document vertices under the package path"@
                } else {
                    result matches Ok(v) && sorted_unique_paths(string_views(v@), ps)
                }
            },
        },
{
    let mut paths: Vec<String> = Vec::new();
    let mut i: usize = 0;
    while i < lines.len()
        invariant
            i <= lines@.len(),
            first_failing_line(lines@.take(i as int)) is None,
            sorted_unique_paths(string_views(paths@), package_document_paths(lines@.take(i as int), package_path@)),
        decreases lines@.len() - i,
    {
        let line = &lines[i];
        let ghost pre = lines@.take(i as int);
        let ghost next = lines@.take(i + 1);
        proof {
            assert(next.drop_last() =~= pre);
            assert(next.last() == *line);
        }
        match line {
            LsifLine::Malformed { message } => {
                proof {
                    lemma_first_failing_prefix(lines@, i + 1);
                }
                return Err(ExtractError::json("parse LSIF line", message.as_str()));
            },
            LsifLine::NotDocument => {
                assert(package_document_paths(next, package_path@) =~= package_document_paths(pre, package_path@));
            },
            LsifLine::BadDocument { message } => {
                proof {
                    lemma_first_failing_prefix(lines@, i + 1);
                }
                return Err(ExtractError::json("parse LSIF document vertex", message.as_str()));
            },
            LsifLine::Document { vertex_type, label, uri, language_id } => {
                if accepts_document(vertex_type.as_str(), label.as_str(), language_id) {
                    let decoded = file_uri_to_path(uri.as_str());
                    proof {
                        lemma_uri_path_result(uri@, decoded);
                    }
                    match decoded {
                        Err(e) => {
                            proof {
                                lemma_first_failing_prefix(lines@, i + 1);
                            }
                            return Err(e);
                        },
                        Ok(path) => {
                            if starts_with_path(path.as_str(), package_path) {
                                let ghost ps = package_document_paths(pre, package_path@);
                                insert_unique_path(&mut paths, path, Ghost(ps));
                                assert(package_document_paths(next, package_path@) =~= ps.push(uri_path(uri@)->0));
                            } else {
                                assert(package_document_paths(next, package_path@) =~= package_document_paths(
                                    pre,
                                    package_path@,
                                ));
                            }
                        },
                    }
                } else {
                    assert(package_document_paths(next, package_path@) =~= package_document_paths(pre, package_path@));
                }
            },
        }
        i = i + 1;
    }
    assert(lines@.take(i as int) =~= lines@);
    if paths.len() == 0 {
        proof {
            let ps = package_document_paths(lines@, package_path@);
            if ps.len() > 0 {
                assert(has_parts(string_views(paths@), ps[0]));
            }
        }
        return Err(
            ExtractError::response_shape(
                "rust-analyzer",
                "rust-analyzer lsif",
                "LSIF output contained no Rust document vertices under the package path",
            ),
        );
    }
    proof {
        let ps = package_document_paths(lines@, package_path@);
        assert(first_of_parts(ps, string_views(paths@)[0]));
    }
    Ok(paths)
}

/// A failing line found in a prefix is the first of all the lines.
proof fn lemma_first_failing_prefix(lines: Seq<LsifLine>, n: int)
    requires
        0 <= n <= lines.len(),
        first_failing_line(lines.take(n)) is Some || (n > 0 && first_failing_line(lines.take(n - 1)) is None
            && line_fails(lines[n - 1])),
    ensures
        first_failing_line(lines) == if first_failing_line(lines.take(n)) is Some {
            first_failing_line(lines.take(n))
        } else {
            Some(n - 1)
        },
        first_failing_line(lines.take(n)) is Some,
    decreases lines.len(),
{
    if n > 0 {
        assert(lines.take(n).drop_last() =~= lines.take(n - 1));
        assert(lines.take(n).last() == lines[n - 1]);
    }
    if n == lines.len() {
        assert(lines.take(n) =~= lines);
    } else {
        assert(lines.drop_last().take(n) =~= lines.take(n));
        if n > 0 {
            assert(lines.drop_last().take(n - 1) =~= lines.take(n - 1));
            assert(lines.drop_last()[n - 1] == lines[n - 1]);
        }
        lemma_first_failing_prefix(lines.drop_last(), n);
    }
}


/// Every document path that discovery keeps lies under the package path.
proof fn lemma_package_paths_under(lines: Seq<LsifLine>, package_path: Seq<char>)
    ensures
        forall|k: int|
            0 <= k < package_document_paths(lines, package_path).len() ==> path_starts_with(
                #[trigger] package_document_paths(lines, package_path)[k],
                package_path,
            ),
    decreases lines.len(),
{
    if lines.len() > 0 {
        lemma_package_paths_under(lines.drop_last(), package_path);
        let a = package_document_paths(lines.drop_last(), package_path);
        let all = package_document_paths(lines, package_path);
        assert forall|k: int| 0 <= k < all.len() implies path_starts_with(#[trigger] all[k], package_path) by {
            if k < a.len() {
                assert(all[k] == a[k]);
            }
        }
    }
}

/// The files that discovery finds all lie under the package path, sorted
/// by path with no two of the same components.
pub proof fn lemma_discovered_files_under_package(lines: Seq<LsifLine>, package_path: Seq<char>, files: Seq<Seq<char>>)
    requires
        sorted_unique_paths(files, package_document_paths(lines, package_path)),
    ensures
        forall|i: int| 0 <= i < files.len() ==> path_starts_with(#[trigger] files[i], package_path),
        forall|i: int, j: int| 0 <= i < j < files.len() ==> path_parts(files[i]) != path_parts(files[j]),
{
    let ps = package_document_paths(lines, package_path);
    lemma_package_paths_under(lines, package_path);
    assert forall|i: int| 0 <= i < files.len() implies path_starts_with(#[trigger] files[i], package_path) by {
        assert(first_of_parts(ps, files[i]));
        let k = choose|k: int|
            0 <= k < ps.len() && ps[k] == files[i] && forall|k2: int| 0 <= k2 < k ==> path_parts(#[trigger] ps[k2]) != path_parts(files[i]);
    }
    assert forall|i: int, j: int| 0 <= i < j < files.len() implies path_parts(files[i]) != path_parts(files[j]) by {
        assert(path_less(files[i], files[j]));
        lemma_parts_less_total(path_parts(files[i]), path_parts(files[j]));
    }
}


/// Two strictly path-ordered lists with the same paths are the same list.
proof fn lemma_strictly_sorted_unique(a: Seq<Seq<char>>, b: Seq<Seq<char>>)
    requires
        forall|i: int, j: int| 0 <= i < j < a.len() ==> path_less(#[trigger] a[i], #[trigger] a[j]),
        forall|i: int, j: int| 0 <= i < j < b.len() ==> path_less(#[trigger] b[i], #[trigger] b[j]),
        a.to_set() == b.to_set(),
    ensures
        a == b,
    decreases a.len(),
{
    broadcast use vstd::set::group_set_axioms;

    if a.len() == 0 {
        if b.len() > 0 {
            assert(b.to_set().contains(b[0]));
        }
        assert(b =~= a);
    } else if b.len() == 0 {
        assert(a.to_set().contains(a[0]));
    } else {
        assert(a.to_set().contains(a[0]) && b.to_set().contains(a[0]));
        assert(b.to_set().contains(b[0]) && a.to_set().contains(b[0]));
        let ib = choose|k: int| 0 <= k < b.len() && b[k] == a[0];
        let ia = choose|k: int| 0 <= k < a.len() && a[k] == b[0];
        lemma_parts_less_total(path_parts(a[0]), path_parts(a[0]));
        if ia > 0 {
            assert(path_less(a[0], a[ia]));
            if ib > 0 {
                assert(path_less(b[0], b[ib]));
                lemma_parts_less_total(path_parts(a[0]), path_parts(b[0]));
            }
        }
        if ib > 0 && ia == 0 {
            assert(path_less(b[0], b[ib]));
        }
        assert(a[0] == b[0]);
        let ta = a.drop_first();
        let tb = b.drop_first();
        assert forall|x: Seq<char>| ta.to_set().contains(x) <==> tb.to_set().contains(x) by {
            if ta.to_set().contains(x) {
                let k = choose|k: int| 0 <= k < ta.len() && ta[k] == x;
                assert(a[k + 1] == x);
                assert(path_less(a[0], x));
                assert(b.to_set().contains(x));
                let m = choose|m: int| 0 <= m < b.len() && b[m] == x;
                if m == 0 {
                    lemma_parts_less_total(path_parts(x), path_parts(x));
                }
                assert(tb[m - 1] == x);
            }
            if tb.to_set().contains(x) {
                let k = choose|k: int| 0 <= k < tb.len() && tb[k] == x;
                assert(b[k + 1] == x);
                assert(path_less(b[0], x));
                assert(a.to_set().contains(x));
                let m = choose|m: int| 0 <= m < a.len() && a[m] == x;
                if m == 0 {
                    lemma_parts_less_total(path_parts(x), path_parts(x));
                }
                assert(ta[m - 1] == x);
            }
        }
        assert(ta.to_set() =~= tb.to_set());
        lemma_strictly_sorted_unique(ta, tb);
        assert(a =~= seq![a[0]] + ta);
        assert(b =~= seq![b[0]] + tb);
    }
}

/// Discovery does not depend on the order of the document lines: where two
/// runs keep the same package paths, in any order and number, and no two
/// different paths among them have the same components, their files are
/// the same list.
pub proof fn lemma_discovery_ignores_line_order(
    files1: Seq<Seq<char>>,
    files2: Seq<Seq<char>>,
    ps1: Seq<Seq<char>>,
    ps2: Seq<Seq<char>>,
)
    requires
        sorted_unique_paths(files1, ps1),
        sorted_unique_paths(files2, ps2),
        ps1.to_set() == ps2.to_set(),
        forall|i: int, j: int|
            0 <= i < ps1.len() && 0 <= j < ps1.len() && path_parts(#[trigger] ps1[i]) == path_parts(#[trigger] ps1[j])
                ==> ps1[i] == ps1[j],
    ensures
        files1 == files2,
{
    broadcast use vstd::set::group_set_axioms;

    assert forall|x: Seq<char>| files1.to_set().contains(x) <==> ps1.to_set().contains(x) by {
        if files1.to_set().contains(x) {
            let i = choose|i: int| 0 <= i < files1.len() && files1[i] == x;
            assert(first_of_parts(ps1, files1[i]));
        }
        if ps1.to_set().contains(x) {
            let k = choose|k: int| 0 <= k < ps1.len() && ps1[k] == x;
            assert(has_parts(files1, ps1[k]));
            let i = choose|i: int| 0 <= i < files1.len() && path_parts(#[trigger] files1[i]) == path_parts(ps1[k]);
            assert(first_of_parts(ps1, files1[i]));
            let k2 = choose|k2: int| 0 <= k2 < ps1.len() && ps1[k2] == files1[i] && forall|k3: int|
                0 <= k3 < k2 ==> path_parts(#[trigger] ps1[k3]) != path_parts(files1[i]);
            assert(files1[i] == x);
        }
    }
    assert forall|x: Seq<char>| files2.to_set().contains(x) <==> ps2.to_set().contains(x) by {
        if files2.to_set().contains(x) {
            let i = choose|i: int| 0 <= i < files2.len() && files2[i] == x;
            assert(first_of_parts(ps2, files2[i]));
        }
        if ps2.to_set().contains(x) {
            let k = choose|k: int| 0 <= k < ps2.len() && ps2[k] == x;
            assert(has_parts(files2, ps2[k]));
            let i = choose|i: int| 0 <= i < files2.len() && path_parts(#[trigger] files2[i]) == path_parts(ps2[k]);
            assert(first_of_parts(ps2, files2[i]));
            let k2 = choose|k2: int| 0 <= k2 < ps2.len() && ps2[k2] == files2[i] && forall|k3: int|
                0 <= k3 < k2 ==> path_parts(#[trigger] ps2[k3]) != path_parts(files2[i]);
            assert(ps1.to_set().contains(ps2[k]) && ps1.to_set().contains(ps2[k2]));
            let a = choose|a: int| 0 <= a < ps1.len() && ps1[a] == ps2[k];
            let b = choose|b: int| 0 <= b < ps1.len() && ps1[b] == ps2[k2];
            assert(files2[i] == x);
        }
    }
    assert(files1.to_set() =~= files2.to_set());
    lemma_strictly_sorted_unique(files1, files2);
}


/// The index of the first path that does not lie under `root`.
pub open spec fn first_outside(paths: Seq<Seq<char>>, root: Seq<char>) -> Option<int>
    decreases paths.len(),
{
    if paths.len() == 0 {
        None
    } else {
        match first_outside(paths.drop_last(), root) {
            Some(i) => Some(i),
            None => if !path_starts_with(paths.last(), root) {
                Some(paths.len() - 1)
            } else {
                None
            },
        }
    }
}

/// An invalid-path error for `path` under `root` with this message.
pub open spec fn is_outside_error(e: ExtractError, path: Seq<char>, root: Seq<char>, message: Seq<char>) -> bool {
    e matches ExtractError::InvalidPath { path: p, workspace_root: w, message: m } && p@ == path && w@ == root && m@
        == message
}

/// An outside path found in a prefix is the first of all the paths.
proof fn lemma_first_outside_prefix(paths: Seq<Seq<char>>, root: Seq<char>, n: int)
    requires
        0 <= n <= paths.len(),
        first_outside(paths.take(n), root) is Some,
    ensures
        first_outside(paths, root) == first_outside(paths.take(n), root),
    decreases paths.len(),
{
    if n == paths.len() {
        assert(paths.take(n) =~= paths);
    } else {
        assert(paths.drop_last().take(n) =~= paths.take(n));
        lemma_first_outside_prefix(paths.drop_last(), root, n);
    }
}

/// Checks discovered source files against the workspace: the package path
/// and every file must lie under the workspace root. All paths are the
/// canonical paths of the files on disk; the files come back unchanged.
pub fn validate_source_files(workspace_root: &str, package_path: &str, file_paths: Vec<String>) -> (result: Result<
    Vec<String>,
    ExtractError,
>)
    ensures
        !path_starts_with(package_path@, workspace_root@) ==> (result matches Err(e) && is_outside_error(
            e,
            package_path@,
            workspace_root@,
            "package path is outside the workspace root"@,
        )),
        path_starts_with(package_path@, workspace_root@) ==> match first_outside(
            string_views(file_paths@),
            workspace_root@,
        ) {
            Some(i) => result matches Err(e) && is_outside_error(
                e,
                file_paths@[i]@,
                workspace_root@,
                "source file is outside the workspace root"@,
            ),
            None => result matches Ok(v) && string_views(v@) == string_views(file_paths@),
        },
{
    if !starts_with_path(package_path, workspace_root) {
        return Err(
            ExtractError::invalid_path(package_path, workspace_root, "package path is outside the workspace root"),
        );
    }
    let ghost paths = string_views(file_paths@);
    let mut i: usize = 0;
    while i < file_paths.len()
        invariant
            paths == string_views(file_paths@),
            path_starts_with(package_path@, workspace_root@),
            i <= paths.len(),
            first_outside(paths.take(i as int), workspace_root@) is None,
        decreases paths.len() - i,
    {
        proof {
            assert(paths.take(i + 1).drop_last() =~= paths.take(i as int));
            assert(paths.take(i + 1).last() == file_paths@[i as int]@);
        }
        if !starts_with_path(file_paths[i].as_str(), workspace_root) {
            proof {
                lemma_first_outside_prefix(paths, workspace_root@, i + 1);
            }
            return Err(
                ExtractError::invalid_path(
                    file_paths[i].as_str(),
                    workspace_root,
                    "source file is outside the workspace root",
                ),
            );
        }
        i = i + 1;
    }
    assert(paths.take(i as int) =~= paths);
    Ok(file_paths)
}

} // verus!
