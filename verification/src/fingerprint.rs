use vstd::prelude::*;
use vstd::relations::{sorted_by, total_ordering};

use sha2::Digest;

use crate::model::{DocumentSymbolBatchExtraction, DocumentSymbolExtractionView};
use crate::text::{lemma_seq_less_total, lemma_seq_less_transitive, order_str, push_str, seq_less, Order};

verus! {

/// The SHA-256 digest of a byte sequence.
pub uninterp spec fn sha256_digest(bytes: Seq<u8>) -> Seq<u8>;

/// The SHA-256 digest of `bytes` (`sha2::Sha256::digest`): the digest named
/// `sha256_digest`, 32 bytes long.
#[verifier::external_body]
fn sha256(bytes: &[u8]) -> (digest: Vec<u8>)
    ensures
        digest@ == sha256_digest(bytes@),
        digest@.len() == 32,
{
    sha2::Sha256::digest(bytes).to_vec()
}

/// The lowercase hexadecimal digit for `d` (`d < 16`).
pub open spec fn hex_digit_lower(d: u8) -> char {
    if d < 10 {
        ((d + 48) as u8) as char
    } else {
        ((d + 87) as u8) as char
    }
}

/// Lowercase hexadecimal text of a byte sequence: two digits per byte, high
/// nibble first.
pub open spec fn spec_hex_lower(bytes: Seq<u8>) -> Seq<char>
    decreases bytes.len(),
{
    if bytes.len() == 0 {
        Seq::<char>::empty()
    } else {
        spec_hex_lower(bytes.drop_last()) + seq![
            hex_digit_lower(bytes.last() / 16),
            hex_digit_lower(bytes.last() % 16),
        ]
    }
}

/// Lowercase hexadecimal text of `bytes` (`hex::encode`).
#[verifier::external_body]
fn hex_encode(bytes: &[u8]) -> (text: String)
    ensures
        text@ == spec_hex_lower(bytes@),
{
    hex::encode(bytes)
}

/// The content hash of a file's text: the lowercase hex SHA-256 digest of
/// its UTF-8 bytes.
pub open spec fn spec_content_hash(contents: Seq<char>) -> Seq<char> {
    spec_hex_lower(sha256_digest(vstd::utf8::encode_utf8(contents)))
}

/// The content hash of a file's text.
pub fn content_hash(contents: &str) -> (hash: String)
    ensures
        hash@ == spec_content_hash(contents@),
{
    let digest = sha256(contents.as_bytes());
    hex_encode(digest.as_slice())
}

/// Order of strings by code point, with equal strings in order.
pub open spec fn str_leq() -> spec_fn(Seq<char>, Seq<char>) -> bool {
    |a: Seq<char>, b: Seq<char>| a == b || seq_less(a, b)
}

/// `str_leq` is a total order.
pub proof fn lemma_str_leq_total()
    ensures
        total_ordering(str_leq()),
{
    let leq = str_leq();
    assert forall|a: Seq<char>, b: Seq<char>| #[trigger] leq(a, b) && #[trigger] leq(b, a) implies a == b by {
        lemma_seq_less_total(a, b);
    }
    assert forall|a: Seq<char>, b: Seq<char>, c: Seq<char>| #[trigger] leq(a, b) && #[trigger] leq(b, c) implies leq(
        a,
        c,
    ) by {
        if a != b && b != c {
            lemma_seq_less_transitive(a, b, c);
        }
    }
    assert forall|a: Seq<char>, b: Seq<char>| #[trigger] leq(a, b) || #[trigger] leq(b, a) by {
        lemma_seq_less_total(a, b);
    }
}

/// The fingerprint entry of a file: its relative path, a colon and its
/// content hash (empty when it has none).
pub open spec fn fingerprint_entry(e: DocumentSymbolExtractionView) -> Seq<char> {
    e.source_file.relative_path + ":"@ + match e.source_file.content_hash {
        Some(h) => h,
        None => Seq::<char>::empty(),
    }
}

/// The bytes hashed for a list of entries: each entry's UTF-8 bytes and a
/// line feed.
pub open spec fn entry_bytes(entries: Seq<Seq<char>>) -> Seq<u8>
    decreases entries.len(),
{
    if entries.len() == 0 {
        Seq::<u8>::empty()
    } else {
        entry_bytes(entries.drop_last()) + vstd::utf8::encode_utf8(entries.last()) + seq![10u8]
    }
}

/// The workspace fingerprint of a batch: the lowercase hex SHA-256 digest of
/// its file entries in ascending order, each followed by a line feed.
pub open spec fn spec_workspace_fingerprint(exs: Seq<DocumentSymbolExtractionView>) -> Seq<char> {
    let entries = exs.map_values(|e: DocumentSymbolExtractionView| fingerprint_entry(e));
    spec_hex_lower(sha256_digest(entry_bytes(entries.sort_by(str_leq()))))
}

/// Inserts `x` into the sorted list `v`, after the entries not above it.
fn insert_sorted_str(v: &mut Vec<String>, x: String)
    requires
        sorted_by(old(v)@.map_values(|s: String| s@), str_leq()),
    ensures
        sorted_by(final(v)@.map_values(|s: String| s@), str_leq()),
        final(v)@.map_values(|s: String| s@).to_multiset() == old(v)@.map_values(|s: String| s@).to_multiset().insert(
            x@,
        ),
{
    let ghost old_v = v@.map_values(|s: String| s@);
    proof {
        lemma_str_leq_total();
    }
    let mut lo: usize = 0;
    let mut hi: usize = v.len();
    while lo < hi
        invariant
            old_v == v@.map_values(|s: String| s@),
            old_v.len() == v@.len(),
            sorted_by(old_v, str_leq()),
            total_ordering(str_leq()),
            lo <= hi <= v@.len(),
            forall|j: int| 0 <= j < lo ==> (str_leq())(#[trigger] old_v[j], x@),
            forall|j: int| hi <= j < old_v.len() ==> seq_less(x@, #[trigger] old_v[j]),
        decreases hi - lo,
    {
        let mid = lo + (hi - lo) / 2;
        assert(old_v[mid as int] == v@[mid as int]@);
        if order_str(v[mid].as_str(), x.as_str()) != Order::Greater {
            proof {
                lemma_seq_less_total(old_v[mid as int], x@);
                assert((str_leq())(old_v[mid as int], x@));
                assert forall|j: int| 0 <= j < mid + 1 implies (str_leq())(#[trigger] old_v[j], x@) by {
                    if j < mid {
                        assert((str_leq())(old_v[j], old_v[mid as int]));
                        if old_v[j] != old_v[mid as int] && old_v[mid as int] != x@ {
                            lemma_seq_less_transitive(old_v[j], old_v[mid as int], x@);
                        }
                    }
                }
            }
            lo = mid + 1;
        } else {
            proof {
                assert forall|j: int| mid <= j < old_v.len() implies seq_less(x@, #[trigger] old_v[j]) by {
                    if j > mid {
                        assert((str_leq())(old_v[mid as int], old_v[j]));
                        if old_v[mid as int] != old_v[j] {
                            lemma_seq_less_transitive(x@, old_v[mid as int], old_v[j]);
                        }
                    }
                }
            }
            hi = mid;
        }
    }
    let i = lo;
    proof {
        if i < v@.len() {
            assert(seq_less(x@, old_v[i as int]));
        }
    }
    v.insert(i, x);
    proof {
        let nv = v@.map_values(|s: String| s@);
        assert(nv =~= old_v.insert(i as int, x@));
        lemma_str_leq_total();
        let leq = str_leq();
        assert forall|a: int, b: int| 0 <= a < b < nv.len() implies #[trigger] leq(nv[a], nv[b]) by {
            if b < i {
                assert(nv[a] == old_v[a] && nv[b] == old_v[b]);
            } else if b == i {
                assert(nv[a] == old_v[a]);
            } else if a == i {
                assert(nv[b] == old_v[b - 1]);
                assert(leq(x@, old_v[i as int]));
                if b - 1 > i {
                    assert(leq(old_v[i as int], old_v[b - 1]));
                }
            } else if a < i {
                assert(nv[a] == old_v[a] && nv[b] == old_v[b - 1]);
                assert(leq(old_v[a], x@));
                if i < old_v.len() {
                    assert(leq(x@, old_v[i as int]));
                    if b - 1 > i {
                        assert(leq(old_v[i as int], old_v[b - 1]));
                    }
                }
            } else {
                assert(nv[a] == old_v[a - 1] && nv[b] == old_v[b - 1]);
            }
        }
        broadcast use vstd::seq_lib::group_to_multiset_ensures;
        broadcast use vstd::multiset::group_multiset_axioms;
        assert(old_v =~= old_v.subrange(0, i as int) + old_v.subrange(i as int, old_v.len() as int));
        assert(nv =~= old_v.subrange(0, i as int) + seq![x@] + old_v.subrange(i as int, old_v.len() as int));
        vstd::seq_lib::lemma_multiset_commutative(old_v.subrange(0, i as int), old_v.subrange(i as int, old_v.len() as int));
        vstd::seq_lib::lemma_multiset_commutative(old_v.subrange(0, i as int) + seq![x@], old_v.subrange(i as int, old_v.len() as int));
        vstd::seq_lib::lemma_multiset_commutative(old_v.subrange(0, i as int), seq![x@]);
    }
}

/// The workspace fingerprint of a batch of document-symbol extractions.
pub fn workspace_fingerprint(extraction: &DocumentSymbolBatchExtraction) -> (fingerprint: String)
    ensures
        fingerprint@ == spec_workspace_fingerprint(extraction@.extractions),
{
    let ghost exs = extraction@.extractions;
    let ghost entries = exs.map_values(|e: DocumentSymbolExtractionView| fingerprint_entry(e));
    let mut sorted: Vec<String> = Vec::new();
    let mut i: usize = 0;
    proof {
        broadcast use vstd::seq_lib::group_to_multiset_ensures;
        assert(sorted@.map_values(|s: String| s@) =~= Seq::<Seq<char>>::empty());
        assert(entries.take(0) =~= Seq::<Seq<char>>::empty());
        assert(Seq::<Seq<char>>::empty().to_multiset() =~= vstd::multiset::Multiset::<Seq<char>>::empty());
    }
    while i < extraction.extractions.len()
        invariant
            exs == extraction@.extractions,
            entries == exs.map_values(|e: DocumentSymbolExtractionView| fingerprint_entry(e)),
            i <= exs.len(),
            sorted_by(sorted@.map_values(|s: String| s@), str_leq()),
            sorted@.map_values(|s: String| s@).to_multiset() == entries.take(i as int).to_multiset(),
        decreases exs.len() - i,
    {
        let source_file = &extraction.extractions[i].source_file;
        let mut entry = String::new();
        push_str(&mut entry, source_file.relative_path.as_str());
        push_str(&mut entry, ":");
        match &source_file.content_hash {
            Some(h) => push_str(&mut entry, h.as_str()),
            None => {},
        }
        proof {
            assert(exs[i as int] == extraction.extractions@[i as int]@);
            assert(entry@ =~= entries[i as int]);
            assert(entries.take(i + 1) =~= entries.take(i as int).push(entries[i as int]));
            broadcast use vstd::seq_lib::group_to_multiset_ensures;
        }
        insert_sorted_str(&mut sorted, entry);
        i = i + 1;
    }
    proof {
        assert(entries.take(i as int) =~= entries);
        lemma_str_leq_total();
        entries.lemma_sort_by_ensures(str_leq());
        vstd::seq_lib::lemma_sorted_unique(sorted@.map_values(|s: String| s@), entries.sort_by(str_leq()), str_leq());
    }
    let ghost sv = sorted@.map_values(|s: String| s@);
    let mut bytes: Vec<u8> = Vec::new();
    let mut k: usize = 0;
    while k < sorted.len()
        invariant
            sv == sorted@.map_values(|s: String| s@),
            k <= sv.len(),
            bytes@ == entry_bytes(sv.take(k as int)),
        decreases sv.len() - k,
    {
        let b = sorted[k].as_str().as_bytes();
        let mut j: usize = 0;
        let ghost start = bytes@;
        while j < b.len()
            invariant
                j <= b@.len(),
                bytes@ == start + b@.take(j as int),
            decreases b@.len() - j,
        {
            bytes.push(b[j]);
            assert(b@.take(j + 1) =~= b@.take(j as int).push(b@[j as int]));
            assert(bytes@ =~= start + b@.take(j + 1));
            j = j + 1;
        }
        bytes.push(10u8);
        proof {
            assert(b@.take(j as int) =~= b@);
            assert(sv[k as int] == sorted@[k as int]@);
            assert(sv.take(k + 1).drop_last() =~= sv.take(k as int));
            assert(bytes@ =~= entry_bytes(sv.take(k + 1)));
        }
        k = k + 1;
    }
    proof {
        assert(sv.take(k as int) =~= sv);
    }
    let digest = sha256(bytes.as_slice());
    hex_encode(digest.as_slice())
}


/// The workspace fingerprint depends only on which file entries a batch
/// has, not on the order of its files.
pub proof fn lemma_fingerprint_ignores_file_order(a: Seq<DocumentSymbolExtractionView>, b: Seq<DocumentSymbolExtractionView>)
    requires
        a.map_values(|e: DocumentSymbolExtractionView| fingerprint_entry(e)).to_multiset() == b.map_values(
            |e: DocumentSymbolExtractionView| fingerprint_entry(e),
        ).to_multiset(),
    ensures
        spec_workspace_fingerprint(a) == spec_workspace_fingerprint(b),
{
    let ea = a.map_values(|e: DocumentSymbolExtractionView| fingerprint_entry(e));
    let eb = b.map_values(|e: DocumentSymbolExtractionView| fingerprint_entry(e));
    lemma_str_leq_total();
    ea.lemma_sort_by_ensures(str_leq());
    eb.lemma_sort_by_ensures(str_leq());
    vstd::seq_lib::lemma_sorted_unique(ea.sort_by(str_leq()), eb.sort_by(str_leq()), str_leq());
}

} // verus!
