use vstd::prelude::*;

use crate::error::ExtractError;
use crate::text::{chars_of, push_char, string_from_chars, string_from_utf8};

verus! {

/// The value of one ASCII hexadecimal digit, if `value` is one.
pub open spec fn spec_hex_value(value: u8) -> Option<u8> {
    if 48 <= value <= 57 {
        Some((value - 48) as u8)
    } else if 97 <= value <= 102 {
        Some((value - 97 + 10) as u8)
    } else if 65 <= value <= 70 {
        Some((value - 65 + 10) as u8)
    } else {
        None
    }
}

/// Decodes one hexadecimal digit (`0-9`, `a-f`, `A-F`).
pub fn hex_value(value: u8) -> (result: Option<u8>)
    ensures
        result == spec_hex_value(value),
        result matches Some(v) ==> v < 16,
{
    if 48u8 <= value && value <= 57u8 {
        Some(value - 48u8)
    } else if 97u8 <= value && value <= 102u8 {
        Some(value - 97u8 + 10)
    } else if 65u8 <= value && value <= 70u8 {
        Some(value - 65u8 + 10)
    } else {
        None
    }
}

/// Why a percent-encoded path could not be decoded.
#[derive(Debug, Clone, Copy, PartialEq, Eq, Structural)]
pub enum PercentDecodeError {
    /// A `%` is not followed by two more bytes.
    Incomplete,
    /// A `%` is followed by a byte that is not a hexadecimal digit.
    Invalid,
}

/// Decodes `%XX` escapes in `bytes`, left to right; the first malformed
/// escape decides the error.
pub open spec fn spec_percent_decode(bytes: Seq<u8>) -> Result<Seq<u8>, PercentDecodeError>
    decreases bytes.len(),
{
    if bytes.len() == 0 {
        Ok(Seq::<u8>::empty())
    } else if bytes[0] == 37 {
        if bytes.len() <= 2 {
            Err(PercentDecodeError::Incomplete)
        } else {
            match (spec_hex_value(bytes[1]), spec_hex_value(bytes[2])) {
                (Some(high), Some(low)) => match spec_percent_decode(bytes.subrange(3, bytes.len() as int)) {
                    Ok(rest) => Ok(seq![(high * 16 + low) as u8] + rest),
                    Err(e) => Err(e),
                },
                _ => Err(PercentDecodeError::Invalid),
            }
        }
    } else {
        match spec_percent_decode(bytes.drop_first()) {
            Ok(rest) => Ok(seq![bytes[0]] + rest),
            Err(e) => Err(e),
        }
    }
}

/// `prefix` put before a decoding outcome.
pub open spec fn prepend_decoded(prefix: Seq<u8>, r: Result<Seq<u8>, PercentDecodeError>) -> Result<Seq<u8>, PercentDecodeError> {
    match r {
        Ok(rest) => Ok(prefix + rest),
        Err(e) => Err(e),
    }
}

/// Decodes the percent escapes of a byte string.
pub fn percent_decode_bytes(source: &[u8]) -> (result: Result<Vec<u8>, PercentDecodeError>)
    ensures
        match (result, spec_percent_decode(source@)) {
            (Ok(v), Ok(w)) => v@ == w,
            (Err(e), Err(f)) => e == f,
            _ => false,
        },
{
    let mut bytes: Vec<u8> = Vec::new();
    let mut index: usize = 0;
    proof {
        assert(source@.subrange(0, source@.len() as int) =~= source@);
        match spec_percent_decode(source@) {
            Ok(r) => {
                assert(bytes@ + r =~= r);
            },
            Err(e) => {},
        }
    }
    while index < source.len()
        invariant
            index <= source@.len(),
            spec_percent_decode(source@) == prepend_decoded(
                bytes@,
                spec_percent_decode(source@.subrange(index as int, source@.len() as int)),
            ),
        decreases source@.len() - index,
    {
        let ghost rest = source@.subrange(index as int, source@.len() as int);
        if source[index] == 37u8 {
            if source.len() - index <= 2 {
                assert(spec_percent_decode(rest) == Err::<Seq<u8>, PercentDecodeError>(
                    PercentDecodeError::Incomplete,
                ));
                return Err(PercentDecodeError::Incomplete);
            }
            let high = hex_value(source[index + 1]);
            let low = hex_value(source[index + 2]);
            match (high, low) {
                (Some(h), Some(l)) => {
                    let ghost old_bytes = bytes@;
                    bytes.push((h << 4u8) | l);
                    proof {
                        assert((h << 4u8) | l == (h * 16 + l) as u8) by (bit_vector)
                            requires
                                h < 16,
                                l < 16,
                        ;
                        assert(rest.subrange(3, rest.len() as int) =~= source@.subrange(
                            index + 3,
                            source@.len() as int,
                        ));
                        assert(bytes@ =~= old_bytes + seq![(h * 16 + l) as u8]);
                        match spec_percent_decode(rest.subrange(3, rest.len() as int)) {
                            Ok(r) => {
                                assert(old_bytes + (seq![(h * 16 + l) as u8] + r) =~= bytes@ + r);
                            },
                            Err(e) => {},
                        }
                    }
                    index = index + 3;
                },
                _ => {
                    assert(spec_percent_decode(rest) == Err::<Seq<u8>, PercentDecodeError>(
                        PercentDecodeError::Invalid,
                    ));
                    return Err(PercentDecodeError::Invalid);
                },
            }
        } else {
            let ghost old_bytes = bytes@;
            bytes.push(source[index]);
            proof {
                assert(rest.drop_first() =~= source@.subrange(index + 1, source@.len() as int));
                match spec_percent_decode(rest.drop_first()) {
                    Ok(r) => {
                        assert(old_bytes + (seq![rest[0]] + r) =~= bytes@ + r);
                    },
                    Err(e) => {},
                }
            }
            index = index + 1;
        }
    }
    proof {
        assert(source@.subrange(index as int, source@.len() as int) =~= Seq::<u8>::empty());
        assert(bytes@ + Seq::<u8>::empty() =~= bytes@);
    }
    Ok(bytes)
}

/// The characters of `file://`.
pub open spec fn file_scheme() -> Seq<char> {
    seq!['f', 'i', 'l', 'e', ':', '/', '/']
}

/// The outcome of decoding the percent escapes of a path and reading the
/// bytes as UTF-8: the decoded path, or the error message kind.
pub enum PathDecodeOutcome {
    Decoded(Seq<char>),
    Incomplete,
    Invalid,
    NotUtf8,
}

/// What decoding `value` gives.
pub open spec fn spec_decode_path(value: Seq<char>) -> PathDecodeOutcome {
    match spec_percent_decode(vstd::utf8::encode_utf8(value)) {
        Err(PercentDecodeError::Incomplete) => PathDecodeOutcome::Incomplete,
        Err(PercentDecodeError::Invalid) => PathDecodeOutcome::Invalid,
        Ok(bytes) => if vstd::utf8::valid_utf8(bytes) {
            PathDecodeOutcome::Decoded(vstd::utf8::decode_utf8(bytes))
        } else {
            PathDecodeOutcome::NotUtf8
        },
    }
}

/// The result `percent_decode_path` owes for `value`, up to the text of a
/// UTF-8 error, which comes from the standard library.
pub open spec fn percent_decode_path_result(value: Seq<char>, result: Result<String, ExtractError>) -> bool {
    match spec_decode_path(value) {
        PathDecodeOutcome::Decoded(p) => result matches Ok(s) && s@ == p,
        PathDecodeOutcome::Incomplete => result matches Err(ExtractError::InvalidPath { path, workspace_root, message })
            && path@ == value && workspace_root@ == ""@
            && message@ == "LSIF document URI has incomplete percent encoding"@,
        PathDecodeOutcome::Invalid => result matches Err(ExtractError::InvalidPath { path, workspace_root, message })
            && path@ == value && workspace_root@ == ""@
            && message@ == "LSIF document URI has invalid percent encoding"@,
        PathDecodeOutcome::NotUtf8 => result matches Err(ExtractError::Io { context, path, message })
            && context@ == "decode LSIF document URI path as UTF-8"@
            && (path matches Some(p) && p@ == value),
    }
}

/// Decodes the percent escapes of a URI path and reads the bytes as UTF-8.
pub fn percent_decode_path(value: &str) -> (result: Result<String, ExtractError>)
    ensures
        percent_decode_path_result(value@, result),
{
    match percent_decode_bytes(value.as_bytes()) {
        Err(PercentDecodeError::Incomplete) => Err(ExtractError::invalid_path(
            value,
            "",
            "LSIF document URI has incomplete percent encoding",
        )),
        Err(PercentDecodeError::Invalid) => Err(ExtractError::invalid_path(
            value,
            "",
            "LSIF document URI has invalid percent encoding",
        )),
        Ok(bytes) => match string_from_utf8(bytes) {
            Ok(decoded) => Ok(decoded),
            Err(message) => {
                let mut context = String::new();
                crate::text::push_str(&mut context, "decode LSIF document URI path as UTF-8");
                let mut path = String::new();
                crate::text::push_str(&mut path, value);
                Err(ExtractError::Io { context, path: Some(path), message })
            },
        },
    }
}

/// The result `file_uri_to_path` owes for `uri`.
pub open spec fn file_uri_to_path_result(uri: Seq<char>, result: Result<String, ExtractError>) -> bool {
    if !(uri.len() >= 7 && uri.subrange(0, 7) == file_scheme()) {
        result matches Err(ExtractError::InvalidPath { path, workspace_root, message })
            && path@ == uri && workspace_root@ == ""@
            && message@ == "LSIF document URI is not a file URI"@
    } else if !(uri.len() > 7 && uri[7] == '/') {
        result matches Err(ExtractError::InvalidPath { path, workspace_root, message })
            && path@ == uri && workspace_root@ == ""@
            && message@ == "LSIF document URI with a host is not supported"@
    } else {
        percent_decode_path_result(uri.subrange(7, uri.len() as int), result)
    }
}

/// The local path of a `file://` URI without a host, percent-decoded.
pub fn file_uri_to_path(uri: &str) -> (result: Result<String, ExtractError>)
    ensures
        file_uri_to_path_result(uri@, result),
{
    let chars = chars_of(uri);
    let is_file_uri = chars.len() >= 7 && chars[0] == 'f' && chars[1] == 'i' && chars[2] == 'l'
        && chars[3] == 'e' && chars[4] == ':' && chars[5] == '/' && chars[6] == '/';
    if !is_file_uri {
        proof {
            if chars@.len() >= 7 && chars@.subrange(0, 7) == file_scheme() {
                assert(chars@.subrange(0, 7)[0] == 'f');
                assert(chars@.subrange(0, 7)[1] == 'i');
                assert(chars@.subrange(0, 7)[2] == 'l');
                assert(chars@.subrange(0, 7)[3] == 'e');
                assert(chars@.subrange(0, 7)[4] == ':');
                assert(chars@.subrange(0, 7)[5] == '/');
                assert(chars@.subrange(0, 7)[6] == '/');
            }
        }
        return Err(ExtractError::invalid_path(uri, "", "LSIF document URI is not a file URI"));
    }
    assert(chars@.subrange(0, 7) =~= file_scheme());
    if !(chars.len() > 7 && chars[7] == '/') {
        return Err(
            ExtractError::invalid_path(uri, "", "LSIF document URI with a host is not supported"),
        );
    }
    let path = string_from_chars(&chars, 7, chars.len());
    percent_decode_path(path.as_str())
}

/// Bytes a file URI keeps as they are: ASCII letters, digits, `-._~` and `/`.
pub open spec fn is_uri_safe(b: u8) -> bool {
    (65 <= b <= 90) || (97 <= b <= 122) || (48 <= b <= 57) || b == 45 || b == 46 || b == 95
        || b == 126 || b == 47
}

/// The upper-case hexadecimal digit for `d < 16`.
pub open spec fn hex_upper(d: nat) -> u8 {
    if d < 10 {
        (48 + d) as u8
    } else {
        (55 + d) as u8
    }
}

/// A byte as it appears in a file URI: itself when safe, else `%XX`.
pub open spec fn encode_byte(b: u8) -> Seq<u8> {
    if is_uri_safe(b) {
        seq![b]
    } else {
        seq![37u8, hex_upper((b / 16) as nat), hex_upper((b % 16) as nat)]
    }
}

/// The percent-encoding of a byte string.
pub open spec fn spec_percent_encode(bytes: Seq<u8>) -> Seq<u8>
    decreases bytes.len(),
{
    if bytes.len() == 0 {
        Seq::<u8>::empty()
    } else {
        spec_percent_encode(bytes.drop_last()) + encode_byte(bytes.last())
    }
}

/// ASCII bytes read as characters.
pub open spec fn ascii_to_chars(bytes: Seq<u8>) -> Seq<char> {
    Seq::new(bytes.len(), |i: int| bytes[i] as char)
}

/// The `file://` URI of a local path: the UTF-8 bytes of the path,
/// percent-encoded.
pub open spec fn spec_file_uri(path: Seq<char>) -> Seq<char> {
    file_scheme() + ascii_to_chars(spec_percent_encode(vstd::utf8::encode_utf8(path)))
}

/// The ASCII character for the upper-case hex digit of `d`.
fn hex_upper_char(d: u8) -> (c: char)
    requires
        d < 16,
    ensures
        c == (hex_upper(d as nat) as char),
{
    if d < 10 {
        ((d + 48u8) as char)
    } else {
        ((d + 55u8) as char)
    }
}

/// The `file://` URI of a local path, with every byte outside letters,
/// digits, `-._~` and `/` percent-encoded.
pub fn file_uri(path: &str) -> (uri: String)
    ensures
        uri@ == spec_file_uri(path@),
{
    let bytes = path.as_bytes();
    let mut uri = String::new();
    crate::text::push_str(&mut uri, "file://");
    proof {
        reveal_strlit("file://");
        assert(uri@ =~= file_scheme() + ascii_to_chars(spec_percent_encode(bytes@.take(0))));
    }
    let mut i: usize = 0;
    while i < bytes.len()
        invariant
            i <= bytes@.len(),
            bytes@ == vstd::utf8::encode_utf8(path@),
            uri@ == file_scheme() + ascii_to_chars(spec_percent_encode(bytes@.take(i as int))),
        decreases bytes@.len() - i,
    {
        let b = bytes[i];
        let ghost before = uri@;
        let safe = (65u8 <= b && b <= 90u8) || (97u8 <= b && b <= 122u8) || (48u8 <= b && b <= 57u8)
            || b == 45u8 || b == 46u8 || b == 95u8 || b == 126u8 || b == 47u8;
        if safe {
            push_char(&mut uri, b as char);
        } else {
            push_char(&mut uri, '%');
            push_char(&mut uri, hex_upper_char(b / 16));
            push_char(&mut uri, hex_upper_char(b % 16));
        }
        proof {
            let t = bytes@.take(i + 1);
            assert(t.drop_last() =~= bytes@.take(i as int));
            assert(t.last() == b);
            let e0 = spec_percent_encode(bytes@.take(i as int));
            assert(spec_percent_encode(t) == e0 + encode_byte(b));
            assert(uri@ =~= file_scheme() + ascii_to_chars(e0 + encode_byte(b)));
        }
        i = i + 1;
    }
    assert(bytes@.take(bytes@.len() as int) =~= bytes@);
    uri
}

/// Encoding distributes over concatenation.
proof fn lemma_encode_concat(a: Seq<u8>, b: Seq<u8>)
    ensures
        spec_percent_encode(a + b) == spec_percent_encode(a) + spec_percent_encode(b),
    decreases b.len(),
{
    if b.len() == 0 {
        assert(a + b =~= a);
        assert(spec_percent_encode(a) + spec_percent_encode(b) =~= spec_percent_encode(a));
    } else {
        lemma_encode_concat(a, b.drop_last());
        assert((a + b).drop_last() =~= a + b.drop_last());
        assert((a + b).last() == b.last());
        assert(spec_percent_encode(a) + spec_percent_encode(b) =~= spec_percent_encode(a)
            + spec_percent_encode(b.drop_last()) + encode_byte(b.last()));
    }
}

/// Hex digits decode to their values.
proof fn lemma_hex_upper_decodes(d: nat)
    requires
        d < 16,
    ensures
        spec_hex_value(hex_upper(d)) == Some(d as u8),
        hex_upper(d) != 37,
        hex_upper(d) < 128,
{
}

/// Decoding undoes encoding.
pub proof fn lemma_percent_decode_encode(bytes: Seq<u8>)
    ensures
        spec_percent_decode(spec_percent_encode(bytes)) == Ok::<Seq<u8>, PercentDecodeError>(bytes),
    decreases bytes.len(),
{
    if bytes.len() == 0 {
        assert(spec_percent_encode(bytes) =~= Seq::<u8>::empty());
        assert(bytes =~= Seq::<u8>::empty());
    } else {
        let b = bytes[0];
        let rest = bytes.drop_first();
        assert(bytes =~= seq![b] + rest);
        lemma_encode_concat(seq![b], rest);
        assert(seq![b].drop_last() =~= Seq::<u8>::empty());
        assert(spec_percent_encode(Seq::<u8>::empty()) =~= Seq::<u8>::empty());
        assert(spec_percent_encode(seq![b]) =~= encode_byte(b));
        lemma_percent_decode_encode(rest);
        let enc = spec_percent_encode(bytes);
        let rest_enc = spec_percent_encode(rest);
        assert(enc == encode_byte(b) + rest_enc);
        if is_uri_safe(b) {
            assert(enc[0] == b);
            assert(enc.drop_first() =~= rest_enc);
            assert(enc[0] != 37u8);
            assert(spec_percent_decode(enc.drop_first()) == Ok::<Seq<u8>, PercentDecodeError>(rest));
            assert(spec_percent_decode(enc) == Ok::<Seq<u8>, PercentDecodeError>(seq![b] + rest));
            assert(seq![b] + rest =~= bytes);
        } else {
            let hi = (b / 16) as nat;
            let lo = (b % 16) as nat;
            lemma_hex_upper_decodes(hi);
            lemma_hex_upper_decodes(lo);
            assert(enc[0] == 37u8);
            assert(enc[1] == hex_upper(hi));
            assert(enc[2] == hex_upper(lo));
            assert(enc.subrange(3, enc.len() as int) =~= rest_enc);
            assert(((hi as u8) * 16 + (lo as u8)) as u8 == b);
            assert(enc.len() > 2);
            assert(spec_percent_decode(enc.subrange(3, enc.len() as int)) == Ok::<Seq<u8>, PercentDecodeError>(rest));
            assert(spec_percent_decode(enc) == Ok::<Seq<u8>, PercentDecodeError>(seq![((hi as u8) * 16 + (lo as u8)) as u8] + rest));
            assert(seq![((hi as u8) * 16 + (lo as u8)) as u8] + rest =~= bytes);
        }
    }
}

/// Every byte of an encoding is ASCII.
proof fn lemma_encode_is_ascii(bytes: Seq<u8>)
    ensures
        forall|i: int| 0 <= i < spec_percent_encode(bytes).len() ==> #[trigger] spec_percent_encode(bytes)[i] < 128,
    decreases bytes.len(),
{
    if bytes.len() > 0 {
        lemma_encode_is_ascii(bytes.drop_last());
        let b = bytes.last();
        let e0 = spec_percent_encode(bytes.drop_last());
        let e1 = encode_byte(b);
        if !is_uri_safe(b) {
            lemma_hex_upper_decodes((b / 16) as nat);
            lemma_hex_upper_decodes((b % 16) as nat);
        }
        assert forall|i: int| 0 <= i < (e0 + e1).len() implies #[trigger] (e0 + e1)[i] < 128 by {
            if i < e0.len() {
                assert((e0 + e1)[i] == e0[i]);
            } else {
                assert((e0 + e1)[i] == e1[i - e0.len()]);
            }
        }
    }
}

/// The URI of an absolute path reads back as that path.
pub proof fn lemma_file_uri_roundtrip(path: Seq<char>, result: Result<String, ExtractError>)
    requires
        path.len() > 0,
        path[0] == '/',
        file_uri_to_path_result(spec_file_uri(path), result),
    ensures
        result matches Ok(s) && s@ == path,
{
    broadcast use vstd::utf8::encode_utf8_valid_utf8, vstd::utf8::encode_utf8_decode_utf8;

    let bytes = vstd::utf8::encode_utf8(path);
    let enc = spec_percent_encode(bytes);
    let uri = spec_file_uri(path);
    lemma_encode_is_ascii(bytes);
    lemma_percent_decode_encode(bytes);
    let chars = ascii_to_chars(enc);
    assert forall|i: int| 0 <= i < chars.len() implies '\0' <= #[trigger] chars[i] <= '\u{7f}' by {
        assert(enc[i] < 128);
    }
    vstd::utf8::is_ascii_chars_encode_utf8(chars);
    assert(vstd::utf8::encode_utf8(chars) =~= enc);
    assert(uri.subrange(0, 7) =~= file_scheme());
    assert(uri.subrange(7, uri.len() as int) =~= chars);
    // The path's first byte is '/', which the encoding keeps as it is.
    let slash: u32 = 47;
    assert(path[0] as u32 == slash);
    assert(vstd::utf8::leading_byte_width_1(slash) == 47u8) by (bit_vector)
        requires
            slash == 47u32,
    ;
    assert(bytes[0] == 47u8);
    assert(bytes =~= seq![bytes[0]] + bytes.drop_first());
    lemma_encode_concat(seq![bytes[0]], bytes.drop_first());
    assert(seq![bytes[0]].drop_last() =~= Seq::<u8>::empty());
    assert(spec_percent_encode(Seq::<u8>::empty()) =~= Seq::<u8>::empty());
    assert(spec_percent_encode(seq![bytes[0]]) =~= seq![47u8]);
    assert(enc[0] == 47u8);
    assert(uri[7] == chars[0]);
}

} // verus!
