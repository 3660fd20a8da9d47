//! The file name carried by a `Content-Disposition` header, and the rules that
//! make a received name safe to use as a file name in the downloads folder.

use vstd::prelude::*;
use vstd::utf8::{decode_utf8, encode_utf8, valid_utf8};

use crate::text::{
    chars_between, chars_of, hex_digit, hex_digit_value, split_chars, split_on, string_of,
    strip_prefix, strip_prefix_chars, trim, trim_chars, views, Trimmed,
};

verus! {

/// The byte that two hexadecimal characters stand for after a `%`. A leading
/// `+` is read as a sign, the way Rust's integer parsing reads it, so `+7`
/// stands for 7; a `-` sign is refused for the unsigned byte.
pub open spec fn hex_pair_value(hi: u8, lo: u8) -> Option<u8> {
    if hi == 0x2b {
        hex_digit_value(lo)
    } else {
        match (hex_digit_value(hi), hex_digit_value(lo)) {
            (Some(a), Some(b)) => Some((a * 16 + b) as u8),
            _ => None,
        }
    }
}

/// Bytes with every `%` that has two more bytes after it replaced by the byte
/// those two stand for; `None` when such a pair is not hexadecimal. A `%`
/// with fewer than two bytes after it is kept as it is.
pub open spec fn percent_decode_bytes(b: Seq<u8>) -> Option<Seq<u8>>
    decreases b.len(),
{
    if b.len() == 0 {
        Some(Seq::<u8>::empty())
    } else if b[0] == 0x25 && b.len() > 2 {
        match hex_pair_value(b[1], b[2]) {
            Some(v) => match percent_decode_bytes(b.skip(3)) {
                Some(r) => Some(seq![v] + r),
                None => None,
            },
            None => None,
        }
    } else {
        match percent_decode_bytes(b.skip(1)) {
            Some(r) => Some(seq![b[0]] + r),
            None => None,
        }
    }
}

/// The text that a percent-encoded UTF-8 string stands for: `None` when an
/// escape is not hexadecimal or the decoded bytes are not UTF-8.
pub open spec fn percent_decoded_text(s: Seq<char>) -> Option<Seq<char>> {
    match percent_decode_bytes(encode_utf8(s)) {
        Some(d) => if valid_utf8(d) {
            Some(decode_utf8(d))
        } else {
            None
        },
        None => None,
    }
}

pub open spec fn prepend_bytes(p: Seq<u8>, o: Option<Seq<u8>>) -> Option<Seq<u8>> {
    match o {
        Some(r) => Some(p + r),
        None => None,
    }
}

/// Reads the two characters after a `%`.
pub fn hex_pair(hi: u8, lo: u8) -> (res: Option<u8>)
    ensures
        res == hex_pair_value(hi, lo),
{
    if hi == 0x2b {
        hex_digit(lo)
    } else {
        match (hex_digit(hi), hex_digit(lo)) {
            (Some(a), Some(b)) => Some(a * 16 + b),
            _ => None,
        }
    }
}

/// `String::from_utf8`: the string the bytes encode, when they are UTF-8.
#[verifier::external_body]
fn string_from_utf8(bytes: Vec<u8>) -> (res: Option<String>)
    ensures
        res is Some <==> valid_utf8(bytes@),
        res matches Some(s) ==> s@ == decode_utf8(bytes@),
{
    String::from_utf8(bytes).ok()
}

/// Decodes `%XX` escapes in a UTF-8 string, as in the extended `filename*`
/// parameter.
pub fn decode_percent_utf8(value: &str) -> (res: Option<String>)
    ensures
        res is Some <==> percent_decoded_text(value@) is Some,
        res matches Some(s) ==> s@ == percent_decoded_text(value@).unwrap(),
{
    let bytes = value.as_bytes();
    let ghost b = bytes@;
    assert(b == encode_utf8(value@));
    let mut decoded: Vec<u8> = Vec::new();
    let mut index: usize = 0;
    assert(b.skip(0) =~= b);
    while index < bytes.len()
        invariant
            b == bytes@,
            b == encode_utf8(value@),
            index <= b.len(),
            percent_decode_bytes(b) == prepend_bytes(decoded@, percent_decode_bytes(b.skip(index as int))),
        decreases b.len() - index,
    {
        let ghost rest = b.skip(index as int);
        if bytes[index] == 0x25 && bytes.len() - index > 2 {
            assert(rest[0] == 0x25 && rest[1] == b[index + 1] && rest[2] == b[index + 2]);
            assert(rest.skip(3) =~= b.skip(index + 3));
            match hex_pair(bytes[index + 1], bytes[index + 2]) {
                Some(v) => {
                    let ghost old_decoded = decoded@;
                    decoded.push(v);
                    assert(old_decoded + (seq![v] + percent_decode_bytes(b.skip(index + 3)).unwrap_or(seq![])) =~= decoded@ + percent_decode_bytes(b.skip(index + 3)).unwrap_or(seq![]));
                    index = index + 3;
                },
                None => {
                    assert(percent_decode_bytes(rest) is None);
                    return None;
                },
            }
        } else {
            assert(rest[0] == b[index as int]);
            assert(rest.skip(1) =~= b.skip(index + 1));
            let ghost old_decoded = decoded@;
            decoded.push(bytes[index]);
            assert(old_decoded + (seq![b[index as int]] + percent_decode_bytes(b.skip(index + 1)).unwrap_or(seq![])) =~= decoded@ + percent_decode_bytes(b.skip(index + 1)).unwrap_or(seq![]));
            index = index + 1;
        }
    }
    assert(b.skip(index as int) =~= Seq::<u8>::empty());
    assert(decoded@ + Seq::<u8>::empty() =~= decoded@);
    string_from_utf8(decoded)
}

} // verus!

verus! {

/// A character that cannot stand in a file name on some system: `/`, `\`
/// and NUL.
pub open spec fn is_path_separator(c: char) -> bool {
    c == '/' || c == '\\' || c == '\0'
}

/// `_` in place of a path separator.
pub open spec fn name_char(c: char) -> char {
    if is_path_separator(c) {
        '_'
    } else {
        c
    }
}

/// The text with every path separator replaced by `_`.
pub open spec fn without_separators(s: Seq<char>) -> Seq<char> {
    Seq::new(s.len(), |i: int| name_char(s[i]))
}

/// The name left of a received value: white space, then double quotes,
/// trimmed from both ends, and path separators replaced by `_`; `None` when
/// that leaves nothing, `.` or `..`.
pub open spec fn safe_name(value: Seq<char>) -> Option<Seq<char>> {
    let name = without_separators(trim(trim(value, Trimmed::WhiteSpace), Trimmed::DoubleQuote));
    if name.len() == 0 || name == seq!['.'] || name == seq!['.', '.'] {
        None
    } else {
        Some(name)
    }
}

fn replace_separators(v: &[char]) -> (res: Vec<char>)
    ensures
        res@ == without_separators(v@),
{
    let mut res: Vec<char> = Vec::new();
    let n = v.len();
    for i in 0..n
        invariant
            n == v@.len(),
            res@ =~= without_separators(v@.take(i as int)),
    {
        let c = v[i];
        if c == '/' || c == '\\' || c == '\0' {
            res.push('_');
        } else {
            res.push(c);
        }
    }
    assert(v@.take(n as int) =~= v@);
    res
}

/// Makes a received value usable as a file name: see [`safe_name`].
pub fn safe_download_name(value: &str) -> (res: Option<String>)
    ensures
        res is Some <==> safe_name(value@) is Some,
        res matches Some(s) ==> s@ == safe_name(value@).unwrap(),
{
    let chars = chars_of(value);
    let trimmed = trim_chars(chars.as_slice(), Trimmed::WhiteSpace);
    let unquoted = trim_chars(trimmed.as_slice(), Trimmed::DoubleQuote);
    let name = replace_separators(unquoted.as_slice());
    let n = name.len();
    if n == 0 || (n == 1 && name[0] == '.') || (n == 2 && name[0] == '.' && name[1] == '.') {
        assert(n == 1 ==> name@ =~= seq![name@[0]]);
        assert(n == 2 ==> name@ =~= seq![name@[0], name@[1]]);
        None
    } else {
        assert(name@ != seq!['.']) by {
            if name@ == seq!['.'] {
                assert(name@[0] == '.');
            }
        }
        assert(name@ != seq!['.', '.']) by {
            if name@ == seq!['.', '.'] {
                assert(name@[0] == '.' && name@[1] == '.');
            }
        }
        Some(string_of(name.as_slice()))
    }
}

} // verus!

verus! {

/// The value of an extended `filename*=` parameter (upper-case
/// `FILENAME*=` is read too).
pub open spec fn extended_value(param: Seq<char>) -> Option<Seq<char>> {
    match strip_prefix(param, "filename*="@) {
        Some(v) => Some(v),
        None => strip_prefix(param, "FILENAME*="@),
    }
}

/// The value of a plain `filename=` parameter (or `FILENAME=`).
pub open spec fn plain_value(param: Seq<char>) -> Option<Seq<char>> {
    match strip_prefix(param, "filename="@) {
        Some(v) => Some(v),
        None => strip_prefix(param, "FILENAME="@),
    }
}

/// The value of the first extended parameter.
pub open spec fn first_extended(params: Seq<Seq<char>>) -> Option<Seq<char>>
    decreases params.len(),
{
    if params.len() == 0 {
        None
    } else {
        match extended_value(params[0]) {
            Some(v) => Some(v),
            None => first_extended(params.drop_first()),
        }
    }
}

/// The first plain parameter whose value makes a safe name, as that name.
pub open spec fn first_plain_name(params: Seq<Seq<char>>) -> Option<Seq<char>>
    decreases params.len(),
{
    if params.len() == 0 {
        None
    } else {
        match plain_value(params[0]) {
            Some(v) => match safe_name(v) {
                Some(n) => Some(n),
                None => first_plain_name(params.drop_first()),
            },
            None => first_plain_name(params.drop_first()),
        }
    }
}

/// What follows the first `''`, the mark that ends the charset and language
/// of an extended value.
pub open spec fn after_quote_pair(v: Seq<char>) -> Option<Seq<char>>
    decreases v.len(),
{
    if v.len() < 2 {
        None
    } else if v[0] == '\'' && v[1] == '\'' {
        Some(v.skip(2))
    } else {
        after_quote_pair(v.drop_first())
    }
}

/// An extended value without its charset and language, when it has them.
pub open spec fn encoded_part(v: Seq<char>) -> Seq<char> {
    match after_quote_pair(v) {
        Some(r) => r,
        None => v,
    }
}

/// The parameters of a header value: its `;`-separated pieces, trimmed.
pub open spec fn header_params(value: Seq<char>) -> Seq<Seq<char>> {
    split_on(value, ';').map_values(|p: Seq<char>| trim(p, Trimmed::WhiteSpace))
}

/// The name that the first extended parameter gives, once decoded and made
/// safe.
pub open spec fn extended_name(params: Seq<Seq<char>>) -> Option<Seq<char>> {
    match first_extended(params) {
        Some(enc) => match percent_decoded_text(encoded_part(enc)) {
            Some(d) => safe_name(d),
            None => None,
        },
        None => None,
    }
}

/// The file name of a `Content-Disposition` value: the extended parameter
/// wins when it decodes to a safe name, else the first plain parameter that
/// gives one.
pub open spec fn disposition_name(value: Seq<char>) -> Option<Seq<char>> {
    let params = header_params(value);
    match extended_name(params) {
        Some(n) => Some(n),
        None => first_plain_name(params),
    }
}

fn trim_all(parts: &Vec<Vec<char>>) -> (res: Vec<Vec<char>>)
    ensures
        views(res@) =~= views(parts@).map_values(|p: Seq<char>| trim(p, Trimmed::WhiteSpace)),
{
    let mut res: Vec<Vec<char>> = Vec::new();
    let n = parts.len();
    for i in 0..n
        invariant
            n == parts@.len(),
            views(res@) =~= views(parts@.take(i as int)).map_values(
                |p: Seq<char>| trim(p, Trimmed::WhiteSpace),
            ),
    {
        let t = trim_chars(parts[i].as_slice(), Trimmed::WhiteSpace);
        let ghost before = res@;
        res.push(t);
        assert(views(res@) =~= views(before).push(t@));
        assert(parts@.take(i + 1) =~= parts@.take(i as int).push(parts@[i as int]));
        assert(views(parts@.take(i + 1)) =~= views(parts@.take(i as int)).push(parts@[i as int]@));
    }
    assert(parts@.take(n as int) =~= parts@);
    res
}

fn find_extended(params: &Vec<Vec<char>>) -> (res: Option<Vec<char>>)
    ensures
        res is Some <==> first_extended(views(params@)) is Some,
        res matches Some(r) ==> r@ == first_extended(views(params@)).unwrap(),
{
    assert(views(params@).skip(0) =~= views(params@));
    let lower = chars_of("filename*=");
    let upper = chars_of("FILENAME*=");
    let n = params.len();
    for i in 0..n
        invariant
            n == params@.len(),
            lower@ == "filename*="@,
            upper@ == "FILENAME*="@,
            first_extended(views(params@)) == first_extended(views(params@).skip(i as int)),
    {
        let p = params[i].as_slice();
        assert(views(params@).skip(i as int)[0] == p@);
        assert(views(params@).skip(i as int).drop_first() =~= views(params@).skip(i + 1));
        match strip_prefix_chars(p, lower.as_slice()) {
            Some(v) => {
                return Some(v);
            },
            None => {},
        }
        match strip_prefix_chars(p, upper.as_slice()) {
            Some(v) => {
                return Some(v);
            },
            None => {},
        }
    }
    None
}

fn find_plain_name(params: &Vec<Vec<char>>) -> (res: Option<String>)
    ensures
        res is Some <==> first_plain_name(views(params@)) is Some,
        res matches Some(r) ==> r@ == first_plain_name(views(params@)).unwrap(),
{
    assert(views(params@).skip(0) =~= views(params@));
    let lower = chars_of("filename=");
    let upper = chars_of("FILENAME=");
    let n = params.len();
    for i in 0..n
        invariant
            n == params@.len(),
            lower@ == "filename="@,
            upper@ == "FILENAME="@,
            first_plain_name(views(params@)) == first_plain_name(views(params@).skip(i as int)),
    {
        let p = params[i].as_slice();
        assert(views(params@).skip(i as int)[0] == p@);
        assert(views(params@).skip(i as int).drop_first() =~= views(params@).skip(i + 1));
        let value = match strip_prefix_chars(p, lower.as_slice()) {
            Some(v) => Some(v),
            None => strip_prefix_chars(p, upper.as_slice()),
        };
        match value {
            Some(v) => {
                let text = string_of(v.as_slice());
                match safe_download_name(text.as_str()) {
                    Some(name) => {
                        return Some(name);
                    },
                    None => {},
                }
            },
            None => {},
        }
    }
    None
}

fn skip_quote_pair(v: &[char]) -> (res: Vec<char>)
    ensures
        res@ == encoded_part(v@),
{
    let n = v.len();
    let mut i: usize = 0;
    assert(v@.skip(0) =~= v@);
    while n - i > 1
        invariant
            n == v@.len(),
            i <= n,
            after_quote_pair(v@) == after_quote_pair(v@.skip(i as int)),
        decreases n - i,
    {
        if v[i] == '\'' && v[i + 1] == '\'' {
            assert(v@.skip(i as int).skip(2) =~= v@.skip(i + 2));
            return chars_between(v, i + 2, n);
        }
        assert(v@.skip(i as int).drop_first() =~= v@.skip(i + 1));
        i = i + 1;
    }
    chars_between(v, 0, n)
}

/// The file name that a `Content-Disposition` header value gives, made safe:
/// see [`disposition_name`].
pub fn content_disposition_filename(value: &str) -> (res: Option<String>)
    ensures
        res is Some <==> disposition_name(value@) is Some,
        res matches Some(s) ==> s@ == disposition_name(value@).unwrap(),
{
    let chars = chars_of(value);
    let pieces = split_chars(chars.as_slice(), ';');
    let params = trim_all(&pieces);
    assert(views(params@) =~= header_params(value@));
    match find_extended(&params) {
        Some(encoded) => {
            let part = skip_quote_pair(encoded.as_slice());
            let text = string_of(part.as_slice());
            match decode_percent_utf8(text.as_str()) {
                Some(decoded) => match safe_download_name(decoded.as_str()) {
                    Some(name) => {
                        return Some(name);
                    },
                    None => {},
                },
                None => {},
            }
        },
        None => {},
    }
    find_plain_name(&params)
}

} // verus!

verus! {

proof fn lemma_percent_decode_plain_bytes(b: Seq<u8>)
    requires
        !b.contains(0x25u8),
    ensures
        percent_decode_bytes(b) == Some(b),
    decreases b.len(),
{
    if b.len() > 0 {
        assert(b[0] != 0x25u8);
        assert(!b.skip(1).contains(0x25u8)) by {
            if b.skip(1).contains(0x25u8) {
                let k = choose|k: int| 0 <= k < b.skip(1).len() && #[trigger] b.skip(1)[k] == 0x25u8;
                assert(b[k + 1] == 0x25u8);
            }
        }
        lemma_percent_decode_plain_bytes(b.skip(1));
        assert(seq![b[0]] + b.skip(1) =~= b);
    } else {
        assert(b =~= Seq::<u8>::empty());
    }
}

proof fn lemma_high_bytes(x: u8)
    ensures
        (0x80u8 | x) != 0x25u8,
        (0xC0u8 | x) != 0x25u8,
        (0xE0u8 | x) != 0x25u8,
        (0xF0u8 | x) != 0x25u8,
{
    assert((0x80u8 | x) >= 0x80u8) by (bit_vector);
    assert((0xC0u8 | x) >= 0x80u8) by (bit_vector);
    assert((0xE0u8 | x) >= 0x80u8) by (bit_vector);
    assert((0xF0u8 | x) >= 0x80u8) by (bit_vector);
}

proof fn lemma_scalar_encoding_lacks_percent(c: char)
    requires
        c != '%',
    ensures
        !vstd::utf8::encode_scalar(c as u32).contains(0x25u8),
{
    let v = c as u32;
    let e = vstd::utf8::encode_scalar(v);
    if vstd::utf8::has_width_1_encoding(v) {
        assert(v <= 0x7f ==> ((v & 0x7f) as u8) as u32 == v) by (bit_vector);
        assert(v != 0x25) by {
            vstd::utf8::char_u32_cast('%', 0x25u32);
        }
        assert(e[0] != 0x25u8);
    } else {
        lemma_high_bytes(((v >> 6) & 0x1F) as u8);
        lemma_high_bytes(((v >> 12) & 0x0F) as u8);
        lemma_high_bytes(((v >> 18) & 0x7) as u8);
        lemma_high_bytes((v & 0x3F) as u8);
        lemma_high_bytes(((v >> 6) & 0x3F) as u8);
        lemma_high_bytes(((v >> 12) & 0x3F) as u8);
    }
    if e.contains(0x25u8) {
        let k = choose|k: int| 0 <= k < e.len() && #[trigger] e[k] == 0x25u8;
        assert(false);
    }
}

proof fn lemma_encoding_lacks_percent(s: Seq<char>)
    requires
        !s.contains('%'),
    ensures
        !encode_utf8(s).contains(0x25u8),
    decreases s.len(),
{
    if s.len() > 0 {
        assert(s[0] != '%');
        assert(!s.drop_first().contains('%')) by {
            if s.drop_first().contains('%') {
                let k = choose|k: int| 0 <= k < s.drop_first().len() && #[trigger] s.drop_first()[k] == '%';
                assert(s[k + 1] == '%');
            }
        }
        lemma_encoding_lacks_percent(s.drop_first());
        lemma_scalar_encoding_lacks_percent(s[0]);
        let a = vstd::utf8::encode_scalar(s[0] as u32);
        let b = encode_utf8(s.drop_first());
        if (a + b).contains(0x25u8) {
            let k = choose|k: int| 0 <= k < (a + b).len() && #[trigger] (a + b)[k] == 0x25u8;
            if k < a.len() {
                assert(a[k] == 0x25u8);
            } else {
                assert(b[k - a.len()] == 0x25u8);
            }
        }
    }
}

/// A text without `%` decodes to itself.
pub proof fn plain_text_decodes_to_itself(s: Seq<char>)
    requires
        !s.contains('%'),
    ensures
        percent_decoded_text(s) == Some(s),
{
    lemma_encoding_lacks_percent(s);
    lemma_percent_decode_plain_bytes(encode_utf8(s));
    vstd::utf8::encode_utf8_valid_utf8(s);
    vstd::utf8::encode_utf8_decode_utf8(s);
}

/// The byte of an upper-case hexadecimal digit for a value below 16.
pub open spec fn hex_upper_byte(d: int) -> u8 {
    if d < 10 {
        (0x30 + d) as u8
    } else {
        (0x41 + d - 10) as u8
    }
}

/// Every byte written as `%` and two upper-case hexadecimal digits.
pub open spec fn percent_encoded_bytes(b: Seq<u8>) -> Seq<u8>
    decreases b.len(),
{
    if b.len() == 0 {
        Seq::<u8>::empty()
    } else {
        seq![0x25u8, hex_upper_byte((b[0] / 16) as int), hex_upper_byte((b[0] % 16) as int)] + percent_encoded_bytes(
            b.drop_first(),
        )
    }
}

/// The text of [`percent_encoded_bytes`]: every byte as `%XY`.
pub open spec fn percent_encoded(b: Seq<u8>) -> Seq<char> {
    percent_encoded_bytes(b).map_values(|x: u8| x as char)
}

proof fn lemma_ascii_scalar(x: u8)
    requires
        x < 0x80,
    ensures
        vstd::utf8::encode_scalar(((x as char) as u32)) == seq![x],
{
    let v = (x as char) as u32;
    assert(v == x as u32);
    assert(v <= 0x7f ==> ((v & 0x7f) as u8) as u32 == v) by (bit_vector);
}

proof fn lemma_ascii_text(b: Seq<u8>)
    requires
        forall|i: int| 0 <= i < b.len() ==> #[trigger] b[i] < 0x80,
    ensures
        encode_utf8(b.map_values(|x: u8| x as char)) == b,
    decreases b.len(),
{
    if b.len() > 0 {
        let t = b.map_values(|x: u8| x as char);
        lemma_ascii_text(b.drop_first());
        assert(t.drop_first() =~= b.drop_first().map_values(|x: u8| x as char));
        lemma_ascii_scalar(b[0]);
        assert(seq![b[0]] + b.drop_first() =~= b);
    } else {
        assert(encode_utf8(b.map_values(|x: u8| x as char)) =~= b);
    }
}

proof fn lemma_hex_upper(d: int)
    requires
        0 <= d < 16,
    ensures
        hex_upper_byte(d) < 0x80,
        hex_upper_byte(d) != 0x2b,
        hex_digit_value(hex_upper_byte(d)) == Some(d as u8),
{
}

proof fn lemma_encoded_bytes(b: Seq<u8>)
    ensures
        forall|i: int| 0 <= i < percent_encoded_bytes(b).len() ==> #[trigger] percent_encoded_bytes(b)[i] < 0x80,
        percent_decode_bytes(percent_encoded_bytes(b)) == Some(b),
    decreases b.len(),
{
    if b.len() > 0 {
        lemma_encoded_bytes(b.drop_first());
        let x = b[0];
        let hi = x / 16;
        let lo = x % 16;
        lemma_hex_upper(hi as int);
        lemma_hex_upper(lo as int);
        let e = percent_encoded_bytes(b);
        let r = percent_encoded_bytes(b.drop_first());
        assert(e.skip(3) =~= r);
        assert(hex_pair_value(e[1], e[2]) == Some(x));
        assert(seq![x] + b.drop_first() =~= b);
        assert forall|i: int| 0 <= i < e.len() implies #[trigger] e[i] < 0x80 by {
            if i >= 3 {
                assert(e[i] == r[i - 3]);
            }
        }
    }
}

/// Writing every byte of a text's UTF-8 encoding as `%XY` and decoding the
/// result gives the text back.
pub proof fn percent_encoding_round_trip(s: Seq<char>)
    ensures
        percent_decoded_text(percent_encoded(encode_utf8(s))) == Some(s),
{
    let b = encode_utf8(s);
    lemma_encoded_bytes(b);
    lemma_ascii_text(percent_encoded_bytes(b));
    vstd::utf8::encode_utf8_valid_utf8(s);
    vstd::utf8::encode_utf8_decode_utf8(s);
}

/// The byte of a hexadecimal digit for a value below 16, its letters in
/// lower case or in upper case.
pub open spec fn hex_digit_byte(d: int, lower: bool) -> u8 {
    if d < 10 {
        (0x30 + d) as u8
    } else if lower {
        (0x61 + d - 10) as u8
    } else {
        (0x41 + d - 10) as u8
    }
}

/// Every byte written as `%` and two lower-case hexadecimal digits.
pub open spec fn percent_encoded_lower_bytes(b: Seq<u8>) -> Seq<u8>
    decreases b.len(),
{
    if b.len() == 0 {
        Seq::<u8>::empty()
    } else {
        seq![0x25u8, hex_digit_byte((b[0] / 16) as int, true), hex_digit_byte((b[0] % 16) as int, true)]
            + percent_encoded_lower_bytes(b.drop_first())
    }
}

/// The text of [`percent_encoded_lower_bytes`]: every byte as `%xy`.
pub open spec fn percent_encoded_lower(b: Seq<u8>) -> Seq<char> {
    percent_encoded_lower_bytes(b).map_values(|x: u8| x as char)
}

/// Hexadecimal digits are read whatever their case: `0`-`9` stand for 0 to
/// 9, and `a`-`f` as well as `A`-`F` for 10 to 15.
pub proof fn hex_digits_read_in_either_case(d: int)
    requires
        0 <= d < 16,
    ensures
        hex_digit_value(hex_digit_byte(d, true)) == Some(d as u8),
        hex_digit_value(hex_digit_byte(d, false)) == Some(d as u8),
{
}

/// Exactly the bytes `0`-`9`, `a`-`f` and `A`-`F` are hexadecimal digits,
/// and each stands for the value it spells.
pub proof fn hex_digits_are_exactly_these(b: u8)
    ensures
        hex_digit_value(b) is Some <==> (0x30 <= b <= 0x39 || 0x61 <= b <= 0x66 || 0x41 <= b <= 0x46),
        0x30 <= b <= 0x39 ==> hex_digit_value(b) == Some((b - 0x30) as u8),
        0x61 <= b <= 0x66 ==> hex_digit_value(b) == Some((b - 0x61 + 10) as u8),
        0x41 <= b <= 0x46 ==> hex_digit_value(b) == Some((b - 0x41 + 10) as u8),
{
}

/// An escape `%` and two hexadecimal digits stands for the byte they spell,
/// each digit in either case: `%c3`, `%C3`, `%c3` and `%C3` all give 0xC3.
pub proof fn escapes_read_in_either_case(x: u8, lower_hi: bool, lower_lo: bool)
    ensures
        percent_decode_bytes(
            seq![0x25u8, hex_digit_byte((x / 16) as int, lower_hi), hex_digit_byte((x % 16) as int, lower_lo)],
        ) == Some(seq![x]),
{
    let e = seq![0x25u8, hex_digit_byte((x / 16) as int, lower_hi), hex_digit_byte((x % 16) as int, lower_lo)];
    hex_digits_read_in_either_case((x / 16) as int);
    hex_digits_read_in_either_case((x % 16) as int);
    assert(e.skip(3) =~= Seq::<u8>::empty());
    assert(percent_decode_bytes(e.skip(3)) == Some(Seq::<u8>::empty()));
    assert(hex_pair_value(e[1], e[2]) == Some(x));
    assert(seq![x] + Seq::<u8>::empty() =~= seq![x]);
}

proof fn lemma_encoded_lower_bytes(b: Seq<u8>)
    ensures
        forall|i: int|
            0 <= i < percent_encoded_lower_bytes(b).len() ==> #[trigger] percent_encoded_lower_bytes(b)[i] < 0x80,
        percent_decode_bytes(percent_encoded_lower_bytes(b)) == Some(b),
    decreases b.len(),
{
    if b.len() > 0 {
        lemma_encoded_lower_bytes(b.drop_first());
        let x = b[0];
        hex_digits_read_in_either_case((x / 16) as int);
        hex_digits_read_in_either_case((x % 16) as int);
        let e = percent_encoded_lower_bytes(b);
        let r = percent_encoded_lower_bytes(b.drop_first());
        assert(e.skip(3) =~= r);
        assert(hex_pair_value(e[1], e[2]) == Some(x));
        assert(seq![x] + b.drop_first() =~= b);
        assert forall|i: int| 0 <= i < e.len() implies #[trigger] e[i] < 0x80 by {
            if i >= 3 {
                assert(e[i] == r[i - 3]);
            }
        }
    }
}

/// Writing every byte of a text's UTF-8 encoding as `%xy`, in lower case,
/// and decoding the result gives the text back.
pub proof fn lower_case_percent_encoding_round_trip(s: Seq<char>)
    ensures
        percent_decoded_text(percent_encoded_lower(encode_utf8(s))) == Some(s),
{
    let b = encode_utf8(s);
    lemma_encoded_lower_bytes(b);
    lemma_ascii_text(percent_encoded_lower_bytes(b));
    vstd::utf8::encode_utf8_valid_utf8(s);
    vstd::utf8::encode_utf8_decode_utf8(s);
}

/// A single file name: not empty, neither `.` nor `..`, and without `/`,
/// `\` or NUL. (On Windows such a name may still begin with a drive prefix
/// such as `C:`; that is not ruled out.)
pub open spec fn is_safe_file_name(n: Seq<char>) -> bool {
    &&& n.len() > 0
    &&& n != seq!['.']
    &&& n != seq!['.', '.']
    &&& forall|i: int| 0 <= i < n.len() ==> !is_path_separator(#[trigger] n[i])
}

/// A name made safe is a single file name: see [`is_safe_file_name`].
pub proof fn safe_names_are_single_file_names(value: Seq<char>)
    ensures
        safe_name(value) matches Some(n) ==> is_safe_file_name(n),
{
}

/// A name made safe, when it has no white space at either end, is made
/// into itself again.
pub proof fn safe_names_stay_as_they_are(value: Seq<char>)
    requires
        safe_name(value) matches Some(n) && trim(n, Trimmed::WhiteSpace) == n,
    ensures
        safe_name(safe_name(value).unwrap()) == safe_name(value),
{
    let u = trim(trim(value, Trimmed::WhiteSpace), Trimmed::DoubleQuote);
    let n = safe_name(value).unwrap();
    crate::text::lemma_trim_ends(trim(value, Trimmed::WhiteSpace), Trimmed::DoubleQuote);
    assert(n.len() > 0);
    assert(n[0] == name_char(u[0]));
    assert(n.last() == name_char(u.last()));
    crate::text::lemma_trim_untrimmed(n, Trimmed::DoubleQuote);
    assert(without_separators(n) =~= n);
}

/// The name a `Content-Disposition` value gives, whatever the server sent,
/// is a single file name: see [`is_safe_file_name`].
pub proof fn disposition_names_are_safe(value: Seq<char>)
    ensures
        disposition_name(value) matches Some(n) ==> is_safe_file_name(n),
{
    let params = header_params(value);
    if let Some(n) = disposition_name(value) {
        match extended_name(params) {
            Some(m) => {
                let d = percent_decoded_text(encoded_part(first_extended(params).unwrap())).unwrap();
                assert(safe_name(d) == Some(n));
            },
            None => {
                lemma_first_plain_name_is_safe(params);
            },
        }
        let v = choose|v: Seq<char>| safe_name(v) == Some(n);
        safe_names_are_single_file_names(v);
    }
}

proof fn lemma_first_plain_name_is_safe(params: Seq<Seq<char>>)
    ensures
        first_plain_name(params) matches Some(n) ==> exists|v: Seq<char>| safe_name(v) == Some(n),
    decreases params.len(),
{
    if params.len() > 0 {
        lemma_first_plain_name_is_safe(params.drop_first());
        if let Some(v) = plain_value(params[0]) {
            if let Some(n) = safe_name(v) {
                assert(safe_name(v) == Some(n));
            }
        }
    }
}

} // verus!

verus! {

/// A byte that a header value may hold to be read as text: visible ASCII or
/// a tab.
pub open spec fn is_visible_ascii(b: u8) -> bool {
    (32 <= b && b < 127) || b == 9
}

/// A header value as text, as `HeaderValue::to_str` reads it: the bytes as
/// ASCII characters when every one is visible ASCII or a tab, else `None`.
pub open spec fn header_text(b: Seq<u8>) -> Option<Seq<char>> {
    if forall|i: int| 0 <= i < b.len() ==> is_visible_ascii(#[trigger] b[i]) {
        Some(Seq::new(b.len(), |i: int| b[i] as char))
    } else {
        None
    }
}

/// Reads a header value's bytes as text: see [`header_text`].
pub fn header_value_text(bytes: &[u8]) -> (res: Option<String>)
    ensures
        res is Some <==> header_text(bytes@) is Some,
        res matches Some(t) ==> t@ == header_text(bytes@).unwrap(),
{
    let n = bytes.len();
    let mut text = String::new();
    for i in 0..n
        invariant
            n == bytes@.len(),
            forall|j: int| 0 <= j < i ==> is_visible_ascii(#[trigger] bytes@[j]),
            text@ =~= Seq::new(i as nat, |j: int| bytes@[j] as char),
    {
        let b = bytes[i];
        if !((32 <= b && b < 127) || b == 9) {
            assert(!is_visible_ascii(bytes@[i as int]));
            return None;
        }
        text.push(b as char);
    }
    Some(text)
}

/// An HTTP status that reports an error: a client error (4xx) or a server
/// error (5xx).
pub open spec fn is_error_status(status: u16) -> bool {
    400 <= status < 600
}

/// Refuses a response whose status reports an error, as
/// `Response::error_for_status` does.
pub fn check_status(status: u16) -> (res: Result<(), ()>)
    ensures
        res is Ok <==> !is_error_status(status),
{
    if (400 <= status && status < 500) || (500 <= status && status < 600) {
        Err(())
    } else {
        Ok(())
    }
}

/// The file name that a server's answer gives: none for an error status, a
/// missing `Content-Disposition` header or one that is not visible ASCII;
/// else the name that the header value gives.
pub open spec fn response_name(status: u16, content_disposition: Option<Seq<u8>>) -> Option<Seq<char>> {
    if is_error_status(status) {
        None
    } else {
        match content_disposition {
            Some(b) => match header_text(b) {
                Some(t) => disposition_name(t),
                None => None,
            },
            None => None,
        }
    }
}

/// The file name that a server's answer to a `HEAD` request gives: see
/// [`response_name`].
pub fn response_file_name(status: u16, content_disposition: Option<&[u8]>) -> (res: Option<String>)
    ensures
        res is Some <==> response_name(
            status,
            match content_disposition {
                Some(b) => Some(b@),
                None => None::<Seq<u8>>,
            },
        ) is Some,
        res matches Some(n) ==> n@ == response_name(
            status,
            match content_disposition {
                Some(b) => Some(b@),
                None => None::<Seq<u8>>,
            },
        ).unwrap(),
{
    if check_status(status).is_err() {
        return None;
    }
    match content_disposition {
        Some(b) => match header_value_text(b) {
            Some(text) => content_disposition_filename(text.as_str()),
            None => None,
        },
        None => None,
    }
}

} // verus!
