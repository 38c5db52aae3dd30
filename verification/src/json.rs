//! Decoding of the server's response body: a JSON array of objects, each
//! with the two string fields `id` and `text`. Any other shape is refused.
//!
//! The grammar is given by the `parse_*` spec functions, which consume a
//! character sequence from a position and yield the decoded value together
//! with the position just past it. `encode_doc` is the canonical (no
//! whitespace, minimal escapes) encoding of an entry list; decoding a
//! canonical encoding returns exactly the encoded list, which is proved in
//! `lemma_decode_of_encode`.

use vstd::prelude::*;
use vstd::string::StrSliceExecFns;

use crate::entry::{Entry, EntryModel};

verus! {

/// The four whitespace characters that JSON allows between tokens.
pub open spec fn is_json_ws(c: char) -> bool {
    c == ' ' || c == '\n' || c == '\r' || c == '\t'
}

/// First position at or after `i` holding a non-whitespace character,
/// or the end of the input.
pub open spec fn skip_ws(s: Seq<char>, i: int) -> int
    decreases s.len() - i when 0 <= i <= s.len()
{
    if i < s.len() && is_json_ws(s[i]) {
        skip_ws(s, i + 1)
    } else {
        i
    }
}

/// The character a single-character escape stands for, if `e` is one of
/// the eight such escape codes.
pub open spec fn simple_unescape(e: char) -> Option<char> {
    if e == '"' {
        Some('"')
    } else if e == '\\' {
        Some('\\')
    } else if e == '/' {
        Some('/')
    } else if e == 'b' {
        Some('\u{8}')
    } else if e == 'f' {
        Some('\u{c}')
    } else if e == 'n' {
        Some('\n')
    } else if e == 'r' {
        Some('\r')
    } else if e == 't' {
        Some('\t')
    } else {
        None
    }
}

/// The value of one hexadecimal digit, upper or lower case.
pub open spec fn hex_val(c: char) -> Option<u32> {
    let v = c as u32;
    if 0x30 <= v && v <= 0x39 {
        Some((v - 0x30) as u32)
    } else if 0x61 <= v && v <= 0x66 {
        Some((v - 0x61 + 10) as u32)
    } else if 0x41 <= v && v <= 0x46 {
        Some((v - 0x41 + 10) as u32)
    } else {
        None
    }
}

/// The value of the four hexadecimal digits at `i`, if all four are digits.
pub open spec fn hex4_val(s: Seq<char>, i: int) -> Option<u32>
    recommends
        0 <= i,
        i + 4 <= s.len(),
{
    match (hex_val(s[i]), hex_val(s[i + 1]), hex_val(s[i + 2]), hex_val(s[i + 3])) {
        (Some(a), Some(b), Some(c), Some(d)) => Some((((a * 16 + b) * 16 + c) * 16 + d) as u32),
        _ => None,
    }
}

/// Decodes the contents of a JSON string from `i` (just past the opening
/// quote) up to and including the closing quote, appending the decoded
/// characters to `acc`. A high-surrogate `\u` escape must be followed by
/// a low-surrogate one, and the pair names one character beyond the basic
/// plane. Refuses raw control characters, bad escapes, and unpaired
/// surrogate escapes.
pub open spec fn parse_string_body(s: Seq<char>, i: int, acc: Seq<char>) -> Option<(Seq<char>, int)>
    decreases s.len() - i when 0 <= i <= s.len()
{
    if i >= s.len() {
        None
    } else {
        let c = s[i];
        if c == '"' {
            Some((acc, i + 1))
        } else if c == '\\' {
            if i + 2 <= s.len() {
                let e = s[i + 1];
                match simple_unescape(e) {
                    Some(d) => parse_string_body(s, i + 2, acc.push(d)),
                    None => if e == 'u' && i + 6 <= s.len() {
                        match hex4_val(s, i + 2) {
                            Some(x) => if x < 0xD800 || 0xE000 <= x {
                                parse_string_body(s, i + 6, acc.push(x as char))
                            } else if x < 0xDC00 && i + 12 <= s.len() && s[i + 6] == '\\' && s[i
                                + 7] == 'u' {
                                // a high surrogate followed by a low one
                                // names a character beyond the basic plane
                                match hex4_val(s, i + 8) {
                                    Some(y) => if 0xDC00 <= y < 0xE000 {
                                        parse_string_body(
                                            s,
                                            i + 12,
                                            acc.push(
                                                ((0x10000 + (x - 0xD800) * 0x400 + (y
                                                    - 0xDC00)) as u32) as char,
                                            ),
                                        )
                                    } else {
                                        None
                                    },
                                    None => None,
                                }
                            } else {
                                None
                            },
                            None => None,
                        }
                    } else {
                        None
                    },
                }
            } else {
                None
            }
        } else if c as u32 >= 0x20 {
            parse_string_body(s, i + 1, acc.push(c))
        } else {
            None
        }
    }
}

/// Decodes a JSON string whose opening quote stands at `i`.
pub open spec fn parse_string(s: Seq<char>, i: int) -> Option<(Seq<char>, int)> {
    if 0 <= i < s.len() && s[i] == '"' {
        parse_string_body(s, i + 1, Seq::empty())
    } else {
        None
    }
}

/// Decodes one `"key": "value"` object member whose key begins at `i`.
pub open spec fn parse_member(s: Seq<char>, i: int) -> Option<((Seq<char>, Seq<char>), int)> {
    match parse_string(s, i) {
        Some((k, j)) => {
            let j2 = skip_ws(s, j);
            if j2 < s.len() && s[j2] == ':' {
                let j3 = skip_ws(s, j2 + 1);
                match parse_string(s, j3) {
                    Some((v, j4)) => Some(((k, v), j4)),
                    None => None,
                }
            } else {
                None
            }
        },
        None => None,
    }
}

/// The key naming an entry's identifier field.
pub open spec fn id_key() -> Seq<char> {
    seq!['i', 'd']
}

/// The key naming an entry's text field.
pub open spec fn text_key() -> Seq<char> {
    seq!['t', 'e', 'x', 't']
}

/// Decodes one entry object whose opening brace stands at `i`: exactly the
/// members `id` and `text`, in either order.
pub open spec fn parse_entry(s: Seq<char>, i: int) -> Option<(EntryModel, int)> {
    if 0 <= i < s.len() && s[i] == '{' {
        let j1 = skip_ws(s, i + 1);
        match parse_member(s, j1) {
            Some(((k1, v1), j2)) => {
                let j3 = skip_ws(s, j2);
                if j3 < s.len() && s[j3] == ',' {
                    let j4 = skip_ws(s, j3 + 1);
                    match parse_member(s, j4) {
                        Some(((k2, v2), j5)) => {
                            let j6 = skip_ws(s, j5);
                            if j6 < s.len() && s[j6] == '}' {
                                if k1 == id_key() && k2 == text_key() {
                                    Some((EntryModel { id: v1, text: v2 }, j6 + 1))
                                } else if k1 == text_key() && k2 == id_key() {
                                    Some((EntryModel { id: v2, text: v1 }, j6 + 1))
                                } else {
                                    None
                                }
                            } else {
                                None
                            }
                        },
                        None => None,
                    }
                } else {
                    None
                }
            },
            None => None,
        }
    } else {
        None
    }
}

/// Decodes the remainder of an array from `i`, positioned just past an
/// entry: either a closing bracket, or a comma and a further entry,
/// repeatedly. Appends the decoded entries to `acc`.
pub open spec fn parse_elems(s: Seq<char>, i: int, acc: Seq<EntryModel>) -> Option<
    (Seq<EntryModel>, int),
>
    decreases s.len() - i when 0 <= i <= s.len()
{
    let j = skip_ws(s, i);
    if j < s.len() && s[j] == ']' {
        Some((acc, j + 1))
    } else if j < s.len() && s[j] == ',' {
        match parse_entry(s, skip_ws(s, j + 1)) {
            Some((e, j2)) => if i < j2 <= s.len() {
                parse_elems(s, j2, acc.push(e))
            } else {
                None
            },
            None => None,
        }
    } else {
        None
    }
}

/// Decodes a whole response body: optional whitespace, an array of entry
/// objects, optional whitespace, end of input.
pub open spec fn parse_doc(s: Seq<char>) -> Option<Seq<EntryModel>> {
    let i = skip_ws(s, 0);
    if i < s.len() && s[i] == '[' {
        let j = skip_ws(s, i + 1);
        if j < s.len() && s[j] == ']' {
            if skip_ws(s, j + 1) == s.len() {
                Some(Seq::empty())
            } else {
                None
            }
        } else {
            match parse_entry(s, j) {
                Some((e, j2)) => match parse_elems(s, j2, seq![e]) {
                    Some((es, j3)) => if skip_ws(s, j3) == s.len() {
                        Some(es)
                    } else {
                        None
                    },
                    None => None,
                },
                None => None,
            }
        }
    } else {
        None
    }
}

/// The lower-case hexadecimal digit for a value below sixteen.
pub open spec fn hex_digit(d: int) -> char
    recommends
        0 <= d < 16,
{
    if d < 10 {
        (0x30 + d) as char
    } else {
        (0x57 + d) as char
    }
}

/// The canonical encoding of one character inside a JSON string: itself,
/// a two-character escape, or a `\u00..` escape for the remaining control
/// characters.
pub open spec fn escape_char(c: char) -> Seq<char> {
    if c == '"' {
        seq!['\\', '"']
    } else if c == '\\' {
        seq!['\\', '\\']
    } else if c == '\u{8}' {
        seq!['\\', 'b']
    } else if c == '\u{c}' {
        seq!['\\', 'f']
    } else if c == '\n' {
        seq!['\\', 'n']
    } else if c == '\r' {
        seq!['\\', 'r']
    } else if c == '\t' {
        seq!['\\', 't']
    } else if (c as u32) < 0x20 {
        seq!['\\', 'u', '0', '0', hex_digit(c as u32 as int / 16), hex_digit(c as u32 as int % 16)]
    } else {
        seq![c]
    }
}

/// The canonical encoding of a string's contents, without the quotes.
pub open spec fn encode_string_chars(t: Seq<char>) -> Seq<char>
    decreases t.len(),
{
    if t.len() == 0 {
        Seq::empty()
    } else {
        escape_char(t[0]) + encode_string_chars(t.drop_first())
    }
}

/// The canonical encoding of a JSON string, quotes included.
pub open spec fn encode_string(t: Seq<char>) -> Seq<char> {
    seq!['"'] + encode_string_chars(t) + seq!['"']
}

/// The canonical encoding of one `"key": "value"` object member, without
/// whitespace.
pub open spec fn encode_member(k: Seq<char>, v: Seq<char>) -> Seq<char> {
    encode_string(k) + seq![':'] + encode_string(v)
}

/// The canonical encoding of one entry object: `id` first, then `text`,
/// no whitespace.
pub open spec fn encode_entry(e: EntryModel) -> Seq<char> {
    seq!['{'] + encode_member(id_key(), e.id) + seq![','] + encode_member(text_key(), e.text)
        + seq!['}']
}

/// The canonical encoding of the part of an array that follows its first
/// entry: a comma before each further entry, then the closing bracket.
pub open spec fn encode_rest(es: Seq<EntryModel>) -> Seq<char>
    decreases es.len(),
{
    if es.len() == 0 {
        seq![']']
    } else {
        seq![','] + encode_entry(es[0]) + encode_rest(es.drop_first())
    }
}

/// The canonical encoding of a whole entry list.
pub open spec fn encode_doc(es: Seq<EntryModel>) -> Seq<char> {
    if es.len() == 0 {
        seq!['[', ']']
    } else {
        seq!['['] + encode_entry(es[0]) + encode_rest(es.drop_first())
    }
}

/// Skipping whitespace never moves backwards nor past the end.
proof fn lemma_skip_ws_bounds(s: Seq<char>, i: int)
    requires
        0 <= i <= s.len(),
    ensures
        i <= skip_ws(s, i) <= s.len(),
    decreases s.len() - i,
{
    if i < s.len() && is_json_ws(s[i]) {
        lemma_skip_ws_bounds(s, i + 1);
    }
}

/// A successful string-body decode ends past where it began and within
/// the input.
#[verifier::rlimit(100)]
proof fn lemma_parse_string_body_bounds(s: Seq<char>, i: int, acc: Seq<char>)
    requires
        0 <= i <= s.len(),
        parse_string_body(s, i, acc) is Some,
    ensures
        parse_string_body(s, i, acc) matches Some((t, j)) && i < j <= s.len(),
    decreases s.len() - i,
{
    if i < s.len() {
        let c = s[i];
        if c == '"' {
        } else if c == '\\' {
            if i + 2 <= s.len() {
                let e = s[i + 1];
                match simple_unescape(e) {
                    Some(d) => lemma_parse_string_body_bounds(s, i + 2, acc.push(d)),
                    None => {
                        if e == 'u' && i + 6 <= s.len() {
                            match hex4_val(s, i + 2) {
                                Some(x) => {
                                    if x < 0xD800 || 0xE000 <= x {
                                        lemma_parse_string_body_bounds(s, i + 6, acc.push(x as char));
                                    } else if x < 0xDC00 && i + 12 <= s.len() && s[i + 6] == '\\'
                                        && s[i + 7] == 'u' {
                                        match hex4_val(s, i + 8) {
                                            Some(y) => {
                                                if 0xDC00 <= y < 0xE000 {
                                                    lemma_parse_string_body_bounds(
                                                        s,
                                                        i + 12,
                                                        acc.push(
                                                            ((0x10000 + (x - 0xD800) * 0x400 + (y
                                                                - 0xDC00)) as u32) as char,
                                                        ),
                                                    );
                                                }
                                            },
                                            None => {},
                                        }
                                    }
                                },
                                None => {},
                            }
                        }
                    },
                }
            }
        } else if c as u32 >= 0x20 {
            lemma_parse_string_body_bounds(s, i + 1, acc.push(c));
        }
    }
}

/// A successful string decode ends past where it began and within the input.
proof fn lemma_parse_string_bounds(s: Seq<char>, i: int)
    requires
        parse_string(s, i) is Some,
    ensures
        parse_string(s, i) matches Some((t, j)) && i < j <= s.len(),
{
    lemma_parse_string_body_bounds(s, i + 1, Seq::empty());
}

/// A successful member decode ends past where it began and within the input.
proof fn lemma_parse_member_bounds(s: Seq<char>, i: int)
    requires
        parse_member(s, i) is Some,
    ensures
        parse_member(s, i) matches Some((kv, j)) && i < j <= s.len(),
{
    let (k, j) = parse_string(s, i)->Some_0;
    lemma_parse_string_bounds(s, i);
    lemma_skip_ws_bounds(s, j);
    let j2 = skip_ws(s, j);
    lemma_skip_ws_bounds(s, j2 + 1);
    let j3 = skip_ws(s, j2 + 1);
    lemma_parse_string_bounds(s, j3);
}

/// A successful entry decode ends past where it began and within the input.
proof fn lemma_parse_entry_bounds(s: Seq<char>, i: int)
    requires
        parse_entry(s, i) is Some,
    ensures
        parse_entry(s, i) matches Some((e, j)) && i < j <= s.len(),
{
    lemma_skip_ws_bounds(s, i + 1);
    let j1 = skip_ws(s, i + 1);
    lemma_parse_member_bounds(s, j1);
    let j2 = parse_member(s, j1)->Some_0.1;
    lemma_skip_ws_bounds(s, j2);
    let j3 = skip_ws(s, j2);
    lemma_skip_ws_bounds(s, j3 + 1);
    let j4 = skip_ws(s, j3 + 1);
    lemma_parse_member_bounds(s, j4);
    let j5 = parse_member(s, j4)->Some_0.1;
    lemma_skip_ws_bounds(s, j5);
}

/// A successful decode of an array's remainder ends past where it began
/// and within the input.
proof fn lemma_parse_elems_bounds(s: Seq<char>, i: int, acc: Seq<EntryModel>)
    requires
        0 <= i <= s.len(),
        parse_elems(s, i, acc) is Some,
    ensures
        parse_elems(s, i, acc) matches Some((es, j)) && i < j <= s.len(),
    decreases s.len() - i,
{
    lemma_skip_ws_bounds(s, i);
    let j = skip_ws(s, i);
    if j < s.len() && s[j] == ']' {
    } else if j < s.len() && s[j] == ',' {
        match parse_entry(s, skip_ws(s, j + 1)) {
            Some((e, j2)) => {
                if i < j2 <= s.len() {
                    lemma_parse_elems_bounds(s, j2, acc.push(e));
                }
            },
            None => {},
        }
    }
}

/// `hex_val` inverts `hex_digit` on values below sixteen.
proof fn lemma_hex_digit_val(d: int)
    requires
        0 <= d < 16,
    ensures
        hex_val(hex_digit(d)) == Some(d as u32),
{
}

/// Decoding a string body from its canonical encoding (followed by the
/// closing quote) appends exactly the encoded characters and stops just
/// past the quote, whatever was accumulated before and whatever follows.
#[verifier::spinoff_prover]
#[verifier::rlimit(100)]
proof fn lemma_rt_string_body(t: Seq<char>, acc: Seq<char>, s: Seq<char>, i: int)
    requires
        0 <= i,
        i + encode_string_chars(t).len() + 1 <= s.len(),
        s.subrange(i, i + encode_string_chars(t).len()) == encode_string_chars(t),
        s[i + encode_string_chars(t).len()] == '"',
    ensures
        parse_string_body(s, i, acc) == Some(
            (acc + t, i + encode_string_chars(t).len() + 1),
        ),
    decreases t.len(),
{
    let L = encode_string_chars(t).len() as int;
    assert(forall|k: int| 0 <= k < L ==> s[i + k] == #[trigger] encode_string_chars(t)[k]) by {
        assert(forall|k: int|
            0 <= k < L ==> s[i + k] == #[trigger] s.subrange(i, i + L)[k]);
    }
    if t.len() == 0 {
        assert(s[i] == '"');
        assert(acc + t =~= acc);
    } else {
        let c = t[0];
        let t2 = t.drop_first();
        let ec = escape_char(c);
        let n = ec.len() as int;
        let L2 = encode_string_chars(t2).len() as int;
        assert(encode_string_chars(t) == ec + encode_string_chars(t2));
        assert(L == n + L2);
        assert(forall|k: int| 0 <= k < n ==> (ec + encode_string_chars(t2))[k] == ec[k]);
        assert(forall|k: int| 0 <= k < n ==> s[i + k] == ec[k]);
        assert(s.subrange(i + n, i + n + L2) =~= encode_string_chars(t2)) by {
            assert(forall|k: int|
                0 <= k < L2 ==> #[trigger] s.subrange(i + n, i + n + L2)[k] == s[i + n + k]);
            assert(forall|k: int|
                0 <= k < L2 ==> s[i + n + k] == #[trigger] encode_string_chars(t)[n + k]);
            assert(forall|k: int|
                0 <= k < L2 ==> (ec + encode_string_chars(t2))[n + k]
                    == #[trigger] encode_string_chars(t2)[k]);
        }
        assert(s[i + n + L2] == '"');
        if c == '"' || c == '\\' || c == '\u{8}' || c == '\u{c}' || c == '\n' || c == '\r' || c
            == '\t' {
            // a two-character escape
            assert(s[i] == '\\');
            let e = ec[1];
            assert(s[i + 1] == e);
            assert(simple_unescape(e) == Some(c));
            lemma_rt_string_body(t2, acc.push(c), s, i + 2);
            assert(acc.push(c) + t2 =~= acc + t);
        } else if (c as u32) < 0x20 {
            // a \u00.. escape
            let cv = c as u32 as int;
            assert(s[i] == '\\');
            assert(s[i + 1] == 'u');
            assert(s[i + 2] == '0');
            assert(s[i + 3] == '0');
            assert(s[i + 4] == hex_digit(cv / 16));
            assert(s[i + 5] == hex_digit(cv % 16));
            assert(simple_unescape('u') is None);
            lemma_hex_digit_val(cv / 16);
            lemma_hex_digit_val(cv % 16);
            assert(hex_val('0') == Some(0u32));
            assert(hex4_val(s, i + 2) == Some(
                ((((0 * 16 + 0) * 16 + (cv / 16) as u32) * 16 + (cv % 16) as u32)) as u32,
            ));
            assert(16 * (cv / 16) + cv % 16 == cv) by {
                vstd::arithmetic::div_mod::lemma_fundamental_div_mod(cv, 16);
            }
            assert(hex4_val(s, i + 2) == Some(c as u32));
            assert((c as u32) < 0xD800);
            assert((c as u32) as char == c) by {
                vstd::utf8::char_u32_cast(c, c as u32);
            }
            lemma_rt_string_body(t2, acc.push(c), s, i + 6);
            assert(acc.push(c) + t2 =~= acc + t);
        } else {
            // the character stands for itself
            assert(ec == seq![c]);
            assert(s[i + 0] == ec[0]);
            assert(s[i] == c);
            assert(c as u32 >= 0x20);
            lemma_rt_string_body(t2, acc.push(c), s, i + 1);
            assert(acc.push(c) + t2 =~= acc + t);
        }
    }
}

/// Decoding a canonically encoded string starting at `i` yields the
/// encoded characters and stops just past the closing quote.
proof fn lemma_rt_string(t: Seq<char>, s: Seq<char>, i: int)
    requires
        0 <= i,
        i + encode_string(t).len() <= s.len(),
        s.subrange(i, i + encode_string(t).len()) == encode_string(t),
    ensures
        parse_string(s, i) == Some((t, i + encode_string(t).len())),
{
    let L = encode_string_chars(t).len() as int;
    let EL = encode_string(t).len() as int;
    assert(EL == L + 2);
    assert(forall|k: int| 0 <= k < EL ==> s[i + k] == #[trigger] encode_string(t)[k]) by {
        assert(forall|k: int|
            0 <= k < EL ==> s[i + k] == #[trigger] s.subrange(i, i + EL)[k]);
    }
    assert(s[i + 0] == encode_string(t)[0]);
    assert(encode_string(t)[0] == '"');
    assert(s[i + (L + 1)] == encode_string(t)[L + 1]);
    assert(encode_string(t)[L + 1] == '"');
    assert(s.subrange(i + 1, i + 1 + L) =~= encode_string_chars(t)) by {
        assert(forall|k: int|
            0 <= k < L ==> #[trigger] encode_string_chars(t)[k] == encode_string(t)[1 + k]);
        assert(forall|k: int|
            0 <= k < L ==> #[trigger] s.subrange(i + 1, i + 1 + L)[k] == s[i + 1 + k]);
    }
    lemma_rt_string_body(t, Seq::empty(), s, i + 1);
    assert(Seq::<char>::empty() + t =~= t);
}

/// Decoding a canonically encoded member starting at `i` yields the
/// encoded key and value and stops just past the value.
#[verifier::rlimit(100)]
proof fn lemma_rt_member(k: Seq<char>, v: Seq<char>, s: Seq<char>, i: int)
    requires
        0 <= i,
        i + encode_member(k, v).len() <= s.len(),
        s.subrange(i, i + encode_member(k, v).len()) == encode_member(k, v),
    ensures
        parse_member(s, i) == Some(((k, v), i + encode_member(k, v).len())),
{
    let a = encode_string(k).len() as int;
    let b = encode_string(v).len() as int;
    let M = encode_member(k, v).len() as int;
    assert(M == a + 1 + b);
    assert(forall|kk: int| 0 <= kk < M ==> s[i + kk] == #[trigger] encode_member(k, v)[kk]) by {
        assert(forall|kk: int|
            0 <= kk < M ==> s[i + kk] == #[trigger] s.subrange(i, i + M)[kk]);
    }
    assert(s.subrange(i, i + a) =~= encode_string(k)) by {
        assert(forall|kk: int|
            0 <= kk < a ==> #[trigger] encode_string(k)[kk] == encode_member(k, v)[kk]);
        assert(forall|kk: int|
            0 <= kk < a ==> #[trigger] s.subrange(i, i + a)[kk] == s[i + kk]);
    }
    lemma_rt_string(k, s, i);
    assert(s[i + a] == encode_member(k, v)[a]);
    assert(encode_member(k, v)[a] == ':');
    assert(s.subrange(i + a + 1, i + M) =~= encode_string(v)) by {
        assert(forall|kk: int|
            0 <= kk < b ==> #[trigger] encode_string(v)[kk] == encode_member(k, v)[a + 1 + kk]);
        assert(forall|kk: int|
            0 <= kk < b ==> #[trigger] s.subrange(i + a + 1, i + M)[kk] == s[i + a + 1 + kk]);
    }
    lemma_rt_string(v, s, i + a + 1);
    assert(s[i + a + 1 + 0] == encode_member(k, v)[a + 1]);
    assert(encode_member(k, v)[a + 1] == encode_string(v)[0]);
    assert(encode_string(v)[0] == '"');
    // the separators are not whitespace, so skipping moves nothing
    assert(skip_ws(s, i + a) == i + a);
    assert(skip_ws(s, i + a + 1) == i + a + 1);
}

/// Decoding a canonically encoded entry object starting at `i` yields the
/// encoded entry and stops just past the closing brace.
#[verifier::spinoff_prover]
#[verifier::rlimit(100)]
proof fn lemma_rt_entry(e: EntryModel, s: Seq<char>, i: int)
    requires
        0 <= i,
        i + encode_entry(e).len() <= s.len(),
        s.subrange(i, i + encode_entry(e).len()) == encode_entry(e),
    ensures
        parse_entry(s, i) == Some((e, i + encode_entry(e).len())),
{
    let m1 = encode_member(id_key(), e.id).len() as int;
    let m2 = encode_member(text_key(), e.text).len() as int;
    let EL = encode_entry(e).len() as int;
    assert(EL == 1 + m1 + 1 + m2 + 1);
    assert(forall|k: int| 0 <= k < EL ==> s[i + k] == #[trigger] encode_entry(e)[k]) by {
        assert(forall|k: int|
            0 <= k < EL ==> s[i + k] == #[trigger] s.subrange(i, i + EL)[k]);
    }
    assert(s[i + 0] == encode_entry(e)[0]);
    assert(encode_entry(e)[0] == '{');
    assert(s.subrange(i + 1, i + 1 + m1) =~= encode_member(id_key(), e.id)) by {
        assert(forall|k: int|
            0 <= k < m1 ==> #[trigger] encode_member(id_key(), e.id)[k] == encode_entry(e)[1 + k]);
        assert(forall|k: int|
            0 <= k < m1 ==> #[trigger] s.subrange(i + 1, i + 1 + m1)[k] == s[i + 1 + k]);
    }
    lemma_rt_member(id_key(), e.id, s, i + 1);
    assert(s[i + 1 + 0] == encode_entry(e)[1]);
    assert(encode_entry(e)[1] == encode_member(id_key(), e.id)[0]);
    assert(encode_member(id_key(), e.id)[0] == '"');
    assert(skip_ws(s, i + 1) == i + 1);
    let p4 = i + 1 + m1;
    assert(s[i + (1 + m1)] == encode_entry(e)[1 + m1]);
    assert(encode_entry(e)[1 + m1] == ',');
    assert(skip_ws(s, p4) == p4);
    let p5 = p4 + 1;
    assert(s.subrange(p5, p5 + m2) =~= encode_member(text_key(), e.text)) by {
        assert(forall|k: int|
            0 <= k < m2 ==> #[trigger] encode_member(text_key(), e.text)[k] == encode_entry(
                e,
            )[2 + m1 + k]);
        assert(forall|k: int|
            0 <= k < m2 ==> #[trigger] s.subrange(p5, p5 + m2)[k] == s[p5 + k]);
    }
    lemma_rt_member(text_key(), e.text, s, p5);
    assert(s[i + (2 + m1)] == encode_entry(e)[2 + m1]);
    assert(encode_entry(e)[2 + m1] == encode_member(text_key(), e.text)[0]);
    assert(encode_member(text_key(), e.text)[0] == '"');
    assert(skip_ws(s, p5) == p5);
    let p8 = p5 + m2;
    assert(s[i + (2 + m1 + m2)] == encode_entry(e)[2 + m1 + m2]);
    assert(encode_entry(e)[2 + m1 + m2] == '}');
    assert(skip_ws(s, p8) == p8);
    assert(EntryModel { id: e.id, text: e.text } =~= e);
}

/// Decoding the canonically encoded remainder of an array starting at `i`
/// appends the encoded entries and stops just past the closing bracket.
#[verifier::rlimit(100)]
proof fn lemma_rt_elems(es: Seq<EntryModel>, acc: Seq<EntryModel>, s: Seq<char>, i: int)
    requires
        0 <= i,
        i + encode_rest(es).len() <= s.len(),
        s.subrange(i, i + encode_rest(es).len()) == encode_rest(es),
    ensures
        parse_elems(s, i, acc) == Some((acc + es, i + encode_rest(es).len())),
    decreases es.len(),
{
    let R = encode_rest(es).len() as int;
    assert(forall|k: int| 0 <= k < R ==> s[i + k] == #[trigger] encode_rest(es)[k]) by {
        assert(forall|k: int|
            0 <= k < R ==> s[i + k] == #[trigger] s.subrange(i, i + R)[k]);
    }
    if es.len() == 0 {
        assert(s[i + 0] == encode_rest(es)[0]);
        assert(encode_rest(es)[0] == ']');
        assert(skip_ws(s, i) == i);
        assert(acc + es =~= acc);
    } else {
        let e0 = es[0];
        let rest = es.drop_first();
        let EL = encode_entry(e0).len() as int;
        assert(encode_rest(es) == seq![','] + encode_entry(e0) + encode_rest(rest));
        assert(s[i + 0] == encode_rest(es)[0]);
        assert(encode_rest(es)[0] == ',');
        assert(!is_json_ws(','));
        assert(skip_ws(s, i) == i);
        assert(s[i + 1] == encode_rest(es)[1]);
        assert(encode_rest(es)[1] == encode_entry(e0)[0]);
        assert(encode_entry(e0)[0] == '{');
        assert(skip_ws(s, i + 1) == i + 1);
        assert(s.subrange(i + 1, i + 1 + EL) =~= encode_entry(e0)) by {
            assert(forall|k: int|
                0 <= k < EL ==> #[trigger] encode_entry(e0)[k] == encode_rest(es)[1 + k]);
            assert(forall|k: int|
                0 <= k < EL ==> #[trigger] s.subrange(i + 1, i + 1 + EL)[k] == s[i + 1 + k]);
        }
        lemma_rt_entry(e0, s, i + 1);
        let j2 = i + 1 + EL;
        assert(s.subrange(j2, i + R) =~= encode_rest(rest)) by {
            assert(forall|k: int|
                0 <= k < R - 1 - EL ==> #[trigger] encode_rest(rest)[k] == encode_rest(
                    es,
                )[1 + EL + k]);
            assert(forall|k: int|
                0 <= k < R - 1 - EL ==> #[trigger] s.subrange(j2, i + R)[k] == s[j2 + k]);
        }
        lemma_rt_elems(rest, acc.push(e0), s, j2);
        assert(acc.push(e0) + rest =~= acc + es);
    }
}

/// Law: decoding the canonical encoding of any entry list yields exactly
/// that list, in content and order.
/// The empty case of [`lemma_decode_of_encode`].
proof fn lemma_decode_of_encode_empty(es: Seq<EntryModel>)
    requires
        es.len() == 0,
    ensures
        parse_doc(encode_doc(es)) == Some(es),
{
    let s = encode_doc(es);
    assert(s == seq!['[', ']']);
    assert(s[0] == '[');
    assert(s[1] == ']');
    assert(skip_ws(s, 0) == 0);
    assert(skip_ws(s, 1) == 1);
    assert(skip_ws(s, 2) == 2);
    assert(Seq::<EntryModel>::empty() =~= es);
}

/// The non-empty case of [`lemma_decode_of_encode`].
#[verifier::spinoff_prover]
#[verifier::rlimit(100)]
proof fn lemma_decode_of_encode_full(es: Seq<EntryModel>)
    requires
        es.len() > 0,
    ensures
        parse_doc(encode_doc(es)) == Some(es),
{
    let s = encode_doc(es);
    {
        let e0 = es[0];
        let rest = es.drop_first();
        let EL = encode_entry(e0).len() as int;
        let R = encode_rest(rest).len() as int;
        assert(s == seq!['['] + encode_entry(e0) + encode_rest(rest));
        assert(s.len() == 1 + EL + R);
        assert(s[0] == '[');
        assert(skip_ws(s, 0) == 0);
        assert(s[1] == encode_entry(e0)[0]);
        assert(encode_entry(e0)[0] == '{');
        assert(skip_ws(s, 1) == 1);
        assert(s.subrange(1, 1 + EL) =~= encode_entry(e0)) by {
            assert(forall|k: int|
                0 <= k < EL ==> #[trigger] s.subrange(1, 1 + EL)[k] == s[1 + k]);
            assert(forall|k: int|
                0 <= k < EL ==> s[1 + k] == #[trigger] encode_entry(e0)[k]);
        }
        lemma_rt_entry(e0, s, 1);
        let j2 = 1 + EL;
        assert(s.subrange(j2, j2 + R) =~= encode_rest(rest)) by {
            assert(forall|k: int|
                0 <= k < R ==> #[trigger] s.subrange(j2, j2 + R)[k] == s[j2 + k]);
            assert(forall|k: int|
                0 <= k < R ==> s[j2 + k] == #[trigger] encode_rest(rest)[k]);
        }
        lemma_rt_elems(rest, seq![e0], s, j2);
        assert(skip_ws(s, s.len() as int) == s.len());
        assert(seq![e0] + rest =~= es);
    }
}

/// Law: decoding the canonical encoding of any entry list yields exactly
/// that list, in content and order.
pub proof fn lemma_decode_of_encode(es: Seq<EntryModel>)
    ensures
        parse_doc(encode_doc(es)) == Some(es),
{
    if es.len() == 0 {
        lemma_decode_of_encode_empty(es);
    } else {
        lemma_decode_of_encode_full(es);
    }
}

/// The models of a sequence of entries, in order.
pub open spec fn models_of(v: Seq<Entry>) -> Seq<EntryModel> {
    v.map_values(|e: Entry| e@)
}

/// The message carried by every decode failure.
pub open spec fn decode_error_text() -> Seq<char> {
    "the response body is not a JSON array of entries"@
}

/// Relies on `String::push`: appends exactly the one character.
#[verifier::external_body]
fn push_char(s: &mut String, c: char)
    ensures
        final(s)@ == old(s)@.push(c),
{
    s.push(c);
}

/// Relies on `char::from_u32`: `Some` exactly for Unicode scalar values,
/// holding the character with that code.
#[verifier::external_body]
fn char_from_u32(x: u32) -> (r: Option<char>)
    ensures
        r is Some <==> vstd::utf8::is_scalar(x),
        r matches Some(c) ==> c as u32 == x,
{
    char::from_u32(x)
}

/// The characters of a string slice, in order.
fn str_to_chars(s: &str) -> (v: Vec<char>)
    ensures
        v@ == s@,
{
    let n: usize = s.unicode_len();
    let mut v: Vec<char> = Vec::new();
    let mut k: usize = 0;
    while k < n
        invariant
            n == s@.len(),
            k <= n,
            v@ =~= s@.subrange(0, k as int),
        decreases n - k,
    {
        v.push(s.get_char(k));
        k = k + 1;
    }
    assert(v@ =~= s@);
    v
}

/// Executable counterpart of [`skip_ws`].
fn skip_ws_exec(s: &Vec<char>, i: usize) -> (r: usize)
    requires
        i <= s@.len(),
    ensures
        r as int == skip_ws(s@, i as int),
        i <= r <= s@.len(),
    decreases s@.len() - i,
{
    if i < s.len() {
        let c = s[i];
        if c == ' ' || c == '\n' || c == '\r' || c == '\t' {
            skip_ws_exec(s, i + 1)
        } else {
            i
        }
    } else {
        i
    }
}

/// Executable counterpart of [`simple_unescape`].
fn simple_unescape_exec(e: char) -> (r: Option<char>)
    ensures
        r == simple_unescape(e),
{
    if e == '"' {
        Some('"')
    } else if e == '\\' {
        Some('\\')
    } else if e == '/' {
        Some('/')
    } else if e == 'b' {
        Some('\u{8}')
    } else if e == 'f' {
        Some('\u{c}')
    } else if e == 'n' {
        Some('\n')
    } else if e == 'r' {
        Some('\r')
    } else if e == 't' {
        Some('\t')
    } else {
        None
    }
}

/// Executable counterpart of [`hex_val`].
fn hex_val_exec(c: char) -> (r: Option<u32>)
    ensures
        r == hex_val(c),
{
    let v: u32 = c as u32;
    if 0x30 <= v && v <= 0x39 {
        Some(v - 0x30)
    } else if 0x61 <= v && v <= 0x66 {
        Some(v - 0x61 + 10)
    } else if 0x41 <= v && v <= 0x46 {
        Some(v - 0x41 + 10)
    } else {
        None
    }
}

/// Executable counterpart of [`hex4_val`].
fn hex4_val_exec(s: &Vec<char>, i: usize) -> (r: Option<u32>)
    requires
        i + 4 <= s@.len(),
    ensures
        r == hex4_val(s@, i as int),
        r matches Some(x) ==> x <= 0xFFFF,
{
    // binding the length as a usize shows that the indices below fit
    let _len: usize = s.len();
    let a = hex_val_exec(s[i]);
    let b = hex_val_exec(s[i + 1]);
    let c = hex_val_exec(s[i + 2]);
    let d = hex_val_exec(s[i + 3]);
    match (a, b, c, d) {
        (Some(a), Some(b), Some(c), Some(d)) => {
            assert(a <= 15 && b <= 15 && c <= 15 && d <= 15);
            Some(((a * 16 + b) * 16 + c) * 16 + d)
        },
        _ => None,
    }
}

/// Executable counterpart of [`parse_string_body`].
#[verifier::rlimit(100)]
fn parse_string_body_exec(s: &Vec<char>, i: usize, acc: String) -> (r: Option<(String, usize)>)
    requires
        i <= s@.len(),
    ensures
        r is Some <==> parse_string_body(s@, i as int, acc@) is Some,
        r matches Some((t, j)) ==> parse_string_body(s@, i as int, acc@) == Some((t@, j as int)),
    decreases s@.len() - i,
{
    if i >= s.len() {
        return None;
    }
    let c = s[i];
    if c == '"' {
        Some((acc, i + 1))
    } else if c == '\\' {
        if s.len() - i >= 2 {
            let e = s[i + 1];
            match simple_unescape_exec(e) {
                Some(d) => {
                    let mut acc2 = acc;
                    push_char(&mut acc2, d);
                    parse_string_body_exec(s, i + 2, acc2)
                },
                None => {
                    if e == 'u' && s.len() - i >= 6 {
                        match hex4_val_exec(s, i + 2) {
                            Some(x) => {
                                if x < 0xD800 || 0xE000 <= x {
                                    assert(vstd::utf8::is_scalar(x));
                                    match char_from_u32(x) {
                                        Some(d) => {
                                            proof {
                                                vstd::utf8::char_u32_cast(d, x);
                                            }
                                            let mut acc2 = acc;
                                            push_char(&mut acc2, d);
                                            parse_string_body_exec(s, i + 6, acc2)
                                        },
                                        None => {
                                            proof {
                                                assert(false);
                                            }
                                            None
                                        },
                                    }
                                } else if x < 0xDC00 && s.len() - i >= 12 && s[i + 6] == '\\' && s[i
                                    + 7] == 'u' {
                                    match hex4_val_exec(s, i + 8) {
                                        Some(y) => {
                                            if 0xDC00 <= y && y < 0xE000 {
                                                let scalar: u32 = 0x10000 + (x - 0xD800) * 0x400
                                                    + (y - 0xDC00);
                                                assert(vstd::utf8::is_scalar(scalar));
                                                match char_from_u32(scalar) {
                                                    Some(d) => {
                                                        proof {
                                                            vstd::utf8::char_u32_cast(d, scalar);
                                                        }
                                                        let mut acc2 = acc;
                                                        push_char(&mut acc2, d);
                                                        parse_string_body_exec(s, i + 12, acc2)
                                                    },
                                                    None => {
                                                        proof {
                                                            assert(false);
                                                        }
                                                        None
                                                    },
                                                }
                                            } else {
                                                None
                                            }
                                        },
                                        None => None,
                                    }
                                } else {
                                    None
                                }
                            },
                            None => None,
                        }
                    } else {
                        None
                    }
                },
            }
        } else {
            None
        }
    } else if c as u32 >= 0x20 {
        let mut acc2 = acc;
        push_char(&mut acc2, c);
        parse_string_body_exec(s, i + 1, acc2)
    } else {
        None
    }
}

/// Executable counterpart of [`parse_string`].
fn parse_string_exec(s: &Vec<char>, i: usize) -> (r: Option<(String, usize)>)
    requires
        i <= s@.len(),
    ensures
        r is Some <==> parse_string(s@, i as int) is Some,
        r matches Some((t, j)) ==> parse_string(s@, i as int) == Some((t@, j as int)),
{
    if i < s.len() {
        let c = s[i];
        if c == '"' {
            parse_string_body_exec(s, i + 1, String::new())
        } else {
            None
        }
    } else {
        None
    }
}

/// Executable counterpart of [`parse_member`].
fn parse_member_exec(s: &Vec<char>, i: usize) -> (r: Option<((String, String), usize)>)
    requires
        i <= s@.len(),
    ensures
        r is Some <==> parse_member(s@, i as int) is Some,
        r matches Some(((k, v), j)) ==> parse_member(s@, i as int) == Some(
            ((k@, v@), j as int),
        ),
{
    match parse_string_exec(s, i) {
        Some((k, j)) => {
            proof {
                lemma_parse_string_bounds(s@, i as int);
            }
            let j2: usize = skip_ws_exec(s, j);
            if j2 < s.len() {
                let c = s[j2];
                if c == ':' {
                    let j3: usize = skip_ws_exec(s, j2 + 1);
                    match parse_string_exec(s, j3) {
                        Some((v, j4)) => Some(((k, v), j4)),
                        None => None,
                    }
                } else {
                    None
                }
            } else {
                None
            }
        },
        None => None,
    }
}

/// Executable counterpart of [`parse_entry`].
fn parse_entry_exec(s: &Vec<char>, i: usize) -> (r: Option<(Entry, usize)>)
    requires
        i <= s@.len(),
    ensures
        r is Some <==> parse_entry(s@, i as int) is Some,
        r matches Some((e, j)) ==> parse_entry(s@, i as int) == Some((e@, j as int)),
{
    proof {
        reveal_strlit("id");
        reveal_strlit("text");
        assert("id"@ =~= id_key());
        assert("text"@ =~= text_key());
    }
    if i >= s.len() {
        return None;
    }
    let c = s[i];
    if c != '{' {
        return None;
    }
    let j1: usize = skip_ws_exec(s, i + 1);
    match parse_member_exec(s, j1) {
        Some(((k1, v1), j2)) => {
            proof {
                lemma_parse_member_bounds(s@, j1 as int);
            }
            let j3: usize = skip_ws_exec(s, j2);
            if j3 < s.len() {
                let c3 = s[j3];
                if c3 == ',' {
                    let j4: usize = skip_ws_exec(s, j3 + 1);
                    match parse_member_exec(s, j4) {
                        Some(((k2, v2), j5)) => {
                            proof {
                                lemma_parse_member_bounds(s@, j4 as int);
                            }
                            let j6: usize = skip_ws_exec(s, j5);
                            if j6 < s.len() {
                                let c6 = s[j6];
                                if c6 == '}' {
                                    let idk = String::from_str("id");
                                    let txk = String::from_str("text");
                                    if k1.eq(&idk) && k2.eq(&txk) {
                                        Some((Entry { id: v1, text: v2 }, j6 + 1))
                                    } else if k1.eq(&txk) && k2.eq(&idk) {
                                        Some((Entry { id: v2, text: v1 }, j6 + 1))
                                    } else {
                                        None
                                    }
                                } else {
                                    None
                                }
                            } else {
                                None
                            }
                        },
                        None => None,
                    }
                } else {
                    None
                }
            } else {
                None
            }
        },
        None => None,
    }
}

/// Executable counterpart of [`parse_elems`].
fn parse_elems_exec(s: &Vec<char>, i: usize, acc: Vec<Entry>) -> (r: Option<(Vec<Entry>, usize)>)
    requires
        i <= s@.len(),
    ensures
        r is Some <==> parse_elems(s@, i as int, models_of(acc@)) is Some,
        r matches Some((es, j)) ==> parse_elems(s@, i as int, models_of(acc@)) == Some(
            (models_of(es@), j as int),
        ),
    decreases s@.len() - i,
{
    let j: usize = skip_ws_exec(s, i);
    if j < s.len() {
        let c = s[j];
        if c == ']' {
            Some((acc, j + 1))
        } else if c == ',' {
            let j1: usize = skip_ws_exec(s, j + 1);
            match parse_entry_exec(s, j1) {
                Some((e, j2)) => {
                    if i < j2 && j2 <= s.len() {
                        let mut acc2 = acc;
                        let ghost old_acc = acc2@;
                        acc2.push(e);
                        assert(models_of(acc2@) =~= models_of(old_acc).push(e@));
                        parse_elems_exec(s, j2, acc2)
                    } else {
                        None
                    }
                },
                None => None,
            }
        } else {
            None
        }
    } else {
        None
    }
}

/// A decode-failure message for the caller.
fn decode_error() -> (m: String)
    ensures
        m@ == decode_error_text(),
{
    String::from_str("the response body is not a JSON array of entries")
}

/// Decodes a response body as a JSON array of entries.
///
/// Returns the decoded entries exactly when the body matches the grammar
/// given by [`parse_doc`], and a decode-failure message otherwise.
pub fn parse_entries(body: &str) -> (r: Result<Vec<Entry>, String>)
    ensures
        r matches Ok(v) ==> parse_doc(body@) == Some(models_of(v@)),
        parse_doc(body@) is Some ==> r is Ok,
        r matches Err(m) ==> parse_doc(body@) is None && m@ == decode_error_text(),
{
    let chars: Vec<char> = str_to_chars(body);
    let n: usize = chars.len();
    let i: usize = skip_ws_exec(&chars, 0);
    if i >= n {
        return Err(decode_error());
    }
    let c = chars[i];
    if c != '[' {
        return Err(decode_error());
    }
    let j: usize = skip_ws_exec(&chars, i + 1);
    if j < n {
        let cj = chars[j];
        if cj == ']' {
            let k: usize = skip_ws_exec(&chars, j + 1);
            if k == n {
                let empty: Vec<Entry> = Vec::new();
                assert(models_of(empty@) =~= Seq::<EntryModel>::empty());
                return Ok(empty);
            } else {
                return Err(decode_error());
            }
        }
    }
    match parse_entry_exec(&chars, j) {
        Some((e, j2)) => {
            proof {
                lemma_parse_entry_bounds(chars@, j as int);
            }
            let mut acc: Vec<Entry> = Vec::new();
            acc.push(e);
            assert(models_of(acc@) =~= seq![e@]);
            match parse_elems_exec(&chars, j2, acc) {
                Some((es, j3)) => {
                    proof {
                        lemma_parse_elems_bounds(chars@, j2 as int, seq![e@]);
                    }
                    let k: usize = skip_ws_exec(&chars, j3);
                    if k == n {
                        Ok(es)
                    } else {
                        Err(decode_error())
                    }
                },
                None => Err(decode_error()),
            }
        },
        None => Err(decode_error()),
    }
}

} // verus!
