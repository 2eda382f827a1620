//! Textual codec for the container payload.
//!
//! The decrypted payload of a container is one small structured-text
//! document: an object with exactly one field, `entries`, holding a mapping
//! from canonical date strings to entry text. The writer emits a canonical
//! compact form; the reader also tolerates surrounding whitespace and the
//! usual string escapes, and rejects everything else.

use vstd::prelude::*;

use crate::date::{parse_date_spec, Date};
use crate::text::push_char;
use vstd::string::StrSliceExecFns;
use vstd::string::StringExecFns;

verus! {

/// Whitespace accepted between tokens.
pub open spec fn is_ws(c: char) -> bool {
    c == ' ' || c == '\n' || c == '\r' || c == '\t'
}

/// Lowercase hexadecimal digit character for `x` (0 through 15).
pub open spec fn hex_char(x: int) -> char {
    if x < 10 {
        crate::date::digit_char(x)
    } else if x == 10 {
        'a'
    } else if x == 11 {
        'b'
    } else if x == 12 {
        'c'
    } else if x == 13 {
        'd'
    } else if x == 14 {
        'e'
    } else {
        'f'
    }
}

/// Whether `c` is a hexadecimal digit (either case).
pub open spec fn is_hex(c: char) -> bool {
    crate::date::is_digit(c) || (97 <= c as u32 <= 102) || (65 <= c as u32 <= 70)
}

/// Numeric value of a hexadecimal digit character.
pub open spec fn hex_val(c: char) -> int {
    if crate::date::is_digit(c) {
        crate::date::digit_val(c)
    } else if 97 <= c as u32 <= 102 {
        c as u32 - 87
    } else {
        c as u32 - 55
    }
}

/// The escaped form of one text character inside a quoted string.
pub open spec fn esc_char(c: char) -> Seq<char> {
    if c == '"' {
        seq!['\\', '"']
    } else if c == '\\' {
        seq!['\\', '\\']
    } else if c == '\n' {
        seq!['\\', 'n']
    } else if c == '\r' {
        seq!['\\', 'r']
    } else if c == '\t' {
        seq!['\\', 't']
    } else if (c as u32) < 32 {
        seq!['\\', 'u', '0', '0', hex_char(c as u32 as int / 16), hex_char(c as u32 as int % 16)]
    } else {
        seq![c]
    }
}

/// The escaped form of a whole text.
pub open spec fn esc(s: Seq<char>) -> Seq<char>
    decreases s.len(),
{
    if s.len() == 0 {
        Seq::empty()
    } else {
        esc_char(s[0]) + esc(s.skip(1))
    }
}

/// A quoted, escaped string token.
pub open spec fn ser_string(s: Seq<char>) -> Seq<char> {
    seq!['"'] + esc(s) + seq!['"']
}

/// One serialized entry: quoted date key, colon, quoted text.
pub open spec fn ser_pair(e: (Date, Seq<char>)) -> Seq<char> {
    ser_string(crate::date::format_spec(e.0)) + seq![':'] + ser_string(e.1)
}

/// Serialized entries after the first one, each preceded by a comma.
pub open spec fn ser_entries_tail(es: Seq<(Date, Seq<char>)>) -> Seq<char>
    decreases es.len(),
{
    if es.len() == 0 {
        Seq::empty()
    } else {
        seq![','] + ser_pair(es[0]) + ser_entries_tail(es.skip(1))
    }
}

/// The comma-separated serialized entry list.
pub open spec fn ser_entries(es: Seq<(Date, Seq<char>)>) -> Seq<char> {
    if es.len() == 0 {
        Seq::empty()
    } else {
        ser_pair(es[0]) + ser_entries_tail(es.skip(1))
    }
}

/// The opening tokens of the document, up to and including the brace of the
/// inner entries object.
pub open spec fn doc_open() -> Seq<char> {
    seq!['{', '"', 'e', 'n', 't', 'r', 'i', 'e', 's', '"', ':', '{']
}

/// The name of the single document field.
pub open spec fn entries_key() -> Seq<char> {
    seq!['e', 'n', 't', 'r', 'i', 'e', 's']
}

/// The canonical serialized document.
pub open spec fn ser_doc(es: Seq<(Date, Seq<char>)>) -> Seq<char> {
    doc_open() + ser_entries(es) + seq!['}', '}']
}

/// Drops leading whitespace.
pub open spec fn ws(s: Seq<char>) -> Seq<char>
    decreases s.len(),
{
    if s.len() > 0 && is_ws(s[0]) {
        ws(s.skip(1))
    } else {
        s
    }
}

/// Reads the remainder of a quoted string, after its opening quote: the
/// decoded text and the input after the closing quote.
pub open spec fn parse_str_body(s: Seq<char>) -> Option<(Seq<char>, Seq<char>)>
    decreases s.len(),
{
    if s.len() == 0 {
        None
    } else if s[0] == '"' {
        Some((Seq::empty(), s.skip(1)))
    } else if s[0] == '\\' {
        if s.len() >= 2 && (s[1] == '"' || s[1] == '\\' || s[1] == '/') {
            match parse_str_body(s.skip(2)) {
                Some((t, r)) => Some((seq![s[1]] + t, r)),
                None => None,
            }
        } else if s.len() >= 2 && (s[1] == 'n' || s[1] == 'r' || s[1] == 't' || s[1] == 'b' || s[1]
            == 'f') {
            let u = if s[1] == 'n' {
                '\n'
            } else if s[1] == 'r' {
                '\r'
            } else if s[1] == 't' {
                '\t'
            } else if s[1] == 'b' {
                '\u{8}'
            } else {
                '\u{c}'
            };
            match parse_str_body(s.skip(2)) {
                Some((t, r)) => Some((seq![u] + t, r)),
                None => None,
            }
        } else if s.len() >= 6 && s[1] == 'u' && s[2] == '0' && s[3] == '0' && is_hex(s[4])
            && is_hex(s[5]) {
            let u = ((hex_val(s[4]) * 16 + hex_val(s[5])) as u8) as char;
            match parse_str_body(s.skip(6)) {
                Some((t, r)) => Some((seq![u] + t, r)),
                None => None,
            }
        } else {
            None
        }
    } else if (s[0] as u32) < 32 {
        None
    } else {
        match parse_str_body(s.skip(1)) {
            Some((t, r)) => Some((seq![s[0]] + t, r)),
            None => None,
        }
    }
}

/// Reads a quoted string token.
pub open spec fn parse_string(s: Seq<char>) -> Option<(Seq<char>, Seq<char>)> {
    if s.len() > 0 && s[0] == '"' {
        parse_str_body(s.skip(1))
    } else {
        None
    }
}

/// Reads one `"key":"value"` pair, tolerating whitespace around the colon.
pub open spec fn parse_pair(s: Seq<char>) -> Option<((Seq<char>, Seq<char>), Seq<char>)> {
    match parse_string(ws(s)) {
        Some((k, r1)) => {
            let r2 = ws(r1);
            if r2.len() > 0 && r2[0] == ':' {
                match parse_string(ws(r2.skip(1))) {
                    Some((v, r3)) => Some(((k, v), r3)),
                    None => None,
                }
            } else {
                None
            }
        },
        None => None,
    }
}

/// After one pair: reads `, pair` repeatedly until the closing brace of the
/// entries object, consuming that brace.
pub open spec fn parse_more(s: Seq<char>) -> Option<(Seq<(Seq<char>, Seq<char>)>, Seq<char>)>
    decreases s.len(),
    via parse_more_decreases
{
    let t = ws(s);
    if t.len() > 0 && t[0] == ',' {
        match parse_pair(t.skip(1)) {
            Some((kv, r)) => match parse_more(r) {
                Some((ps, rest)) => Some((seq![kv] + ps, rest)),
                None => None,
            },
            None => None,
        }
    } else if t.len() > 0 && t[0] == '}' {
        Some((Seq::empty(), t.skip(1)))
    } else {
        None
    }
}

#[via_fn]
proof fn parse_more_decreases(s: Seq<char>) {
    let t = ws(s);
    lemma_ws_len(s);
    if t.len() > 0 && t[0] == ',' {
        lemma_parse_pair_len(t.skip(1));
    }
}

/// The body of the entries object, after its opening brace, consuming its
/// closing brace.
pub open spec fn parse_inner(s: Seq<char>) -> Option<(Seq<(Seq<char>, Seq<char>)>, Seq<char>)> {
    let t = ws(s);
    if t.len() > 0 && t[0] == '}' {
        Some((Seq::empty(), t.skip(1)))
    } else {
        match parse_pair(s) {
            Some((kv, r)) => match parse_more(r) {
                Some((ps, rest)) => Some((seq![kv] + ps, rest)),
                None => None,
            },
            None => None,
        }
    }
}

/// Reads the whole document: exactly one field named `entries` holding an
/// object of string pairs, and nothing after the closing brace.
pub open spec fn parse_doc(s: Seq<char>) -> Option<Seq<(Seq<char>, Seq<char>)>> {
    let t = ws(s);
    if t.len() > 0 && t[0] == '{' {
        match parse_string(ws(t.skip(1))) {
            Some((k, r1)) => {
                if k == entries_key() {
                    let r2 = ws(r1);
                    if r2.len() > 0 && r2[0] == ':' {
                        let r3 = ws(r2.skip(1));
                        if r3.len() > 0 && r3[0] == '{' {
                            match parse_inner(r3.skip(1)) {
                                Some((ps, r4)) => {
                                    let r5 = ws(r4);
                                    if r5.len() > 0 && r5[0] == '}' && ws(r5.skip(1)).len() == 0 {
                                        Some(ps)
                                    } else {
                                        None
                                    }
                                },
                                None => None,
                            }
                        } else {
                            None
                        }
                    } else {
                        None
                    }
                } else {
                    None
                }
            },
            None => None,
        }
    } else {
        None
    }
}

/// Decodes the keys of raw string pairs as strict dates.
pub open spec fn decode_entries(ps: Seq<(Seq<char>, Seq<char>)>) -> Option<Seq<(Date, Seq<char>)>>
    decreases ps.len(),
{
    if ps.len() == 0 {
        Some(Seq::empty())
    } else {
        match parse_date_spec(ps[0].0) {
            Some(d) => match decode_entries(ps.skip(1)) {
                Some(tail) => Some(seq![(d, ps[0].1)] + tail),
                None => None,
            },
            None => None,
        }
    }
}

/// The whole payload reading: document structure, then date keys.
pub open spec fn parse_payload_spec(s: Seq<char>) -> Option<Seq<(Date, Seq<char>)>> {
    match parse_doc(s) {
        Some(ps) => decode_entries(ps),
        None => None,
    }
}

/// The serialized form of entries as raw string pairs.
pub open spec fn raw_pairs(es: Seq<(Date, Seq<char>)>) -> Seq<(Seq<char>, Seq<char>)> {
    es.map_values(|e: (Date, Seq<char>)| (crate::date::format_spec(e.0), e.1))
}

/// Whitespace skipping never grows the input.
pub proof fn lemma_ws_len(s: Seq<char>)
    ensures
        ws(s).len() <= s.len(),
    decreases s.len(),
{
    if s.len() > 0 && is_ws(s[0]) {
        lemma_ws_len(s.skip(1));
    }
}

/// A successful string-body read consumes at least one character.
pub proof fn lemma_parse_str_body_len(s: Seq<char>)
    ensures
        parse_str_body(s) matches Some((t, r)) ==> r.len() < s.len(),
    decreases s.len(),
{
    if s.len() == 0 {
    } else if s[0] == '"' {
    } else if s[0] == '\\' {
        if s.len() >= 2 && (s[1] == '"' || s[1] == '\\' || s[1] == '/' || s[1] == 'n' || s[1] == 'r'
            || s[1] == 't' || s[1] == 'b' || s[1] == 'f') {
            lemma_parse_str_body_len(s.skip(2));
        } else if s.len() >= 6 && s[1] == 'u' {
            lemma_parse_str_body_len(s.skip(6));
        }
    } else {
        lemma_parse_str_body_len(s.skip(1));
    }
}

/// A successful string read consumes at least two characters.
pub proof fn lemma_parse_string_len(s: Seq<char>)
    ensures
        parse_string(s) matches Some((t, r)) ==> r.len() < s.len(),
{
    if s.len() > 0 && s[0] == '"' {
        lemma_parse_str_body_len(s.skip(1));
    }
}

/// Escaping distributes over appending one character.
pub proof fn lemma_esc_append(a: Seq<char>, c: char)
    ensures
        esc(a.push(c)) == esc(a) + esc_char(c),
    decreases a.len(),
{
    let d = a.push(c);
    if a.len() == 0 {
        assert(d =~= seq![c]);
        assert(d.skip(1) =~= Seq::<char>::empty());
        assert(esc(d) == esc_char(c) + esc(d.skip(1)));
        assert(esc(d.skip(1)) == Seq::<char>::empty());
        assert(esc(a) == Seq::<char>::empty());
        assert(esc_char(c) + Seq::<char>::empty() =~= Seq::<char>::empty() + esc_char(c));
    } else {
        assert(d[0] == a[0]);
        assert(d.skip(1) =~= a.skip(1).push(c));
        assert(esc(d) == esc_char(d[0]) + esc(d.skip(1)));
        lemma_esc_append(a.skip(1), c);
        assert(esc(a) == esc_char(a[0]) + esc(a.skip(1)));
        assert(esc(d) =~= esc(a) + esc_char(c));
    }
}

/// Escaping leaves a text of plain characters unchanged.
pub proof fn lemma_esc_plain(s: Seq<char>)
    requires
        forall|i: int|
            0 <= i < s.len() ==> 32 <= #[trigger] s[i] as u32 && s[i] != '"' && s[i] != '\\',
    ensures
        esc(s) == s,
    decreases s.len(),
{
    if s.len() > 0 {
        assert(s[0] as u32 >= 32);
        assert(esc_char(s[0]) == seq![s[0]]);
        lemma_esc_plain(s.skip(1));
        assert(esc(s) =~= s);
    }
}

/// A hexadecimal digit character carries the value it was made from.
proof fn lemma_hex_char_val(x: int)
    requires
        0 <= x < 16,
    ensures
        is_hex(hex_char(x)),
        hex_val(hex_char(x)) == x,
{
}

/// Whitespace skipping does nothing when the input does not start with
/// whitespace.
pub proof fn lemma_ws_id(s: Seq<char>)
    requires
        s.len() == 0 || !is_ws(s[0]),
    ensures
        ws(s) == s,
{
}

/// Reading the body of a serialized string recovers the original text and
/// stops right after the closing quote.
pub proof fn lemma_parse_body_of_esc(t: Seq<char>, tail: Seq<char>)
    ensures
        parse_str_body(esc(t) + seq!['"'] + tail) == Some((t, tail)),
    decreases t.len(),
{
    let s = esc(t) + seq!['"'] + tail;
    if t.len() == 0 {
        assert(s =~= seq!['"'] + tail);
        assert(s[0] == '"');
        assert(s.skip(1) =~= tail);
        assert(parse_str_body(s) == Some((Seq::<char>::empty(), tail)));
        assert(Seq::<char>::empty() =~= t);
    } else {
        let c = t[0];
        let rest0 = esc(t.skip(1)) + seq!['"'] + tail;
        lemma_parse_body_of_esc(t.skip(1), tail);
        assert(s =~= esc_char(c) + rest0);
        if c == '"' || c == '\\' {
            assert(s[0] == '\\' && s[1] == c);
            assert(s.skip(2) =~= rest0);
            assert(seq![s[1]] + t.skip(1) =~= t);
        } else if c == '\n' || c == '\r' || c == '\t' {
            assert(s[0] == '\\');
            assert(s.skip(2) =~= rest0);
            assert(seq![c] + t.skip(1) =~= t);
        } else if (c as u32) < 32 {
            let hi = c as u32 as int / 16;
            let lo = c as u32 as int % 16;
            lemma_hex_char_val(hi);
            lemma_hex_char_val(lo);
            assert(s[0] == '\\' && s[1] == 'u' && s[2] == '0' && s[3] == '0' && s[4] == hex_char(hi)
                && s[5] == hex_char(lo));
            assert(s.skip(6) =~= rest0);
            assert(hex_val(s[4]) * 16 + hex_val(s[5]) == c as u32);
            let v: u32 = c as u32;
            let c2: char = ((hi * 16 + lo) as u8) as char;
            assert(c2 as u32 == v);
            vstd::utf8::char_u32_cast(c, v);
            vstd::utf8::char_u32_cast(c2, v);
            assert(c2 == c);
            assert(seq![c] + t.skip(1) =~= t);
        } else {
            assert(esc_char(c) == seq![c]);
            assert(s[0] == c);
            assert(s.skip(1) =~= rest0);
            assert(seq![c] + t.skip(1) =~= t);
        }
    }
}

/// Reading a serialized string token recovers the original text.
pub proof fn lemma_parse_string_of_ser(t: Seq<char>, tail: Seq<char>)
    ensures
        parse_string(ser_string(t) + tail) == Some((t, tail)),
{
    let s = ser_string(t) + tail;
    assert(s[0] == '"');
    assert(s.skip(1) =~= esc(t) + seq!['"'] + tail);
    lemma_parse_body_of_esc(t, tail);
}

/// Reading a serialized pair recovers the raw key string and the text.
pub proof fn lemma_parse_pair_of_ser(e: (Date, Seq<char>), tail: Seq<char>)
    ensures
        parse_pair(ser_pair(e) + tail) == Some(
            ((crate::date::format_spec(e.0), e.1), tail),
        ),
{
    let fmt = crate::date::format_spec(e.0);
    let s = ser_pair(e) + tail;
    let r1 = seq![':'] + ser_string(e.1) + tail;
    assert(s[0] == '"');
    lemma_ws_id(s);
    assert(s =~= ser_string(fmt) + r1);
    lemma_parse_string_of_ser(fmt, r1);
    assert(r1[0] == ':');
    lemma_ws_id(r1);
    assert(r1.skip(1) =~= ser_string(e.1) + tail);
    assert(r1.skip(1)[0] == '"');
    lemma_ws_id(r1.skip(1));
    lemma_parse_string_of_ser(e.1, tail);
}

/// Reading the serialized continuation of the entry list recovers the raw
/// pairs and consumes the closing brace.
pub proof fn lemma_parse_more_of_tail(es: Seq<(Date, Seq<char>)>, tail: Seq<char>)
    ensures
        parse_more(ser_entries_tail(es) + seq!['}'] + tail) == Some((raw_pairs(es), tail)),
    decreases es.len(),
{
    let s = ser_entries_tail(es) + seq!['}'] + tail;
    if es.len() == 0 {
        assert(s =~= seq!['}'] + tail);
        assert(s[0] == '}');
        lemma_ws_id(s);
        assert(s.skip(1) =~= tail);
        assert(raw_pairs(es) =~= Seq::<(Seq<char>, Seq<char>)>::empty());
    } else {
        let rest1 = ser_entries_tail(es.skip(1)) + seq!['}'] + tail;
        assert(s =~= seq![','] + (ser_pair(es[0]) + rest1));
        assert(s[0] == ',');
        lemma_ws_id(s);
        assert(s.skip(1) =~= ser_pair(es[0]) + rest1);
        lemma_parse_pair_of_ser(es[0], rest1);
        lemma_parse_more_of_tail(es.skip(1), tail);
        assert(raw_pairs(es) =~= seq![(crate::date::format_spec(es[0].0), es[0].1)] + raw_pairs(
            es.skip(1),
        ));
    }
}

/// Reading the serialized entries object body recovers the raw pairs.
pub proof fn lemma_parse_inner_of_ser(es: Seq<(Date, Seq<char>)>, tail: Seq<char>)
    ensures
        parse_inner(ser_entries(es) + seq!['}'] + tail) == Some((raw_pairs(es), tail)),
{
    let s = ser_entries(es) + seq!['}'] + tail;
    if es.len() == 0 {
        assert(s =~= seq!['}'] + tail);
        assert(s[0] == '}');
        lemma_ws_id(s);
        assert(s.skip(1) =~= tail);
        assert(raw_pairs(es) =~= Seq::<(Seq<char>, Seq<char>)>::empty());
    } else {
        let rest1 = ser_entries_tail(es.skip(1)) + seq!['}'] + tail;
        assert(s =~= ser_pair(es[0]) + rest1);
        assert(s[0] == '"');
        lemma_ws_id(s);
        lemma_parse_pair_of_ser(es[0], rest1);
        lemma_parse_more_of_tail(es.skip(1), tail);
        assert(raw_pairs(es) =~= seq![(crate::date::format_spec(es[0].0), es[0].1)] + raw_pairs(
            es.skip(1),
        ));
    }
}

/// Reading a serialized document recovers the raw pairs.
pub proof fn lemma_parse_doc_of_ser(es: Seq<(Date, Seq<char>)>)
    ensures
        parse_doc(ser_doc(es)) == Some(raw_pairs(es)),
{
    let s = ser_doc(es);
    let key = entries_key();
    assert(forall|i: int|
        0 <= i < key.len() ==> 32 <= #[trigger] key[i] as u32 && key[i] != '"' && key[i] != '\\');
    lemma_esc_plain(key);
    let r1 = seq![':', '{'] + ser_entries(es) + seq!['}', '}'];
    assert(doc_open() =~= seq!['{'] + ser_string(key) + seq![':', '{']);
    assert(s[0] == '{');
    lemma_ws_id(s);
    assert(s.skip(1) =~= ser_string(key) + r1);
    assert(s.skip(1)[0] == '"');
    lemma_ws_id(s.skip(1));
    lemma_parse_string_of_ser(key, r1);
    assert(r1[0] == ':');
    lemma_ws_id(r1);
    assert(r1.skip(1) =~= seq!['{'] + (ser_entries(es) + seq!['}'] + seq!['}']));
    assert(r1.skip(1)[0] == '{');
    lemma_ws_id(r1.skip(1));
    assert(r1.skip(1).skip(1) =~= ser_entries(es) + seq!['}'] + seq!['}']);
    lemma_parse_inner_of_ser(es, seq!['}']);
    let r4 = seq!['}'];
    assert(r4[0] == '}');
    lemma_ws_id(r4);
    assert(r4.skip(1) =~= Seq::<char>::empty());
    lemma_ws_id(r4.skip(1));
}

/// Decoding the raw pairs of serialized entries recovers the entries.
pub proof fn lemma_decode_of_raw(es: Seq<(Date, Seq<char>)>)
    requires
        forall|i: int| 0 <= i < es.len() ==> (#[trigger] es[i].0).wf(),
    ensures
        decode_entries(raw_pairs(es)) == Some(es),
    decreases es.len(),
{
    if es.len() == 0 {
        assert(raw_pairs(es) =~= Seq::<(Seq<char>, Seq<char>)>::empty());
    } else {
        crate::date::lemma_parse_format_roundtrip(es[0].0);
        assert(raw_pairs(es)[0] == (crate::date::format_spec(es[0].0), es[0].1));
        assert(raw_pairs(es).skip(1) =~= raw_pairs(es.skip(1)));
        lemma_decode_of_raw(es.skip(1));
        assert(seq![(es[0].0, es[0].1)] + es.skip(1) =~= es);
        assert(es[0] == (es[0].0, es[0].1));
    }
}

/// Round trip of the payload codec: reading a serialized entry list gives
/// the same entries back, in the same order, for every list of well-formed
/// dates and arbitrary texts.
pub proof fn lemma_payload_roundtrip(es: Seq<(Date, Seq<char>)>)
    requires
        forall|i: int| 0 <= i < es.len() ==> (#[trigger] es[i].0).wf(),
    ensures
        parse_payload_spec(ser_doc(es)) == Some(es),
{
    lemma_parse_doc_of_ser(es);
    lemma_decode_of_raw(es);
}

/// A successful pair read consumes at least one character.
pub proof fn lemma_parse_pair_len(s: Seq<char>)
    ensures
        parse_pair(s) matches Some((kv, r)) ==> r.len() < s.len(),
{
    lemma_ws_len(s);
    lemma_parse_string_len(ws(s));
    match parse_string(ws(s)) {
        Some((k, r1)) => {
            lemma_ws_len(r1);
            let r2 = ws(r1);
            if r2.len() > 0 && r2[0] == ':' {
                lemma_ws_len(r2.skip(1));
                lemma_parse_string_len(ws(r2.skip(1)));
            }
        },
        None => {},
    }
}

/// The entry pairs a vector holds, with texts as character sequences.
pub open spec fn view_pairs(v: Seq<(Date, String)>) -> Seq<(Date, Seq<char>)> {
    v.map_values(|e: (Date, String)| (e.0, e.1@))
}

/// The raw string pairs a vector holds, as character sequences.
pub open spec fn raw_view(v: Seq<(String, String)>) -> Seq<(Seq<char>, Seq<char>)> {
    v.map_values(|e: (String, String)| (e.0@, e.1@))
}

/// Serialization of the entry-list tail distributes over appending.
pub proof fn lemma_tail_append(es: Seq<(Date, Seq<char>)>, e: (Date, Seq<char>))
    ensures
        ser_entries_tail(es.push(e)) == ser_entries_tail(es) + seq![','] + ser_pair(e),
    decreases es.len(),
{
    let d = es.push(e);
    if es.len() == 0 {
        assert(d =~= seq![e]);
        assert(d.skip(1) =~= Seq::<(Date, Seq<char>)>::empty());
        assert(ser_entries_tail(d) == seq![','] + ser_pair(d[0]) + ser_entries_tail(d.skip(1)));
        assert(ser_entries_tail(d) =~= ser_entries_tail(es) + seq![','] + ser_pair(e));
    } else {
        assert(d[0] == es[0]);
        assert(d.skip(1) =~= es.skip(1).push(e));
        lemma_tail_append(es.skip(1), e);
        assert(ser_entries_tail(d) == seq![','] + ser_pair(d[0]) + ser_entries_tail(d.skip(1)));
        assert(ser_entries_tail(es) == seq![','] + ser_pair(es[0]) + ser_entries_tail(es.skip(1)));
        assert(ser_entries_tail(d) =~= ser_entries_tail(es) + seq![','] + ser_pair(e));
    }
}

/// Executable twin of [`is_ws`].
fn is_ws_char(c: char) -> (r: bool)
    ensures
        r == is_ws(c),
{
    c == ' ' || c == '\n' || c == '\r' || c == '\t'
}

/// Executable twin of [`hex_char`].
fn hex_of(x: u8) -> (c: char)
    requires
        x < 16,
    ensures
        c == hex_char(x as int),
{
    match x {
        0 => '0',
        1 => '1',
        2 => '2',
        3 => '3',
        4 => '4',
        5 => '5',
        6 => '6',
        7 => '7',
        8 => '8',
        9 => '9',
        10 => 'a',
        11 => 'b',
        12 => 'c',
        13 => 'd',
        14 => 'e',
        _ => 'f',
    }
}

/// Executable twin of [`is_hex`].
fn is_hex_char(c: char) -> (r: bool)
    ensures
        r == is_hex(c),
{
    let v = c as u32;
    (48 <= v && v <= 57) || (97 <= v && v <= 102) || (65 <= v && v <= 70)
}

/// Executable twin of [`hex_val`].
fn hex_value(c: char) -> (v: u8)
    requires
        is_hex(c),
    ensures
        v as int == hex_val(c),
        v < 16,
{
    let x = c as u32;
    if 48 <= x && x <= 57 {
        (x - 48) as u8
    } else if 97 <= x && x <= 102 {
        (x - 87) as u8
    } else {
        (x - 55) as u8
    }
}

/// Index just past the leading whitespace at position `i`.
fn skip_ws_at(s: &str, i: usize) -> (j: usize)
    requires
        i <= s@.len(),
    ensures
        i <= j <= s@.len(),
        s@.skip(j as int) == ws(s@.skip(i as int)),
    decreases s@.len() - i,
{
    let n = s.unicode_len();
    if i >= n {
        proof {
            lemma_ws_id(s@.skip(i as int));
        }
        return i;
    }
    let c = s.get_char(i);
    proof {
        assert(s@.skip(i as int)[0] == s@[i as int]);
    }
    if is_ws_char(c) {
        proof {
            assert(s@.skip(i as int).skip(1) =~= s@.skip(i as int + 1));
        }
        skip_ws_at(s, i + 1)
    } else {
        proof {
            lemma_ws_id(s@.skip(i as int));
        }
        i
    }
}

/// Reads a quoted string token at position `i`.
#[verifier::loop_isolation(false)]
fn p_string_at(s: &str, i: usize) -> (r: Option<(String, usize)>)
    requires
        i <= s@.len(),
    ensures
        r matches Some((t, j)) ==> i < j <= s@.len() && parse_string(s@.skip(i as int)) == Some(
            (t@, s@.skip(j as int)),
        ),
        r is None ==> parse_string(s@.skip(i as int)) is None,
{
    let n = s.unicode_len();
    if i >= n {
        return None;
    }
    if s.get_char(i) != '"' {
        proof {
            assert(s@.skip(i as int)[0] == s@[i as int]);
        }
        return None;
    }
    proof {
        assert(s@.skip(i as int)[0] == s@[i as int]);
        assert(s@.skip(i as int).skip(1) =~= s@.skip(i as int + 1));
    }
    let mut acc = String::new();
    let mut j = i + 1;
    loop
        invariant
            i + 1 <= j <= n,
            n == s@.len(),
            ({
                match parse_str_body(s@.skip(j as int)) {
                    Some((t, rr)) => parse_str_body(s@.skip(i as int + 1)) == Some((acc@ + t, rr)),
                    None => parse_str_body(s@.skip(i as int + 1)) is None,
                }
            }),
        decreases n - j,
    {
        let ghost pre = s@.skip(j as int);
        if j >= n {
            return None;
        }
        let c = s.get_char(j);
        proof {
            assert(pre[0] == s@[j as int]);
        }
        if c == '"' {
            proof {
                assert(pre.skip(1) =~= s@.skip(j as int + 1));
                assert(acc@ + Seq::<char>::empty() =~= acc@);
            }
            return Some((acc, j + 1));
        } else if c == '\\' {
            if j + 1 >= n {
                return None;
            }
            let e = s.get_char(j + 1);
            proof {
                assert(pre[1] == s@[j as int + 1]);
                assert(pre.skip(2) =~= s@.skip(j as int + 2));
            }
            if e == '"' || e == '\\' || e == '/' {
                let ghost old_acc = acc@;
                push_char(&mut acc, e);
                proof {
                    lemma_body_step(s@, i as int + 1, j as int, old_acc, seq![e], 2);
                }
                j += 2;
            } else if e == 'n' || e == 'r' || e == 't' || e == 'b' || e == 'f' {
                let u: char = if e == 'n' {
                    '\n'
                } else if e == 'r' {
                    '\r'
                } else if e == 't' {
                    '\t'
                } else if e == 'b' {
                    '\u{8}'
                } else {
                    '\u{c}'
                };
                let ghost old_acc = acc@;
                push_char(&mut acc, u);
                proof {
                    lemma_body_step(s@, i as int + 1, j as int, old_acc, seq![u], 2);
                }
                j += 2;
            } else if e == 'u' {
                if n - j < 6 {
                    return None;
                }
                let h2 = s.get_char(j + 2);
                let h3 = s.get_char(j + 3);
                let h4 = s.get_char(j + 4);
                let h5 = s.get_char(j + 5);
                proof {
                    assert(pre[2] == s@[j as int + 2]);
                    assert(pre[3] == s@[j as int + 3]);
                    assert(pre[4] == s@[j as int + 4]);
                    assert(pre[5] == s@[j as int + 5]);
                    assert(pre.skip(6) =~= s@.skip(j as int + 6));
                }
                if h2 != '0' || h3 != '0' {
                    return None;
                }
                if !is_hex_char(h4) || !is_hex_char(h5) {
                    return None;
                }
                let v: u8 = hex_value(h4) * 16 + hex_value(h5);
                let u: char = v as char;
                let ghost old_acc = acc@;
                push_char(&mut acc, u);
                proof {
                    lemma_body_step(s@, i as int + 1, j as int, old_acc, seq![u], 6);
                }
                j += 6;
            } else {
                return None;
            }
        } else if (c as u32) < 32 {
            return None;
        } else {
            let ghost old_acc = acc@;
            push_char(&mut acc, c);
            proof {
                assert(pre.skip(1) =~= s@.skip(j as int + 1));
                lemma_body_step(s@, i as int + 1, j as int, old_acc, seq![c], 1);
            }
            j += 1;
        }
    }
}

/// One step of the string-body loop: if the spec reader prepends `u` at
/// position `j` and continues at `j + k`, the accumulated prefix moves
/// along.
proof fn lemma_body_step(s: Seq<char>, start: int, j: int, acc: Seq<char>, u: Seq<char>, k: int)
    requires
        0 <= start <= j,
        0 < k,
        j + k <= s.len(),
        ({
            match parse_str_body(s.skip(j)) {
                Some((t, rr)) => parse_str_body(s.skip(start)) == Some((acc + t, rr)),
                None => parse_str_body(s.skip(start)) is None,
            }
        }),
        ({
            match parse_str_body(s.skip(j + k)) {
                Some((t, rr)) => parse_str_body(s.skip(j)) == Some((u + t, rr)),
                None => parse_str_body(s.skip(j)) is None,
            }
        }),
    ensures
        match parse_str_body(s.skip(j + k)) {
            Some((t, rr)) => parse_str_body(s.skip(start)) == Some(((acc + u) + t, rr)),
            None => parse_str_body(s.skip(start)) is None,
        },
{
    match parse_str_body(s.skip(j + k)) {
        Some((t, rr)) => {
            assert(acc + (u + t) =~= (acc + u) + t);
        },
        None => {},
    }
}

/// Reads one `"key":"value"` pair starting at position `i`.
#[verifier::loop_isolation(false)]
fn p_pair_at(s: &str, i: usize) -> (r: Option<((String, String), usize)>)
    requires
        i <= s@.len(),
    ensures
        r matches Some(((k, v), j)) ==> i < j <= s@.len() && parse_pair(s@.skip(i as int)) == Some(
            ((k@, v@), s@.skip(j as int)),
        ),
        r is None ==> parse_pair(s@.skip(i as int)) is None,
{
    let n = s.unicode_len();
    let i1 = skip_ws_at(s, i);
    let (k, i2) = match p_string_at(s, i1) {
        Some(x) => x,
        None => {
            return None;
        },
    };
    let i3 = skip_ws_at(s, i2);
    if i3 >= n {
        return None;
    }
    if s.get_char(i3) != ':' {
        proof {
            assert(s@.skip(i3 as int)[0] == s@[i3 as int]);
        }
        return None;
    }
    proof {
        assert(s@.skip(i3 as int)[0] == s@[i3 as int]);
        assert(s@.skip(i3 as int).skip(1) =~= s@.skip(i3 as int + 1));
    }
    let i4 = skip_ws_at(s, i3 + 1);
    let (v, i5) = match p_string_at(s, i4) {
        Some(x) => x,
        None => {
            return None;
        },
    };
    Some(((k, v), i5))
}

/// Reads a whole payload: the document structure, the single `entries`
/// field, and strict dates as keys. Returns the entries in the textual
/// order of the document.
#[verifier::loop_isolation(false)]
#[verifier::rlimit(100)]
pub fn parse_payload(s: &str) -> (r: Option<Vec<(Date, String)>>)
    ensures
        r matches Some(v) ==> parse_payload_spec(s@) == Some(view_pairs(v@)) && (forall|k: int|
            0 <= k < v@.len() ==> (#[trigger] v@[k]).0.wf()),
        r is None ==> parse_payload_spec(s@) is None,
{
    let n = s.unicode_len();
    let i0 = skip_ws_at(s, 0);
    proof {
        assert(s@.skip(0) =~= s@);
    }
    if i0 >= n {
        return None;
    }
    if s.get_char(i0) != '{' {
        proof {
            assert(s@.skip(i0 as int)[0] == s@[i0 as int]);
        }
        return None;
    }
    proof {
        assert(s@.skip(i0 as int)[0] == s@[i0 as int]);
        assert(s@.skip(i0 as int).skip(1) =~= s@.skip(i0 as int + 1));
    }
    let i1 = skip_ws_at(s, i0 + 1);
    let (key, i2) = match p_string_at(s, i1) {
        Some(x) => x,
        None => {
            return None;
        },
    };
    let expected = String::from_str("entries");
    proof {
        reveal_strlit("entries");
        assert("entries"@ =~= entries_key());
    }
    if !key.eq(&expected) {
        return None;
    }
    let i3 = skip_ws_at(s, i2);
    if i3 >= n {
        return None;
    }
    if s.get_char(i3) != ':' {
        proof {
            assert(s@.skip(i3 as int)[0] == s@[i3 as int]);
        }
        return None;
    }
    proof {
        assert(s@.skip(i3 as int)[0] == s@[i3 as int]);
        assert(s@.skip(i3 as int).skip(1) =~= s@.skip(i3 as int + 1));
    }
    let i4 = skip_ws_at(s, i3 + 1);
    if i4 >= n {
        return None;
    }
    if s.get_char(i4) != '{' {
        proof {
            assert(s@.skip(i4 as int)[0] == s@[i4 as int]);
        }
        return None;
    }
    proof {
        assert(s@.skip(i4 as int)[0] == s@[i4 as int]);
        assert(s@.skip(i4 as int).skip(1) =~= s@.skip(i4 as int + 1));
    }
    let ghost inner0 = i4 as int + 1;
    let mut pairs: Vec<(String, String)> = Vec::new();
    let i6 = skip_ws_at(s, i4 + 1);
    let mut j: usize;
    if i6 < n && s.get_char(i6) == '}' {
        proof {
            assert(s@.skip(i6 as int)[0] == s@[i6 as int]);
            assert(s@.skip(i6 as int).skip(1) =~= s@.skip(i6 as int + 1));
            assert(raw_view(pairs@) =~= Seq::<(Seq<char>, Seq<char>)>::empty());
        }
        j = i6 + 1;
        proof {
            assert(parse_inner(s@.skip(inner0)) == Some((raw_view(pairs@), s@.skip(j as int))));
        }
    } else {
        proof {
            if i6 < n {
                assert(s@.skip(i6 as int)[0] == s@[i6 as int]);
            }
        }
        let (kv, j0) = match p_pair_at(s, i4 + 1) {
            Some(x) => x,
            None => {
                return None;
            },
        };
        pairs.push(kv);
        j = j0;
        proof {
            assert(raw_view(pairs@) =~= seq![(pairs@[0].0@, pairs@[0].1@)]);
        }
        let mut done = false;
        while !done
            invariant
                j <= n,
                n == s@.len(),
                !done ==> ({
                    match parse_more(s@.skip(j as int)) {
                        Some((ps, rest)) => parse_inner(s@.skip(inner0)) == Some(
                            (raw_view(pairs@) + ps, rest),
                        ),
                        None => parse_inner(s@.skip(inner0)) is None,
                    }
                }),
                done ==> parse_inner(s@.skip(inner0)) == Some(
                    (raw_view(pairs@), s@.skip(j as int)),
                ),
            decreases n - j,
        {
            let t = skip_ws_at(s, j);
            if t >= n {
                return None;
            }
            let c = s.get_char(t);
            proof {
                assert(s@.skip(t as int)[0] == s@[t as int]);
            }
            if c == '}' {
                proof {
                    assert(s@.skip(t as int).skip(1) =~= s@.skip(t as int + 1));
                    assert(raw_view(pairs@) + Seq::<(Seq<char>, Seq<char>)>::empty() =~= raw_view(
                        pairs@,
                    ));
                }
                j = t + 1;
                done = true;
                continue;
            }
            if c != ',' {
                return None;
            }
            proof {
                assert(s@.skip(t as int).skip(1) =~= s@.skip(t as int + 1));
            }
            let (kv, j2) = match p_pair_at(s, t + 1) {
                Some(x) => x,
                None => {
                    return None;
                },
            };
            proof {
                lemma_parse_pair_len(s@.skip(t as int + 1));
            }
            let ghost old_pairs = pairs@;
            pairs.push(kv);
            proof {
                assert(raw_view(pairs@) =~= raw_view(old_pairs).push((kv.0@, kv.1@)));
                match parse_more(s@.skip(j2 as int)) {
                    Some((ps2, rest)) => {
                        assert(raw_view(old_pairs) + (seq![(kv.0@, kv.1@)] + ps2) =~= raw_view(
                            pairs@,
                        ) + ps2);
                    },
                    None => {},
                }
            }
            j = j2;
        }
    }
    let i7 = skip_ws_at(s, j);
    if i7 >= n {
        return None;
    }
    if s.get_char(i7) != '}' {
        proof {
            assert(s@.skip(i7 as int)[0] == s@[i7 as int]);
        }
        return None;
    }
    proof {
        assert(s@.skip(i7 as int)[0] == s@[i7 as int]);
        assert(s@.skip(i7 as int).skip(1) =~= s@.skip(i7 as int + 1));
    }
    let i8 = skip_ws_at(s, i7 + 1);
    if i8 != n {
        return None;
    }
    proof {
        assert(parse_doc(s@) == Some(raw_view(pairs@)));
    }
    let mut out: Vec<(Date, String)> = Vec::new();
    let mut idx: usize = 0;
    let m = pairs.len();
    proof {
        assert(raw_view(pairs@).skip(0) =~= raw_view(pairs@));
        match decode_entries(raw_view(pairs@)) {
            Some(tail) => {
                assert(view_pairs(out@) + tail =~= tail);
            },
            None => {},
        }
    }
    while idx < m
        invariant
            idx <= m,
            m == pairs@.len(),
            parse_doc(s@) == Some(raw_view(pairs@)),
            forall|k: int| 0 <= k < out@.len() ==> (#[trigger] out@[k]).0.wf(),
            ({
                match decode_entries(raw_view(pairs@).skip(idx as int)) {
                    Some(tail) => decode_entries(raw_view(pairs@)) == Some(view_pairs(out@) + tail),
                    None => decode_entries(raw_view(pairs@)) is None,
                }
            }),
        decreases m - idx,
    {
        let ghost rv = raw_view(pairs@);
        proof {
            assert(rv.skip(idx as int)[0] == rv[idx as int]);
        }
        let d = match Date::parse(pairs[idx].0.as_str()) {
            Ok(d) => d,
            Err(_) => {
                return None;
            },
        };
        let txt = pairs[idx].1.clone();
        let ghost old_out = out@;
        out.push((d, txt));
        proof {
            assert(rv.skip(idx as int).skip(1) =~= rv.skip(idx as int + 1));
            assert(view_pairs(out@) =~= view_pairs(old_out).push((d, txt@)));
            match decode_entries(rv.skip(idx as int + 1)) {
                Some(tail2) => {
                    assert(view_pairs(old_out) + (seq![(d, rv[idx as int].1)] + tail2) =~= view_pairs(
                        out@,
                    ) + tail2);
                },
                None => {},
            }
        }
        idx += 1;
    }
    proof {
        assert(raw_view(pairs@).skip(m as int) =~= Seq::<(Seq<char>, Seq<char>)>::empty());
        assert(view_pairs(out@) + Seq::<(Date, Seq<char>)>::empty() =~= view_pairs(out@));
    }
    Some(out)
}

/// Appends the quoted, escaped form of `t`.
#[verifier::loop_isolation(false)]
fn ser_string_into(s: &mut String, t: &str)
    ensures
        final(s)@ == old(s)@ + ser_string(t@),
{
    push_char(s, '"');
    let n = t.unicode_len();
    let mut j: usize = 0;
    while j < n
        invariant
            j <= n,
            n == t@.len(),
            s@ == old(s)@ + seq!['"'] + esc(t@.take(j as int)),
        decreases n - j,
    {
        let c = t.get_char(j);
        let ghost before = s@;
        if c == '"' {
            push_char(s, '\\');
            push_char(s, '"');
        } else if c == '\\' {
            push_char(s, '\\');
            push_char(s, '\\');
        } else if c == '\n' {
            push_char(s, '\\');
            push_char(s, 'n');
        } else if c == '\r' {
            push_char(s, '\\');
            push_char(s, 'r');
        } else if c == '\t' {
            push_char(s, '\\');
            push_char(s, 't');
        } else if (c as u32) < 32 {
            push_char(s, '\\');
            push_char(s, 'u');
            push_char(s, '0');
            push_char(s, '0');
            push_char(s, hex_of((c as u32 / 16) as u8));
            push_char(s, hex_of((c as u32 % 16) as u8));
        } else {
            push_char(s, c);
        }
        proof {
            assert(s@ =~= before + esc_char(c));
            assert(t@.take(j as int + 1) =~= t@.take(j as int).push(c));
            lemma_esc_append(t@.take(j as int), c);
            assert(s@ =~= old(s)@ + seq!['"'] + esc(t@.take(j as int + 1)));
        }
        j += 1;
    }
    push_char(s, '"');
    proof {
        assert(t@.take(n as int) =~= t@);
        assert(s@ =~= old(s)@ + ser_string(t@));
    }
}

/// Serializes entries into the canonical compact document.
#[verifier::loop_isolation(false)]
pub fn ser_payload(entries: &Vec<(Date, String)>) -> (r: String)
    requires
        forall|i: int| 0 <= i < entries@.len() ==> (#[trigger] entries@[i]).0.wf(),
    ensures
        r@ == ser_doc(view_pairs(entries@)),
{
    let ghost vp = view_pairs(entries@);
    let mut s = String::new();
    s.append("{\"entries\":{");
    proof {
        reveal_strlit("{\"entries\":{");
        assert(Seq::<char>::empty() + "{\"entries\":{"@ =~= "{\"entries\":{"@);
        assert("{\"entries\":{"@ =~= doc_open());
    }
    let n = entries.len();
    let mut i: usize = 0;
    while i < n
        invariant
            i <= n,
            n == entries@.len(),
            vp == view_pairs(entries@),
            forall|k: int| 0 <= k < entries@.len() ==> (#[trigger] entries@[k]).0.wf(),
            i == 0 ==> s@ == doc_open(),
            i > 0 ==> s@ == doc_open() + ser_pair(vp[0]) + ser_entries_tail(
                vp.subrange(1, i as int),
            ),
        decreases n - i,
    {
        let ghost before = s@;
        if i > 0 {
            push_char(&mut s, ',');
        }
        let key = entries[i].0.format();
        ser_string_into(&mut s, key.as_str());
        push_char(&mut s, ':');
        ser_string_into(&mut s, entries[i].1.as_str());
        proof {
            assert(vp[i as int] == (entries@[i as int].0, entries@[i as int].1@));
            assert(ser_pair(vp[i as int]) == ser_string(crate::date::format_spec(
                entries@[i as int].0,
            )) + seq![':'] + ser_string(entries@[i as int].1@));
            if i == 0 {
                assert(vp.subrange(1, 1) =~= Seq::<(Date, Seq<char>)>::empty());
                assert(s@ =~= doc_open() + ser_pair(vp[0]) + ser_entries_tail(vp.subrange(1, 1)));
            } else {
                assert(vp.subrange(1, i as int + 1) =~= vp.subrange(1, i as int).push(
                    vp[i as int],
                ));
                lemma_tail_append(vp.subrange(1, i as int), vp[i as int]);
                assert(s@ =~= doc_open() + ser_pair(vp[0]) + ser_entries_tail(
                    vp.subrange(1, i as int + 1),
                ));
            }
        }
        i += 1;
    }
    push_char(&mut s, '}');
    push_char(&mut s, '}');
    proof {
        if n == 0 {
            assert(vp.len() == 0);
            assert(s@ =~= ser_doc(vp));
        } else {
            assert(vp.subrange(1, n as int) =~= vp.skip(1));
            assert(s@ =~= ser_doc(vp));
        }
    }
    s
}

} // verus!
