//! The aircraft file format, as mathematics.
//!
//! The input file is a JSON array of objects. Each object must carry the
//! three string members `icaoCode`, `iataCode` and `description`; members
//! under any other key are ignored, whatever JSON value they hold. A missing
//! or mistyped required member, a duplicated required member, or any text
//! that is not such an array rejects the whole file.
//!
//! Every parsing function here takes a position `i` into the text and
//! returns, on success, what it recognised together with the number of
//! characters it consumed.

use vstd::prelude::*;

use crate::record::AircraftView;

verus! {

/// JSON insignificant whitespace.
pub open spec fn json_ws(c: char) -> bool {
    c == ' ' || c == '\n' || c == '\r' || c == '\t'
}

/// How many whitespace characters stand at position `i`.
pub open spec fn ws_count(s: Seq<char>, i: int) -> nat
    decreases s.len() - i,
{
    if 0 <= i < s.len() && json_ws(s[i]) {
        1 + ws_count(s, i + 1)
    } else {
        0
    }
}

pub open spec fn is_digit(c: char) -> bool {
    '0' as u32 <= c as u32 <= '9' as u32
}

pub open spec fn is_hex_digit(c: char) -> bool {
    is_digit(c) || 'a' as u32 <= c as u32 <= 'f' as u32 || 'A' as u32 <= c as u32 <= 'F' as u32
}

/// The numeric value of a hexadecimal digit.
pub open spec fn hex_val(c: char) -> int {
    if is_digit(c) {
        c as u32 - '0' as u32
    } else if 'a' as u32 <= c as u32 <= 'f' as u32 {
        c as u32 - 'a' as u32 + 10
    } else {
        c as u32 - 'A' as u32 + 10
    }
}

/// Four hexadecimal digits stand at `i`.
pub open spec fn hex4_ok(s: Seq<char>, i: int) -> bool {
    &&& 0 <= i
    &&& i + 4 <= s.len()
    &&& is_hex_digit(s[i])
    &&& is_hex_digit(s[i + 1])
    &&& is_hex_digit(s[i + 2])
    &&& is_hex_digit(s[i + 3])
}

/// The value of the four hexadecimal digits at `i`.
pub open spec fn hex4_val(s: Seq<char>, i: int) -> int {
    hex_val(s[i]) * 4096 + hex_val(s[i + 1]) * 256 + hex_val(s[i + 2]) * 16 + hex_val(s[i + 3])
}

/// What a short escape `\c` denotes, if `c` is a legal escape character.
pub open spec fn short_escape(c: char) -> Option<char> {
    if c == '"' {
        Some('"')
    } else if c == '\\' {
        Some('\\')
    } else if c == '/' {
        Some('/')
    } else if c == 'b' {
        Some('\u{0008}')
    } else if c == 'f' {
        Some('\u{000C}')
    } else if c == 'n' {
        Some('\n')
    } else if c == 'r' {
        Some('\r')
    } else if c == 't' {
        Some('\t')
    } else {
        None
    }
}

/// Parses the body of a JSON string: `i` stands just after the opening
/// quote. Returns the decoded content and the characters consumed, closing
/// quote included. A `\u` escape denotes its value directly; a leading
/// surrogate must be followed by a trailing surrogate escape, and the pair
/// denotes the combined supplementary character. A lone surrogate escape
/// rejects the string.
pub open spec fn parse_str_body(s: Seq<char>, i: int) -> Option<(Seq<char>, nat)>
    decreases s.len() - i,
{
    if i < 0 || i >= s.len() {
        None
    } else if s[i] == '"' {
        Some((Seq::empty(), 1nat))
    } else if s[i] == '\\' {
        if i + 1 >= s.len() {
            None
        } else if s[i + 1] == 'u' {
            if hex4_ok(s, i + 2) {
                let v = hex4_val(s, i + 2);
                if 0xD800 <= v < 0xDC00 {
                    if i + 12 <= s.len() && s[i + 6] == '\\' && s[i + 7] == 'u' && hex4_ok(
                        s,
                        i + 8,
                    ) {
                        let w = hex4_val(s, i + 8);
                        if 0xDC00 <= w < 0xE000 {
                            let scalar = 0x10000 + (v - 0xD800) * 0x400 + (w - 0xDC00);
                            match parse_str_body(s, i + 12) {
                                Some((rest, n)) => Some(
                                    (seq![(scalar as u32) as char].add(rest), (12 + n) as nat),
                                ),
                                None => None,
                            }
                        } else {
                            None
                        }
                    } else {
                        None
                    }
                } else if 0xDC00 <= v < 0xE000 {
                    None
                } else {
                    match parse_str_body(s, i + 6) {
                        Some((rest, n)) => Some(
                            (seq![(v as u32) as char].add(rest), (6 + n) as nat),
                        ),
                        None => None,
                    }
                }
            } else {
                None
            }
        } else {
            match short_escape(s[i + 1]) {
                Some(c) => match parse_str_body(s, i + 2) {
                    Some((rest, n)) => Some((seq![c].add(rest), (2 + n) as nat)),
                    None => None,
                },
                None => None,
            }
        }
    } else if (s[i] as u32) < 32 {
        None
    } else {
        match parse_str_body(s, i + 1) {
            Some((rest, n)) => Some((seq![s[i]].add(rest), (1 + n) as nat)),
            None => None,
        }
    }
}

/// How many decimal digits stand at `i`.
pub open spec fn digits_count(s: Seq<char>, i: int) -> nat
    decreases s.len() - i,
{
    if 0 <= i < s.len() && is_digit(s[i]) {
        1 + digits_count(s, i + 1)
    } else {
        0
    }
}

/// The position after an optional fraction part starting at `j`, or `None`
/// if a fraction starts but is malformed.
pub open spec fn after_frac(s: Seq<char>, j: int) -> Option<int> {
    if 0 <= j < s.len() && s[j] == '.' {
        if j + 1 < s.len() && is_digit(s[j + 1]) {
            Some(j + 1 + digits_count(s, j + 1))
        } else {
            None
        }
    } else {
        Some(j)
    }
}

/// The position after an optional exponent part starting at `j`.
pub open spec fn after_exp(s: Seq<char>, j: int) -> Option<int> {
    if 0 <= j < s.len() && (s[j] == 'e' || s[j] == 'E') {
        let k = if j + 1 < s.len() && (s[j + 1] == '+' || s[j + 1] == '-') {
            j + 2
        } else {
            j + 1
        };
        if k < s.len() && is_digit(s[k]) {
            Some(k + digits_count(s, k))
        } else {
            None
        }
    } else {
        Some(j)
    }
}

/// Recognises a JSON number at `i` and returns the characters consumed.
pub open spec fn skip_number(s: Seq<char>, i: int) -> Option<nat> {
    if i < 0 {
        None
    } else {
        let j = if i < s.len() && s[i] == '-' {
            i + 1
        } else {
            i
        };
        if j < s.len() && is_digit(s[j]) {
            let k = if s[j] == '0' {
                j + 1
            } else {
                j + digits_count(s, j)
            };
            match after_frac(s, k) {
                Some(m) => match after_exp(s, m) {
                    Some(e) => Some((e - i) as nat),
                    None => None,
                },
                None => None,
            }
        } else {
            None
        }
    }
}

pub open spec fn lit_true() -> Seq<char> {
    seq!['t', 'r', 'u', 'e']
}

pub open spec fn lit_false() -> Seq<char> {
    seq!['f', 'a', 'l', 's', 'e']
}

pub open spec fn lit_null() -> Seq<char> {
    seq!['n', 'u', 'l', 'l']
}

/// The word `w` stands verbatim at `i`.
pub open spec fn lit_at(s: Seq<char>, i: int, w: Seq<char>) -> bool {
    0 <= i && i + w.len() <= s.len() && s.subrange(i, i + w.len() as int) == w
}

/// Recognises any JSON value at `i`, for members under ignored keys.
/// Returns the characters consumed.
pub open spec fn skip_value(s: Seq<char>, i: int) -> Option<nat>
    decreases s.len() - i, 3int,
{
    if i < 0 || i >= s.len() {
        None
    } else if s[i] == '"' {
        match parse_str_body(s, i + 1) {
            Some((_c, n)) => Some((1 + n) as nat),
            None => None,
        }
    } else if s[i] == 't' {
        if lit_at(s, i, lit_true()) {
            Some(4nat)
        } else {
            None
        }
    } else if s[i] == 'f' {
        if lit_at(s, i, lit_false()) {
            Some(5nat)
        } else {
            None
        }
    } else if s[i] == 'n' {
        if lit_at(s, i, lit_null()) {
            Some(4nat)
        } else {
            None
        }
    } else if s[i] == '{' {
        let w = ws_count(s, i + 1);
        let j = i + 1 + w;
        if j < s.len() && s[j] == '}' {
            Some((2 + w) as nat)
        } else if j < s.len() {
            match skip_member(s, j) {
                Some(m) => {
                    if j + m <= s.len() {
                        match skip_members_rest(s, j + m) {
                            Some(r) => Some((1 + w + m + r) as nat),
                            None => None,
                        }
                    } else {
                        None
                    }
                },
                None => None,
            }
        } else {
            None
        }
    } else if s[i] == '[' {
        let w = ws_count(s, i + 1);
        let j = i + 1 + w;
        if j < s.len() && s[j] == ']' {
            Some((2 + w) as nat)
        } else if j < s.len() {
            match skip_value(s, j) {
                Some(n) => {
                    if j + n <= s.len() {
                        match skip_elems_rest(s, j + n) {
                            Some(r) => Some((1 + w + n + r) as nat),
                            None => None,
                        }
                    } else {
                        None
                    }
                },
                None => None,
            }
        } else {
            None
        }
    } else {
        skip_number(s, i)
    }
}

/// Recognises one object member (key, colon, value) at `i`, the key's
/// opening quote. Returns the characters consumed.
pub open spec fn skip_member(s: Seq<char>, i: int) -> Option<nat>
    decreases s.len() - i, 2int,
{
    if 0 <= i < s.len() && s[i] == '"' {
        match parse_str_body(s, i + 1) {
            Some((_key, bk)) => {
                let w = ws_count(s, i + 1 + bk);
                let j = i + 1 + bk + w;
                if j < s.len() && s[j] == ':' {
                    let w2 = ws_count(s, j + 1);
                    let k = j + 1 + w2;
                    if k < s.len() {
                        match skip_value(s, k) {
                            Some(n) => Some((k - i + n) as nat),
                            None => None,
                        }
                    } else {
                        None
                    }
                } else {
                    None
                }
            },
            None => None,
        }
    } else {
        None
    }
}

/// After one member of a skipped object: recognises `(ws ',' ws member)*
/// ws '}'` at `i` and returns the characters consumed.
pub open spec fn skip_members_rest(s: Seq<char>, i: int) -> Option<nat>
    decreases s.len() - i, 1int,
{
    if i < 0 {
        None
    } else {
        let w = ws_count(s, i);
        let f = i + w;
        if f < s.len() && s[f] == '}' {
            Some((w + 1) as nat)
        } else if f < s.len() && s[f] == ',' {
            let w2 = ws_count(s, f + 1);
            let k = f + 1 + w2;
            if k < s.len() {
                match skip_member(s, k) {
                    Some(m) => {
                        if k + m <= s.len() {
                            match skip_members_rest(s, k + m) {
                                Some(r) => Some((k - i + m + r) as nat),
                                None => None,
                            }
                        } else {
                            None
                        }
                    },
                    None => None,
                }
            } else {
                None
            }
        } else {
            None
        }
    }
}

/// After one element of a skipped array: recognises `(ws ',' ws value)*
/// ws ']'` at `i` and returns the characters consumed.
pub open spec fn skip_elems_rest(s: Seq<char>, i: int) -> Option<nat>
    decreases s.len() - i, 1int,
{
    if i < 0 {
        None
    } else {
        let w = ws_count(s, i);
        let f = i + w;
        if f < s.len() && s[f] == ']' {
            Some((w + 1) as nat)
        } else if f < s.len() && s[f] == ',' {
            let w2 = ws_count(s, f + 1);
            let k = f + 1 + w2;
            if k < s.len() {
                match skip_value(s, k) {
                    Some(n) => {
                        if k + n <= s.len() {
                            match skip_elems_rest(s, k + n) {
                                Some(r) => Some((k - i + n + r) as nat),
                                None => None,
                            }
                        } else {
                            None
                        }
                    },
                    None => None,
                }
            } else {
                None
            }
        } else {
            None
        }
    }
}

/// The key of the ICAO code member.
pub open spec fn key_icao() -> Seq<char> {
    seq!['i', 'c', 'a', 'o', 'C', 'o', 'd', 'e']
}

/// The key of the IATA code member.
pub open spec fn key_iata() -> Seq<char> {
    seq!['i', 'a', 't', 'a', 'C', 'o', 'd', 'e']
}

/// The key of the description member.
pub open spec fn key_desc() -> Seq<char> {
    seq!['d', 'e', 's', 'c', 'r', 'i', 'p', 't', 'i', 'o', 'n']
}

pub open spec fn is_required_key(k: Seq<char>) -> bool {
    k == key_icao() || k == key_iata() || k == key_desc()
}

/// The required members seen so far while parsing one object.
pub struct PartialRec {
    pub icao: Option<Seq<char>>,
    pub iata: Option<Seq<char>>,
    pub desc: Option<Seq<char>>,
}

pub open spec fn empty_partial() -> PartialRec {
    PartialRec { icao: None, iata: None, desc: None }
}

/// Records the value of a required member; a repeated required key rejects
/// the object.
pub open spec fn set_field(p: PartialRec, key: Seq<char>, v: Seq<char>) -> Option<PartialRec> {
    if key == key_icao() {
        if p.icao is Some {
            None
        } else {
            Some(PartialRec { icao: Some(v), ..p })
        }
    } else if key == key_iata() {
        if p.iata is Some {
            None
        } else {
            Some(PartialRec { iata: Some(v), ..p })
        }
    } else {
        if p.desc is Some {
            None
        } else {
            Some(PartialRec { desc: Some(v), ..p })
        }
    }
}

/// A record is complete once all three required members were seen.
pub open spec fn finalize(p: PartialRec) -> Option<AircraftView> {
    match (p.icao, p.iata, p.desc) {
        (Some(a), Some(b), Some(c)) => Some(AircraftView { icao: a, iata: b, desc: c }),
        _ => None,
    }
}

/// Parses the value of one member whose key is `key`, at position `k`.
/// A required key demands a string value; any other member is skipped.
/// Returns the updated partial record and the characters consumed.
pub open spec fn parse_member_value(s: Seq<char>, k: int, p: PartialRec, key: Seq<char>) -> Option<
    (PartialRec, nat),
> {
    if is_required_key(key) {
        if 0 <= k < s.len() && s[k] == '"' {
            match parse_str_body(s, k + 1) {
                Some((v, bv)) => match set_field(p, key, v) {
                    Some(p2) => Some((p2, (1 + bv) as nat)),
                    None => None,
                },
                None => None,
            }
        } else {
            None
        }
    } else {
        match skip_value(s, k) {
            Some(n) => Some((p, n)),
            None => None,
        }
    }
}

/// Parses the members of an aircraft object from position `i`, which stands
/// at a key's opening quote or at the closing brace. Returns the finished
/// record and the characters consumed, closing brace included.
pub open spec fn parse_members(s: Seq<char>, i: int, p: PartialRec) -> Option<(AircraftView, nat)>
    decreases s.len() - i,
{
    if i < 0 || i >= s.len() {
        None
    } else if s[i] == '}' {
        match finalize(p) {
            Some(r) => Some((r, 1nat)),
            None => None,
        }
    } else if s[i] == '"' {
        match parse_str_body(s, i + 1) {
            Some((key, bk)) => {
                let w = ws_count(s, i + 1 + bk);
                let j = i + 1 + bk + w;
                if j < s.len() && s[j] == ':' {
                    let w2 = ws_count(s, j + 1);
                    let k = j + 1 + w2;
                    match parse_member_value(s, k, p, key) {
                        Some((p2, nv)) => {
                            let w3 = ws_count(s, k + nv);
                            let f = k + nv + w3;
                            if f < s.len() && s[f] == '}' {
                                match finalize(p2) {
                                    Some(r) => Some((r, (f + 1 - i) as nat)),
                                    None => None,
                                }
                            } else if f < s.len() && s[f] == ',' {
                                let w4 = ws_count(s, f + 1);
                                let m = f + 1 + w4;
                                if m < s.len() && s[m] == '"' {
                                    match parse_members(s, m, p2) {
                                        Some((r, n)) => Some((r, (m - i + n) as nat)),
                                        None => None,
                                    }
                                } else {
                                    None
                                }
                            } else {
                                None
                            }
                        },
                        None => None,
                    }
                } else {
                    None
                }
            },
            None => None,
        }
    } else {
        None
    }
}

/// Parses one aircraft object at `i`, its opening brace. Returns the record
/// and the characters consumed.
pub open spec fn parse_object(s: Seq<char>, i: int) -> Option<(AircraftView, nat)> {
    if 0 <= i < s.len() && s[i] == '{' {
        let w = ws_count(s, i + 1);
        let j = i + 1 + w;
        if j < s.len() {
            match parse_members(s, j, empty_partial()) {
                Some((r, n)) => Some((r, (1 + w + n) as nat)),
                None => None,
            }
        } else {
            None
        }
    } else {
        None
    }
}

/// Parses a non-empty list of aircraft objects from `i`, the first object's
/// opening brace, through the closing bracket of the array. Returns the
/// records in file order and the characters consumed.
pub open spec fn parse_records(s: Seq<char>, i: int) -> Option<(Seq<AircraftView>, nat)>
    decreases s.len() - i,
{
    match parse_object(s, i) {
        Some((r, n)) => {
            let w = ws_count(s, i + n);
            let f = i + n + w;
            if f < s.len() && s[f] == ']' {
                Some((seq![r], (f + 1 - i) as nat))
            } else if f < s.len() && s[f] == ',' {
                let w2 = ws_count(s, f + 1);
                let m = f + 1 + w2;
                if m < s.len() {
                    match parse_records(s, m) {
                        Some((rest, nr)) => Some((seq![r].add(rest), (m - i + nr) as nat)),
                        None => None,
                    }
                } else {
                    None
                }
            } else {
                None
            }
        },
        None => None,
    }
}

/// The aircraft file format: a JSON array of aircraft objects, with nothing
/// but whitespace around it. `None` rejects the whole file.
pub open spec fn parse_doc(s: Seq<char>) -> Option<Seq<AircraftView>> {
    let i = ws_count(s, 0) as int;
    if i < s.len() && s[i] == '[' {
        let w = ws_count(s, i + 1);
        let j = i + 1 + w;
        if j < s.len() && s[j] == ']' {
            if j + 1 + ws_count(s, j + 1) == s.len() {
                Some(Seq::empty())
            } else {
                None
            }
        } else {
            match parse_records(s, j) {
                Some((rs, n)) => {
                    if j + n + ws_count(s, j + n) == s.len() {
                        Some(rs)
                    } else {
                        None
                    }
                },
                None => None,
            }
        }
    } else {
        None
    }
}

/// The lowercase hexadecimal digit of a value below sixteen.
pub open spec fn hex_digit_char(d: int) -> char {
    if d == 0 {
        '0'
    } else if d == 1 {
        '1'
    } else if d == 2 {
        '2'
    } else if d == 3 {
        '3'
    } else if d == 4 {
        '4'
    } else if d == 5 {
        '5'
    } else if d == 6 {
        '6'
    } else if d == 7 {
        '7'
    } else if d == 8 {
        '8'
    } else if d == 9 {
        '9'
    } else if d == 10 {
        'a'
    } else if d == 11 {
        'b'
    } else if d == 12 {
        'c'
    } else if d == 13 {
        'd'
    } else if d == 14 {
        'e'
    } else {
        'f'
    }
}

/// How one character is written inside an encoded JSON string: quotes and
/// backslashes are escaped, control characters without a short escape are
/// written as `\u00XX`, everything else stands verbatim.
pub open spec fn esc_char(c: char) -> Seq<char> {
    if c == '"' {
        seq!['\\', '"']
    } else if c == '\\' {
        seq!['\\', '\\']
    } else if c == '\u{0008}' {
        seq!['\\', 'b']
    } else if c == '\u{000C}' {
        seq!['\\', 'f']
    } else if c == '\n' {
        seq!['\\', 'n']
    } else if c == '\r' {
        seq!['\\', 'r']
    } else if c == '\t' {
        seq!['\\', 't']
    } else if (c as u32) < 32 {
        seq![
            '\\',
            'u',
            '0',
            '0',
            hex_digit_char((c as u32) as int / 16),
            hex_digit_char((c as u32) as int % 16),
        ]
    } else {
        seq![c]
    }
}

/// The encoded form of a string's content.
pub open spec fn esc(content: Seq<char>) -> Seq<char>
    decreases content.len(),
{
    if content.len() == 0 {
        Seq::empty()
    } else {
        esc_char(content[0]).add(esc(content.drop_first()))
    }
}

/// One encoded object member: quoted key, colon, quoted string value.
pub open spec fn enc_member(key: Seq<char>, v: Seq<char>) -> Seq<char> {
    seq!['"'].add(key).add(seq!['"', ':', '"']).add(esc(v)).add(seq!['"'])
}

/// One encoded aircraft record: an object with exactly the three required
/// members, in a fixed order.
pub open spec fn enc_rec(r: AircraftView) -> Seq<char> {
    seq!['{'].add(enc_member(key_icao(), r.icao)).add(seq![',']).add(
        enc_member(key_iata(), r.iata),
    ).add(seq![',']).add(enc_member(key_desc(), r.desc)).add(seq!['}'])
}

/// The records after the first one, each behind a comma, then the closing
/// bracket.
pub open spec fn enc_rest(l: Seq<AircraftView>) -> Seq<char>
    decreases l.len(),
{
    if l.len() == 0 {
        seq![']']
    } else {
        seq![','].add(enc_rec(l[0])).add(enc_rest(l.drop_first()))
    }
}

/// The canonical encoding of a record list: the JSON array the parser reads
/// back, with no whitespace.
pub open spec fn enc_doc(l: Seq<AircraftView>) -> Seq<char> {
    if l.len() == 0 {
        seq!['[', ']']
    } else {
        seq!['['].add(enc_rec(l[0])).add(enc_rest(l.drop_first()))
    }
}

} // verus!
