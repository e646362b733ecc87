//! The executable record loader: it reads the aircraft file format of
//! [`crate::format`] and is proved to return exactly what that format
//! definition says.

use vstd::prelude::*;

use crate::format::{
    digits_count, empty_partial, finalize, hex4_ok, hex4_val, hex_val, is_digit, is_hex_digit,
    json_ws, key_desc, key_iata, key_icao, lit_at, lit_false, lit_null, lit_true, parse_doc,
    parse_member_value, parse_members, parse_object, parse_records, parse_str_body, short_escape,
    skip_member, skip_members_rest, skip_number, skip_value, skip_elems_rest, ws_count, PartialRec,
};
use crate::record::{seq_views, Aircraft, ParseError};
use crate::text::{char_from_code, chars_to_string, str_to_chars};

verus! {

fn is_ws_x(c: char) -> (r: bool)
    ensures
        r == json_ws(c),
{
    c == ' ' || c == '\n' || c == '\r' || c == '\t'
}

fn ws_x(v: &Vec<char>, i: usize) -> (w: usize)
    requires
        i <= v@.len(),
    ensures
        w as nat == ws_count(v@, i as int),
        i + w <= v@.len(),
{
    let mut j: usize = i;
    while j < v.len() && is_ws_x(v[j])
        invariant
            i <= j <= v@.len(),
            ws_count(v@, i as int) == (j - i) + ws_count(v@, j as int),
        decreases v@.len() - j,
    {
        j = j + 1;
    }
    j - i
}

fn is_digit_x(c: char) -> (r: bool)
    ensures
        r == is_digit(c),
{
    let u = c as u32;
    48 <= u && u <= 57
}

fn digits_x(v: &Vec<char>, i: usize) -> (w: usize)
    requires
        i <= v@.len(),
    ensures
        w as nat == digits_count(v@, i as int),
        i + w <= v@.len(),
{
    let mut j: usize = i;
    while j < v.len() && is_digit_x(v[j])
        invariant
            i <= j <= v@.len(),
            digits_count(v@, i as int) == (j - i) + digits_count(v@, j as int),
        decreases v@.len() - j,
    {
        j = j + 1;
    }
    j - i
}

fn is_hex_x(c: char) -> (r: bool)
    ensures
        r == is_hex_digit(c),
{
    let u = c as u32;
    (48 <= u && u <= 57) || (97 <= u && u <= 102) || (65 <= u && u <= 70)
}

fn hex_val_x(c: char) -> (r: u32)
    requires
        is_hex_digit(c),
    ensures
        r as int == hex_val(c),
        r < 16,
{
    let u = c as u32;
    if u <= 57 {
        u - 48
    } else if u >= 97 {
        u - 97 + 10
    } else {
        u - 65 + 10
    }
}

fn short_escape_x(c: char) -> (r: Option<char>)
    ensures
        r == short_escape(c),
{
    if c == '"' {
        Some('"')
    } else if c == '\\' {
        Some('\\')
    } else if c == '/' {
        Some('/')
    } else if c == 'b' {
        Some('\u{0008}')
    } else if c == 'f' {
        Some('\u{000C}')
    } else if c == 'n' {
        Some('\n')
    } else if c == 'r' {
        Some('\r')
    } else if c == 't' {
        Some('\t')
    } else {
        None
    }
}

fn parse_str_body_x(v: &Vec<char>, i: usize) -> (r: Option<(Vec<char>, usize)>)
    requires
        i <= v@.len(),
    ensures
        (match r {
            Some(p) => {
                &&& parse_str_body(v@, i as int) == Some((p.0@, p.1 as nat))
                &&& 1 <= p.1
                &&& i + p.1 <= v@.len()
            },
            None => parse_str_body(v@, i as int) is None,
        }),
{
    let mut acc: Vec<char> = Vec::new();
    let mut cur: usize = i;
    loop
        invariant
            i <= cur <= v@.len(),
            (match parse_str_body(v@, cur as int) {
                Some(p) => parse_str_body(v@, i as int) == Some(
                    (acc@.add(p.0), (cur - i + p.1) as nat),
                ),
                None => parse_str_body(v@, i as int) is None,
            }),
        decreases v@.len() - cur,
    {
        if cur >= v.len() {
            return None;
        }
        let c = v[cur];
        if c == '"' {
            proof {
                assert(acc@.add(Seq::<char>::empty()) =~= acc@);
            }
            return Some((acc, (cur - i) + 1));
        }
        // the next decoded character and the raw characters it spans,
        // or `None` where the string is invalid at `cur`
        let step: Option<(char, usize)> = if c == '\\' {
            if cur + 1 >= v.len() {
                None
            } else {
                let e = v[cur + 1];
                if e == 'u' {
                    if v.len() - cur >= 6 && is_hex_x(v[cur + 2]) && is_hex_x(v[cur + 3])
                        && is_hex_x(v[cur + 4]) && is_hex_x(v[cur + 5]) {
                        let val = hex_val_x(v[cur + 2]) * 4096 + hex_val_x(v[cur + 3]) * 256
                            + hex_val_x(v[cur + 4]) * 16 + hex_val_x(v[cur + 5]);
                        proof {
                            assert(hex4_ok(v@, cur + 2));
                            assert(val as int == hex4_val(v@, cur + 2));
                        }
                        if 0xD800 <= val && val < 0xDC00 {
                            if v.len() - cur >= 12 && v[cur + 6] == '\\' && v[cur + 7] == 'u'
                                && is_hex_x(v[cur + 8]) && is_hex_x(v[cur + 9]) && is_hex_x(
                                v[cur + 10],
                            ) && is_hex_x(v[cur + 11]) {
                                let val2 = hex_val_x(v[cur + 8]) * 4096 + hex_val_x(v[cur + 9])
                                    * 256 + hex_val_x(v[cur + 10]) * 16 + hex_val_x(v[cur + 11]);
                                proof {
                                    assert(hex4_ok(v@, cur + 8));
                                    assert(val2 as int == hex4_val(v@, cur + 8));
                                }
                                if 0xDC00 <= val2 && val2 < 0xE000 {
                                    let scalar = 0x10000 + (val - 0xD800) * 0x400
                                        + (val2 - 0xDC00);
                                    Some((char_from_code(scalar), 12))
                                } else {
                                    None
                                }
                            } else {
                                proof {
                                    assert(!(cur + 12 <= v@.len() && v@[cur + 6] == '\\'
                                        && v@[cur + 7] == 'u' && hex4_ok(v@, cur + 8)));
                                }
                                None
                            }
                        } else if 0xDC00 <= val && val < 0xE000 {
                            None
                        } else {
                            Some((char_from_code(val), 6))
                        }
                    } else {
                        proof {
                            assert(!hex4_ok(v@, cur + 2));
                        }
                        None
                    }
                } else {
                    match short_escape_x(e) {
                        Some(sc) => Some((sc, 2)),
                        None => None,
                    }
                }
            }
        } else if (c as u32) < 32 {
            None
        } else {
            Some((c, 1))
        };
        match step {
            None => {
                return None;
            },
            Some((ch, k)) => {
                proof {
                    let sp = parse_str_body(v@, (cur + k) as int);
                    if sp is Some {
                        assert(parse_str_body(v@, cur as int) == Some(
                            (seq![ch].add(sp->Some_0.0), (k + sp->Some_0.1) as nat),
                        ));
                        assert(acc@.push(ch).add(sp->Some_0.0) =~= acc@.add(
                            seq![ch].add(sp->Some_0.0),
                        ));
                    } else {
                        assert(parse_str_body(v@, cur as int) is None);
                    }
                }
                acc.push(ch);
                cur = cur + k;
            },
        }
    }
}

fn skip_number_x(v: &Vec<char>, i: usize) -> (r: Option<usize>)
    requires
        i <= v@.len(),
    ensures
        (match r {
            Some(n) => {
                &&& skip_number(v@, i as int) == Some(n as nat)
                &&& 1 <= n
                &&& i + n <= v@.len()
            },
            None => skip_number(v@, i as int) is None,
        }),
{
    let j = if i < v.len() && v[i] == '-' {
        i + 1
    } else {
        i
    };
    if j < v.len() && is_digit_x(v[j]) {
        let k = if v[j] == '0' {
            j + 1
        } else {
            let d = digits_x(v, j);
            j + d
        };
        let m_opt: Option<usize> = if k < v.len() && v[k] == '.' {
            if k + 1 < v.len() && is_digit_x(v[k + 1]) {
                let d2 = digits_x(v, k + 1);
                Some(k + 1 + d2)
            } else {
                None
            }
        } else {
            Some(k)
        };
        match m_opt {
            Some(m) => {
                let e_opt: Option<usize> = if m < v.len() && (v[m] == 'e' || v[m] == 'E') {
                    let x = if m + 1 < v.len() && (v[m + 1] == '+' || v[m + 1] == '-') {
                        m + 2
                    } else {
                        m + 1
                    };
                    if x < v.len() && is_digit_x(v[x]) {
                        let d3 = digits_x(v, x);
                        Some(x + d3)
                    } else {
                        None
                    }
                } else {
                    Some(m)
                };
                match e_opt {
                    Some(e) => Some(e - i),
                    None => None,
                }
            },
            None => None,
        }
    } else {
        None
    }
}

fn match_true(v: &Vec<char>, i: usize) -> (r: bool)
    requires
        i <= v@.len(),
    ensures
        r == lit_at(v@, i as int, lit_true()),
{
    if v.len() - i >= 4 && v[i] == 't' && v[i + 1] == 'r' && v[i + 2] == 'u' && v[i + 3] == 'e' {
        proof {
            assert(v@.subrange(i as int, i as int + 4) =~= lit_true());
        }
        true
    } else {
        proof {
            if i + 4 <= v@.len() {
                assert(v@.subrange(i as int, i as int + 4)[0] == v@[i as int]);
                assert(v@.subrange(i as int, i as int + 4)[1] == v@[i as int + 1]);
                assert(v@.subrange(i as int, i as int + 4)[2] == v@[i as int + 2]);
                assert(v@.subrange(i as int, i as int + 4)[3] == v@[i as int + 3]);
            }
        }
        false
    }
}

fn match_false(v: &Vec<char>, i: usize) -> (r: bool)
    requires
        i <= v@.len(),
    ensures
        r == lit_at(v@, i as int, lit_false()),
{
    if v.len() - i >= 5 && v[i] == 'f' && v[i + 1] == 'a' && v[i + 2] == 'l' && v[i + 3] == 's'
        && v[i + 4] == 'e' {
        proof {
            assert(v@.subrange(i as int, i as int + 5) =~= lit_false());
        }
        true
    } else {
        proof {
            if i + 5 <= v@.len() {
                assert(v@.subrange(i as int, i as int + 5)[0] == v@[i as int]);
                assert(v@.subrange(i as int, i as int + 5)[1] == v@[i as int + 1]);
                assert(v@.subrange(i as int, i as int + 5)[2] == v@[i as int + 2]);
                assert(v@.subrange(i as int, i as int + 5)[3] == v@[i as int + 3]);
                assert(v@.subrange(i as int, i as int + 5)[4] == v@[i as int + 4]);
            }
        }
        false
    }
}

fn match_null(v: &Vec<char>, i: usize) -> (r: bool)
    requires
        i <= v@.len(),
    ensures
        r == lit_at(v@, i as int, lit_null()),
{
    if v.len() - i >= 4 && v[i] == 'n' && v[i + 1] == 'u' && v[i + 2] == 'l' && v[i + 3] == 'l' {
        proof {
            assert(v@.subrange(i as int, i as int + 4) =~= lit_null());
        }
        true
    } else {
        proof {
            if i + 4 <= v@.len() {
                assert(v@.subrange(i as int, i as int + 4)[0] == v@[i as int]);
                assert(v@.subrange(i as int, i as int + 4)[1] == v@[i as int + 1]);
                assert(v@.subrange(i as int, i as int + 4)[2] == v@[i as int + 2]);
                assert(v@.subrange(i as int, i as int + 4)[3] == v@[i as int + 3]);
            }
        }
        false
    }
}

fn skip_value_x(v: &Vec<char>, i: usize) -> (r: Option<usize>)
    requires
        i <= v@.len(),
    ensures
        (match r {
            Some(n) => {
                &&& skip_value(v@, i as int) == Some(n as nat)
                &&& 1 <= n
                &&& i + n <= v@.len()
            },
            None => skip_value(v@, i as int) is None,
        }),
    decreases v@.len() - i, 3int,
{
    if i >= v.len() {
        None
    } else {
        let c = v[i];
        if c == '"' {
            match parse_str_body_x(v, i + 1) {
                Some((_content, n)) => Some(1 + n),
                None => None,
            }
        } else if c == 't' {
            if match_true(v, i) {
                Some(4)
            } else {
                None
            }
        } else if c == 'f' {
            if match_false(v, i) {
                Some(5)
            } else {
                None
            }
        } else if c == 'n' {
            if match_null(v, i) {
                Some(4)
            } else {
                None
            }
        } else if c == '{' {
            let w = ws_x(v, i + 1);
            let j = i + 1 + w;
            if j < v.len() && v[j] == '}' {
                Some(2 + w)
            } else if j < v.len() {
                match skip_member_x(v, j) {
                    Some(m) => match skip_members_rest_x(v, j + m) {
                        Some(rr) => Some(1 + w + m + rr),
                        None => None,
                    },
                    None => None,
                }
            } else {
                None
            }
        } else if c == '[' {
            let w = ws_x(v, i + 1);
            let j = i + 1 + w;
            if j < v.len() && v[j] == ']' {
                Some(2 + w)
            } else if j < v.len() {
                match skip_value_x(v, j) {
                    Some(n) => match skip_elems_rest_x(v, j + n) {
                        Some(rr) => Some(1 + w + n + rr),
                        None => None,
                    },
                    None => None,
                }
            } else {
                None
            }
        } else {
            skip_number_x(v, i)
        }
    }
}

fn skip_member_x(v: &Vec<char>, i: usize) -> (r: Option<usize>)
    requires
        i <= v@.len(),
    ensures
        (match r {
            Some(m) => {
                &&& skip_member(v@, i as int) == Some(m as nat)
                &&& 1 <= m
                &&& i + m <= v@.len()
            },
            None => skip_member(v@, i as int) is None,
        }),
    decreases v@.len() - i, 2int,
{
    if i < v.len() && v[i] == '"' {
        match parse_str_body_x(v, i + 1) {
            Some((_key, bk)) => {
                let w = ws_x(v, i + 1 + bk);
                let j = i + 1 + bk + w;
                if j < v.len() && v[j] == ':' {
                    let w2 = ws_x(v, j + 1);
                    let k = j + 1 + w2;
                    if k < v.len() {
                        match skip_value_x(v, k) {
                            Some(n) => Some((k - i) + n),
                            None => None,
                        }
                    } else {
                        None
                    }
                } else {
                    None
                }
            },
            None => None,
        }
    } else {
        None
    }
}

fn skip_members_rest_x(v: &Vec<char>, i: usize) -> (r: Option<usize>)
    requires
        i <= v@.len(),
    ensures
        (match r {
            Some(n) => {
                &&& skip_members_rest(v@, i as int) == Some(n as nat)
                &&& 1 <= n
                &&& i + n <= v@.len()
            },
            None => skip_members_rest(v@, i as int) is None,
        }),
    decreases v@.len() - i, 1int,
{
    let len = v.len();
    let mut cur: usize = i;
    loop
        invariant
            i <= cur <= v@.len(),
            len == v@.len(),
            (match skip_members_rest(v@, cur as int) {
                Some(n) => skip_members_rest(v@, i as int) == Some(((cur - i) + n) as nat),
                None => skip_members_rest(v@, i as int) is None,
            }),
        decreases v@.len() - cur,
    {
        let w = ws_x(v, cur);
        let f = cur + w;
        if f < len && v[f] == '}' {
            return Some((f - i) + 1);
        } else if f < len && v[f] == ',' {
            let w2 = ws_x(v, f + 1);
            let k = f + 1 + w2;
            if k < len {
                match skip_member_x(v, k) {
                    Some(m) => {
                        proof {
                            let sp = skip_members_rest(v@, (k + m) as int);
                            if sp is Some {
                                assert(skip_members_rest(v@, cur as int) == Some(
                                    (((k - cur) + m) + sp->Some_0) as nat,
                                ));
                            } else {
                                assert(skip_members_rest(v@, cur as int) is None);
                            }
                        }
                        cur = k + m;
                    },
                    None => {
                        return None;
                    },
                }
            } else {
                return None;
            }
        } else {
            return None;
        }
    }
}

fn skip_elems_rest_x(v: &Vec<char>, i: usize) -> (r: Option<usize>)
    requires
        i <= v@.len(),
    ensures
        (match r {
            Some(n) => {
                &&& skip_elems_rest(v@, i as int) == Some(n as nat)
                &&& 1 <= n
                &&& i + n <= v@.len()
            },
            None => skip_elems_rest(v@, i as int) is None,
        }),
    decreases v@.len() - i, 1int,
{
    let len = v.len();
    let mut cur: usize = i;
    loop
        invariant
            i <= cur <= v@.len(),
            len == v@.len(),
            (match skip_elems_rest(v@, cur as int) {
                Some(n) => skip_elems_rest(v@, i as int) == Some(((cur - i) + n) as nat),
                None => skip_elems_rest(v@, i as int) is None,
            }),
        decreases v@.len() - cur,
    {
        let w = ws_x(v, cur);
        let f = cur + w;
        if f < len && v[f] == ']' {
            return Some((f - i) + 1);
        } else if f < len && v[f] == ',' {
            let w2 = ws_x(v, f + 1);
            let k = f + 1 + w2;
            if k < len {
                match skip_value_x(v, k) {
                    Some(n) => {
                        proof {
                            let sp = skip_elems_rest(v@, (k + n) as int);
                            if sp is Some {
                                assert(skip_elems_rest(v@, cur as int) == Some(
                                    (((k - cur) + n) + sp->Some_0) as nat,
                                ));
                            } else {
                                assert(skip_elems_rest(v@, cur as int) is None);
                            }
                        }
                        cur = k + n;
                    },
                    None => {
                        return None;
                    },
                }
            } else {
                return None;
            }
        } else {
            return None;
        }
    }
}

/// The required members collected so far while reading one object.
pub struct Partial {
    pub icao: Option<Vec<char>>,
    pub iata: Option<Vec<char>>,
    pub desc: Option<Vec<char>>,
}

impl View for Partial {
    type V = PartialRec;

    open spec fn view(&self) -> PartialRec {
        PartialRec {
            icao: match self.icao {
                Some(f) => Some(f@),
                None => None,
            },
            iata: match self.iata {
                Some(f) => Some(f@),
                None => None,
            },
            desc: match self.desc {
                Some(f) => Some(f@),
                None => None,
            },
        }
    }
}

fn key_is_icao(k: &Vec<char>) -> (r: bool)
    ensures
        r == (k@ == key_icao()),
{
    if k.len() == 8 && k[0] == 'i' && k[1] == 'c' && k[2] == 'a' && k[3] == 'o' && k[4] == 'C'
        && k[5] == 'o' && k[6] == 'd' && k[7] == 'e' {
        proof {
            assert(k@ =~= key_icao());
        }
        true
    } else {
        false
    }
}

fn key_is_iata(k: &Vec<char>) -> (r: bool)
    ensures
        r == (k@ == key_iata()),
{
    if k.len() == 8 && k[0] == 'i' && k[1] == 'a' && k[2] == 't' && k[3] == 'a' && k[4] == 'C'
        && k[5] == 'o' && k[6] == 'd' && k[7] == 'e' {
        proof {
            assert(k@ =~= key_iata());
        }
        true
    } else {
        false
    }
}

fn key_is_desc(k: &Vec<char>) -> (r: bool)
    ensures
        r == (k@ == key_desc()),
{
    if k.len() == 11 && k[0] == 'd' && k[1] == 'e' && k[2] == 's' && k[3] == 'c' && k[4] == 'r'
        && k[5] == 'i' && k[6] == 'p' && k[7] == 't' && k[8] == 'i' && k[9] == 'o'
        && k[10] == 'n' {
        proof {
            assert(k@ =~= key_desc());
        }
        true
    } else {
        false
    }
}

fn parse_member_value_x(v: &Vec<char>, k: usize, p: Partial, key: &Vec<char>) -> (r: Option<
    (Partial, usize),
>)
    requires
        k <= v@.len(),
    ensures
        (match r {
            Some(q) => {
                &&& parse_member_value(v@, k as int, p@, key@) == Some((q.0@, q.1 as nat))
                &&& 1 <= q.1
                &&& k + q.1 <= v@.len()
            },
            None => parse_member_value(v@, k as int, p@, key@) is None,
        }),
{
    let icao_key = key_is_icao(key);
    let iata_key = key_is_iata(key);
    let desc_key = key_is_desc(key);
    if icao_key || iata_key || desc_key {
        if k < v.len() && v[k] == '"' {
            match parse_str_body_x(v, k + 1) {
                Some((val, bv)) => {
                    if icao_key {
                        if p.icao.is_some() {
                            None
                        } else {
                            Some((Partial { icao: Some(val), ..p }, 1 + bv))
                        }
                    } else if iata_key {
                        if p.iata.is_some() {
                            None
                        } else {
                            Some((Partial { iata: Some(val), ..p }, 1 + bv))
                        }
                    } else {
                        if p.desc.is_some() {
                            None
                        } else {
                            Some((Partial { desc: Some(val), ..p }, 1 + bv))
                        }
                    }
                },
                None => None,
            }
        } else {
            None
        }
    } else {
        match skip_value_x(v, k) {
            Some(n) => Some((p, n)),
            None => None,
        }
    }
}

fn finalize_x(p: Partial) -> (r: Option<Aircraft>)
    ensures
        (match r {
            Some(a) => finalize(p@) == Some(a@),
            None => finalize(p@) is None,
        }),
{
    match (p.icao, p.iata, p.desc) {
        (Some(a), Some(b), Some(c)) => Some(
            Aircraft {
                icao_code: chars_to_string(&a),
                iata_code: chars_to_string(&b),
                description: chars_to_string(&c),
            },
        ),
        _ => None,
    }
}

fn parse_members_x(v: &Vec<char>, i: usize, p: Partial) -> (r: Option<(Aircraft, usize)>)
    requires
        i <= v@.len(),
    ensures
        (match r {
            Some(q) => {
                &&& parse_members(v@, i as int, p@) == Some((q.0@, q.1 as nat))
                &&& i + q.1 <= v@.len()
            },
            None => parse_members(v@, i as int, p@) is None,
        }),
{
    let len = v.len();
    let mut cur: usize = i;
    let mut part = p;
    loop
        invariant
            i <= cur <= v@.len(),
            len == v@.len(),
            (match parse_members(v@, cur as int, part@) {
                Some(q) => parse_members(v@, i as int, p@) == Some((q.0, (cur - i + q.1) as nat)),
                None => parse_members(v@, i as int, p@) is None,
            }),
        decreases v@.len() - cur,
    {
        if cur >= len {
            return None;
        }
        if v[cur] == '}' {
            match finalize_x(part) {
                Some(a) => {
                    return Some((a, (cur - i) + 1));
                },
                None => {
                    return None;
                },
            }
        } else if v[cur] == '"' {
            let ghost pg = part@;
            match parse_str_body_x(v, cur + 1) {
                Some((key, bk)) => {
                    let w = ws_x(v, cur + 1 + bk);
                    let j = cur + 1 + bk + w;
                    if j < len && v[j] == ':' {
                        let w2 = ws_x(v, j + 1);
                        let k = j + 1 + w2;
                        match parse_member_value_x(v, k, part, &key) {
                            Some((p2, nv)) => {
                                let w3 = ws_x(v, k + nv);
                                let f = k + nv + w3;
                                if f < len && v[f] == '}' {
                                    let ghost p2g = p2@;
                                    match finalize_x(p2) {
                                        Some(a) => {
                                            proof {
                                                assert(parse_members(v@, cur as int, pg) == Some(
                                                    (a@, ((f + 1) - cur) as nat),
                                                ));
                                            }
                                            return Some((a, (f - i) + 1));
                                        },
                                        None => {
                                            return None;
                                        },
                                    }
                                } else if f < len && v[f] == ',' {
                                    let w4 = ws_x(v, f + 1);
                                    let m = f + 1 + w4;
                                    if m < len && v[m] == '"' {
                                        proof {
                                            let sp = parse_members(v@, m as int, p2@);
                                            if sp is Some {
                                                assert(parse_members(v@, cur as int, pg) == Some(
                                                    (
                                                        sp->Some_0.0,
                                                        ((m - cur) + sp->Some_0.1) as nat,
                                                    ),
                                                ));
                                            } else {
                                                assert(parse_members(v@, cur as int, pg)
                                                    is None);
                                            }
                                        }
                                        part = p2;
                                        cur = m;
                                    } else {
                                        return None;
                                    }
                                } else {
                                    return None;
                                }
                            },
                            None => {
                                return None;
                            },
                        }
                    } else {
                        return None;
                    }
                },
                None => {
                    return None;
                },
            }
        } else {
            return None;
        }
    }
}

fn parse_object_x(v: &Vec<char>, i: usize) -> (r: Option<(Aircraft, usize)>)
    requires
        i <= v@.len(),
    ensures
        (match r {
            Some(q) => {
                &&& parse_object(v@, i as int) == Some((q.0@, q.1 as nat))
                &&& i + q.1 <= v@.len()
            },
            None => parse_object(v@, i as int) is None,
        }),
{
    if i < v.len() && v[i] == '{' {
        let w = ws_x(v, i + 1);
        let j = i + 1 + w;
        if j < v.len() {
            let p = Partial { icao: None, iata: None, desc: None };
            proof {
                assert(p@ == empty_partial());
            }
            match parse_members_x(v, j, p) {
                Some((a, n)) => Some((a, 1 + w + n)),
                None => None,
            }
        } else {
            None
        }
    } else {
        None
    }
}

fn parse_records_x(v: &Vec<char>, i: usize) -> (r: Option<(Vec<Aircraft>, usize)>)
    requires
        i <= v@.len(),
    ensures
        (match r {
            Some(q) => {
                &&& parse_records(v@, i as int) == Some((seq_views(q.0@), q.1 as nat))
                &&& i + q.1 <= v@.len()
            },
            None => parse_records(v@, i as int) is None,
        }),
{
    let len = v.len();
    let mut acc: Vec<Aircraft> = Vec::new();
    let mut cur: usize = i;
    loop
        invariant
            i <= cur <= v@.len(),
            len == v@.len(),
            (match parse_records(v@, cur as int) {
                Some(q) => parse_records(v@, i as int) == Some(
                    (seq_views(acc@).add(q.0), (cur - i + q.1) as nat),
                ),
                None => parse_records(v@, i as int) is None,
            }),
        decreases v@.len() - cur,
    {
        match parse_object_x(v, cur) {
            None => {
                return None;
            },
            Some((a, n)) => {
                let w = ws_x(v, cur + n);
                let f = cur + n + w;
                if f < len && v[f] == ']' {
                    let ghost ac = acc@;
                    proof {
                        assert(parse_records(v@, cur as int) == Some(
                            (seq![a@], ((f + 1) - cur) as nat),
                        ));
                    }
                    acc.push(a);
                    proof {
                        assert(seq_views(acc@) =~= seq_views(ac).add(seq![a@]));
                    }
                    return Some((acc, (f - i) + 1));
                } else if f < len && v[f] == ',' {
                    let w2 = ws_x(v, f + 1);
                    let m = f + 1 + w2;
                    if m < len {
                        let ghost ac = acc@;
                        proof {
                            let sp = parse_records(v@, m as int);
                            if sp is Some {
                                assert(parse_records(v@, cur as int) == Some(
                                    (
                                        seq![a@].add(sp->Some_0.0),
                                        ((m - cur) + sp->Some_0.1) as nat,
                                    ),
                                ));
                                assert(seq_views(ac.push(a)).add(sp->Some_0.0) =~= seq_views(
                                    ac,
                                ).add(seq![a@].add(sp->Some_0.0)));
                            } else {
                                assert(parse_records(v@, cur as int) is None);
                            }
                        }
                        acc.push(a);
                        cur = m;
                    } else {
                        return None;
                    }
                } else {
                    return None;
                }
            },
        }
    }
}

/// Decodes the whole input file.
///
/// Returns the records, in file order, exactly when the text is an aircraft
/// document as [`parse_doc`] defines it; any other text is rejected whole.
pub fn parse_aircraft_json(text: &str) -> (r: Result<Vec<Aircraft>, ParseError>)
    ensures
        (match r {
            Ok(list) => parse_doc(text@) == Some(seq_views(list@)),
            Err(_) => parse_doc(text@) is None,
        }),
{
    let v = str_to_chars(text);
    let i = ws_x(&v, 0);
    if i < v.len() && v[i] == '[' {
        let w2 = ws_x(&v, i + 1);
        let j = i + 1 + w2;
        if j < v.len() && v[j] == ']' {
            let w3 = ws_x(&v, j + 1);
            if j + 1 + w3 == v.len() {
                let out: Vec<Aircraft> = Vec::new();
                proof {
                    assert(seq_views(out@) =~= Seq::<crate::record::AircraftView>::empty());
                }
                Ok(out)
            } else {
                Err(ParseError {})
            }
        } else {
            match parse_records_x(&v, j) {
                Some((list, n)) => {
                    let w3 = ws_x(&v, j + n);
                    if j + n + w3 == v.len() {
                        Ok(list)
                    } else {
                        Err(ParseError {})
                    }
                },
                None => Err(ParseError {}),
            }
        }
    } else {
        Err(ParseError {})
    }
}

} // verus!
