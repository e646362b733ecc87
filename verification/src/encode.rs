//! The executable encoder: it writes a record list in the canonical form of
//! [`crate::format::enc_doc`], the form the parser is proved to read back.

use vstd::prelude::*;

use crate::format::{enc_doc, enc_member, enc_rec, enc_rest, esc, esc_char, hex_digit_char, key_desc,
    key_iata, key_icao};
use crate::record::{seq_views, Aircraft};
use crate::text::{chars_to_string, str_to_chars};

verus! {

fn hex_digit_char_x(d: u32) -> (r: char)
    requires
        d < 16,
    ensures
        r == hex_digit_char(d as int),
{
    if d == 0 {
        '0'
    } else if d == 1 {
        '1'
    } else if d == 2 {
        '2'
    } else if d == 3 {
        '3'
    } else if d == 4 {
        '4'
    } else if d == 5 {
        '5'
    } else if d == 6 {
        '6'
    } else if d == 7 {
        '7'
    } else if d == 8 {
        '8'
    } else if d == 9 {
        '9'
    } else if d == 10 {
        'a'
    } else if d == 11 {
        'b'
    } else if d == 12 {
        'c'
    } else if d == 13 {
        'd'
    } else if d == 14 {
        'e'
    } else {
        'f'
    }
}

fn esc_char_x(c: char, out: &mut Vec<char>)
    ensures
        final(out)@ == old(out)@.add(esc_char(c)),
{
    let ghost o = out@;
    if c == '"' {
        out.push('\\');
        out.push('"');
        proof {
            assert(out@ =~= o.add(esc_char(c)));
        }
    } else if c == '\\' {
        out.push('\\');
        out.push('\\');
        proof {
            assert(out@ =~= o.add(esc_char(c)));
        }
    } else if c == '\u{0008}' {
        out.push('\\');
        out.push('b');
        proof {
            assert(out@ =~= o.add(esc_char(c)));
        }
    } else if c == '\u{000C}' {
        out.push('\\');
        out.push('f');
        proof {
            assert(out@ =~= o.add(esc_char(c)));
        }
    } else if c == '\n' {
        out.push('\\');
        out.push('n');
        proof {
            assert(out@ =~= o.add(esc_char(c)));
        }
    } else if c == '\r' {
        out.push('\\');
        out.push('r');
        proof {
            assert(out@ =~= o.add(esc_char(c)));
        }
    } else if c == '\t' {
        out.push('\\');
        out.push('t');
        proof {
            assert(out@ =~= o.add(esc_char(c)));
        }
    } else {
        let u = c as u32;
        if u < 32 {
            out.push('\\');
            out.push('u');
            out.push('0');
            out.push('0');
            out.push(hex_digit_char_x(u / 16));
            out.push(hex_digit_char_x(u % 16));
            proof {
                assert(out@ =~= o.add(esc_char(c)));
            }
        } else {
            out.push(c);
            proof {
                assert(out@ =~= o.add(esc_char(c)));
            }
        }
    }
}

proof fn lemma_esc_push(s: Seq<char>, c: char)
    ensures
        esc(s.push(c)) == esc(s).add(esc_char(c)),
    decreases s.len(),
{
    if s.len() == 0 {
        assert(s.push(c).drop_first() =~= Seq::<char>::empty());
        assert(esc(s.push(c).drop_first()) =~= Seq::<char>::empty());
        assert(s.push(c)[0] == c);
        assert(esc(s) =~= Seq::<char>::empty());
        assert(esc(s.push(c)) =~= esc(s).add(esc_char(c)));
    } else {
        assert(s.push(c).drop_first() =~= s.drop_first().push(c));
        lemma_esc_push(s.drop_first(), c);
        assert(s.push(c)[0] == s[0]);
        assert(esc(s.push(c)) =~= esc_char(s[0]).add(esc(s.drop_first().push(c))));
        assert(esc(s.push(c)) =~= esc(s).add(esc_char(c)));
    }
}

fn esc_x(f: &Vec<char>, out: &mut Vec<char>)
    ensures
        final(out)@ == old(out)@.add(esc(f@)),
{
    let ghost o = out@;
    let mut idx: usize = 0;
    proof {
        assert(f@.subrange(0, 0) =~= Seq::<char>::empty());
        assert(out@ =~= o.add(esc(f@.subrange(0, 0))));
    }
    while idx < f.len()
        invariant
            idx <= f@.len(),
            out@ == o.add(esc(f@.subrange(0, idx as int))),
        decreases f@.len() - idx,
    {
        esc_char_x(f[idx], out);
        proof {
            lemma_esc_push(f@.subrange(0, idx as int), f@[idx as int]);
            assert(f@.subrange(0, idx as int + 1) =~= f@.subrange(0, idx as int).push(
                f@[idx as int],
            ));
        }
        idx = idx + 1;
    }
    proof {
        assert(f@.subrange(0, f@.len() as int) =~= f@);
    }
}

/// Writes one quoted, escaped string member under the given key characters.
fn push_field(out: &mut Vec<char>, key: &Vec<char>, value: &String)
    ensures
        final(out)@ == old(out)@.add(enc_member(key@, value@)),
{
    let ghost o = out@;
    out.push('"');
    let mut ki: usize = 0;
    while ki < key.len()
        invariant
            ki <= key@.len(),
            out@ == o.add(seq!['"']).add(key@.subrange(0, ki as int)),
        decreases key@.len() - ki,
    {
        out.push(key[ki]);
        proof {
            assert(key@.subrange(0, ki as int + 1) =~= key@.subrange(0, ki as int).push(
                key@[ki as int],
            ));
        }
        ki = ki + 1;
    }
    proof {
        assert(key@.subrange(0, key@.len() as int) =~= key@);
    }
    out.push('"');
    out.push(':');
    out.push('"');
    let fv = str_to_chars(value.as_str());
    esc_x(&fv, out);
    out.push('"');
    proof {
        assert(out@ =~= o.add(enc_member(key@, value@)));
    }
}

fn key_icao_x() -> (r: Vec<char>)
    ensures
        r@ == key_icao(),
{
    let mut k: Vec<char> = Vec::new();
    k.push('i');
    k.push('c');
    k.push('a');
    k.push('o');
    k.push('C');
    k.push('o');
    k.push('d');
    k.push('e');
    proof {
        assert(k@ =~= key_icao());
    }
    k
}

fn key_iata_x() -> (r: Vec<char>)
    ensures
        r@ == key_iata(),
{
    let mut k: Vec<char> = Vec::new();
    k.push('i');
    k.push('a');
    k.push('t');
    k.push('a');
    k.push('C');
    k.push('o');
    k.push('d');
    k.push('e');
    proof {
        assert(k@ =~= key_iata());
    }
    k
}

fn key_desc_x() -> (r: Vec<char>)
    ensures
        r@ == key_desc(),
{
    let mut k: Vec<char> = Vec::new();
    k.push('d');
    k.push('e');
    k.push('s');
    k.push('c');
    k.push('r');
    k.push('i');
    k.push('p');
    k.push('t');
    k.push('i');
    k.push('o');
    k.push('n');
    proof {
        assert(k@ =~= key_desc());
    }
    k
}

fn enc_rec_x(a: &Aircraft, out: &mut Vec<char>)
    ensures
        final(out)@ == old(out)@.add(enc_rec(a@)),
{
    let ghost o = out@;
    out.push('{');
    let ki = key_icao_x();
    push_field(out, &ki, &a.icao_code);
    out.push(',');
    let ka = key_iata_x();
    push_field(out, &ka, &a.iata_code);
    out.push(',');
    let kd = key_desc_x();
    push_field(out, &kd, &a.description);
    out.push('}');
    proof {
        assert(out@ =~= o.add(enc_rec(a@)));
    }
}

fn enc_rest_x(list: &Vec<Aircraft>, i: usize, out: &mut Vec<char>)
    requires
        i <= list@.len(),
    ensures
        final(out)@ == old(out)@.add(enc_rest(seq_views(list@).skip(i as int))),
    decreases list@.len() - i,
{
    let ghost o = out@;
    let ghost tail = seq_views(list@).skip(i as int);
    if i >= list.len() {
        out.push(']');
        proof {
            assert(tail =~= Seq::<crate::record::AircraftView>::empty());
            assert(out@ =~= o.add(enc_rest(tail)));
        }
    } else {
        out.push(',');
        enc_rec_x(&list[i], out);
        enc_rest_x(list, i + 1, out);
        proof {
            assert(tail[0] == list@[i as int]@);
            assert(tail.drop_first() =~= seq_views(list@).skip(i as int + 1));
            assert(out@ =~= o.add(enc_rest(tail)));
        }
    }
}

/// Encodes a record list in the canonical form that [`enc_doc`] defines:
/// re-encoding what the parser decoded writes each field back verbatim.
pub fn encode_aircraft_json(list: &Vec<Aircraft>) -> (r: String)
    ensures
        r@ == enc_doc(seq_views(list@)),
{
    let mut out: Vec<char> = Vec::new();
    out.push('[');
    if list.len() == 0 {
        out.push(']');
        proof {
            assert(seq_views(list@).len() == 0);
            assert(out@ =~= enc_doc(seq_views(list@)));
        }
    } else {
        enc_rec_x(&list[0], &mut out);
        enc_rest_x(list, 1, &mut out);
        proof {
            assert(seq_views(list@)[0] == list@[0]@);
            assert(seq_views(list@).drop_first() =~= seq_views(list@).skip(1));
            assert(out@ =~= enc_doc(seq_views(list@)));
        }
    }
    chars_to_string(&out)
}

} // verus!
