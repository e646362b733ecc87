//! Decoding a canonically encoded record list gives back exactly the
//! records that were encoded: the field values survive the trip unchanged.

use vstd::prelude::*;

use crate::format::{enc_doc, enc_member, enc_rec, enc_rest, esc, esc_char, hex_digit_char, hex_val,
    hex4_ok, hex4_val, is_hex_digit, is_required_key, json_ws, key_desc, key_iata, key_icao,
    empty_partial, finalize, parse_doc, parse_member_value, parse_members, parse_object,
    parse_records, parse_str_body, set_field, short_escape, ws_count, PartialRec};
use crate::record::AircraftView;

verus! {

proof fn lemma_hex_digit(d: int)
    requires
        0 <= d < 16,
    ensures
        is_hex_digit(hex_digit_char(d)),
        hex_val(hex_digit_char(d)) == d,
{
}

/// A sequence whose characters need no escaping encodes as itself.
proof fn lemma_esc_id(k: Seq<char>)
    requires
        forall|j: int|
            0 <= j < k.len() ==> (32 <= #[trigger] (k[j] as u32) && k[j] != '"' && k[j] != '\\'),
    ensures
        esc(k) == k,
    decreases k.len(),
{
    if k.len() == 0 {
        assert(esc(k) =~= k);
    } else {
        assert(32 <= k[0] as u32 && k[0] != '"' && k[0] != '\\');
        assert forall|j: int|
            0 <= j < k.drop_first().len() implies (32 <= #[trigger] (k.drop_first()[j] as u32)
            && k.drop_first()[j] != '"' && k.drop_first()[j] != '\\') by {
            assert(k.drop_first()[j] == k[j + 1]);
            assert(32 <= k[j + 1] as u32 && k[j + 1] != '"' && k[j + 1] != '\\');
        }
        lemma_esc_id(k.drop_first());
        assert(esc_char(k[0]) =~= seq![k[0]]);
        assert(esc(k) =~= k);
    }
}

proof fn lemma_keys_verbatim()
    ensures
        esc(key_icao()) == key_icao(),
        esc(key_iata()) == key_iata(),
        esc(key_desc()) == key_desc(),
{
    assert forall|j: int| 0 <= j < key_icao().len() implies (32 <= #[trigger] (key_icao()[j]
        as u32) && key_icao()[j] != '"' && key_icao()[j] != '\\') by {
        if j == 0 {
        } else if j == 1 {
        } else if j == 2 {
        } else if j == 3 {
        } else if j == 4 {
        } else if j == 5 {
        } else if j == 6 {
        } else {
        }
    }
    lemma_esc_id(key_icao());
    assert forall|j: int| 0 <= j < key_iata().len() implies (32 <= #[trigger] (key_iata()[j]
        as u32) && key_iata()[j] != '"' && key_iata()[j] != '\\') by {
        if j == 0 {
        } else if j == 1 {
        } else if j == 2 {
        } else if j == 3 {
        } else if j == 4 {
        } else if j == 5 {
        } else if j == 6 {
        } else {
        }
    }
    lemma_esc_id(key_iata());
    assert forall|j: int| 0 <= j < key_desc().len() implies (32 <= #[trigger] (key_desc()[j]
        as u32) && key_desc()[j] != '"' && key_desc()[j] != '\\') by {
        if j == 0 {
        } else if j == 1 {
        } else if j == 2 {
        } else if j == 3 {
        } else if j == 4 {
        } else if j == 5 {
        } else if j == 6 {
        } else if j == 7 {
        } else if j == 8 {
        } else if j == 9 {
        } else {
        }
    }
    lemma_esc_id(key_desc());
}

/// An escaped content followed by a closing quote parses back to exactly
/// that content.
proof fn lemma_parse_esc(s: Seq<char>, i: int, content: Seq<char>)
    requires
        0 <= i,
        i + esc(content).len() + 1 <= s.len(),
        s.subrange(i, i + esc(content).len() as int) == esc(content),
        s[i + esc(content).len() as int] == '"',
    ensures
        parse_str_body(s, i) == Some((content, (esc(content).len() + 1) as nat)),
    decreases content.len(),
{
    let ln = esc(content).len() as int;
    assert forall|k: int| 0 <= k < ln implies s[i + k] == esc(content)[k] by {
        assert(s.subrange(i, i + ln)[k] == s[i + k]);
    }
    if content.len() == 0 {
        assert(esc(content) =~= Seq::<char>::empty());
        assert(s[i] == '"');
        assert(content =~= Seq::<char>::empty());
    } else {
        let c = content[0];
        let rest = content.drop_first();
        let ec = esc_char(c);
        let er = esc(rest);
        assert(esc(content) == ec.add(er));
        let j = i + ec.len() as int;
        assert forall|k: int| 0 <= k < er.len() implies s.subrange(j, j + er.len() as int)[k]
            == er[k] by {
            assert(s.subrange(j, j + er.len() as int)[k] == s[j + k]);
            assert(s[i + (ec.len() + k)] == esc(content)[ec.len() + k]);
            assert(esc(content)[ec.len() + k] == er[k]);
        }
        assert(s.subrange(j, j + er.len() as int) =~= er);
        assert(s[j + er.len() as int] == '"');
        lemma_parse_esc(s, j, rest);
        assert(content =~= seq![c].add(rest));
        if c == '"' || c == '\\' || c == '\u{0008}' || c == '\u{000C}' || c == '\n' || c == '\r'
            || c == '\t' {
            assert(ec.len() == 2);
            assert(ec[0] == '\\');
            assert(s[i + 0] == esc(content)[0]);
            assert(esc(content)[0] == ec[0]);
            assert(s[i] == '\\');
            assert(s[i + 1] == esc(content)[1]);
            assert(esc(content)[1] == ec[1]);
            assert(short_escape(ec[1]) == Some(c));
            assert(parse_str_body(s, i) == Some((content, (ln + 1) as nat)));
        } else if (c as u32) < 32 {
            let d1 = (c as u32) as int / 16;
            let d2 = (c as u32) as int % 16;
            lemma_hex_digit(d1);
            lemma_hex_digit(d2);
            lemma_hex_digit(0);
            assert(ec.len() == 6);
            assert(s[i + 0] == esc(content)[0]);
            assert(esc(content)[0] == ec[0]);
            assert(s[i] == '\\');
            assert(s[i + 1] == esc(content)[1]);
            assert(esc(content)[1] == ec[1]);
            assert(s[i + 2] == esc(content)[2]);
            assert(esc(content)[2] == ec[2]);
            assert(s[i + 3] == esc(content)[3]);
            assert(esc(content)[3] == ec[3]);
            assert(s[i + 4] == esc(content)[4]);
            assert(esc(content)[4] == ec[4]);
            assert(s[i + 5] == esc(content)[5]);
            assert(esc(content)[5] == ec[5]);
            assert(s[i + 1] == 'u');
            assert(s[i + 2] == '0' && s[i + 3] == '0');
            assert(s[i + 4] == hex_digit_char(d1) && s[i + 5] == hex_digit_char(d2));
            assert(hex_digit_char(0) == '0');
            assert(hex4_ok(s, i + 2));
            assert(hex4_val(s, i + 2) == hex_val('0') * 4096 + hex_val('0') * 256 + d1 * 16 + d2);
            assert(d1 * 16 + d2 == c as u32) by {
                assert((c as u32) as int == 16 * ((c as u32) as int / 16) + (c as u32) as int
                    % 16);
            }
            assert(hex4_val(s, i + 2) == c as u32);
            assert(!(0xD800 <= hex4_val(s, i + 2) < 0xE000));
            vstd::utf8::char_u32_cast(c, c as u32);
            assert((hex4_val(s, i + 2) as u32) as char == c);
            assert(parse_str_body(s, i) == Some((content, (ln + 1) as nat)));
        } else {
            assert(ec =~= seq![c]);
            assert(s[i + 0] == esc(content)[0]);
            assert(esc(content)[0] == c);
            assert(s[i] == c);
            assert(parse_str_body(s, i) == Some((content, (ln + 1) as nat)));
        }
    }
}

/// One encoded member, seen from inside an object: the key reads back, the
/// colon follows with no whitespace, and the member's value updates the
/// partial record.
proof fn lemma_member_parse(s: Seq<char>, i: int, key: Seq<char>, val: Seq<char>, p: PartialRec)
    requires
        is_required_key(key),
        esc(key) == key,
        set_field(p, key, val) is Some,
        0 <= i,
        i + enc_member(key, val).len() < s.len(),
        s.subrange(i, i + enc_member(key, val).len() as int) == enc_member(key, val),
    ensures
        s[i] == '"',
        parse_str_body(s, i + 1) == Some((key, (key.len() + 1) as nat)),
        ws_count(s, i + key.len() + 2) == 0,
        s[i + key.len() + 2] == ':',
        ws_count(s, i + key.len() + 3) == 0,
        parse_member_value(s, i + key.len() + 3, p, key) == Some(
            (set_field(p, key, val)->Some_0, (esc(val).len() + 2) as nat),
        ),
        i + key.len() + 3 + (esc(val).len() + 2) == i + enc_member(key, val).len(),
{
    let em = enc_member(key, val);
    let kl = key.len() as int;
    let el = esc(val).len() as int;
    assert(em.len() == 5 + kl + el);
    assert forall|k: int| 0 <= k < em.len() implies s[i + k] == em[k] by {
        assert(s.subrange(i, i + em.len() as int)[k] == s[i + k]);
    }
    assert(em[0] == '"');
    assert(s[i + 0] == em[0]);
    assert(s[i] == '"');
    assert forall|k: int| 0 <= k < kl implies s.subrange(i + 1, i + 1 + kl)[k] == key[k] by {
        assert(s.subrange(i + 1, i + 1 + kl)[k] == s[i + 1 + k]);
        assert(s[i + (1 + k)] == em[1 + k]);
        assert(em[1 + k] == key[k]);
    }
    assert(s.subrange(i + 1, i + 1 + kl) =~= key);
    assert(em[1 + kl] == '"');
    assert(s[i + (1 + kl)] == em[1 + kl]);
    lemma_parse_esc(s, i + 1, key);
    assert(em[2 + kl] == ':');
    assert(s[i + (2 + kl)] == em[2 + kl]);
    assert(!json_ws(':'));
    assert(ws_count(s, i + kl + 2) == 0);
    assert(em[3 + kl] == '"');
    assert(s[i + (3 + kl)] == em[3 + kl]);
    assert(ws_count(s, i + kl + 3) == 0);
    assert forall|k: int| 0 <= k < el implies s.subrange(i + kl + 4, i + kl + 4 + el)[k] == esc(
        val,
    )[k] by {
        assert(s.subrange(i + kl + 4, i + kl + 4 + el)[k] == s[i + kl + 4 + k]);
        assert(s[i + (4 + kl + k)] == em[4 + kl + k]);
        assert(em[4 + kl + k] == esc(val)[k]);
    }
    assert(s.subrange(i + kl + 4, i + kl + 4 + el) =~= esc(val));
    assert(em[4 + kl + el] == '"');
    assert(s[i + (4 + kl + el)] == em[4 + kl + el]);
    lemma_parse_esc(s, i + kl + 4, val);
    assert(parse_member_value(s, i + kl + 3, p, key) == Some(
        (set_field(p, key, val)->Some_0, (el + 2) as nat),
    ));
}

proof fn lemma_keys_distinct()
    ensures
        key_icao() != key_iata(),
        key_icao() != key_desc(),
        key_iata() != key_desc(),
{
    assert(key_icao()[1] == 'c');
    assert(key_iata()[1] == 'a');
    assert(key_icao().len() == 8);
    assert(key_iata().len() == 8);
    assert(key_desc().len() == 11);
}

/// One encoded record, seen from inside the document, parses to exactly its
/// view and consumes exactly its text.
#[verifier::rlimit(100)]
proof fn lemma_object_parse(s: Seq<char>, i: int, r: AircraftView)
    requires
        0 <= i,
        i + enc_rec(r).len() < s.len(),
        s.subrange(i, i + enc_rec(r).len() as int) == enc_rec(r),
    ensures
        parse_object(s, i) == Some((r, enc_rec(r).len() as nat)),
{
    lemma_keys_verbatim();
    lemma_keys_distinct();
    let ma = enc_member(key_icao(), r.icao);
    let mb = enc_member(key_iata(), r.iata);
    let mc = enc_member(key_desc(), r.desc);
    let er = enc_rec(r);
    assert(er.len() == 4 + ma.len() + mb.len() + mc.len());
    assert forall|k: int| 0 <= k < er.len() implies s[i + k] == er[k] by {
        assert(s.subrange(i, i + er.len() as int)[k] == s[i + k]);
    }
    let p0 = i + 1;
    let p1 = p0 + ma.len() as int;
    let p2 = p1 + 1;
    let p3 = p2 + mb.len() as int;
    let p4 = p3 + 1;
    let p5 = p4 + mc.len() as int;
    assert(er[0] == '{');
    assert(s[i + 0] == er[0]);
    assert(s[i] == '{');
    assert(er[1 + ma.len() as int] == ',');
    assert(s[i + (1 + ma.len() as int)] == er[1 + ma.len() as int]);
    assert(s[p1] == ',');
    assert(er[2 + ma.len() + mb.len() as int] == ',');
    assert(s[i + (2 + ma.len() + mb.len() as int)] == er[2 + ma.len() + mb.len() as int]);
    assert(s[p3] == ',');
    assert(er[3 + ma.len() + mb.len() + mc.len() as int] == '}');
    assert(s[i + (3 + ma.len() + mb.len() + mc.len() as int)] == er[3 + ma.len() + mb.len() + mc.len() as int]);
    assert(s[p5] == '}');
    let pe = empty_partial();
    assert(set_field(pe, key_icao(), r.icao) is Some);
    let pa = set_field(pe, key_icao(), r.icao)->Some_0;
    assert(set_field(pa, key_iata(), r.iata) is Some);
    let pb = set_field(pa, key_iata(), r.iata)->Some_0;
    assert(set_field(pb, key_desc(), r.desc) is Some);
    let pc = set_field(pb, key_desc(), r.desc)->Some_0;
    assert forall|k: int| 0 <= k < ma.len() implies s.subrange(p0, p0 + ma.len() as int)[k]
        == ma[k] by {
        assert(s.subrange(p0, p0 + ma.len() as int)[k] == s[p0 + k]);
        assert(s[i + (1 + k)] == er[1 + k]);
        assert(er[1 + k] == ma[k]);
    }
    assert(s.subrange(p0, p0 + ma.len() as int) =~= ma);
    lemma_member_parse(s, p0, key_icao(), r.icao, pe);
    assert forall|k: int| 0 <= k < mb.len() implies s.subrange(p2, p2 + mb.len() as int)[k]
        == mb[k] by {
        assert(s.subrange(p2, p2 + mb.len() as int)[k] == s[p2 + k]);
        assert(s[i + (2 + ma.len() + k)] == er[2 + ma.len() + k]);
        assert(er[2 + ma.len() + k] == mb[k]);
    }
    assert(s.subrange(p2, p2 + mb.len() as int) =~= mb);
    lemma_member_parse(s, p2, key_iata(), r.iata, pa);
    assert forall|k: int| 0 <= k < mc.len() implies s.subrange(p4, p4 + mc.len() as int)[k]
        == mc[k] by {
        assert(s.subrange(p4, p4 + mc.len() as int)[k] == s[p4 + k]);
        assert(s[i + (3 + ma.len() + mb.len() + k)] == er[3 + ma.len() + mb.len() + k]);
        assert(er[3 + ma.len() + mb.len() + k] == mc[k]);
    }
    assert(s.subrange(p4, p4 + mc.len() as int) =~= mc);
    lemma_member_parse(s, p4, key_desc(), r.desc, pb);
    assert(ws_count(s, p5) == 0);
    assert(ws_count(s, p1 + 1) == 0) by {
        assert(s[p2] == '"');
    }
    assert(ws_count(s, p3 + 1) == 0) by {
        assert(s[p4] == '"');
    }
    assert(finalize(pc) == Some(r));
    assert(parse_members(s, p4, pb) == Some((r, (mc.len() + 1) as nat)));
    assert(parse_members(s, p2, pa) == Some((r, (p5 + 1 - p2) as nat)));
    assert(parse_members(s, p0, pe) == Some((r, (p5 + 1 - p0) as nat)));
    assert(ws_count(s, i + 1) == 0) by {
        assert(s[p0] == '"');
    }
    assert(parse_object(s, i) == Some((r, enc_rec(r).len() as nat)));
}

/// A non-empty encoded record list, closing bracket included, parses to
/// exactly those records.
proof fn lemma_records_parse(s: Seq<char>, i: int, l: Seq<AircraftView>)
    requires
        l.len() >= 1,
        0 <= i,
        i + enc_rec(l[0]).len() + enc_rest(l.drop_first()).len() <= s.len(),
        s.subrange(i, i + enc_rec(l[0]).len() + enc_rest(l.drop_first()).len() as int) == enc_rec(
            l[0],
        ).add(enc_rest(l.drop_first())),
    ensures
        parse_records(s, i) == Some(
            (l, (enc_rec(l[0]).len() + enc_rest(l.drop_first()).len()) as nat),
        ),
    decreases l.len(),
{
    let e0 = enc_rec(l[0]);
    let tail = enc_rest(l.drop_first());
    let ln = e0.len() + tail.len() as int;
    assert(tail.len() >= 1);
    assert forall|k: int| 0 <= k < ln implies s[i + k] == e0.add(tail)[k] by {
        assert(s.subrange(i, i + ln)[k] == s[i + k]);
    }
    assert forall|k: int| 0 <= k < e0.len() implies s.subrange(i, i + e0.len() as int)[k]
        == e0[k] by {
        assert(s.subrange(i, i + e0.len() as int)[k] == s[i + k]);
        assert(e0.add(tail)[k] == e0[k]);
    }
    assert(s.subrange(i, i + e0.len() as int) =~= e0);
    lemma_object_parse(s, i, l[0]);
    let f = i + e0.len() as int;
    assert(e0.add(tail)[e0.len() as int] == tail[0]);
    assert(s[i + e0.len() as int] == e0.add(tail)[e0.len() as int]);
    if l.len() == 1 {
        assert(l.drop_first().len() == 0);
        assert(tail =~= seq![']']);
        assert(s[f] == ']');
        assert(ws_count(s, f) == 0);
        assert(seq![l[0]] =~= l);
        assert(parse_records(s, i) == Some((l, ln as nat)));
    } else {
        let l2 = l.drop_first();
        assert(tail == seq![','].add(enc_rec(l2[0])).add(enc_rest(l2.drop_first())));
        assert(tail[0] == ',');
        assert(s[f] == ',');
        assert(ws_count(s, f) == 0);
        let m = f + 1;
        let ln2 = enc_rec(l2[0]).len() + enc_rest(l2.drop_first()).len() as int;
        assert(ln == e0.len() + 1 + ln2);
        assert forall|k: int| 0 <= k < ln2 implies s.subrange(m, m + ln2)[k] == enc_rec(
            l2[0],
        ).add(enc_rest(l2.drop_first()))[k] by {
            assert(s.subrange(m, m + ln2)[k] == s[m + k]);
            assert(s[i + (e0.len() + 1 + k)] == e0.add(tail)[e0.len() + 1 + k]);
            assert(e0.add(tail)[e0.len() + 1 + k] == tail[1 + k]);
            assert(tail[1 + k] == enc_rec(l2[0]).add(enc_rest(l2.drop_first()))[k]);
        }
        assert(s.subrange(m, m + ln2) =~= enc_rec(l2[0]).add(enc_rest(l2.drop_first())));
        lemma_records_parse(s, m, l2);
        assert(enc_rec(l2[0]).add(enc_rest(l2.drop_first()))[0] == '{') by {
            assert(enc_rec(l2[0])[0] == '{');
        }
        assert(s[i + (e0.len() + 1) as int] == e0.add(tail)[(e0.len() + 1) as int]);
        assert(e0.add(tail)[(e0.len() + 1) as int] == tail[1]);
        assert(tail[1] == '{');
        assert(s[m] == '{');
        assert(ws_count(s, m) == 0);
        assert(seq![l[0]].add(l2) =~= l);
        assert(parse_records(s, i) == Some((l, ln as nat)));
    }
}

/// Decoding the canonical encoding of any record list yields exactly that
/// list: every field of every record comes back verbatim, in order.
pub proof fn lemma_round_trip(l: Seq<AircraftView>)
    ensures
        parse_doc(enc_doc(l)) == Some(l),
{
    let s = enc_doc(l);
    if l.len() == 0 {
        assert(s =~= seq!['[', ']']);
        assert(s[0] == '[');
        assert(!json_ws('['));
        assert(ws_count(s, 0) == 0);
        assert(s[1] == ']');
        assert(ws_count(s, 1) == 0);
        assert(ws_count(s, 2) == 0);
        assert(l =~= Seq::<AircraftView>::empty());
        assert(parse_doc(s) == Some(l));
    } else {
        let e0 = enc_rec(l[0]);
        let tail = enc_rest(l.drop_first());
        assert(s == seq!['['].add(e0).add(tail));
        assert(s[0] == '[');
        assert(ws_count(s, 0) == 0);
        assert(e0[0] == '{');
        assert(s[1] == '{');
        assert(ws_count(s, 1) == 0);
        let ln = e0.len() + tail.len() as int;
        assert(s.len() == 1 + ln);
        assert forall|k: int| 0 <= k < ln implies s.subrange(1, 1 + ln)[k] == e0.add(tail)[k] by {
            assert(s.subrange(1, 1 + ln)[k] == s[1 + k]);
            assert(s[1 + k] == e0.add(tail)[k]);
        }
        assert(s.subrange(1, 1 + ln) =~= e0.add(tail));
        lemma_records_parse(s, 1, l);
        assert(ws_count(s, s.len() as int) == 0);
        assert(parse_doc(s) == Some(l));
    }
}

} // verus!
