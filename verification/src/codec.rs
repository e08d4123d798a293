//! Loading and saving the dialogue graph, and the proof that the two
//! compose: what `save_graph` writes, `load_graph` reads back unchanged.

use vstd::prelude::*;

verus! {

use crate::dialogue::{default_dialogue_view, fallback_key, Dialogue, DialogueV};
use crate::graph::{assoc_unique, map_wf, DialogueMap};
use crate::parse::{
    digit_end,
    digits_val,
    expect,
    is_digit,
    spec_parse_graph,
    spec_parse_int,
    spec_parse_opt_int,
    spec_parse_opt_str,
    spec_parse_str_body,
    spec_parse_string,
};
use crate::ser::{dec_bytes, esc, esc_byte, hex_digit, null_bytes, ser_int, ser_str, ser_graph};
use crate::validate::{validate_graph, validate_graph_spec};
use vstd::utf8::{encode_utf8, encode_utf8_decode_utf8, encode_utf8_valid_utf8};

/// What loading yields for given bytes: the parsed graph after the
/// defaulting pass, or the singleton fallback graph when parsing fails.
pub open spec fn load_spec(s: Seq<u8>) -> Seq<(Seq<char>, DialogueV)> {
    match spec_parse_graph(s) {
        Some(v) => validate_graph_spec(v),
        None => seq![(fallback_key(), default_dialogue_view())],
    }
}

/// Load a graph from serialized bytes. This never fails its caller: on
/// any input that does not parse it returns the fallback graph, and on
/// any input that does, the defaulting pass repairs every dialogue.
pub fn load_graph(source: &[u8]) -> (g: DialogueMap)
    ensures
        g@ == load_spec(source@),
        map_wf(g@),
        crate::graph::graph_bounded(g@),
        validate_graph_spec(g@) == g@,
        g@.len() >= 1 || spec_parse_graph(source@) is Some,
{
    let g = match crate::parse::parse_graph(source) {
        Some(mut g) => {
            validate_graph(&mut g);
            proof {
                crate::validate::lemma_validate_graph_idempotent(
                    spec_parse_graph(source@).unwrap(),
                );
            }
            g
        },
        None => {
            let mut g = DialogueMap::new();
            g.insert("Default".to_owned(), Dialogue::default());
            proof {
                assert(g@ =~= seq![(fallback_key(), default_dialogue_view())]);
                crate::validate::lemma_default_dialogue_validated();
                assert(validate_graph_spec(g@)[0] == crate::validate::validate_entry_fn()(g@[0]));
                assert(validate_graph_spec(g@) =~= g@);
            }
            g
        },
    };
    proof {
        g.view_bounded();
    }
    g
}

/// A prefix of a concatenation is the first part; what follows is the
/// second.
proof fn lemma_subrange_split(s: Seq<u8>, i: int, a: Seq<u8>, b: Seq<u8>)
    requires
        0 <= i,
        i + a.len() + b.len() <= s.len(),
        s.subrange(i, i + a.len() + b.len()) == a + b,
    ensures
        s.subrange(i, i + a.len()) == a,
        s.subrange(i + a.len(), i + a.len() + b.len()) == b,
{
    let whole = s.subrange(i, i + a.len() + b.len());
    assert forall|k: int| 0 <= k < a.len() implies s.subrange(i, i + a.len())[k] == a[k] by {
        assert(whole[k] == (a + b)[k]);
    }
    assert(s.subrange(i, i + a.len()) =~= a);
    assert forall|k: int| 0 <= k < b.len() implies s.subrange(
        i + a.len(),
        i + a.len() + b.len(),
    )[k] == b[k] by {
        assert(whole[a.len() + k] == (a + b)[a.len() + k]);
    }
    assert(s.subrange(i + a.len(), i + a.len() + b.len()) =~= b);
}

/// Two adjacent subranges join into the subrange of the concatenation.
proof fn lemma_subrange_join(s: Seq<u8>, i: int, a: Seq<u8>, b: Seq<u8>)
    requires
        0 <= i,
        i + a.len() + b.len() <= s.len(),
        s.subrange(i, i + a.len()) == a,
        s.subrange(i + a.len(), i + a.len() + b.len()) == b,
    ensures
        s.subrange(i, i + a.len() + b.len()) == a + b,
{
    assert(s.subrange(i, i + a.len() + b.len()) =~= a + b);
}

/// The escaped form of a byte sequence, unrolled at the front.
proof fn lemma_esc_head(bs: Seq<u8>)
    requires
        bs.len() > 0,
    ensures
        esc(bs) == esc_byte(bs[0]) + esc(bs.drop_first()),
    decreases bs.len(),
{
    if bs.len() == 1 {
        assert(bs.drop_last() =~= Seq::<u8>::empty());
        assert(bs.drop_first() =~= Seq::<u8>::empty());
        assert(esc(bs) == esc(bs.drop_last()) + esc_byte(bs.last()));
        assert(esc(bs) =~= esc_byte(bs[0]) + esc(bs.drop_first()));
    } else {
        let dl = bs.drop_last();
        lemma_esc_head(dl);
        assert(dl[0] == bs[0]);
        assert(esc(bs) == esc(dl) + esc_byte(bs.last()));
        assert(bs.drop_first().drop_last() =~= dl.drop_first());
        assert(bs.drop_first().last() == bs.last());
        assert(esc(bs.drop_first()) == esc(bs.drop_first().drop_last()) + esc_byte(
            bs.drop_first().last(),
        ));
        assert(esc(bs) =~= esc_byte(bs[0]) + esc(bs.drop_first()));
    }
}

/// A serialized string body parses back to exactly its bytes, stopping
/// at the closing quote.
proof fn lemma_parse_body_at(s: Seq<u8>, i: int, bs: Seq<u8>)
    requires
        0 <= i,
        i + esc(bs).len() + 1 <= s.len(),
        s.subrange(i, i + esc(bs).len() + 1) == esc(bs) + seq![34u8],
    ensures
        spec_parse_str_body(s, i) == Some((bs, i + esc(bs).len() + 1)),
    decreases bs.len(),
{
    if bs.len() == 0 {
        assert(esc(bs) =~= Seq::<u8>::empty());
        assert(s[i] == (esc(bs) + seq![34u8])[0]);
        assert(spec_parse_str_body(s, i) == Some((Seq::<u8>::empty(), i + 1)));
        assert(bs =~= Seq::<u8>::empty());
    } else {
        let b = bs[0];
        let rest = bs.drop_first();
        lemma_esc_head(bs);
        let eb = esc_byte(b);
        let tail = esc(rest) + seq![34u8];
        assert(esc(bs) + seq![34u8] =~= eb + tail);
        lemma_subrange_split(s, i, eb, tail);
        let i2 = i + eb.len();
        assert(s[i] == s.subrange(i, i + eb.len())[0]);
        if eb.len() >= 2 {
            assert(s[i + 1] == s.subrange(i, i + eb.len())[1]);
        }
        if eb.len() == 6 {
            assert(s[i + 2] == s.subrange(i, i + eb.len())[2]);
            assert(s[i + 3] == s.subrange(i, i + eb.len())[3]);
            assert(s[i + 4] == s.subrange(i, i + eb.len())[4]);
            assert(s[i + 5] == s.subrange(i, i + eb.len())[5]);
        }
        lemma_parse_body_at(s, i2, rest);
        let endpos = i + esc(bs).len() + 1;
        assert(i2 + esc(rest).len() + 1 == endpos);
        if b == 34 {
            assert(s[i] == 92 && s[i + 1] == 34);
            assert(seq![b] + rest =~= bs);
        } else if b == 92 {
            assert(s[i] == 92 && s[i + 1] == 92);
            assert(seq![b] + rest =~= bs);
        } else if b == 10 {
            assert(s[i] == 92 && s[i + 1] == 110);
            assert(seq![b] + rest =~= bs);
        } else if b == 9 {
            assert(s[i] == 92 && s[i + 1] == 116);
            assert(seq![b] + rest =~= bs);
        } else if b == 13 {
            assert(s[i] == 92 && s[i + 1] == 114);
            assert(seq![b] + rest =~= bs);
        } else if b < 32 {
            assert(s[i] == 92 && s[i + 1] == 117 && s[i + 2] == 48 && s[i + 3] == 48);
            assert(s[i + 4] == hex_digit((b / 16) as nat));
            assert(s[i + 5] == hex_digit((b % 16) as nat));
            assert(crate::parse::hex_val(s[i + 4]) == Some((b / 16) as u8));
            assert(crate::parse::hex_val(s[i + 5]) == Some((b % 16) as u8));
            assert((b / 16) * 16 + (b % 16) == b);
            assert(seq![b] + rest =~= bs);
        } else {
            assert(s[i] == b);
            assert(seq![b] + rest =~= bs);
        }
    }
}

/// A serialized string parses back to exactly its characters.
proof fn lemma_parse_string_at(s: Seq<u8>, i: int, v: Seq<char>)
    requires
        0 <= i,
        i + ser_str(v).len() <= s.len(),
        s.subrange(i, i + ser_str(v).len()) == ser_str(v),
    ensures
        spec_parse_string(s, i) == Some((v, i + ser_str(v).len())),
{
    let enc = encode_utf8(v);
    assert(ser_str(v) =~= seq![34u8] + (esc(enc) + seq![34u8]));
    lemma_subrange_split(s, i, seq![34u8], esc(enc) + seq![34u8]);
    assert(s[i] == s.subrange(i, i + 1)[0]);
    lemma_parse_body_at(s, i + 1, enc);
    encode_utf8_valid_utf8(v);
    encode_utf8_decode_utf8(v);
}

/// Every byte written for a non-negative number is a decimal digit.
proof fn lemma_dec_bytes_digits(n: nat)
    ensures
        dec_bytes(n).len() >= 1,
        forall|k: int| 0 <= k < dec_bytes(n).len() ==> is_digit(#[trigger] dec_bytes(n)[k]),
    decreases n,
{
    if n < 10 {
    } else {
        lemma_dec_bytes_digits(n / 10);
        assert forall|k: int| 0 <= k < dec_bytes(n).len() implies is_digit(
            #[trigger] dec_bytes(n)[k],
        ) by {
            if k < dec_bytes(n / 10).len() {
                assert(dec_bytes(n)[k] == dec_bytes(n / 10)[k]);
            }
        }
    }
}

/// A number below the `k`-th power of ten needs at most `k` digits.
proof fn lemma_dec_bytes_len(n: nat, k: nat)
    requires
        1 <= k,
        n < crate::parse::pow10(k),
    ensures
        dec_bytes(n).len() <= k,
    decreases k,
{
    if n < 10 {
    } else {
        assert(crate::parse::pow10(k) == 10 * crate::parse::pow10((k - 1) as nat));
        assert(n / 10 < crate::parse::pow10((k - 1) as nat));
        assert(k >= 2) by {
            if k == 1 {
                assert(crate::parse::pow10(1nat) == 10);
            }
        }
        lemma_dec_bytes_len(n / 10, (k - 1) as nat);
    }
}

/// The digits of a number denote the number.
proof fn lemma_digits_val_dec(n: nat)
    ensures
        digits_val(dec_bytes(n)) == n,
    decreases n,
{
    if n < 10 {
        assert(dec_bytes(n) =~= seq![(48 + n) as u8]);
        assert(dec_bytes(n).drop_last() =~= Seq::<u8>::empty());
        assert(digits_val(Seq::<u8>::empty()) == 0);
        assert(digits_val(dec_bytes(n)) == digits_val(dec_bytes(n).drop_last()) * 10 + ((dec_bytes(
            n,
        ).last() - 48) as nat));
    } else {
        lemma_digits_val_dec(n / 10);
        assert(dec_bytes(n) == dec_bytes(n / 10) + seq![(48 + n % 10) as u8]);
        assert(dec_bytes(n).drop_last() =~= dec_bytes(n / 10));
        assert(dec_bytes(n).last() == (48 + n % 10) as u8);
        assert(digits_val(dec_bytes(n)) == digits_val(dec_bytes(n / 10)) * 10 + n % 10);
        assert((n / 10) * 10 + n % 10 == n);
    }
}

/// A run of digits followed by a non-digit ends exactly at the
/// non-digit.
proof fn lemma_digit_end_run(s: Seq<u8>, a: int, b: int)
    requires
        0 <= a <= b <= s.len(),
        forall|k: int| a <= k < b ==> is_digit(#[trigger] s[k]),
        b == s.len() || !is_digit(s[b]),
    ensures
        digit_end(s, a) == b,
    decreases b - a,
{
    if a < b {
        lemma_digit_end_run(s, a + 1, b);
    }
}

/// A serialized 32-bit integer parses back to exactly its value, as long
/// as no digit follows it.
proof fn lemma_parse_int_at(s: Seq<u8>, i: int, v: int)
    requires
        i32::MIN <= v <= i32::MAX,
        0 <= i,
        i + ser_int(v).len() <= s.len(),
        s.subrange(i, i + ser_int(v).len()) == ser_int(v),
        i + ser_int(v).len() == s.len() || !is_digit(s[i + ser_int(v).len()]),
    ensures
        spec_parse_int(s, i) == Some((v, i + ser_int(v).len())),
{
    crate::parse::lemma_pow10_ten();
    if v >= 0 {
        let n = v as nat;
        let l = dec_bytes(n).len() as int;
        lemma_dec_bytes_digits(n);
        lemma_dec_bytes_len(n, 10);
        lemma_digits_val_dec(n);
        assert forall|k: int| i <= k < i + l implies is_digit(#[trigger] s[k]) by {
            assert(s.subrange(i, i + l)[k - i] == dec_bytes(n)[k - i]);
        }
        assert(s[i] == dec_bytes(n)[0]);
        assert(s[i] != 45);
        lemma_digit_end_run(s, i, i + l);
        assert(s.subrange(i, i + l) == dec_bytes(n));
        assert(digits_val(s.subrange(i, i + l)) == n);
    } else {
        let n = (-v) as nat;
        let l = dec_bytes(n).len() as int;
        assert(ser_int(v) =~= seq![45u8] + dec_bytes(n));
        lemma_subrange_split(s, i, seq![45u8], dec_bytes(n));
        assert(s[i] == s.subrange(i, i + 1)[0]);
        assert(s[i] == 45);
        lemma_dec_bytes_digits(n);
        lemma_dec_bytes_len(n, 10);
        lemma_digits_val_dec(n);
        assert forall|k: int| i + 1 <= k < i + 1 + l implies is_digit(#[trigger] s[k]) by {
            assert(s.subrange(i + 1, i + 1 + l)[k - i - 1] == dec_bytes(n)[k - i - 1]);
        }
        lemma_digit_end_run(s, i + 1, i + 1 + l);
        assert(digits_val(s.subrange(i + 1, i + 1 + l)) == n);
    }
}


/// A serialized boolean parses back to exactly its value.
proof fn lemma_parse_bool_at(s: Seq<u8>, i: int, b: bool)
    requires
        0 <= i,
        i + crate::ser::ser_bool(b).len() <= s.len(),
        s.subrange(i, i + crate::ser::ser_bool(b).len()) == crate::ser::ser_bool(b),
    ensures
        crate::parse::spec_parse_bool(s, i) == Some((b, i + crate::ser::ser_bool(b).len())),
{
    if b {
        assert(expect(s, i, crate::ser::true_bytes()) == Some(i + 4));
    } else {
        assert(s[i] == s.subrange(i, i + 5)[0]);
        assert(s[i] == 102);
        assert(expect(s, i, crate::ser::true_bytes()) is None) by {
            if i + 4 <= s.len() && s.subrange(i, i + 4) == crate::ser::true_bytes() {
                assert(s.subrange(i, i + 4)[0] == 116);
            }
        }
        assert(expect(s, i, crate::ser::false_bytes()) == Some(i + 5));
    }
}

/// A serialized `null` parses back to `None`, whatever parser consumes
/// it, because it starts with the byte `n`.
proof fn lemma_null_at(s: Seq<u8>, i: int)
    requires
        0 <= i,
        i + 4 <= s.len(),
        s.subrange(i, i + 4) == null_bytes(),
    ensures
        s[i] == 110,
        expect(s, i, null_bytes()) == Some(i + 4),
{
    assert(s[i] == s.subrange(i, i + 4)[0]);
}

/// A serialized optional integer parses back to exactly its value, as
/// long as no digit follows it.
proof fn lemma_parse_opt_int_at(s: Seq<u8>, i: int, o: Option<int>)
    requires
        0 <= i,
        match o {
            Some(v) => i32::MIN <= v <= i32::MAX,
            None => true,
        },
        i + crate::ser::ser_opt_int(o).len() <= s.len(),
        s.subrange(i, i + crate::ser::ser_opt_int(o).len()) == crate::ser::ser_opt_int(o),
        i + crate::ser::ser_opt_int(o).len() == s.len() || !is_digit(
            s[i + crate::ser::ser_opt_int(o).len()],
        ),
    ensures
        spec_parse_opt_int(s, i) == Some((o, i + crate::ser::ser_opt_int(o).len())),
{
    match o {
        None => {
            lemma_null_at(s, i);
        },
        Some(v) => {
            assert(s[i] == s.subrange(i, i + ser_int(v).len())[0]);
            if v >= 0 {
                lemma_dec_bytes_digits(v as nat);
                assert(s[i] == dec_bytes(v as nat)[0]);
            } else {
                assert(ser_int(v)[0] == 45);
            }
            assert(s[i] != 110);
            lemma_parse_int_at(s, i, v);
        },
    }
}

/// A serialized optional string parses back to exactly its value.
proof fn lemma_parse_opt_str_at(s: Seq<u8>, i: int, o: Option<Seq<char>>)
    requires
        0 <= i,
        i + crate::ser::ser_opt_str(o).len() <= s.len(),
        s.subrange(i, i + crate::ser::ser_opt_str(o).len()) == crate::ser::ser_opt_str(o),
    ensures
        spec_parse_opt_str(s, i) == Some((o, i + crate::ser::ser_opt_str(o).len())),
{
    match o {
        None => {
            lemma_null_at(s, i);
        },
        Some(v) => {
            assert(s[i] == s.subrange(i, i + ser_str(v).len())[0]);
            assert(ser_str(v) =~= seq![34u8] + (esc(encode_utf8(v)) + seq![34u8]));
            assert(ser_str(v)[0] == 34);
            assert(s[i] != 110);
            lemma_parse_string_at(s, i, v);
        },
    }
}

/// The serialized tail of a string array parses back to exactly the
/// remaining elements, appended to what was read so far.
proof fn lemma_parse_str_more_at(s: Seq<u8>, i: int, rest: Seq<Seq<char>>, acc: Seq<Seq<char>>)
    requires
        0 <= i,
        i + crate::ser::ser_tail(rest, crate::ser::ser_str_fn()).len() + 1 <= s.len(),
        s.subrange(i, i + crate::ser::ser_tail(rest, crate::ser::ser_str_fn()).len() + 1)
            == crate::ser::ser_tail(rest, crate::ser::ser_str_fn()) + seq![93u8],
    ensures
        crate::parse::spec_parse_str_more(s, i, acc) == Some(
            (acc + rest, i + crate::ser::ser_tail(rest, crate::ser::ser_str_fn()).len() + 1),
        ),
    decreases rest.len(),
{
    let f = crate::ser::ser_str_fn();
    if rest.len() == 0 {
        assert(crate::ser::ser_tail(rest, f) =~= Seq::<u8>::empty());
        assert(s[i] == (crate::ser::ser_tail(rest, f) + seq![93u8])[0]);
        assert(s[i] == 93);
        assert(acc + rest =~= acc);
    } else {
        let r0 = rest[0];
        let tail2 = crate::ser::ser_tail(rest.drop_first(), f);
        assert(crate::ser::ser_tail(rest, f) == seq![44u8] + f(r0) + tail2);
        lemma_cassoc3(seq![44u8], ser_str(r0), tail2, seq![93u8]);
        assert(crate::ser::ser_tail(rest, f) + seq![93u8] == seq![44u8] + (ser_str(r0) + (tail2
            + seq![93u8])));
        lemma_subrange_split(s, i, seq![44u8], ser_str(r0) + (tail2 + seq![93u8]));
        assert(s[i] == s.subrange(i, i + 1)[0]);
        lemma_subrange_split(s, i + 1, ser_str(r0), tail2 + seq![93u8]);
        lemma_parse_string_at(s, i + 1, r0);
        let j = i + 1 + ser_str(r0).len();
        lemma_parse_str_more_at(s, j, rest.drop_first(), acc.push(r0));
        assert(acc.push(r0) + rest.drop_first() =~= acc + rest);
    }
}

/// A serialized string array parses back to exactly its elements.
proof fn lemma_parse_str_array_at(s: Seq<u8>, i: int, v: Seq<Seq<char>>)
    requires
        0 <= i,
        i + crate::ser::ser_array(v, crate::ser::ser_str_fn()).len() <= s.len(),
        s.subrange(i, i + crate::ser::ser_array(v, crate::ser::ser_str_fn()).len())
            == crate::ser::ser_array(v, crate::ser::ser_str_fn()),
    ensures
        crate::parse::spec_parse_str_array(s, i) == Some(
            (v, i + crate::ser::ser_array(v, crate::ser::ser_str_fn()).len()),
        ),
{
    let f = crate::ser::ser_str_fn();
    let items = crate::ser::ser_items(v, f);
    lemma_cassoc(seq![91u8], items, seq![93u8]);
    assert(crate::ser::ser_array(v, f) == seq![91u8] + (items + seq![93u8]));
    lemma_subrange_split(s, i, seq![91u8], items + seq![93u8]);
    assert(s[i] == s.subrange(i, i + 1)[0]);
    if v.len() == 0 {
        assert(items =~= Seq::<u8>::empty());
        assert(s[i + 1] == s.subrange(i + 1, i + 2)[0]);
        assert(s[i + 1] == 93);
    } else {
        let tail = crate::ser::ser_tail(v.drop_first(), f);
        assert(items == f(v[0]) + tail);
        lemma_cassoc(ser_str(v[0]), tail, seq![93u8]);
        assert(items + seq![93u8] == ser_str(v[0]) + (tail + seq![93u8]));
        lemma_subrange_split(s, i + 1, ser_str(v[0]), tail + seq![93u8]);
        assert(s[i + 1] == s.subrange(i + 1, i + 1 + ser_str(v[0]).len())[0]);
        assert(ser_str(v[0]) =~= seq![34u8] + (esc(encode_utf8(v[0])) + seq![34u8]));
        assert(s[i + 1] == 34);
        lemma_parse_string_at(s, i + 1, v[0]);
        let j = i + 1 + ser_str(v[0]).len();
        lemma_parse_str_more_at(s, j, v.drop_first(), seq![v[0]]);
        assert(seq![v[0]] + v.drop_first() =~= v);
    }
}

/// A serialized optional string array parses back to exactly its value.
proof fn lemma_parse_opt_str_array_at(s: Seq<u8>, i: int, o: Option<Seq<Seq<char>>>)
    requires
        0 <= i,
        i + crate::ser::ser_opt_str_array(o).len() <= s.len(),
        s.subrange(i, i + crate::ser::ser_opt_str_array(o).len()) == crate::ser::ser_opt_str_array(
            o,
        ),
    ensures
        crate::parse::spec_parse_opt_str_array(s, i) == Some(
            (o, i + crate::ser::ser_opt_str_array(o).len()),
        ),
{
    match o {
        None => {
            lemma_null_at(s, i);
        },
        Some(v) => {
            let f = crate::ser::ser_str_fn();
            assert(s[i] == s.subrange(i, i + crate::ser::ser_array(v, f).len())[0]);
            assert(crate::ser::ser_array(v, f) =~= seq![91u8] + (crate::ser::ser_items(v, f)
                + seq![93u8]));
            assert(crate::ser::ser_array(v, f)[0] == 91);
            assert(s[i] != 110);
            lemma_parse_str_array_at(s, i, v);
        },
    }
}


/// A serialized string field parses back to exactly its value.
proof fn lemma_field_str_at(s: Seq<u8>, i: int, lead: u8, name: Seq<char>, v: Seq<char>)
    requires
        0 <= i,
        i + 1 + crate::ser::field_head(name).len() + ser_str(v).len() <= s.len(),
        s.subrange(i, i + 1 + crate::ser::field_head(name).len() + ser_str(v).len()) == seq![lead]
            + (crate::ser::field_head(name) + ser_str(v)),
    ensures
        crate::parse::spec_field_str(s, i, lead, name) == Some(
            (v, i + 1 + crate::ser::field_head(name).len() + ser_str(v).len()),
        ),
{
    lemma_subrange_split(s, i, seq![lead], crate::ser::field_head(name) + ser_str(v));
    lemma_subrange_split(s, i + 1, crate::ser::field_head(name), ser_str(v));
    lemma_subrange_join(s, i, seq![lead], crate::ser::field_head(name));
    lemma_parse_string_at(s, i + 1 + crate::ser::field_head(name).len(), v);
}

/// A serialized optional-string field parses back to exactly its value.
proof fn lemma_field_opt_str_at(
    s: Seq<u8>,
    i: int,
    lead: u8,
    name: Seq<char>,
    v: Option<Seq<char>>,
)
    requires
        0 <= i,
        i + 1 + crate::ser::field_head(name).len() + crate::ser::ser_opt_str(v).len() <= s.len(),
        s.subrange(i, i + 1 + crate::ser::field_head(name).len() + crate::ser::ser_opt_str(v).len())
            == seq![lead] + (crate::ser::field_head(name) + crate::ser::ser_opt_str(v)),
    ensures
        crate::parse::spec_field_opt_str(s, i, lead, name) == Some(
            (v, i + 1 + crate::ser::field_head(name).len() + crate::ser::ser_opt_str(v).len()),
        ),
{
    lemma_subrange_split(s, i, seq![lead], crate::ser::field_head(name) + crate::ser::ser_opt_str(v));
    lemma_subrange_split(s, i + 1, crate::ser::field_head(name), crate::ser::ser_opt_str(v));
    lemma_subrange_join(s, i, seq![lead], crate::ser::field_head(name));
    lemma_parse_opt_str_at(s, i + 1 + crate::ser::field_head(name).len(), v);
}

/// A serialized optional-integer field parses back to exactly its value,
/// as long as no digit follows it.
proof fn lemma_field_opt_int_at(s: Seq<u8>, i: int, lead: u8, name: Seq<char>, v: Option<int>)
    requires
        0 <= i,
        match v {
            Some(x) => i32::MIN <= x <= i32::MAX,
            None => true,
        },
        i + 1 + crate::ser::field_head(name).len() + crate::ser::ser_opt_int(v).len() <= s.len(),
        s.subrange(i, i + 1 + crate::ser::field_head(name).len() + crate::ser::ser_opt_int(v).len())
            == seq![lead] + (crate::ser::field_head(name) + crate::ser::ser_opt_int(v)),
        i + 1 + crate::ser::field_head(name).len() + crate::ser::ser_opt_int(v).len() == s.len()
            || !is_digit(
            s[i + 1 + crate::ser::field_head(name).len() + crate::ser::ser_opt_int(v).len()],
        ),
    ensures
        crate::parse::spec_field_opt_int(s, i, lead, name) == Some(
            (v, i + 1 + crate::ser::field_head(name).len() + crate::ser::ser_opt_int(v).len()),
        ),
{
    lemma_subrange_split(s, i, seq![lead], crate::ser::field_head(name) + crate::ser::ser_opt_int(v));
    lemma_subrange_split(s, i + 1, crate::ser::field_head(name), crate::ser::ser_opt_int(v));
    lemma_subrange_join(s, i, seq![lead], crate::ser::field_head(name));
    lemma_parse_opt_int_at(s, i + 1 + crate::ser::field_head(name).len(), v);
}

/// A serialized integer field parses back to exactly its value, as long
/// as no digit follows it.
proof fn lemma_field_int_at(s: Seq<u8>, i: int, lead: u8, name: Seq<char>, v: int)
    requires
        0 <= i,
        i32::MIN <= v <= i32::MAX,
        i + 1 + crate::ser::field_head(name).len() + ser_int(v).len() <= s.len(),
        s.subrange(i, i + 1 + crate::ser::field_head(name).len() + ser_int(v).len()) == seq![lead]
            + (crate::ser::field_head(name) + ser_int(v)),
        i + 1 + crate::ser::field_head(name).len() + ser_int(v).len() == s.len() || !is_digit(
            s[i + 1 + crate::ser::field_head(name).len() + ser_int(v).len()],
        ),
    ensures
        crate::parse::spec_field_int(s, i, lead, name) == Some(
            (v, i + 1 + crate::ser::field_head(name).len() + ser_int(v).len()),
        ),
{
    lemma_subrange_split(s, i, seq![lead], crate::ser::field_head(name) + ser_int(v));
    lemma_subrange_split(s, i + 1, crate::ser::field_head(name), ser_int(v));
    lemma_subrange_join(s, i, seq![lead], crate::ser::field_head(name));
    lemma_parse_int_at(s, i + 1 + crate::ser::field_head(name).len(), v);
}

/// A serialized boolean field parses back to exactly its value.
proof fn lemma_field_bool_at(s: Seq<u8>, i: int, lead: u8, name: Seq<char>, v: bool)
    requires
        0 <= i,
        i + 1 + crate::ser::field_head(name).len() + crate::ser::ser_bool(v).len() <= s.len(),
        s.subrange(i, i + 1 + crate::ser::field_head(name).len() + crate::ser::ser_bool(v).len())
            == seq![lead] + (crate::ser::field_head(name) + crate::ser::ser_bool(v)),
    ensures
        crate::parse::spec_field_bool(s, i, lead, name) == Some(
            (v, i + 1 + crate::ser::field_head(name).len() + crate::ser::ser_bool(v).len()),
        ),
{
    lemma_subrange_split(s, i, seq![lead], crate::ser::field_head(name) + crate::ser::ser_bool(v));
    lemma_subrange_split(s, i + 1, crate::ser::field_head(name), crate::ser::ser_bool(v));
    lemma_subrange_join(s, i, seq![lead], crate::ser::field_head(name));
    lemma_parse_bool_at(s, i + 1 + crate::ser::field_head(name).len(), v);
}

/// A serialized optional string-array field parses back to exactly its
/// value.
proof fn lemma_field_opt_str_array_at(
    s: Seq<u8>,
    i: int,
    lead: u8,
    name: Seq<char>,
    v: Option<Seq<Seq<char>>>,
)
    requires
        0 <= i,
        i + 1 + crate::ser::field_head(name).len() + crate::ser::ser_opt_str_array(v).len()
            <= s.len(),
        s.subrange(
            i,
            i + 1 + crate::ser::field_head(name).len() + crate::ser::ser_opt_str_array(v).len(),
        ) == seq![lead] + (crate::ser::field_head(name) + crate::ser::ser_opt_str_array(v)),
    ensures
        crate::parse::spec_field_opt_str_array(s, i, lead, name) == Some(
            (
                v,
                i + 1 + crate::ser::field_head(name).len()
                    + crate::ser::ser_opt_str_array(v).len(),
            ),
        ),
{
    lemma_subrange_split(
        s,
        i,
        seq![lead],
        crate::ser::field_head(name) + crate::ser::ser_opt_str_array(v),
    );
    lemma_subrange_split(s, i + 1, crate::ser::field_head(name), crate::ser::ser_opt_str_array(v));
    lemma_subrange_join(s, i, seq![lead], crate::ser::field_head(name));
    lemma_parse_opt_str_array_at(s, i + 1 + crate::ser::field_head(name).len(), v);
}

/// A serialized options-array field parses back to exactly its value.
#[verifier::rlimit(100)]
#[verifier::spinoff_prover]
proof fn lemma_field_options_at(
    s: Seq<u8>,
    i: int,
    lead: u8,
    name: Seq<char>,
    v: Seq<crate::dialogue::OptionV>,
)
    requires
        0 <= i,
        forall|k: int| 0 <= k < v.len() ==> crate::dialogue::option_bounded(#[trigger] v[k]),
        i + 1 + crate::ser::field_head(name).len() + crate::ser::ser_array(
            v,
            crate::ser::ser_option_fn(),
        ).len() <= s.len(),
        s.subrange(
            i,
            i + 1 + crate::ser::field_head(name).len() + crate::ser::ser_array(
                v,
                crate::ser::ser_option_fn(),
            ).len(),
        ) == seq![lead] + (crate::ser::field_head(name) + crate::ser::ser_array(
            v,
            crate::ser::ser_option_fn(),
        )),
    ensures
        crate::parse::spec_field_options(s, i, lead, name) == Some(
            (
                v,
                i + 1 + crate::ser::field_head(name).len() + crate::ser::ser_array(
                    v,
                    crate::ser::ser_option_fn(),
                ).len(),
            ),
        ),
{
    let arr = crate::ser::ser_array(v, crate::ser::ser_option_fn());
    lemma_subrange_split(s, i, seq![lead], crate::ser::field_head(name) + arr);
    lemma_subrange_split(s, i + 1, crate::ser::field_head(name), arr);
    lemma_subrange_join(s, i, seq![lead], crate::ser::field_head(name));
    lemma_parse_options_at(s, i + 1 + crate::ser::field_head(name).len(), v);
}

/// A serialized checks-array field parses back to exactly its value.
#[verifier::rlimit(100)]
#[verifier::spinoff_prover]
proof fn lemma_field_checks_at(
    s: Seq<u8>,
    i: int,
    lead: u8,
    name: Seq<char>,
    v: Seq<crate::dialogue::CheckV>,
)
    requires
        0 <= i,
        forall|k: int| 0 <= k < v.len() ==> crate::dialogue::check_bounded(#[trigger] v[k]),
        i + 1 + crate::ser::field_head(name).len() + crate::ser::ser_array(
            v,
            crate::ser::ser_check_fn(),
        ).len() <= s.len(),
        s.subrange(
            i,
            i + 1 + crate::ser::field_head(name).len() + crate::ser::ser_array(
                v,
                crate::ser::ser_check_fn(),
            ).len(),
        ) == seq![lead] + (crate::ser::field_head(name) + crate::ser::ser_array(
            v,
            crate::ser::ser_check_fn(),
        )),
    ensures
        crate::parse::spec_field_checks(s, i, lead, name) == Some(
            (
                v,
                i + 1 + crate::ser::field_head(name).len() + crate::ser::ser_array(
                    v,
                    crate::ser::ser_check_fn(),
                ).len(),
            ),
        ),
{
    let arr = crate::ser::ser_array(v, crate::ser::ser_check_fn());
    lemma_subrange_split(s, i, seq![lead], crate::ser::field_head(name) + arr);
    lemma_subrange_split(s, i + 1, crate::ser::field_head(name), arr);
    lemma_subrange_join(s, i, seq![lead], crate::ser::field_head(name));
    lemma_parse_checks_at(s, i + 1 + crate::ser::field_head(name).len(), v);
}


/// A serialized option parses back to exactly itself.
#[verifier::rlimit(100)]
#[verifier::spinoff_prover]
proof fn lemma_parse_option_at(s: Seq<u8>, i: int, o: crate::dialogue::OptionV)
    requires
        0 <= i,
        crate::dialogue::option_bounded(o),
        i + crate::ser::ser_option(o).len() <= s.len(),
        s.subrange(i, i + crate::ser::ser_option(o).len()) == crate::ser::ser_option(o),
    ensures
        crate::parse::spec_parse_option(s, i) == Some((o, i + crate::ser::ser_option(o).len())),
        crate::ser::ser_option(o).len() >= 1,
        crate::ser::ser_option(o)[0] == 123,
{
    reveal(crate::ser::ser_option);
    let t1 = seq![123u8];
    let t2 = crate::ser::field("description"@, ser_str(o.description));
    let t3 = seq![44u8];
    let t4 = crate::ser::field("challenge_attribute"@, crate::ser::ser_opt_str(o.challenge_attribute));
    let t5 = seq![44u8];
    let t6 = crate::ser::field("challenge_number"@, crate::ser::ser_opt_int(o.challenge_number));
    let t7 = seq![44u8];
    let t8 = crate::ser::field("success_dialogue"@, crate::ser::ser_opt_str(o.success_dialogue));
    let t9 = seq![44u8];
    let t10 = crate::ser::field("failure_dialogue"@, crate::ser::ser_opt_str(o.failure_dialogue));
    let t11 = seq![44u8];
    let t12 = crate::ser::field("item_to_pickup"@, crate::ser::ser_opt_str(o.item_to_pickup));
    let t13 = seq![44u8];
    let t14 = crate::ser::field("visible_when"@, crate::ser::ser_opt_str(o.visible_when));
    let t15 = seq![44u8];
    let t16 = crate::ser::field("flags"@, crate::ser::ser_opt_str_array(o.flags));
    let t17 = seq![125u8];
    let p1 = t1;
    let p2 = p1 + t2;
    let p3 = p2 + t3;
    let p4 = p3 + t4;
    let p5 = p4 + t5;
    let p6 = p5 + t6;
    let p7 = p6 + t7;
    let p8 = p7 + t8;
    let p9 = p8 + t9;
    let p10 = p9 + t10;
    let p11 = p10 + t11;
    let p12 = p11 + t12;
    let p13 = p12 + t13;
    let p14 = p13 + t14;
    let p15 = p14 + t15;
    let p16 = p15 + t16;
    let p17 = p16 + t17;
    assert(crate::ser::ser_option(o) == p17);
    lemma_subrange_split(s, i, p16, t17);
    lemma_subrange_split(s, i, p15, t16);
    lemma_subrange_split(s, i, p14, t15);
    lemma_subrange_split(s, i, p13, t14);
    lemma_subrange_split(s, i, p12, t13);
    lemma_subrange_split(s, i, p11, t12);
    lemma_subrange_split(s, i, p10, t11);
    lemma_subrange_split(s, i, p9, t10);
    lemma_subrange_split(s, i, p8, t9);
    lemma_subrange_split(s, i, p7, t8);
    lemma_subrange_split(s, i, p6, t7);
    lemma_subrange_split(s, i, p5, t6);
    lemma_subrange_split(s, i, p4, t5);
    lemma_subrange_split(s, i, p3, t4);
    lemma_subrange_split(s, i, p2, t3);
    lemma_subrange_split(s, i, p1, t2);
    // field description
    lemma_subrange_join(s, i, t1, t2);
    lemma_field_str_at(s, i, 123, "description"@, o.description);
    // field challenge_attribute
    lemma_subrange_join(s, i + p2.len(), t3, t4);
    lemma_field_opt_str_at(s, i + p2.len(), 44, "challenge_attribute"@, o.challenge_attribute);
    // field challenge_number
    lemma_subrange_join(s, i + p4.len(), t5, t6);
    assert(s[i + p6.len()] == s.subrange(i + p6.len(), i + p6.len() + 1)[0]);
    lemma_field_opt_int_at(s, i + p4.len(), 44, "challenge_number"@, o.challenge_number);
    // field success_dialogue
    lemma_subrange_join(s, i + p6.len(), t7, t8);
    lemma_field_opt_str_at(s, i + p6.len(), 44, "success_dialogue"@, o.success_dialogue);
    // field failure_dialogue
    lemma_subrange_join(s, i + p8.len(), t9, t10);
    lemma_field_opt_str_at(s, i + p8.len(), 44, "failure_dialogue"@, o.failure_dialogue);
    // field item_to_pickup
    lemma_subrange_join(s, i + p10.len(), t11, t12);
    lemma_field_opt_str_at(s, i + p10.len(), 44, "item_to_pickup"@, o.item_to_pickup);
    // field visible_when
    lemma_subrange_join(s, i + p12.len(), t13, t14);
    lemma_field_opt_str_at(s, i + p12.len(), 44, "visible_when"@, o.visible_when);
    // field flags
    lemma_subrange_join(s, i + p14.len(), t15, t16);
    lemma_field_opt_str_array_at(s, i + p14.len(), 44, "flags"@, o.flags);
    assert(p17[0] == p16[0]);
    assert(p16[0] == p15[0]);
    assert(p15[0] == p14[0]);
    assert(p14[0] == p13[0]);
    assert(p13[0] == p12[0]);
    assert(p12[0] == p11[0]);
    assert(p11[0] == p10[0]);
    assert(p10[0] == p9[0]);
    assert(p9[0] == p8[0]);
    assert(p8[0] == p7[0]);
    assert(p7[0] == p6[0]);
    assert(p6[0] == p5[0]);
    assert(p5[0] == p4[0]);
    assert(p4[0] == p3[0]);
    assert(p3[0] == p2[0]);
    assert(p2[0] == p1[0]);
    assert(p1[0] == 123);
    let r = crate::parse::spec_parse_option(s, i);
    assert(r is Some);
    assert(r.unwrap().0 =~= o);
    assert(r.unwrap().1 == i + crate::ser::ser_option(o).len());
    assert(r == Some((o, i + crate::ser::ser_option(o).len())));
}

/// The serialized tail of an array parses back to exactly the remaining
/// elements, appended to what was read so far.
#[verifier::rlimit(100)]
#[verifier::spinoff_prover]
proof fn lemma_parse_options_more_at(s: Seq<u8>, i: int, rest: Seq<crate::dialogue::OptionV>, acc: Seq<crate::dialogue::OptionV>)
    requires
        0 <= i,
        forall|k: int| 0 <= k < rest.len() ==> crate::dialogue::option_bounded(#[trigger] rest[k]),
        i + crate::ser::ser_tail(rest, crate::ser::ser_option_fn()).len() + 1 <= s.len(),
        s.subrange(i, i + crate::ser::ser_tail(rest, crate::ser::ser_option_fn()).len() + 1) == crate::ser::ser_tail(
            rest,
            crate::ser::ser_option_fn(),
        ) + seq![93u8],
    ensures
        crate::parse::spec_parse_options_more(s, i, acc) == Some(
            (acc + rest, i + crate::ser::ser_tail(rest, crate::ser::ser_option_fn()).len() + 1),
        ),
    decreases rest.len(),
{
    let f = crate::ser::ser_option_fn();
    if rest.len() == 0 {
        assert(crate::ser::ser_tail(rest, f) =~= Seq::<u8>::empty());
        assert(s[i] == (crate::ser::ser_tail(rest, f) + seq![93u8])[0]);
        assert(s[i] == 93);
        assert(acc + rest =~= acc);
    } else {
        let r0 = rest[0];
        assert(crate::dialogue::option_bounded(rest[0]));
        let tail2 = crate::ser::ser_tail(rest.drop_first(), f);
        assert(crate::ser::ser_tail(rest, f) == seq![44u8] + f(r0) + tail2);
        assert(f(r0) == crate::ser::ser_option(r0));
        lemma_cassoc3(seq![44u8], crate::ser::ser_option(r0), tail2, seq![93u8]);
        assert(crate::ser::ser_tail(rest, f) + seq![93u8] == seq![44u8] + (crate::ser::ser_option(r0) + (tail2
            + seq![93u8])));
        lemma_subrange_split(s, i, seq![44u8], crate::ser::ser_option(r0) + (tail2 + seq![93u8]));
        assert(s[i] == s.subrange(i, i + 1)[0]);
        lemma_subrange_split(s, i + 1, crate::ser::ser_option(r0), tail2 + seq![93u8]);
        lemma_parse_option_at(s, i + 1, r0);
        let j = i + 1 + crate::ser::ser_option(r0).len();
        assert forall|k: int| 0 <= k < rest.drop_first().len() implies crate::dialogue::option_bounded(
            #[trigger] rest.drop_first()[k],
        ) by {
            assert(rest.drop_first()[k] == rest[k + 1]);
        }
        lemma_parse_options_more_at(s, j, rest.drop_first(), acc.push(r0));
        assert(acc.push(r0) + rest.drop_first() =~= acc + rest);
    }
}

/// A serialized array parses back to exactly its elements.
#[verifier::rlimit(100)]
#[verifier::spinoff_prover]
proof fn lemma_parse_options_at(s: Seq<u8>, i: int, v: Seq<crate::dialogue::OptionV>)
    requires
        0 <= i,
        forall|k: int| 0 <= k < v.len() ==> crate::dialogue::option_bounded(#[trigger] v[k]),
        i + crate::ser::ser_array(v, crate::ser::ser_option_fn()).len() <= s.len(),
        s.subrange(i, i + crate::ser::ser_array(v, crate::ser::ser_option_fn()).len()) == crate::ser::ser_array(
            v,
            crate::ser::ser_option_fn(),
        ),
    ensures
        crate::parse::spec_parse_options(s, i) == Some((v, i + crate::ser::ser_array(v, crate::ser::ser_option_fn()).len())),
{
    let f = crate::ser::ser_option_fn();
    let items = crate::ser::ser_items(v, f);
    lemma_cassoc(seq![91u8], items, seq![93u8]);
    assert(crate::ser::ser_array(v, f) == seq![91u8] + (items + seq![93u8]));
    lemma_subrange_split(s, i, seq![91u8], items + seq![93u8]);
    assert(s[i] == s.subrange(i, i + 1)[0]);
    if v.len() == 0 {
        assert(items =~= Seq::<u8>::empty());
        assert(s[i + 1] == s.subrange(i + 1, i + 2)[0]);
        assert(s[i + 1] == 93);
    } else {
        let tail = crate::ser::ser_tail(v.drop_first(), f);
        assert(items == f(v[0]) + tail);
        assert(f(v[0]) == crate::ser::ser_option(v[0]));
        lemma_cassoc(crate::ser::ser_option(v[0]), tail, seq![93u8]);
        assert(items + seq![93u8] == crate::ser::ser_option(v[0]) + (tail + seq![93u8]));
        lemma_subrange_split(s, i + 1, crate::ser::ser_option(v[0]), tail + seq![93u8]);
        assert(crate::dialogue::option_bounded(v[0]));
        lemma_parse_option_at(s, i + 1, v[0]);
        assert(s[i + 1] == s.subrange(i + 1, i + 1 + crate::ser::ser_option(v[0]).len())[0]);
        assert(s[i + 1] != 93);
        let j = i + 1 + crate::ser::ser_option(v[0]).len();
        assert forall|k: int| 0 <= k < v.drop_first().len() implies crate::dialogue::option_bounded(
            #[trigger] v.drop_first()[k],
        ) by {
            assert(v.drop_first()[k] == v[k + 1]);
        }
        lemma_parse_options_more_at(s, j, v.drop_first(), seq![v[0]]);
        assert(seq![v[0]] + v.drop_first() =~= v);
    }
}


/// A serialized passive check parses back to exactly itself.
#[verifier::rlimit(100)]
#[verifier::spinoff_prover]
proof fn lemma_parse_check_at(s: Seq<u8>, i: int, o: crate::dialogue::CheckV)
    requires
        0 <= i,
        crate::dialogue::check_bounded(o),
        i + crate::ser::ser_check(o).len() <= s.len(),
        s.subrange(i, i + crate::ser::ser_check(o).len()) == crate::ser::ser_check(o),
    ensures
        crate::parse::spec_parse_check(s, i) == Some((o, i + crate::ser::ser_check(o).len())),
        crate::ser::ser_check(o).len() >= 1,
        crate::ser::ser_check(o)[0] == 123,
{
    reveal(crate::ser::ser_check);
    let t1 = seq![123u8];
    let t2 = crate::ser::field("skill"@, ser_str(o.skill));
    let t3 = seq![44u8];
    let t4 = crate::ser::field("target"@, ser_int(o.target));
    let t5 = seq![44u8];
    let t6 = crate::ser::field("success_text"@, crate::ser::ser_opt_str(o.success_text));
    let t7 = seq![44u8];
    let t8 = crate::ser::field("failure_text"@, crate::ser::ser_opt_str(o.failure_text));
    let t9 = seq![44u8];
    let t10 = crate::ser::field("speaker"@, crate::ser::ser_opt_str(o.speaker));
    let t11 = seq![125u8];
    let p1 = t1;
    let p2 = p1 + t2;
    let p3 = p2 + t3;
    let p4 = p3 + t4;
    let p5 = p4 + t5;
    let p6 = p5 + t6;
    let p7 = p6 + t7;
    let p8 = p7 + t8;
    let p9 = p8 + t9;
    let p10 = p9 + t10;
    let p11 = p10 + t11;
    assert(crate::ser::ser_check(o) == p11);
    lemma_subrange_split(s, i, p10, t11);
    lemma_subrange_split(s, i, p9, t10);
    lemma_subrange_split(s, i, p8, t9);
    lemma_subrange_split(s, i, p7, t8);
    lemma_subrange_split(s, i, p6, t7);
    lemma_subrange_split(s, i, p5, t6);
    lemma_subrange_split(s, i, p4, t5);
    lemma_subrange_split(s, i, p3, t4);
    lemma_subrange_split(s, i, p2, t3);
    lemma_subrange_split(s, i, p1, t2);
    // field skill
    lemma_subrange_join(s, i, t1, t2);
    lemma_field_str_at(s, i, 123, "skill"@, o.skill);
    // field target
    lemma_subrange_join(s, i + p2.len(), t3, t4);
    assert(s[i + p4.len()] == s.subrange(i + p4.len(), i + p4.len() + 1)[0]);
    lemma_field_int_at(s, i + p2.len(), 44, "target"@, o.target);
    // field success_text
    lemma_subrange_join(s, i + p4.len(), t5, t6);
    lemma_field_opt_str_at(s, i + p4.len(), 44, "success_text"@, o.success_text);
    // field failure_text
    lemma_subrange_join(s, i + p6.len(), t7, t8);
    lemma_field_opt_str_at(s, i + p6.len(), 44, "failure_text"@, o.failure_text);
    // field speaker
    lemma_subrange_join(s, i + p8.len(), t9, t10);
    lemma_field_opt_str_at(s, i + p8.len(), 44, "speaker"@, o.speaker);
    assert(p11[0] == p10[0]);
    assert(p10[0] == p9[0]);
    assert(p9[0] == p8[0]);
    assert(p8[0] == p7[0]);
    assert(p7[0] == p6[0]);
    assert(p6[0] == p5[0]);
    assert(p5[0] == p4[0]);
    assert(p4[0] == p3[0]);
    assert(p3[0] == p2[0]);
    assert(p2[0] == p1[0]);
    assert(p1[0] == 123);
    let r = crate::parse::spec_parse_check(s, i);
    assert(r is Some);
    assert(r.unwrap().0 =~= o);
    assert(r.unwrap().1 == i + crate::ser::ser_check(o).len());
    assert(r == Some((o, i + crate::ser::ser_check(o).len())));
}

/// The serialized tail of an array parses back to exactly the remaining
/// elements, appended to what was read so far.
#[verifier::rlimit(100)]
#[verifier::spinoff_prover]
proof fn lemma_parse_checks_more_at(s: Seq<u8>, i: int, rest: Seq<crate::dialogue::CheckV>, acc: Seq<crate::dialogue::CheckV>)
    requires
        0 <= i,
        forall|k: int| 0 <= k < rest.len() ==> crate::dialogue::check_bounded(#[trigger] rest[k]),
        i + crate::ser::ser_tail(rest, crate::ser::ser_check_fn()).len() + 1 <= s.len(),
        s.subrange(i, i + crate::ser::ser_tail(rest, crate::ser::ser_check_fn()).len() + 1) == crate::ser::ser_tail(
            rest,
            crate::ser::ser_check_fn(),
        ) + seq![93u8],
    ensures
        crate::parse::spec_parse_checks_more(s, i, acc) == Some(
            (acc + rest, i + crate::ser::ser_tail(rest, crate::ser::ser_check_fn()).len() + 1),
        ),
    decreases rest.len(),
{
    let f = crate::ser::ser_check_fn();
    if rest.len() == 0 {
        assert(crate::ser::ser_tail(rest, f) =~= Seq::<u8>::empty());
        assert(s[i] == (crate::ser::ser_tail(rest, f) + seq![93u8])[0]);
        assert(s[i] == 93);
        assert(acc + rest =~= acc);
    } else {
        let r0 = rest[0];
        assert(crate::dialogue::check_bounded(rest[0]));
        let tail2 = crate::ser::ser_tail(rest.drop_first(), f);
        assert(crate::ser::ser_tail(rest, f) == seq![44u8] + f(r0) + tail2);
        assert(f(r0) == crate::ser::ser_check(r0));
        lemma_cassoc3(seq![44u8], crate::ser::ser_check(r0), tail2, seq![93u8]);
        assert(crate::ser::ser_tail(rest, f) + seq![93u8] == seq![44u8] + (crate::ser::ser_check(r0) + (tail2
            + seq![93u8])));
        lemma_subrange_split(s, i, seq![44u8], crate::ser::ser_check(r0) + (tail2 + seq![93u8]));
        assert(s[i] == s.subrange(i, i + 1)[0]);
        lemma_subrange_split(s, i + 1, crate::ser::ser_check(r0), tail2 + seq![93u8]);
        lemma_parse_check_at(s, i + 1, r0);
        let j = i + 1 + crate::ser::ser_check(r0).len();
        assert forall|k: int| 0 <= k < rest.drop_first().len() implies crate::dialogue::check_bounded(
            #[trigger] rest.drop_first()[k],
        ) by {
            assert(rest.drop_first()[k] == rest[k + 1]);
        }
        lemma_parse_checks_more_at(s, j, rest.drop_first(), acc.push(r0));
        assert(acc.push(r0) + rest.drop_first() =~= acc + rest);
    }
}

/// A serialized array parses back to exactly its elements.
#[verifier::rlimit(100)]
#[verifier::spinoff_prover]
proof fn lemma_parse_checks_at(s: Seq<u8>, i: int, v: Seq<crate::dialogue::CheckV>)
    requires
        0 <= i,
        forall|k: int| 0 <= k < v.len() ==> crate::dialogue::check_bounded(#[trigger] v[k]),
        i + crate::ser::ser_array(v, crate::ser::ser_check_fn()).len() <= s.len(),
        s.subrange(i, i + crate::ser::ser_array(v, crate::ser::ser_check_fn()).len()) == crate::ser::ser_array(
            v,
            crate::ser::ser_check_fn(),
        ),
    ensures
        crate::parse::spec_parse_checks(s, i) == Some((v, i + crate::ser::ser_array(v, crate::ser::ser_check_fn()).len())),
{
    let f = crate::ser::ser_check_fn();
    let items = crate::ser::ser_items(v, f);
    lemma_cassoc(seq![91u8], items, seq![93u8]);
    assert(crate::ser::ser_array(v, f) == seq![91u8] + (items + seq![93u8]));
    lemma_subrange_split(s, i, seq![91u8], items + seq![93u8]);
    assert(s[i] == s.subrange(i, i + 1)[0]);
    if v.len() == 0 {
        assert(items =~= Seq::<u8>::empty());
        assert(s[i + 1] == s.subrange(i + 1, i + 2)[0]);
        assert(s[i + 1] == 93);
    } else {
        let tail = crate::ser::ser_tail(v.drop_first(), f);
        assert(items == f(v[0]) + tail);
        assert(f(v[0]) == crate::ser::ser_check(v[0]));
        lemma_cassoc(crate::ser::ser_check(v[0]), tail, seq![93u8]);
        assert(items + seq![93u8] == crate::ser::ser_check(v[0]) + (tail + seq![93u8]));
        lemma_subrange_split(s, i + 1, crate::ser::ser_check(v[0]), tail + seq![93u8]);
        assert(crate::dialogue::check_bounded(v[0]));
        lemma_parse_check_at(s, i + 1, v[0]);
        assert(s[i + 1] == s.subrange(i + 1, i + 1 + crate::ser::ser_check(v[0]).len())[0]);
        assert(s[i + 1] != 93);
        let j = i + 1 + crate::ser::ser_check(v[0]).len();
        assert forall|k: int| 0 <= k < v.drop_first().len() implies crate::dialogue::check_bounded(
            #[trigger] v.drop_first()[k],
        ) by {
            assert(v.drop_first()[k] == v[k + 1]);
        }
        lemma_parse_checks_more_at(s, j, v.drop_first(), seq![v[0]]);
        assert(seq![v[0]] + v.drop_first() =~= v);
    }
}


/// Positions of the field boundaries inside a serialized dialogue.
pub open spec fn dpos1(i: int, o: DialogueV) -> int {
    i + 1 + crate::ser::field_head("speaker"@).len() + ser_str(o.speaker).len()
}

pub open spec fn dpos2(i: int, o: DialogueV) -> int {
    dpos1(i, o) + 1 + crate::ser::field_head("intro"@).len() + ser_str(o.intro).len()
}

pub open spec fn dpos3(i: int, o: DialogueV) -> int {
    dpos2(i, o) + 1 + crate::ser::field_head("options"@).len() + crate::ser::ser_array(
        o.options,
        crate::ser::ser_option_fn(),
    ).len()
}

pub open spec fn dpos4(i: int, o: DialogueV) -> int {
    dpos3(i, o) + 1 + crate::ser::field_head("passive_check"@).len() + crate::ser::ser_array(
        o.passive_check,
        crate::ser::ser_check_fn(),
    ).len()
}

pub open spec fn dpos5(i: int, o: DialogueV) -> int {
    dpos4(i, o) + 1 + crate::ser::field_head("xp_reward"@).len() + crate::ser::ser_opt_int(
        o.xp_reward,
    ).len()
}

pub open spec fn dpos6(i: int, o: DialogueV) -> int {
    dpos5(i, o) + 1 + crate::ser::field_head("is_hidden"@).len() + crate::ser::ser_bool(
        o.is_hidden,
    ).len()
}

pub open spec fn dpos7(i: int, o: DialogueV) -> int {
    dpos6(i, o) + 1 + crate::ser::field_head("time"@).len() + crate::ser::ser_opt_int(o.time).len()
}

/// Small reassociation step for byte sequences.
proof fn lemma_cassoc(x: Seq<u8>, a: Seq<u8>, b: Seq<u8>)
    ensures
        (x + a) + b == x + (a + b),
{
    assert((x + a) + b =~= x + (a + b));
}

/// Reassociation of a four-piece concatenation.
proof fn lemma_cassoc3(a: Seq<u8>, b: Seq<u8>, c: Seq<u8>, d: Seq<u8>)
    ensures
        ((a + b) + c) + d == a + (b + (c + d)),
{
    assert(((a + b) + c) + d =~= a + (b + (c + d)));
}

/// A serialized dialogue, regrouped so that each field can be peeled
/// off the front.
#[verifier::rlimit(50)]
proof fn lemma_dialogue_regroup(o: DialogueV)
    ensures
        crate::ser::ser_dialogue(o) == seq![123u8] + (crate::ser::field(
            "speaker"@,
            ser_str(o.speaker),
        ) + (seq![44u8] + (crate::ser::field("intro"@, ser_str(o.intro)) + (seq![44u8] + (
        crate::ser::field("options"@, crate::ser::ser_array(o.options, crate::ser::ser_option_fn()))
            + (seq![44u8] + (crate::ser::field(
            "passive_check"@,
            crate::ser::ser_array(o.passive_check, crate::ser::ser_check_fn()),
        ) + (seq![44u8] + (crate::ser::field("xp_reward"@, crate::ser::ser_opt_int(o.xp_reward)) + (
        seq![44u8] + (crate::ser::field("is_hidden"@, crate::ser::ser_bool(o.is_hidden)) + (
        seq![44u8] + (crate::ser::field("time"@, crate::ser::ser_opt_int(o.time))
            + seq![125u8]))))))))))))),
{
    reveal(crate::ser::ser_dialogue);
    let t1 = seq![123u8];
    let t2 = crate::ser::field("speaker"@, ser_str(o.speaker));
    let t3 = seq![44u8];
    let t4 = crate::ser::field("intro"@, ser_str(o.intro));
    let t5 = seq![44u8];
    let t6 = crate::ser::field("options"@, crate::ser::ser_array(o.options, crate::ser::ser_option_fn()));
    let t7 = seq![44u8];
    let t8 = crate::ser::field("passive_check"@, crate::ser::ser_array(o.passive_check, crate::ser::ser_check_fn()));
    let t9 = seq![44u8];
    let t10 = crate::ser::field("xp_reward"@, crate::ser::ser_opt_int(o.xp_reward));
    let t11 = seq![44u8];
    let t12 = crate::ser::field("is_hidden"@, crate::ser::ser_bool(o.is_hidden));
    let t13 = seq![44u8];
    let t14 = crate::ser::field("time"@, crate::ser::ser_opt_int(o.time));
    let t15 = seq![125u8];
    let p1 = t1;
    let p2 = p1 + t2;
    let p3 = p2 + t3;
    let p4 = p3 + t4;
    let p5 = p4 + t5;
    let p6 = p5 + t6;
    let p7 = p6 + t7;
    let p8 = p7 + t8;
    let p9 = p8 + t9;
    let p10 = p9 + t10;
    let p11 = p10 + t11;
    let p12 = p11 + t12;
    let p13 = p12 + t13;
    let p14 = p13 + t14;
    let p15 = p14 + t15;
    let s15 = t15;
    let s14 = t14 + s15;
    let s13 = t13 + s14;
    let s12 = t12 + s13;
    let s11 = t11 + s12;
    let s10 = t10 + s11;
    let s9 = t9 + s10;
    let s8 = t8 + s9;
    let s7 = t7 + s8;
    let s6 = t6 + s7;
    let s5 = t5 + s6;
    let s4 = t4 + s5;
    let s3 = t3 + s4;
    let s2 = t2 + s3;
    assert(crate::ser::ser_dialogue(o) == p15);
    lemma_cassoc(p13, t14, s15);
    lemma_cassoc(p12, t13, s14);
    lemma_cassoc(p11, t12, s13);
    lemma_cassoc(p10, t11, s12);
    lemma_cassoc(p9, t10, s11);
    lemma_cassoc(p8, t9, s10);
    lemma_cassoc(p7, t8, s9);
    lemma_cassoc(p6, t7, s8);
    lemma_cassoc(p5, t6, s7);
    lemma_cassoc(p4, t5, s6);
    lemma_cassoc(p3, t4, s5);
    lemma_cassoc(p2, t3, s4);
    assert(crate::ser::ser_dialogue(o) == t1 + s2);
}

/// The speaker and intro fields of a serialized dialogue parse back to
/// their own values; what remains after them is the serialized rest.
#[verifier::rlimit(100)]
#[verifier::spinoff_prover]
proof fn lemma_dialogue_fields_front1(s: Seq<u8>, i: int, o: DialogueV)
    requires
        0 <= i,
        crate::dialogue::dialogue_bounded(o),
        i + crate::ser::ser_dialogue(o).len() <= s.len(),
        s.subrange(i, i + crate::ser::ser_dialogue(o).len()) == crate::ser::ser_dialogue(o),
    ensures
        crate::parse::spec_field_str(s, i, 123, "speaker"@) == Some((o.speaker, dpos1(i, o))),
        crate::parse::spec_field_str(s, dpos1(i, o), 44, "intro"@) == Some((o.intro, dpos2(i, o))),
        s.subrange(dpos2(i, o), i + crate::ser::ser_dialogue(o).len()) == seq![44u8] + (crate::ser::field("options"@, crate::ser::ser_array(o.options, crate::ser::ser_option_fn())) + (seq![44u8] + (crate::ser::field("passive_check"@, crate::ser::ser_array(o.passive_check, crate::ser::ser_check_fn())) + (seq![44u8] + (crate::ser::field("xp_reward"@, crate::ser::ser_opt_int(o.xp_reward)) + (seq![44u8] + (crate::ser::field("is_hidden"@, crate::ser::ser_bool(o.is_hidden)) + (seq![44u8] + (crate::ser::field("time"@, crate::ser::ser_opt_int(o.time)) + (seq![125u8])))))))))),
{
    let t1 = seq![123u8];
    let t2 = crate::ser::field("speaker"@, ser_str(o.speaker));
    let t3 = seq![44u8];
    let t4 = crate::ser::field("intro"@, ser_str(o.intro));
    let t5 = seq![44u8];
    let t6 = crate::ser::field("options"@, crate::ser::ser_array(o.options, crate::ser::ser_option_fn()));
    let t7 = seq![44u8];
    let t8 = crate::ser::field("passive_check"@, crate::ser::ser_array(o.passive_check, crate::ser::ser_check_fn()));
    let t9 = seq![44u8];
    let t10 = crate::ser::field("xp_reward"@, crate::ser::ser_opt_int(o.xp_reward));
    let t11 = seq![44u8];
    let t12 = crate::ser::field("is_hidden"@, crate::ser::ser_bool(o.is_hidden));
    let t13 = seq![44u8];
    let t14 = crate::ser::field("time"@, crate::ser::ser_opt_int(o.time));
    let t15 = seq![125u8];
    let s15 = t15;
    let s14 = t14 + s15;
    let s13 = t13 + s14;
    let s12 = t12 + s13;
    let s11 = t11 + s12;
    let s10 = t10 + s11;
    let s9 = t9 + s10;
    let s8 = t8 + s9;
    let s7 = t7 + s8;
    let s6 = t6 + s7;
    let s5 = t5 + s6;
    let s4 = t4 + s5;
    let s3 = t3 + s4;
    let s2 = t2 + s3;
    lemma_dialogue_regroup(o);
    assert(crate::ser::ser_dialogue(o) == t1 + s2);
    let q1 = i;
    lemma_subrange_split(s, q1, t1, s2);
    let q2 = q1 + t1.len();
    lemma_subrange_split(s, q2, t2, s3);
    let q3 = q2 + t2.len();
    lemma_subrange_split(s, q3, t3, s4);
    let q4 = q3 + t3.len();
    lemma_subrange_split(s, q4, t4, s5);
    let q5 = q4 + t4.len();
    // field speaker
    lemma_subrange_join(s, q1, t1, t2);
    lemma_field_str_at(s, q1, 123, "speaker"@, o.speaker);
    // field intro
    lemma_subrange_join(s, q3, t3, t4);
    lemma_field_str_at(s, q3, 44, "intro"@, o.intro);
    assert(q3 == dpos1(i, o));
    assert(q5 == dpos2(i, o));
    assert(s.subrange(q5, i + crate::ser::ser_dialogue(o).len()) == s5);
}

/// The options and passive-check fields of a serialized dialogue parse
/// back to their own values; what remains is the serialized tail.
#[verifier::rlimit(100)]
#[verifier::spinoff_prover]
proof fn lemma_dialogue_fields_front2(s: Seq<u8>, i: int, o: DialogueV)
    requires
        0 <= i <= dpos2(i, o),
        crate::dialogue::dialogue_bounded(o),
        dpos2(i, o) <= i + crate::ser::ser_dialogue(o).len() <= s.len(),
        s.subrange(dpos2(i, o), i + crate::ser::ser_dialogue(o).len()) == seq![44u8] + (crate::ser::field("options"@, crate::ser::ser_array(o.options, crate::ser::ser_option_fn())) + (seq![44u8] + (crate::ser::field("passive_check"@, crate::ser::ser_array(o.passive_check, crate::ser::ser_check_fn())) + (seq![44u8] + (crate::ser::field("xp_reward"@, crate::ser::ser_opt_int(o.xp_reward)) + (seq![44u8] + (crate::ser::field("is_hidden"@, crate::ser::ser_bool(o.is_hidden)) + (seq![44u8] + (crate::ser::field("time"@, crate::ser::ser_opt_int(o.time)) + (seq![125u8])))))))))),
        i + crate::ser::ser_dialogue(o).len() == dpos2(i, o) + (seq![44u8] + (crate::ser::field("options"@, crate::ser::ser_array(o.options, crate::ser::ser_option_fn())) + (seq![44u8] + (crate::ser::field("passive_check"@, crate::ser::ser_array(o.passive_check, crate::ser::ser_check_fn())) + (seq![44u8] + (crate::ser::field("xp_reward"@, crate::ser::ser_opt_int(o.xp_reward)) + (seq![44u8] + (crate::ser::field("is_hidden"@, crate::ser::ser_bool(o.is_hidden)) + (seq![44u8] + (crate::ser::field("time"@, crate::ser::ser_opt_int(o.time)) + (seq![125u8]))))))))))).len(),
    ensures
        crate::parse::spec_field_options(s, dpos2(i, o), 44, "options"@) == Some(
            (o.options, dpos3(i, o)),
        ),
        crate::parse::spec_field_checks(s, dpos3(i, o), 44, "passive_check"@) == Some(
            (o.passive_check, dpos4(i, o)),
        ),
        s.subrange(dpos4(i, o), i + crate::ser::ser_dialogue(o).len()) == seq![44u8] + (crate::ser::field("xp_reward"@, crate::ser::ser_opt_int(o.xp_reward)) + (seq![44u8] + (crate::ser::field("is_hidden"@, crate::ser::ser_bool(o.is_hidden)) + (seq![44u8] + (crate::ser::field("time"@, crate::ser::ser_opt_int(o.time)) + (seq![125u8])))))),
{
    let t5 = seq![44u8];
    let t6 = crate::ser::field("options"@, crate::ser::ser_array(o.options, crate::ser::ser_option_fn()));
    let t7 = seq![44u8];
    let t8 = crate::ser::field("passive_check"@, crate::ser::ser_array(o.passive_check, crate::ser::ser_check_fn()));
    let t9 = seq![44u8];
    let t10 = crate::ser::field("xp_reward"@, crate::ser::ser_opt_int(o.xp_reward));
    let t11 = seq![44u8];
    let t12 = crate::ser::field("is_hidden"@, crate::ser::ser_bool(o.is_hidden));
    let t13 = seq![44u8];
    let t14 = crate::ser::field("time"@, crate::ser::ser_opt_int(o.time));
    let t15 = seq![125u8];
    let s15 = t15;
    let s14 = t14 + s15;
    let s13 = t13 + s14;
    let s12 = t12 + s13;
    let s11 = t11 + s12;
    let s10 = t10 + s11;
    let s9 = t9 + s10;
    let s8 = t8 + s9;
    let s7 = t7 + s8;
    let s6 = t6 + s7;
    let s5 = t5 + s6;
    let q5 = dpos2(i, o);
    lemma_subrange_split(s, q5, t5, s6);
    let q6 = q5 + t5.len();
    lemma_subrange_split(s, q6, t6, s7);
    let q7 = q6 + t6.len();
    lemma_subrange_split(s, q7, t7, s8);
    let q8 = q7 + t7.len();
    lemma_subrange_split(s, q8, t8, s9);
    let q9 = q8 + t8.len();
    // field options
    lemma_subrange_join(s, q5, t5, t6);
    lemma_field_options_at(s, q5, 44, "options"@, o.options);
    // field passive_check
    lemma_subrange_join(s, q7, t7, t8);
    lemma_field_checks_at(s, q7, 44, "passive_check"@, o.passive_check);
    assert(q7 == dpos3(i, o));
    assert(q9 == dpos4(i, o));
    assert(s.subrange(q9, i + crate::ser::ser_dialogue(o).len()) == s9);
}

/// The trailing fields of a serialized dialogue parse back to their own
/// values, and the closing brace ends the object.
#[verifier::rlimit(100)]
#[verifier::spinoff_prover]
proof fn lemma_dialogue_fields_back(s: Seq<u8>, i: int, o: DialogueV)
    requires
        0 <= i <= dpos4(i, o),
        crate::dialogue::dialogue_bounded(o),
        dpos4(i, o) <= i + crate::ser::ser_dialogue(o).len() <= s.len(),
        s.subrange(dpos4(i, o), i + crate::ser::ser_dialogue(o).len()) == seq![44u8] + (
        crate::ser::field("xp_reward"@, crate::ser::ser_opt_int(o.xp_reward)) + (seq![44u8] + (
        crate::ser::field("is_hidden"@, crate::ser::ser_bool(o.is_hidden)) + (seq![44u8] + (
        crate::ser::field("time"@, crate::ser::ser_opt_int(o.time)) + seq![125u8]))))),
        i + crate::ser::ser_dialogue(o).len() == dpos4(i, o) + 1 + crate::ser::field(
            "xp_reward"@,
            crate::ser::ser_opt_int(o.xp_reward),
        ).len() + 1 + crate::ser::field("is_hidden"@, crate::ser::ser_bool(o.is_hidden)).len() + 1
            + crate::ser::field("time"@, crate::ser::ser_opt_int(o.time)).len() + 1,
    ensures
        crate::parse::spec_field_opt_int(s, dpos4(i, o), 44, "xp_reward"@) == Some(
            (o.xp_reward, dpos5(i, o)),
        ),
        crate::parse::spec_field_bool(s, dpos5(i, o), 44, "is_hidden"@) == Some(
            (o.is_hidden, dpos6(i, o)),
        ),
        crate::parse::spec_field_opt_int(s, dpos6(i, o), 44, "time"@) == Some(
            (o.time, dpos7(i, o)),
        ),
        expect(s, dpos7(i, o), seq![125u8]) == Some(i + crate::ser::ser_dialogue(o).len()),
{
    let t9 = seq![44u8];
    let t10 = crate::ser::field("xp_reward"@, crate::ser::ser_opt_int(o.xp_reward));
    let t11 = seq![44u8];
    let t12 = crate::ser::field("is_hidden"@, crate::ser::ser_bool(o.is_hidden));
    let t13 = seq![44u8];
    let t14 = crate::ser::field("time"@, crate::ser::ser_opt_int(o.time));
    let t15 = seq![125u8];
    let s15 = t15;
    let s14 = t14 + s15;
    let s13 = t13 + s14;
    let s12 = t12 + s13;
    let s11 = t11 + s12;
    let s10 = t10 + s11;
    let s9 = t9 + s10;
    let q9 = dpos4(i, o);
    lemma_subrange_split(s, q9, t9, s10);
    let q10 = q9 + t9.len();
    lemma_subrange_split(s, q10, t10, s11);
    let q11 = q10 + t10.len();
    lemma_subrange_split(s, q11, t11, s12);
    let q12 = q11 + t11.len();
    lemma_subrange_split(s, q12, t12, s13);
    let q13 = q12 + t12.len();
    lemma_subrange_split(s, q13, t13, s14);
    let q14 = q13 + t13.len();
    lemma_subrange_split(s, q14, t14, s15);
    let q15 = q14 + t14.len();
    // field xp_reward
    lemma_subrange_join(s, q9, t9, t10);
    assert(s[q11] == s.subrange(q11, q11 + 1)[0]);
    lemma_field_opt_int_at(s, q9, 44, "xp_reward"@, o.xp_reward);
    assert(q9 == dpos4(i, o));
    // field is_hidden
    lemma_subrange_join(s, q11, t11, t12);
    lemma_field_bool_at(s, q11, 44, "is_hidden"@, o.is_hidden);
    assert(q11 == dpos5(i, o));
    // field time
    lemma_subrange_join(s, q13, t13, t14);
    assert(s[q15] == s.subrange(q15, q15 + 1)[0]);
    lemma_field_opt_int_at(s, q13, 44, "time"@, o.time);
    assert(q13 == dpos6(i, o));
    assert(q15 == dpos7(i, o));
    assert(q15 + 1 == i + crate::ser::ser_dialogue(o).len());
}

/// A serialized dialogue parses back to exactly itself.
#[verifier::rlimit(100)]
#[verifier::spinoff_prover]
proof fn lemma_parse_dialogue_at(s: Seq<u8>, i: int, o: DialogueV)
    requires
        0 <= i,
        crate::dialogue::dialogue_bounded(o),
        i + crate::ser::ser_dialogue(o).len() <= s.len(),
        s.subrange(i, i + crate::ser::ser_dialogue(o).len()) == crate::ser::ser_dialogue(o),
    ensures
        crate::parse::spec_parse_dialogue(s, i) == Some((o, i + crate::ser::ser_dialogue(o).len())),
{
    lemma_dialogue_regroup(o);
    lemma_dialogue_fields_front1(s, i, o);
    lemma_dialogue_fields_front2(s, i, o);
    lemma_dialogue_fields_back(s, i, o);
    let r = crate::parse::spec_parse_dialogue(s, i);
    assert(r is Some);
    assert(r.unwrap().0 =~= o);
    assert(r.unwrap().1 == i + crate::ser::ser_dialogue(o).len());
    assert(r == Some((o, i + crate::ser::ser_dialogue(o).len())));
}


/// A serialized graph entry parses back to exactly itself.
#[verifier::rlimit(100)]
#[verifier::spinoff_prover]
proof fn lemma_parse_entry_at(s: Seq<u8>, i: int, e: (Seq<char>, DialogueV))
    requires
        0 <= i,
        crate::dialogue::dialogue_bounded(e.1),
        i + crate::ser::ser_entry(e).len() <= s.len(),
        s.subrange(i, i + crate::ser::ser_entry(e).len()) == crate::ser::ser_entry(e),
    ensures
        crate::parse::spec_parse_entry(s, i) == Some((e, i + crate::ser::ser_entry(e).len())),
        crate::ser::ser_entry(e).len() >= 1,
        crate::ser::ser_entry(e)[0] == 34,
{
    let a = ser_str(e.0);
    let b = seq![58u8];
    let c = crate::ser::ser_dialogue(e.1);
    assert(crate::ser::ser_entry(e) == (a + b) + c);
    lemma_cassoc(a, b, c);
    assert(crate::ser::ser_entry(e) == a + (b + c));
    lemma_subrange_split(s, i, a, b + c);
    lemma_subrange_split(s, i + a.len(), b, c);
    lemma_parse_string_at(s, i, e.0);
    assert(s.subrange(i + a.len(), i + a.len() + 1) == b);
    lemma_parse_dialogue_at(s, i + a.len() + 1, e.1);
    assert((e.0, e.1) == e);
    assert(a =~= seq![34u8] + (esc(encode_utf8(e.0)) + seq![34u8]));
    assert(a[0] == 34);
    assert(crate::ser::ser_entry(e)[0] == (a + (b + c))[0]);
}

/// When no key repeats across the whole sequence, the next entry's key
/// is fresh, and shifting it into the accumulator keeps that true.
proof fn lemma_unique_shift(acc: Seq<(Seq<char>, DialogueV)>, rest: Seq<(Seq<char>, DialogueV)>)
    requires
        rest.len() > 0,
        assoc_unique(acc + rest),
    ensures
        !crate::graph::assoc_has(acc, rest[0].0),
        acc.push(rest[0]) + rest.drop_first() == acc + rest,
        assoc_unique(acc.push(rest[0]) + rest.drop_first()),
{
    if crate::graph::assoc_has(acc, rest[0].0) {
        let k = choose|k: int| 0 <= k < acc.len() && acc[k].0 == rest[0].0;
        assert((acc + rest)[k] == acc[k]);
        assert((acc + rest)[acc.len() as int] == rest[0]);
    }
    assert(acc.push(rest[0]) + rest.drop_first() =~= acc + rest);
}

/// The serialized tail of a graph object parses back to exactly the
/// remaining entries, appended to what was read so far; no key repeats.
#[verifier::rlimit(100)]
#[verifier::spinoff_prover]
proof fn lemma_parse_graph_more_at(
    s: Seq<u8>,
    i: int,
    rest: Seq<(Seq<char>, DialogueV)>,
    acc: Seq<(Seq<char>, DialogueV)>,
)
    requires
        0 <= i,
        forall|k: int|
            0 <= k < rest.len() ==> crate::dialogue::dialogue_bounded(#[trigger] rest[k].1),
        assoc_unique(acc + rest),
        i + crate::ser::ser_tail(rest, crate::ser::ser_entry_fn()).len() + 1 <= s.len(),
        s.subrange(i, i + crate::ser::ser_tail(rest, crate::ser::ser_entry_fn()).len() + 1)
            == crate::ser::ser_tail(rest, crate::ser::ser_entry_fn()) + seq![125u8],
    ensures
        crate::parse::spec_parse_graph_more(s, i, acc) == Some(
            (acc + rest, i + crate::ser::ser_tail(rest, crate::ser::ser_entry_fn()).len() + 1),
        ),
    decreases rest.len(),
{
    let f = crate::ser::ser_entry_fn();
    if rest.len() == 0 {
        assert(crate::ser::ser_tail(rest, f) =~= Seq::<u8>::empty());
        assert(s[i] == (crate::ser::ser_tail(rest, f) + seq![125u8])[0]);
        assert(s[i] == 125);
        assert(acc + rest =~= acc);
    } else {
        let r0 = rest[0];
        assert(crate::dialogue::dialogue_bounded(rest[0].1));
        let tail2 = crate::ser::ser_tail(rest.drop_first(), f);
        assert(crate::ser::ser_tail(rest, f) == seq![44u8] + f(r0) + tail2);
        assert(f(r0) == crate::ser::ser_entry(r0));
        lemma_cassoc3(seq![44u8], crate::ser::ser_entry(r0), tail2, seq![125u8]);
        assert(crate::ser::ser_tail(rest, f) + seq![125u8] == seq![44u8] + (crate::ser::ser_entry(
            r0,
        ) + (tail2 + seq![125u8])));
        lemma_subrange_split(s, i, seq![44u8], crate::ser::ser_entry(r0) + (tail2 + seq![125u8]));
        assert(s[i] == s.subrange(i, i + 1)[0]);
        lemma_subrange_split(s, i + 1, crate::ser::ser_entry(r0), tail2 + seq![125u8]);
        lemma_parse_entry_at(s, i + 1, r0);
        lemma_unique_shift(acc, rest);
        let j = i + 1 + crate::ser::ser_entry(r0).len();
        assert forall|k: int|
            0 <= k < rest.drop_first().len() implies crate::dialogue::dialogue_bounded(
            #[trigger] rest.drop_first()[k].1,
        ) by {
            assert(rest.drop_first()[k] == rest[k + 1]);
        }
        lemma_parse_graph_more_at(s, j, rest.drop_first(), acc.push(r0));
    }
}

/// What the serializer writes for a well-formed graph, the parser reads
/// back unchanged: serialization round-trips.
#[verifier::rlimit(100)]
#[verifier::spinoff_prover]
pub proof fn lemma_parse_ser_graph(v: Seq<(Seq<char>, DialogueV)>)
    requires
        map_wf(v),
        crate::graph::graph_bounded(v),
    ensures
        spec_parse_graph(ser_graph(v)) == Some(v),
{
    let s = ser_graph(v);
    let f = crate::ser::ser_entry_fn();
    let items = crate::ser::ser_items(v, f);
    assert(s == (seq![123u8] + items) + seq![125u8]);
    lemma_cassoc(seq![123u8], items, seq![125u8]);
    assert(s == seq![123u8] + (items + seq![125u8]));
    assert(s.subrange(0, s.len() as int) =~= s);
    lemma_subrange_split(s, 0, seq![123u8], items + seq![125u8]);
    assert(s[0] == s.subrange(0, 1)[0]);
    if v.len() == 0 {
        assert(items =~= Seq::<u8>::empty());
        assert(s[1] == s.subrange(1, 2)[0]);
        assert(s[1] == 125);
        assert(s.len() == 2);
        assert(spec_parse_graph(s) == Some(Seq::<(Seq<char>, DialogueV)>::empty()));
        assert(v =~= Seq::<(Seq<char>, DialogueV)>::empty());
    } else {
        let tail = crate::ser::ser_tail(v.drop_first(), f);
        assert(items == f(v[0]) + tail);
        assert(f(v[0]) == crate::ser::ser_entry(v[0]));
        lemma_cassoc(crate::ser::ser_entry(v[0]), tail, seq![125u8]);
        assert(items + seq![125u8] == crate::ser::ser_entry(v[0]) + (tail + seq![125u8]));
        lemma_subrange_split(s, 1, crate::ser::ser_entry(v[0]), tail + seq![125u8]);
        assert(crate::dialogue::dialogue_bounded(v[0].1));
        lemma_parse_entry_at(s, 1, v[0]);
        let j: int = 1 + crate::ser::ser_entry(v[0]).len() as int;
        assert(s[1] == s.subrange(1, j)[0]);
        assert(s[1] == 34);
        assert forall|k: int|
            0 <= k < v.drop_first().len() implies crate::dialogue::dialogue_bounded(
            #[trigger] v.drop_first()[k].1,
        ) by {
            assert(v.drop_first()[k] == v[k + 1]);
        }
        assert(seq![v[0]] + v.drop_first() =~= v);
        lemma_parse_graph_more_at(s, j, v.drop_first(), seq![v[0]]);
        assert(spec_parse_graph(s) == Some(v));
    }
}

/// Saving a well-formed graph and loading the bytes back yields the
/// graph after one defaulting pass; a graph the pass has already fixed
/// comes back exactly as it was.
pub proof fn lemma_save_load_round_trip(v: Seq<(Seq<char>, DialogueV)>)
    requires
        map_wf(v),
        crate::graph::graph_bounded(v),
    ensures
        load_spec(ser_graph(v)) == validate_graph_spec(v),
        validate_graph_spec(v) == v ==> load_spec(ser_graph(v)) == v,
{
    lemma_parse_ser_graph(v);
}

} // verus!
