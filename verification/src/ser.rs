//! The serializer for the persisted graph format: compact JSON with a
//! fixed field order, absent optional fields written as `null`.
//!
//! Every emitting function is verified against a spec-level mirror, so
//! the byte output of `save_graph` is pinned down exactly.

use vstd::prelude::*;

verus! {

use crate::dialogue::{CheckV, DialogueV, OptionV};
use crate::graph::DialogueMap;
use vstd::string::StringSliceAdditionalSpecFns;
use vstd::utf8::encode_utf8;

/// The UTF-8 bytes of a piece of text.
pub open spec fn lit(s: Seq<char>) -> Seq<u8> {
    encode_utf8(s)
}

/// How one byte of string content is written: quote and backslash get a
/// backslash escape, the common control characters get their short
/// escapes, any other control byte is written as `\u00XX`, and
/// everything else stands as it is.
pub open spec fn esc_byte(b: u8) -> Seq<u8> {
    if b == 34 {
        seq![92u8, 34u8]
    } else if b == 92 {
        seq![92u8, 92u8]
    } else if b == 10 {
        seq![92u8, 110u8]
    } else if b == 9 {
        seq![92u8, 116u8]
    } else if b == 13 {
        seq![92u8, 114u8]
    } else if b < 32 {
        seq![92u8, 117u8, 48u8, 48u8, hex_digit((b / 16) as nat), hex_digit((b % 16) as nat)]
    } else {
        seq![b]
    }
}

/// The lowercase hex digit for a value below 16.
pub open spec fn hex_digit(n: nat) -> u8
    recommends
        n < 16,
{
    if n < 10 {
        (48 + n) as u8
    } else {
        (87 + n) as u8
    }
}

/// A whole string content, escaped byte by byte.
pub open spec fn esc(s: Seq<u8>) -> Seq<u8>
    decreases s.len(),
{
    if s.len() == 0 {
        Seq::empty()
    } else {
        esc(s.drop_last()) + esc_byte(s.last())
    }
}

/// A JSON string: quote, escaped UTF-8 content, quote.
pub open spec fn ser_str(s: Seq<char>) -> Seq<u8> {
    seq![34u8] + esc(encode_utf8(s)) + seq![34u8]
}

/// The decimal digits of a non-negative number.
pub open spec fn dec_bytes(n: nat) -> Seq<u8>
    decreases n,
{
    if n < 10 {
        seq![(48 + n) as u8]
    } else {
        dec_bytes(n / 10) + seq![(48 + n % 10) as u8]
    }
}

/// A JSON integer, with a leading minus sign when negative.
pub open spec fn ser_int(v: int) -> Seq<u8> {
    if v < 0 {
        seq![45u8] + dec_bytes((-v) as nat)
    } else {
        dec_bytes(v as nat)
    }
}

/// The four bytes of `null`.
pub open spec fn null_bytes() -> Seq<u8> {
    seq![110u8, 117u8, 108u8, 108u8]
}

/// The bytes of `true`.
pub open spec fn true_bytes() -> Seq<u8> {
    seq![116u8, 114u8, 117u8, 101u8]
}

/// The bytes of `false`.
pub open spec fn false_bytes() -> Seq<u8> {
    seq![102u8, 97u8, 108u8, 115u8, 101u8]
}

pub open spec fn ser_bool(b: bool) -> Seq<u8> {
    if b {
        true_bytes()
    } else {
        false_bytes()
    }
}

pub open spec fn ser_opt_int(o: Option<int>) -> Seq<u8> {
    match o {
        Some(v) => ser_int(v),
        None => null_bytes(),
    }
}

pub open spec fn ser_opt_str(o: Option<Seq<char>>) -> Seq<u8> {
    match o {
        Some(s) => ser_str(s),
        None => null_bytes(),
    }
}

/// The elements of an array, comma separated.
pub open spec fn ser_items<A>(v: Seq<A>, f: spec_fn(A) -> Seq<u8>) -> Seq<u8>
    decreases v.len(),
{
    if v.len() == 0 {
        Seq::empty()
    } else {
        f(v[0]) + ser_tail(v.drop_first(), f)
    }
}

/// The rest of an array's elements, each preceded by a comma.
pub open spec fn ser_tail<A>(v: Seq<A>, f: spec_fn(A) -> Seq<u8>) -> Seq<u8>
    decreases v.len(),
{
    if v.len() == 0 {
        Seq::empty()
    } else {
        seq![44u8] + f(v[0]) + ser_tail(v.drop_first(), f)
    }
}

/// A JSON array of the given elements.
pub open spec fn ser_array<A>(v: Seq<A>, f: spec_fn(A) -> Seq<u8>) -> Seq<u8> {
    seq![91u8] + ser_items(v, f) + seq![93u8]
}

/// A string element, as a function value.
pub open spec fn ser_str_fn() -> spec_fn(Seq<char>) -> Seq<u8> {
    |s: Seq<char>| ser_str(s)
}

pub open spec fn ser_opt_str_array(o: Option<Seq<Seq<char>>>) -> Seq<u8> {
    match o {
        Some(v) => ser_array(v, ser_str_fn()),
        None => null_bytes(),
    }
}

/// The head of one object field: `"name":`.
pub open spec fn field_head(name: Seq<char>) -> Seq<u8> {
    seq![34u8] + lit(name) + seq![34u8, 58u8]
}

/// One object field: `"name":` followed by the value.
pub open spec fn field(name: Seq<char>, value: Seq<u8>) -> Seq<u8> {
    field_head(name) + value
}

/// A serialized `DialogueOption`.
#[verifier::opaque]
pub open spec fn ser_option(o: OptionV) -> Seq<u8> {
    seq![123u8] + field("description"@, ser_str(o.description)) + seq![44u8] + field(
        "challenge_attribute"@,
        ser_opt_str(o.challenge_attribute),
    ) + seq![44u8] + field("challenge_number"@, ser_opt_int(o.challenge_number)) + seq![44u8]
        + field("success_dialogue"@, ser_opt_str(o.success_dialogue)) + seq![44u8] + field(
        "failure_dialogue"@,
        ser_opt_str(o.failure_dialogue),
    ) + seq![44u8] + field("item_to_pickup"@, ser_opt_str(o.item_to_pickup)) + seq![44u8] + field(
        "visible_when"@,
        ser_opt_str(o.visible_when),
    ) + seq![44u8] + field("flags"@, ser_opt_str_array(o.flags)) + seq![125u8]
}

pub open spec fn ser_option_fn() -> spec_fn(OptionV) -> Seq<u8> {
    |o: OptionV| ser_option(o)
}

/// A serialized `PassiveCheck`.
#[verifier::opaque]
pub open spec fn ser_check(c: CheckV) -> Seq<u8> {
    seq![123u8] + field("skill"@, ser_str(c.skill)) + seq![44u8] + field(
        "target"@,
        ser_int(c.target),
    ) + seq![44u8] + field("success_text"@, ser_opt_str(c.success_text)) + seq![44u8] + field(
        "failure_text"@,
        ser_opt_str(c.failure_text),
    ) + seq![44u8] + field("speaker"@, ser_opt_str(c.speaker)) + seq![125u8]
}

pub open spec fn ser_check_fn() -> spec_fn(CheckV) -> Seq<u8> {
    |c: CheckV| ser_check(c)
}

/// A serialized `Dialogue`.
#[verifier::opaque]
pub open spec fn ser_dialogue(d: DialogueV) -> Seq<u8> {
    seq![123u8] + field("speaker"@, ser_str(d.speaker)) + seq![44u8] + field(
        "intro"@,
        ser_str(d.intro),
    ) + seq![44u8] + field("options"@, ser_array(d.options, ser_option_fn())) + seq![44u8] + field(
        "passive_check"@,
        ser_array(d.passive_check, ser_check_fn()),
    ) + seq![44u8] + field("xp_reward"@, ser_opt_int(d.xp_reward)) + seq![44u8] + field(
        "is_hidden"@,
        ser_bool(d.is_hidden),
    ) + seq![44u8] + field("time"@, ser_opt_int(d.time)) + seq![125u8]
}

/// A serialized graph entry: the key string, a colon, the dialogue.
pub open spec fn ser_entry(e: (Seq<char>, DialogueV)) -> Seq<u8> {
    ser_str(e.0) + seq![58u8] + ser_dialogue(e.1)
}

pub open spec fn ser_entry_fn() -> spec_fn((Seq<char>, DialogueV)) -> Seq<u8> {
    |e: (Seq<char>, DialogueV)| ser_entry(e)
}

/// A whole serialized graph: a JSON object of key/dialogue pairs in
/// listing order.
pub open spec fn ser_graph(v: Seq<(Seq<char>, DialogueV)>) -> Seq<u8> {
    seq![123u8] + ser_items(v, ser_entry_fn()) + seq![125u8]
}

/// Append the bytes of a slice.
fn push_bytes(out: &mut Vec<u8>, bytes: &[u8])
    ensures
        final(out)@ == old(out)@ + bytes@,
{
    let mut i: usize = 0;
    #[verifier::loop_isolation(false)]
    while i < bytes.len()
        invariant
            0 <= i <= bytes@.len(),
            out@ == old(out)@ + bytes@.take(i as int),
        decreases bytes@.len() - i,
    {
        out.push(bytes[i]);
        proof {
            assert(out@ =~= old(out)@ + bytes@.take(i as int + 1));
        }
        i = i + 1;
    }
    proof {
        assert(out@ =~= old(out)@ + bytes@);
    }
}

/// Append the UTF-8 bytes of a text literal.
fn push_lit(out: &mut Vec<u8>, s: &str)
    ensures
        final(out)@ == old(out)@ + lit(s@),
{
    push_bytes(out, s.as_bytes());
}

/// The lowercase hex digit byte for a value below 16.
fn hex_digit_byte(n: u8) -> (r: u8)
    requires
        n < 16,
    ensures
        r == hex_digit(n as nat),
{
    if n < 10 {
        48 + n
    } else {
        87 + n
    }
}

/// Append one escaped content byte.
fn push_esc_byte(out: &mut Vec<u8>, b: u8)
    ensures
        final(out)@ == old(out)@ + esc_byte(b),
{
    if b == 34 {
        out.push(92);
        out.push(34);
    } else if b == 92 {
        out.push(92);
        out.push(92);
    } else if b == 10 {
        out.push(92);
        out.push(110);
    } else if b == 9 {
        out.push(92);
        out.push(116);
    } else if b == 13 {
        out.push(92);
        out.push(114);
    } else if b < 32 {
        out.push(92);
        out.push(117);
        out.push(48);
        out.push(48);
        out.push(hex_digit_byte(b / 16));
        out.push(hex_digit_byte(b % 16));
    } else {
        out.push(b);
    }
    proof {
        assert(out@ =~= old(out)@ + esc_byte(b));
    }
}

/// Append a JSON string: quote, escaped bytes of the text, quote.
fn push_str_value(out: &mut Vec<u8>, s: &str)
    ensures
        final(out)@ == old(out)@ + ser_str(s@),
{
    let bytes = s.as_bytes();
    out.push(34);
    let ghost mid = out@;
    let mut i: usize = 0;
    #[verifier::loop_isolation(false)]
    while i < bytes.len()
        invariant
            0 <= i <= bytes@.len(),
            out@ == mid + esc(bytes@.take(i as int)),
        decreases bytes@.len() - i,
    {
        let ghost pre = out@;
        push_esc_byte(out, bytes[i]);
        proof {
            assert(bytes@.take(i as int + 1).drop_last() =~= bytes@.take(i as int));
            assert(esc(bytes@.take(i as int + 1)) == esc(bytes@.take(i as int)) + esc_byte(
                bytes@[i as int],
            ));
            assert(out@ =~= mid + esc(bytes@.take(i as int + 1)));
        }
        i = i + 1;
    }
    out.push(34);
    proof {
        assert(bytes@.take(bytes@.len() as int) =~= bytes@);
        assert(out@ =~= old(out)@ + ser_str(s@));
    }
}

/// Append the decimal digits of a non-negative number.
fn push_dec(out: &mut Vec<u8>, n: u64)
    ensures
        final(out)@ == old(out)@ + dec_bytes(n as nat),
    decreases n,
{
    if n < 10 {
        out.push(48 + n as u8);
        proof {
            assert(out@ =~= old(out)@ + dec_bytes(n as nat));
        }
    } else {
        push_dec(out, n / 10);
        out.push(48 + (n % 10) as u8);
        proof {
            assert(out@ =~= old(out)@ + dec_bytes(n as nat));
        }
    }
}

/// Append a JSON integer.
fn push_int(out: &mut Vec<u8>, v: i32)
    ensures
        final(out)@ == old(out)@ + ser_int(v as int),
{
    if v < 0 {
        out.push(45);
        let m: u64 = (-(v as i64)) as u64;
        push_dec(out, m);
        proof {
            assert(out@ =~= old(out)@ + ser_int(v as int));
        }
    } else {
        push_dec(out, v as u64);
    }
}

/// Append `null`.
fn push_null(out: &mut Vec<u8>)
    ensures
        final(out)@ == old(out)@ + null_bytes(),
{
    out.push(110);
    out.push(117);
    out.push(108);
    out.push(108);
    proof {
        assert(out@ =~= old(out)@ + null_bytes());
    }
}

/// Append a JSON boolean.
fn push_bool(out: &mut Vec<u8>, b: bool)
    ensures
        final(out)@ == old(out)@ + ser_bool(b),
{
    if b {
        out.push(116);
        out.push(114);
        out.push(117);
        out.push(101);
    } else {
        out.push(102);
        out.push(97);
        out.push(108);
        out.push(115);
        out.push(101);
    }
    proof {
        assert(out@ =~= old(out)@ + ser_bool(b));
    }
}

/// Append an optional integer: the value or `null`.
fn push_opt_int(out: &mut Vec<u8>, o: &Option<i32>)
    ensures
        final(out)@ == old(out)@ + ser_opt_int(
            match *o {
                Some(v) => Some(v as int),
                None => None,
            },
        ),
{
    match o {
        Some(v) => push_int(out, *v),
        None => push_null(out),
    }
}

/// Append an optional string: the value or `null`.
fn push_opt_str(out: &mut Vec<u8>, o: &Option<String>)
    ensures
        final(out)@ == old(out)@ + ser_opt_str(o.deep_view()),
{
    match o {
        Some(s) => push_str_value(out, s.as_str()),
        None => push_null(out),
    }
}

/// Append a `"name":` field head.
pub(crate) fn push_field_head(out: &mut Vec<u8>, name: &str)
    ensures
        final(out)@ == old(out)@ + seq![34u8] + lit(name@) + seq![34u8, 58u8],
{
    out.push(34);
    push_lit(out, name);
    out.push(34);
    out.push(58);
    proof {
        assert(out@ =~= old(out)@ + seq![34u8] + lit(name@) + seq![34u8, 58u8]);
    }
}

/// Append an optional string array: the strings or `null`.
fn push_opt_str_array(out: &mut Vec<u8>, o: &Option<Vec<String>>)
    ensures
        final(out)@ == old(out)@ + ser_opt_str_array(
            match *o {
                Some(ref v) => Some(v.deep_view()),
                None => None,
            },
        ),
{
    match o {
        Some(v) => {
            let ghost f = ser_str_fn();
            let ghost dv = v.deep_view();
            out.push(91);
            let ghost mid = out@;
            let mut i: usize = 0;
            #[verifier::loop_isolation(false)]
            while i < v.len()
                invariant
                    0 <= i <= dv.len(),
                    dv.len() == v@.len(),
                    i == 0 ==> out@ == mid,
                    i > 0 ==> out@ == mid + f(dv[0]) + ser_tail(dv.take(i as int).drop_first(), f),
                decreases dv.len() - i,
            {
                proof {
                    assert(dv[i as int] == v@[i as int]@);
                }
                if i > 0 {
                    out.push(44);
                }
                push_str_value(out, v[i].as_str());
                proof {
                    lemma_ser_tail_snoc(dv, i as int, f);
                }
                i = i + 1;
            }
            out.push(93);
            proof {
                if dv.len() == 0 {
                    assert(ser_items(dv, f) =~= Seq::<u8>::empty());
                    assert(out@ =~= old(out)@ + ser_array(dv, f));
                } else {
                    assert(dv.take(dv.len() as int) =~= dv);
                    assert(ser_items(dv, f) == f(dv[0]) + ser_tail(dv.drop_first(), f));
                    assert(out@ =~= old(out)@ + ser_array(dv, f));
                }
            }
        },
        None => push_null(out),
    }
}


/// Pushing a byte is appending a one-byte sequence.
proof fn lemma_push_is_add(s: Seq<u8>, b: u8)
    ensures
        s.push(b) == s + seq![b],
{
    assert(s.push(b) =~= s + seq![b]);
}

/// Appending the empty sequence changes nothing.
proof fn lemma_add_empty(s: Seq<u8>)
    ensures
        s + Seq::<u8>::empty() == s,
{
    assert(s + Seq::<u8>::empty() =~= s);
}

/// Reassociation of two appended pieces.
proof fn lemma_assoc2(x: Seq<u8>, a: Seq<u8>, b: Seq<u8>)
    ensures
        (x + a) + b == x + (a + b),
{
    assert((x + a) + b =~= x + (a + b));
}

/// Reassociation of three appended pieces.
pub(crate) proof fn lemma_assoc3(x: Seq<u8>, a: Seq<u8>, b: Seq<u8>, c: Seq<u8>)
    ensures
        ((x + a) + b) + c == x + ((a + b) + c),
{
    assert(((x + a) + b) + c =~= x + ((a + b) + c));
}

/// Regrouping an emitted object or array around its brackets.
proof fn lemma_wrap(x: Seq<u8>, open_b: Seq<u8>, a: Seq<u8>, b: Seq<u8>, close: Seq<u8>)
    ensures
        (((x + open_b) + a) + b) + close == x + ((open_b + (a + b)) + close),
{
    assert((((x + open_b) + a) + b) + close =~= x + ((open_b + (a + b)) + close));
}

/// Regrouping the bytes of an object's first field behind its brace.
proof fn lemma_first_field(x: Seq<u8>, l: Seq<u8>, v: Seq<u8>)
    ensures
        ((((x + seq![123u8]) + seq![34u8]) + l) + seq![34u8, 58u8]) + v == x + (seq![123u8] + (((
        seq![34u8] + l) + seq![34u8, 58u8]) + v)),
{
    assert(((((x + seq![123u8]) + seq![34u8]) + l) + seq![34u8, 58u8]) + v =~= x + (seq![123u8]
        + (((seq![34u8] + l) + seq![34u8, 58u8]) + v)));
}

/// Regrouping the bytes of a further object field behind the part
/// already emitted.
proof fn lemma_field_chain(x: Seq<u8>, acc: Seq<u8>, l: Seq<u8>, v: Seq<u8>)
    ensures
        (((((x + acc) + seq![44u8]) + seq![34u8]) + l) + seq![34u8, 58u8]) + v == x + ((acc
            + seq![44u8]) + (((seq![34u8] + l) + seq![34u8, 58u8]) + v)),
{
    assert((((((x + acc) + seq![44u8]) + seq![34u8]) + l) + seq![34u8, 58u8]) + v =~= x + ((acc
        + seq![44u8]) + (((seq![34u8] + l) + seq![34u8, 58u8]) + v)));
}

/// Appending element `i` extends the serialized tail of a sequence's
/// first `i` elements to the tail of its first `i + 1` elements.
proof fn lemma_ser_tail_snoc<A>(v: Seq<A>, i: int, f: spec_fn(A) -> Seq<u8>)
    requires
        0 <= i < v.len(),
    ensures
        i > 0 ==> ser_tail(v.take(i + 1).drop_first(), f) == (ser_tail(v.take(i).drop_first(), f)
            + seq![44u8]) + f(v[i]),
        v.take(1).drop_first() =~= Seq::<A>::empty(),
    decreases i,
{
    if i > 0 {
        lemma_ser_tail_extend(v.take(i + 1).drop_first(), f);
        assert(v.take(i + 1).drop_first().drop_last() =~= v.take(i).drop_first());
        assert(v.take(i + 1).drop_first().last() == v[i]);
    }
}

/// Unrolling `ser_tail` from the back: the last element contributes a
/// comma and its own bytes.
proof fn lemma_ser_tail_extend<A>(v: Seq<A>, f: spec_fn(A) -> Seq<u8>)
    requires
        v.len() > 0,
    ensures
        ser_tail(v, f) == (ser_tail(v.drop_last(), f) + seq![44u8]) + f(v.last()),
    decreases v.len(),
{
    if v.len() == 1 {
        assert(v.drop_last() =~= Seq::<A>::empty());
        assert(v.drop_first() =~= Seq::<A>::empty());
        assert(ser_tail(v, f) =~= (ser_tail(v.drop_last(), f) + seq![44u8]) + f(v.last()));
    } else {
        lemma_ser_tail_extend(v.drop_first(), f);
        assert(v.drop_first().drop_last() =~= v.drop_last().drop_first());
        assert(v.drop_first().last() == v.last());
        assert(v.drop_last()[0] == v[0]);
        assert(v.drop_last().len() > 0);
        assert(ser_tail(v, f) == seq![44u8] + f(v[0]) + ser_tail(v.drop_first(), f));
        assert(ser_tail(v.drop_last(), f) == seq![44u8] + f(v.drop_last()[0]) + ser_tail(
            v.drop_last().drop_first(),
            f,
        ));
        assert(ser_tail(v, f) =~= (ser_tail(v.drop_last(), f) + seq![44u8]) + f(v.last()));
    }
}

/// Append a serialized `DialogueOption`.
fn push_option(out: &mut Vec<u8>, o: &crate::dialogue::DialogueOption)
    ensures
        final(out)@ == old(out)@ + ser_option(o@),
{
    let ghost base = out@;
    let ghost o0 = out@;
    out.push(123);
    proof {
        lemma_push_is_add(o0, 123);
    }
    push_field_head(out, "description");
    push_str_value(out, o.description.as_str());
    proof {
        lemma_first_field(base, lit("description"@), ser_str(o@.description));
    }
    let ghost acc1 = seq![123u8] + field("description"@, ser_str(o@.description));
    proof {
        assert(out@ == base + acc1);
    }
    let ghost o1 = out@;
    out.push(44);
    proof {
        lemma_push_is_add(o1, 44);
    }
    push_field_head(out, "challenge_attribute");
    push_opt_str(out, &o.challenge_attribute);
    proof {
        lemma_field_chain(
            base,
            acc1,
            lit("challenge_attribute"@),
            ser_opt_str(o@.challenge_attribute),
        );
    }
    let ghost acc2 = acc1 + seq![44u8] + field(
        "challenge_attribute"@,
        ser_opt_str(o@.challenge_attribute),
    );
    proof {
        assert(out@ == base + acc2);
    }
    let ghost o2 = out@;
    out.push(44);
    proof {
        lemma_push_is_add(o2, 44);
    }
    push_field_head(out, "challenge_number");
    push_opt_int(out, &o.challenge_number);
    proof {
        lemma_field_chain(
            base,
            acc2,
            lit("challenge_number"@),
            ser_opt_int(o@.challenge_number),
        );
    }
    let ghost acc3 = acc2 + seq![44u8] + field(
        "challenge_number"@,
        ser_opt_int(o@.challenge_number),
    );
    proof {
        assert(out@ == base + acc3);
    }
    let ghost o3 = out@;
    out.push(44);
    proof {
        lemma_push_is_add(o3, 44);
    }
    push_field_head(out, "success_dialogue");
    push_opt_str(out, &o.success_dialogue);
    proof {
        lemma_field_chain(
            base,
            acc3,
            lit("success_dialogue"@),
            ser_opt_str(o@.success_dialogue),
        );
    }
    let ghost acc4 = acc3 + seq![44u8] + field(
        "success_dialogue"@,
        ser_opt_str(o@.success_dialogue),
    );
    proof {
        assert(out@ == base + acc4);
    }
    let ghost o4 = out@;
    out.push(44);
    proof {
        lemma_push_is_add(o4, 44);
    }
    push_field_head(out, "failure_dialogue");
    push_opt_str(out, &o.failure_dialogue);
    proof {
        lemma_field_chain(
            base,
            acc4,
            lit("failure_dialogue"@),
            ser_opt_str(o@.failure_dialogue),
        );
    }
    let ghost acc5 = acc4 + seq![44u8] + field(
        "failure_dialogue"@,
        ser_opt_str(o@.failure_dialogue),
    );
    proof {
        assert(out@ == base + acc5);
    }
    let ghost o5 = out@;
    out.push(44);
    proof {
        lemma_push_is_add(o5, 44);
    }
    push_field_head(out, "item_to_pickup");
    push_opt_str(out, &o.item_to_pickup);
    proof {
        lemma_field_chain(base, acc5, lit("item_to_pickup"@), ser_opt_str(o@.item_to_pickup));
    }
    let ghost acc6 = acc5 + seq![44u8] + field("item_to_pickup"@, ser_opt_str(o@.item_to_pickup));
    proof {
        assert(out@ == base + acc6);
    }
    let ghost o6 = out@;
    out.push(44);
    proof {
        lemma_push_is_add(o6, 44);
    }
    push_field_head(out, "visible_when");
    push_opt_str(out, &o.visible_when);
    proof {
        lemma_field_chain(base, acc6, lit("visible_when"@), ser_opt_str(o@.visible_when));
    }
    let ghost acc7 = acc6 + seq![44u8] + field("visible_when"@, ser_opt_str(o@.visible_when));
    proof {
        assert(out@ == base + acc7);
    }
    let ghost o7 = out@;
    out.push(44);
    proof {
        lemma_push_is_add(o7, 44);
    }
    push_field_head(out, "flags");
    push_opt_str_array(out, &o.flags);
    proof {
        lemma_field_chain(base, acc7, lit("flags"@), ser_opt_str_array(o@.flags));
    }
    let ghost acc8 = acc7 + seq![44u8] + field("flags"@, ser_opt_str_array(o@.flags));
    proof {
        assert(out@ == base + acc8);
    }
    let ghost o8 = out@;
    out.push(125);
    proof {
        lemma_push_is_add(o8, 125);
        lemma_assoc2(base, acc8, seq![125u8]);
        assert(out@ == base + (acc8 + seq![125u8]));
        reveal(crate::ser::ser_option);
        assert(out@ == base + ser_option(o@));
    }
}

/// Append a serialized `PassiveCheck`.
fn push_check(out: &mut Vec<u8>, c: &crate::dialogue::PassiveCheck)
    ensures
        final(out)@ == old(out)@ + ser_check(c@),
{
    let ghost base = out@;
    let ghost o0 = out@;
    out.push(123);
    proof {
        lemma_push_is_add(o0, 123);
    }
    push_field_head(out, "skill");
    push_str_value(out, c.skill.as_str());
    proof {
        lemma_first_field(base, lit("skill"@), ser_str(c@.skill));
    }
    let ghost acc1 = seq![123u8] + field("skill"@, ser_str(c@.skill));
    proof {
        assert(out@ == base + acc1);
    }
    let ghost o1 = out@;
    out.push(44);
    proof {
        lemma_push_is_add(o1, 44);
    }
    push_field_head(out, "target");
    push_int(out, c.target);
    proof {
        lemma_field_chain(base, acc1, lit("target"@), ser_int(c@.target));
    }
    let ghost acc2 = acc1 + seq![44u8] + field("target"@, ser_int(c@.target));
    proof {
        assert(out@ == base + acc2);
    }
    let ghost o2 = out@;
    out.push(44);
    proof {
        lemma_push_is_add(o2, 44);
    }
    push_field_head(out, "success_text");
    push_opt_str(out, &c.success_text);
    proof {
        lemma_field_chain(base, acc2, lit("success_text"@), ser_opt_str(c@.success_text));
    }
    let ghost acc3 = acc2 + seq![44u8] + field("success_text"@, ser_opt_str(c@.success_text));
    proof {
        assert(out@ == base + acc3);
    }
    let ghost o3 = out@;
    out.push(44);
    proof {
        lemma_push_is_add(o3, 44);
    }
    push_field_head(out, "failure_text");
    push_opt_str(out, &c.failure_text);
    proof {
        lemma_field_chain(base, acc3, lit("failure_text"@), ser_opt_str(c@.failure_text));
    }
    let ghost acc4 = acc3 + seq![44u8] + field("failure_text"@, ser_opt_str(c@.failure_text));
    proof {
        assert(out@ == base + acc4);
    }
    let ghost o4 = out@;
    out.push(44);
    proof {
        lemma_push_is_add(o4, 44);
    }
    push_field_head(out, "speaker");
    push_opt_str(out, &c.speaker);
    proof {
        lemma_field_chain(base, acc4, lit("speaker"@), ser_opt_str(c@.speaker));
    }
    let ghost acc5 = acc4 + seq![44u8] + field("speaker"@, ser_opt_str(c@.speaker));
    proof {
        assert(out@ == base + acc5);
    }
    let ghost o5 = out@;
    out.push(125);
    proof {
        lemma_push_is_add(o5, 125);
        lemma_assoc2(base, acc5, seq![125u8]);
        assert(out@ == base + (acc5 + seq![125u8]));
        reveal(crate::ser::ser_check);
        assert(out@ == base + ser_check(c@));
    }
}

/// Append a JSON array of serialized options.
fn push_options_array(out: &mut Vec<u8>, v: &Vec<crate::dialogue::DialogueOption>)
    ensures
        final(out)@ == old(out)@ + ser_array(v.deep_view(), ser_option_fn()),
{
    let ghost base = out@;
    let ghost f = ser_option_fn();
    let ghost dv = v.deep_view();
    let ghost o0 = out@;
    out.push(91);
    proof {
        lemma_push_is_add(o0, 91);
    }
    let ghost mid = out@;
    let mut i: usize = 0;
    #[verifier::loop_isolation(false)]
    while i < v.len()
        invariant
            0 <= i <= dv.len(),
            dv.len() == v@.len(),
            i == 0 ==> out@ == mid,
            i > 0 ==> out@ == (mid + f(dv[0])) + ser_tail(dv.take(i as int).drop_first(), f),
        decreases dv.len() - i,
    {
        proof {
            assert(dv[i as int] == v@[i as int]@);
        }
        if i > 0 {
            let ghost oi = out@;
            out.push(44);
            proof {
                lemma_push_is_add(oi, 44);
            }
            push_option(out, &v[i]);
            proof {
                lemma_ser_tail_snoc(dv, i as int, f);
                lemma_assoc3(
                    mid + f(dv[0]),
                    ser_tail(dv.take(i as int).drop_first(), f),
                    seq![44u8],
                    f(dv[i as int]),
                );
                assert((ser_tail(dv.take(i as int).drop_first(), f) + seq![44u8]) + f(dv[i as int])
                    == ser_tail(dv.take(i as int + 1).drop_first(), f));
                assert(out@ == (mid + f(dv[0])) + ser_tail(dv.take(i as int + 1).drop_first(), f));
            }
        } else {
            push_option(out, &v[i]);
            proof {
                lemma_ser_tail_snoc(dv, i as int, f);
                assert(ser_tail(dv.take(1).drop_first(), f) =~= Seq::<u8>::empty());
                lemma_add_empty(mid + f(dv[0]));
                assert(out@ == (mid + f(dv[0])) + ser_tail(dv.take(1).drop_first(), f));
            }
        }
        i = i + 1;
    }
    let ghost oend = out@;
    out.push(93);
    proof {
        lemma_push_is_add(oend, 93);
        if dv.len() == 0 {
            assert(ser_items(dv, f) =~= Seq::<u8>::empty());
            lemma_add_empty(seq![91u8]);
            lemma_assoc2(base, seq![91u8], seq![93u8]);
            assert(seq![91u8] + ser_items(dv, f) == seq![91u8]);
            assert(out@ == base + (seq![91u8] + seq![93u8]));
            assert(out@ == base + ser_array(dv, f));
        } else {
            assert(dv.take(dv.len() as int) =~= dv);
            assert(ser_items(dv, f) == f(dv[0]) + ser_tail(dv.drop_first(), f));
            lemma_wrap(base, seq![91u8], f(dv[0]), ser_tail(dv.drop_first(), f), seq![93u8]);
            assert(out@ == base + ser_array(dv, f));
        }
    }
}

/// Append a JSON array of serialized passive checks.
fn push_checks_array(out: &mut Vec<u8>, v: &Vec<crate::dialogue::PassiveCheck>)
    ensures
        final(out)@ == old(out)@ + ser_array(v.deep_view(), ser_check_fn()),
{
    let ghost base = out@;
    let ghost f = ser_check_fn();
    let ghost dv = v.deep_view();
    let ghost o0 = out@;
    out.push(91);
    proof {
        lemma_push_is_add(o0, 91);
    }
    let ghost mid = out@;
    let mut i: usize = 0;
    #[verifier::loop_isolation(false)]
    while i < v.len()
        invariant
            0 <= i <= dv.len(),
            dv.len() == v@.len(),
            i == 0 ==> out@ == mid,
            i > 0 ==> out@ == (mid + f(dv[0])) + ser_tail(dv.take(i as int).drop_first(), f),
        decreases dv.len() - i,
    {
        proof {
            assert(dv[i as int] == v@[i as int]@);
        }
        if i > 0 {
            let ghost oi = out@;
            out.push(44);
            proof {
                lemma_push_is_add(oi, 44);
            }
            push_check(out, &v[i]);
            proof {
                lemma_ser_tail_snoc(dv, i as int, f);
                lemma_assoc3(
                    mid + f(dv[0]),
                    ser_tail(dv.take(i as int).drop_first(), f),
                    seq![44u8],
                    f(dv[i as int]),
                );
                assert((ser_tail(dv.take(i as int).drop_first(), f) + seq![44u8]) + f(dv[i as int])
                    == ser_tail(dv.take(i as int + 1).drop_first(), f));
                assert(out@ == (mid + f(dv[0])) + ser_tail(dv.take(i as int + 1).drop_first(), f));
            }
        } else {
            push_check(out, &v[i]);
            proof {
                lemma_ser_tail_snoc(dv, i as int, f);
                assert(ser_tail(dv.take(1).drop_first(), f) =~= Seq::<u8>::empty());
                lemma_add_empty(mid + f(dv[0]));
                assert(out@ == (mid + f(dv[0])) + ser_tail(dv.take(1).drop_first(), f));
            }
        }
        i = i + 1;
    }
    let ghost oend = out@;
    out.push(93);
    proof {
        lemma_push_is_add(oend, 93);
        if dv.len() == 0 {
            assert(ser_items(dv, f) =~= Seq::<u8>::empty());
            lemma_add_empty(seq![91u8]);
            lemma_assoc2(base, seq![91u8], seq![93u8]);
            assert(seq![91u8] + ser_items(dv, f) == seq![91u8]);
            assert(out@ == base + (seq![91u8] + seq![93u8]));
            assert(out@ == base + ser_array(dv, f));
        } else {
            assert(dv.take(dv.len() as int) =~= dv);
            assert(ser_items(dv, f) == f(dv[0]) + ser_tail(dv.drop_first(), f));
            lemma_wrap(base, seq![91u8], f(dv[0]), ser_tail(dv.drop_first(), f), seq![93u8]);
            assert(out@ == base + ser_array(dv, f));
        }
    }
}

/// Append a serialized `Dialogue`.
fn push_dialogue(out: &mut Vec<u8>, d: &crate::dialogue::Dialogue)
    ensures
        final(out)@ == old(out)@ + ser_dialogue(d@),
{
    let ghost base = out@;
    let ghost o0 = out@;
    out.push(123);
    proof {
        lemma_push_is_add(o0, 123);
    }
    push_field_head(out, "speaker");
    push_str_value(out, d.speaker.as_str());
    proof {
        lemma_first_field(base, lit("speaker"@), ser_str(d@.speaker));
    }
    let ghost acc1 = seq![123u8] + field("speaker"@, ser_str(d@.speaker));
    proof {
        assert(out@ == base + acc1);
    }
    let ghost o1 = out@;
    out.push(44);
    proof {
        lemma_push_is_add(o1, 44);
    }
    push_field_head(out, "intro");
    push_str_value(out, d.intro.as_str());
    proof {
        lemma_field_chain(base, acc1, lit("intro"@), ser_str(d@.intro));
    }
    let ghost acc2 = acc1 + seq![44u8] + field("intro"@, ser_str(d@.intro));
    proof {
        assert(out@ == base + acc2);
    }
    let ghost o2 = out@;
    out.push(44);
    proof {
        lemma_push_is_add(o2, 44);
    }
    push_field_head(out, "options");
    push_options_array(out, &d.options);
    proof {
        lemma_field_chain(base, acc2, lit("options"@), ser_array(d@.options, ser_option_fn()));
    }
    let ghost acc3 = acc2 + seq![44u8] + field("options"@, ser_array(d@.options, ser_option_fn()));
    proof {
        assert(out@ == base + acc3);
    }
    let ghost o3 = out@;
    out.push(44);
    proof {
        lemma_push_is_add(o3, 44);
    }
    push_field_head(out, "passive_check");
    push_checks_array(out, &d.passive_check);
    proof {
        lemma_field_chain(
            base,
            acc3,
            lit("passive_check"@),
            ser_array(d@.passive_check, ser_check_fn()),
        );
    }
    let ghost acc4 = acc3 + seq![44u8] + field(
        "passive_check"@,
        ser_array(d@.passive_check, ser_check_fn()),
    );
    proof {
        assert(out@ == base + acc4);
    }
    let ghost o4 = out@;
    out.push(44);
    proof {
        lemma_push_is_add(o4, 44);
    }
    push_field_head(out, "xp_reward");
    push_opt_int(out, &d.xp_reward);
    proof {
        lemma_field_chain(base, acc4, lit("xp_reward"@), ser_opt_int(d@.xp_reward));
    }
    let ghost acc5 = acc4 + seq![44u8] + field("xp_reward"@, ser_opt_int(d@.xp_reward));
    proof {
        assert(out@ == base + acc5);
    }
    let ghost o5 = out@;
    out.push(44);
    proof {
        lemma_push_is_add(o5, 44);
    }
    push_field_head(out, "is_hidden");
    push_bool(out, d.is_hidden);
    proof {
        lemma_field_chain(base, acc5, lit("is_hidden"@), ser_bool(d@.is_hidden));
    }
    let ghost acc6 = acc5 + seq![44u8] + field("is_hidden"@, ser_bool(d@.is_hidden));
    proof {
        assert(out@ == base + acc6);
    }
    let ghost o6 = out@;
    out.push(44);
    proof {
        lemma_push_is_add(o6, 44);
    }
    push_field_head(out, "time");
    push_opt_int(out, &d.time);
    proof {
        lemma_field_chain(base, acc6, lit("time"@), ser_opt_int(d@.time));
    }
    let ghost acc7 = acc6 + seq![44u8] + field("time"@, ser_opt_int(d@.time));
    proof {
        assert(out@ == base + acc7);
    }
    let ghost o7 = out@;
    out.push(125);
    proof {
        lemma_push_is_add(o7, 125);
        lemma_assoc2(base, acc7, seq![125u8]);
        assert(out@ == base + (acc7 + seq![125u8]));
        reveal(crate::ser::ser_dialogue);
        assert(out@ == base + ser_dialogue(d@));
    }
}

/// Serialize a whole graph to its compact byte form.
#[verifier::rlimit(50)]
pub fn save_graph(g: &DialogueMap) -> (out: Vec<u8>)
    ensures
        out@ == ser_graph(g@),
{
    let ghost f = ser_entry_fn();
    let ghost dv = g@;
    let mut out: Vec<u8> = Vec::new();
    let ghost base = out@;
    let ghost o0 = out@;
    out.push(123);
    proof {
        lemma_push_is_add(o0, 123);
    }
    let ghost mid = out@;
    let mut i: usize = 0;
    let n = g.len();
    #[verifier::loop_isolation(false)]
    while i < n
        invariant
            0 <= i <= dv.len(),
            n as int == dv.len(),
            i == 0 ==> out@ == mid,
            i > 0 ==> out@ == (mid + f(dv[0])) + ser_tail(dv.take(i as int).drop_first(), f),
        decreases dv.len() - i,
    {
        let ghost oi = out@;
        if i > 0 {
            out.push(44);
            proof {
                lemma_push_is_add(oi, 44);
            }
        }
        let ghost pre = out@;
        push_str_value(&mut out, g.key_at(i).as_str());
        let ghost pm = out@;
        out.push(58);
        proof {
            lemma_push_is_add(pm, 58);
        }
        push_dialogue(&mut out, g.dialogue_at(i));
        proof {
            lemma_assoc3(pre, ser_str(dv[i as int].0), seq![58u8], ser_dialogue(dv[i as int].1));
            assert(out@ == pre + ((ser_str(dv[i as int].0) + seq![58u8]) + ser_dialogue(dv[
                i as int].1)));
            assert(f(dv[i as int]) == (ser_str(dv[i as int].0) + seq![58u8]) + ser_dialogue(dv[
                i as int].1));
            assert(out@ == pre + f(dv[i as int]));
            lemma_ser_tail_snoc(dv, i as int, f);
            if i > 0 {
                lemma_assoc3(
                    mid + f(dv[0]),
                    ser_tail(dv.take(i as int).drop_first(), f),
                    seq![44u8],
                    f(dv[i as int]),
                );
                assert(out@ == (mid + f(dv[0])) + ser_tail(dv.take(i as int + 1).drop_first(), f));
            } else {
                assert(ser_tail(dv.take(1).drop_first(), f) =~= Seq::<u8>::empty());
                lemma_add_empty(mid + f(dv[0]));
                assert(out@ == (mid + f(dv[0])) + ser_tail(dv.take(1).drop_first(), f));
            }
        }
        i = i + 1;
    }
    let ghost oend = out@;
    out.push(125);
    proof {
        lemma_push_is_add(oend, 125);
        if dv.len() == 0 {
            assert(ser_items(dv, f) =~= Seq::<u8>::empty());
            lemma_add_empty(seq![123u8]);
            lemma_assoc2(base, seq![123u8], seq![125u8]);
            assert(seq![123u8] + ser_items(dv, f) == seq![123u8]);
            assert(out@ == base + (seq![123u8] + seq![125u8]));
            assert(out@ == base + ser_graph(dv));
        } else {
            assert(dv.take(dv.len() as int) =~= dv);
            assert(ser_items(dv, f) == f(dv[0]) + ser_tail(dv.drop_first(), f));
            lemma_wrap(base, seq![123u8], f(dv[0]), ser_tail(dv.drop_first(), f), seq![125u8]);
            assert(out@ == base + ser_graph(dv));
        }
        assert(base =~= Seq::<u8>::empty());
        assert(out@ =~= ser_graph(dv));
    }
    out
}

} // verus!
