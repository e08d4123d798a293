//! The parser for the persisted graph format. Each executable function
//! mirrors a total specification function exactly, so what `load_graph`
//! accepts and produces is pinned down byte for byte.
//!
//! The parser is strict: it reads the compact form the serializer emits.
//! Anything else is rejected, and the loader falls back to the default
//! graph rather than failing its caller.

use vstd::prelude::*;

verus! {

use crate::ser::{false_bytes, null_bytes, true_bytes};
use vstd::string::StringSliceAdditionalSpecFns;
use vstd::utf8::{decode_utf8, encode_utf8_decode_utf8, valid_utf8};

/// An ASCII decimal digit.
pub open spec fn is_digit(b: u8) -> bool {
    48 <= b <= 57
}

/// The value of a hex digit byte, if it is one.
pub open spec fn hex_val(b: u8) -> Option<u8> {
    if 48 <= b <= 57 {
        Some((b - 48) as u8)
    } else if 97 <= b <= 102 {
        Some((b - 87) as u8)
    } else if 65 <= b <= 70 {
        Some((b - 55) as u8)
    } else {
        None
    }
}

/// The first position at or after `i` that does not hold a digit.
pub open spec fn digit_end(s: Seq<u8>, i: int) -> int
    recommends
        0 <= i <= s.len(),
    decreases s.len() - i,
    when 0 <= i <= s.len()
{
    if i >= s.len() || !is_digit(s[i]) {
        i
    } else {
        digit_end(s, i + 1)
    }
}

/// The number a digit run denotes, most significant digit first.
pub open spec fn digits_val(d: Seq<u8>) -> nat
    decreases d.len(),
{
    if d.len() == 0 {
        0
    } else {
        digits_val(d.drop_last()) * 10 + ((d.last() - 48) as nat)
    }
}

/// The position right after `tok` when the input carries exactly `tok`
/// at position `i`.
pub open spec fn expect(s: Seq<u8>, i: int, tok: Seq<u8>) -> Option<int> {
    if 0 <= i && i + tok.len() <= s.len() && s.subrange(i, i + tok.len()) == tok {
        Some(i + tok.len())
    } else {
        None
    }
}

/// A parsed integer: an optional minus sign and a run of at most ten
/// digits, within the 32-bit range.
pub open spec fn spec_parse_int(s: Seq<u8>, i: int) -> Option<(int, int)> {
    if 0 <= i <= s.len() {
        let neg = i < s.len() && s[i] == 45;
        let st = if neg {
            i + 1
        } else {
            i
        };
        let j = digit_end(s, st);
        if j == st || j - st > 10 {
            None
        } else {
            let val = digits_val(s.subrange(st, j)) as int;
            if neg {
                if val > 2147483648 {
                    None
                } else {
                    Some((-val, j))
                }
            } else {
                if val > 2147483647 {
                    None
                } else {
                    Some((val, j))
                }
            }
        }
    } else {
        None
    }
}

/// The unescaped bytes of a string body, up to and past the closing
/// quote. Raw control bytes and unknown escapes are rejected; `\uXXXX`
/// is accepted for the control range the serializer emits.
pub open spec fn spec_parse_str_body(s: Seq<u8>, i: int) -> Option<(Seq<u8>, int)>
    decreases s.len() - i,
    when 0 <= i <= s.len()
{
    if i < 0 || i >= s.len() {
        None
    } else if s[i] == 34 {
        Some((Seq::empty(), i + 1))
    } else if s[i] == 92 {
        if i + 1 >= s.len() {
            None
        } else {
            let e = s[i + 1];
            if e == 117 {
                if i + 6 <= s.len() && s[i + 2] == 48 && s[i + 3] == 48 && hex_val(s[i + 4]) is Some
                    && hex_val(s[i + 5]) is Some && hex_val(s[i + 4]).unwrap() * 16 + hex_val(
                    s[i + 5],
                ).unwrap() < 32 {
                    let b = (hex_val(s[i + 4]).unwrap() * 16 + hex_val(s[i + 5]).unwrap()) as u8;
                    match spec_parse_str_body(s, i + 6) {
                        Some((t, j)) => Some((seq![b] + t, j)),
                        None => None,
                    }
                } else {
                    None
                }
            } else {
                let b: u8 = if e == 34 {
                    34
                } else if e == 92 {
                    92
                } else if e == 47 {
                    47
                } else if e == 110 {
                    10
                } else if e == 116 {
                    9
                } else if e == 114 {
                    13
                } else if e == 98 {
                    8
                } else if e == 102 {
                    12
                } else {
                    0
                };
                let known = e == 34 || e == 92 || e == 47 || e == 110 || e == 116 || e == 114 || e
                    == 98 || e == 102;
                if known {
                    match spec_parse_str_body(s, i + 2) {
                        Some((t, j)) => Some((seq![b] + t, j)),
                        None => None,
                    }
                } else {
                    None
                }
            }
        }
    } else if s[i] < 32 {
        None
    } else {
        match spec_parse_str_body(s, i + 1) {
            Some((t, j)) => Some((seq![s[i]] + t, j)),
            None => None,
        }
    }
}

/// A parsed JSON string: the decoded characters and the position after
/// the closing quote. Bytes that are not valid UTF-8 are rejected.
pub open spec fn spec_parse_string(s: Seq<u8>, i: int) -> Option<(Seq<char>, int)> {
    if 0 <= i < s.len() && s[i] == 34 {
        match spec_parse_str_body(s, i + 1) {
            Some((bytes, j)) => if valid_utf8(bytes) {
                Some((decode_utf8(bytes), j))
            } else {
                None
            },
            None => None,
        }
    } else {
        None
    }
}

/// A parsed boolean literal.
pub open spec fn spec_parse_bool(s: Seq<u8>, i: int) -> Option<(bool, int)> {
    match expect(s, i, true_bytes()) {
        Some(j) => Some((true, j)),
        None => match expect(s, i, false_bytes()) {
            Some(j) => Some((false, j)),
            None => None,
        },
    }
}

/// A parsed optional integer: `null` or an integer.
pub open spec fn spec_parse_opt_int(s: Seq<u8>, i: int) -> Option<(Option<int>, int)> {
    if 0 <= i < s.len() && s[i] == 110 {
        match expect(s, i, null_bytes()) {
            Some(j) => Some((None, j)),
            None => None,
        }
    } else {
        match spec_parse_int(s, i) {
            Some((v, j)) => Some((Some(v), j)),
            None => None,
        }
    }
}

/// A parsed optional string: `null` or a string.
pub open spec fn spec_parse_opt_str(s: Seq<u8>, i: int) -> Option<(Option<Seq<char>>, int)> {
    if 0 <= i < s.len() && s[i] == 110 {
        match expect(s, i, null_bytes()) {
            Some(j) => Some((None, j)),
            None => None,
        }
    } else {
        match spec_parse_string(s, i) {
            Some((v, j)) => Some((Some(v), j)),
            None => None,
        }
    }
}

/// The elements after the first in a string array, up to and past the
/// closing bracket.
pub open spec fn spec_parse_str_more(s: Seq<u8>, i: int, acc: Seq<Seq<char>>) -> Option<
    (Seq<Seq<char>>, int),
>
    decreases s.len() - i,
    when 0 <= i <= s.len()
{
    if 0 <= i < s.len() && s[i] == 44 {
        match spec_parse_string(s, i + 1) {
            Some((v, j)) => if i < j <= s.len() {
                spec_parse_str_more(s, j, acc.push(v))
            } else {
                None
            },
            None => None,
        }
    } else if 0 <= i < s.len() && s[i] == 93 {
        Some((acc, i + 1))
    } else {
        None
    }
}

/// A parsed array of strings.
pub open spec fn spec_parse_str_array(s: Seq<u8>, i: int) -> Option<(Seq<Seq<char>>, int)> {
    if 0 <= i < s.len() && s[i] == 91 {
        if i + 1 < s.len() && s[i + 1] == 93 {
            Some((Seq::empty(), i + 2))
        } else {
            match spec_parse_string(s, i + 1) {
                Some((v, j)) => if i < j <= s.len() {
                    spec_parse_str_more(s, j, seq![v])
                } else {
                    None
                },
                None => None,
            }
        }
    } else {
        None
    }
}

/// A parsed optional string array: `null` or an array.
pub open spec fn spec_parse_opt_str_array(s: Seq<u8>, i: int) -> Option<
    (Option<Seq<Seq<char>>>, int),
> {
    if 0 <= i < s.len() && s[i] == 110 {
        match expect(s, i, null_bytes()) {
            Some(j) => Some((None, j)),
            None => None,
        }
    } else {
        match spec_parse_str_array(s, i) {
            Some((v, j)) => Some((Some(v), j)),
            None => None,
        }
    }
}

/// Relies on `String::from_utf8`: it accepts exactly the byte sequences
/// that are valid UTF-8 and keeps the bytes as they are.
#[verifier::external_body]
fn string_from_utf8(v: Vec<u8>) -> (r: Option<String>)
    ensures
        match r {
            Some(s) => valid_utf8(v@) && vstd::utf8::encode_utf8(s@) == v@,
            None => !valid_utf8(v@),
        },
{
    match String::from_utf8(v) {
        Ok(s) => Some(s),
        Err(_) => None,
    }
}

/// Whether the input carries exactly `tok` at position `i`; returns the
/// position after it.
pub fn expect_bytes(s: &[u8], i: usize, tok: &[u8]) -> (r: Option<usize>)
    requires
        i <= s@.len(),
    ensures
        match r {
            Some(j) => expect(s@, i as int, tok@) == Some(j as int) && i <= j <= s@.len(),
            None => expect(s@, i as int, tok@) is None,
        },
{
    if s.len() - i < tok.len() {
        return None;
    }
    let mut k: usize = 0;
    #[verifier::loop_isolation(false)]
    while k < tok.len()
        invariant
            0 <= k <= tok@.len(),
            i + tok@.len() <= s@.len(),
            forall|m: int| 0 <= m < k ==> s@[i + m] == tok@[m],
        decreases tok@.len() - k,
    {
        if s[i + k] != tok[k] {
            proof {
                assert(s@.subrange(i as int, i as int + tok@.len()) != tok@) by {
                    assert(s@.subrange(i as int, i as int + tok@.len())[k as int] == s@[i + k]);
                }
            }
            return None;
        }
        k = k + 1;
    }
    proof {
        assert(s@.subrange(i as int, i as int + tok@.len()) =~= tok@);
    }
    Some(i + tok.len())
}

/// Parse an integer, exactly as the specification says.
pub fn parse_int(s: &[u8], i: usize) -> (r: Option<(i32, usize)>)
    requires
        i <= s@.len(),
    ensures
        match r {
            Some((v, j)) => spec_parse_int(s@, i as int) == Some((v as int, j as int)) && i <= j
                <= s@.len(),
            None => spec_parse_int(s@, i as int) is None,
        },
{
    let n = s.len();
    let mut neg = false;
    let mut st = i;
    if i < n && s[i] == 45 {
        neg = true;
        st = i + 1;
    }
    let mut j = st;
    #[verifier::loop_isolation(false)]
    while j < n && s[j] >= 48 && s[j] <= 57
        invariant
            st <= j <= n,
            digit_end(s@, st as int) == digit_end(s@, j as int),
            forall|m: int| st <= m < j ==> is_digit(s@[m]),
        decreases n - j,
    {
        j = j + 1;
    }
    proof {
        assert(digit_end(s@, j as int) == j as int);
    }
    if j == st || j - st > 10 {
        return None;
    }
    let mut val: u64 = 0;
    let mut k = st;
    #[verifier::loop_isolation(false)]
    while k < j
        invariant
            st <= k <= j,
            val as nat == digits_val(s@.subrange(st as int, k as int)),
            val as nat <= pow10((k - st) as nat) - 1,
        decreases j - k,
    {
        proof {
            lemma_pow10_mono((k - st) as nat, 10);
            lemma_pow10_ten();
            assert(s@.subrange(st as int, k as int + 1).drop_last() =~= s@.subrange(
                st as int,
                k as int,
            ));
            assert(s@.subrange(st as int, k as int + 1).last() == s@[k as int]);
        }
        val = val * 10 + (s[k] - 48) as u64;
        k = k + 1;
    }
    proof {
        lemma_pow10_mono((j - st) as nat, 10);
        lemma_pow10_ten();
    }
    if neg {
        if val > 2147483648 {
            None
        } else {
            Some(((-(val as i64)) as i32, j))
        }
    } else {
        if val > 2147483647 {
            None
        } else {
            Some((val as i32, j))
        }
    }
}

/// Ten to the `n`.
pub open spec fn pow10(n: nat) -> nat
    decreases n,
{
    if n == 0 {
        1
    } else {
        10 * pow10((n - 1) as nat)
    }
}

/// `pow10` grows with its argument.
proof fn lemma_pow10_mono(a: nat, b: nat)
    requires
        a <= b,
    ensures
        pow10(a) <= pow10(b),
    decreases b,
{
    if a < b {
        lemma_pow10_mono(a, (b - 1) as nat);
        assert(pow10(b) == 10 * pow10((b - 1) as nat));
    }
}

/// The tenth power of ten, written out.
pub(crate) proof fn lemma_pow10_ten()
    ensures
        pow10(10) == 10000000000,
{
    reveal_with_fuel(pow10, 11);
}

/// Parse the body of a string, exactly as the specification says.
fn parse_str_body(s: &[u8], i: usize) -> (r: Option<(Vec<u8>, usize)>)
    requires
        i <= s@.len(),
    ensures
        match r {
            Some((v, j)) => spec_parse_str_body(s@, i as int) == Some((v@, j as int)) && i <= j
                <= s@.len(),
            None => spec_parse_str_body(s@, i as int) is None,
        },
    decreases s@.len() - i,
{
    let n = s.len();
    if i >= n {
        return None;
    }
    let b = s[i];
    if b == 34 {
        let v: Vec<u8> = Vec::new();
        proof {
            assert(v@ =~= Seq::<u8>::empty());
        }
        return Some((v, i + 1));
    }
    if b == 92 {
        if i + 1 >= n {
            return None;
        }
        let e = s[i + 1];
        if e == 117 {
            if n - i < 6 || s[i + 2] != 48 || s[i + 3] != 48 {
                return None;
            }
            let h1 = match hex_val_byte(s[i + 4]) {
                Some(h) => h,
                None => {
                    return None;
                },
            };
            let h2 = match hex_val_byte(s[i + 5]) {
                Some(h) => h,
                None => {
                    return None;
                },
            };
            let v: u8 = h1 * 16 + h2;
            if v >= 32 {
                return None;
            }
            match parse_str_body(s, i + 6) {
                Some((mut t, j)) => {
                    let ghost t0 = t@;
                    t.insert(0, v);
                    proof {
                        assert(t@ =~= seq![v] + t0);
                    }
                    Some((t, j))
                },
                None => None,
            }
        } else {
            let decoded: u8 = if e == 34 {
                34
            } else if e == 92 {
                92
            } else if e == 47 {
                47
            } else if e == 110 {
                10
            } else if e == 116 {
                9
            } else if e == 114 {
                13
            } else if e == 98 {
                8
            } else if e == 102 {
                12
            } else {
                0
            };
            let known = e == 34 || e == 92 || e == 47 || e == 110 || e == 116 || e == 114 || e
                == 98 || e == 102;
            if !known {
                return None;
            }
            match parse_str_body(s, i + 2) {
                Some((mut t, j)) => {
                    let ghost t0 = t@;
                    t.insert(0, decoded);
                    proof {
                        assert(t@ =~= seq![decoded] + t0);
                    }
                    Some((t, j))
                },
                None => None,
            }
        }
    } else if b < 32 {
        None
    } else {
        match parse_str_body(s, i + 1) {
            Some((mut t, j)) => {
                let ghost t0 = t@;
                t.insert(0, b);
                proof {
                    assert(t@ =~= seq![b] + t0);
                }
                Some((t, j))
            },
            None => None,
        }
    }
}

/// The value of a hex digit byte, if it is one.
fn hex_val_byte(b: u8) -> (r: Option<u8>)
    ensures
        r == hex_val(b),
{
    if 48 <= b && b <= 57 {
        Some(b - 48)
    } else if 97 <= b && b <= 102 {
        Some(b - 87)
    } else if 65 <= b && b <= 70 {
        Some(b - 55)
    } else {
        None
    }
}

/// Parse a JSON string, exactly as the specification says.
pub fn parse_string(s: &[u8], i: usize) -> (r: Option<(String, usize)>)
    requires
        i <= s@.len(),
    ensures
        match r {
            Some((v, j)) => spec_parse_string(s@, i as int) == Some((v@, j as int)) && i <= j
                <= s@.len(),
            None => spec_parse_string(s@, i as int) is None,
        },
{
    if i >= s.len() || s[i] != 34 {
        return None;
    }
    match parse_str_body(s, i + 1) {
        Some((bytes, j)) => {
            let ghost bv = bytes@;
            match string_from_utf8(bytes) {
                Some(st) => {
                    proof {
                        encode_utf8_decode_utf8(st@);
                        assert(st@ == decode_utf8(bv));
                    }
                    Some((st, j))
                },
                None => None,
            }
        },
        None => None,
    }
}

/// Parse a boolean literal, exactly as the specification says.
pub fn parse_bool(s: &[u8], i: usize) -> (r: Option<(bool, usize)>)
    requires
        i <= s@.len(),
    ensures
        match r {
            Some((v, j)) => spec_parse_bool(s@, i as int) == Some((v, j as int)) && i <= j
                <= s@.len(),
            None => spec_parse_bool(s@, i as int) is None,
        },
{
    let t: [u8; 4] = [116, 114, 117, 101];
    proof {
        assert(t@ =~= true_bytes());
    }
    match expect_bytes(s, i, t.as_slice()) {
        Some(j) => Some((true, j)),
        None => {
            let f: [u8; 5] = [102, 97, 108, 115, 101];
            proof {
                assert(f@ =~= false_bytes());
            }
            match expect_bytes(s, i, f.as_slice()) {
                Some(j) => Some((false, j)),
                None => None,
            }
        },
    }
}

/// Parse `null`, exactly as the specification's `expect` says.
pub fn parse_null(s: &[u8], i: usize) -> (r: Option<usize>)
    requires
        i <= s@.len(),
    ensures
        match r {
            Some(j) => expect(s@, i as int, null_bytes()) == Some(j as int) && i <= j <= s@.len(),
            None => expect(s@, i as int, null_bytes()) is None,
        },
{
    let t: [u8; 4] = [110, 117, 108, 108];
    proof {
        assert(t@ =~= null_bytes());
    }
    expect_bytes(s, i, t.as_slice())
}

/// Parse an optional integer, exactly as the specification says.
pub fn parse_opt_int(s: &[u8], i: usize) -> (r: Option<(Option<i32>, usize)>)
    requires
        i <= s@.len(),
    ensures
        match r {
            Some((v, j)) => spec_parse_opt_int(s@, i as int) == Some(
                (
                    match v {
                        Some(x) => Some(x as int),
                        None => None,
                    },
                    j as int,
                ),
            ) && i <= j <= s@.len(),
            None => spec_parse_opt_int(s@, i as int) is None,
        },
{
    if i < s.len() && s[i] == 110 {
        match parse_null(s, i) {
            Some(j) => Some((None, j)),
            None => None,
        }
    } else {
        match parse_int(s, i) {
            Some((v, j)) => Some((Some(v), j)),
            None => None,
        }
    }
}

/// Parse an optional string, exactly as the specification says.
pub fn parse_opt_str(s: &[u8], i: usize) -> (r: Option<(Option<String>, usize)>)
    requires
        i <= s@.len(),
    ensures
        match r {
            Some((v, j)) => spec_parse_opt_str(s@, i as int) == Some((v.deep_view(), j as int)) && i
                <= j <= s@.len(),
            None => spec_parse_opt_str(s@, i as int) is None,
        },
{
    if i < s.len() && s[i] == 110 {
        match parse_null(s, i) {
            Some(j) => Some((None, j)),
            None => None,
        }
    } else {
        match parse_string(s, i) {
            Some((v, j)) => Some((Some(v), j)),
            None => None,
        }
    }
}

/// Parse an optional string array, exactly as the specification says.
pub fn parse_opt_str_array(s: &[u8], i: usize) -> (r: Option<(Option<Vec<String>>, usize)>)
    requires
        i <= s@.len(),
    ensures
        match r {
            Some((v, j)) => spec_parse_opt_str_array(s@, i as int) == Some(
                (
                    match v {
                        Some(ref vv) => Some(vv.deep_view()),
                        None => None,
                    },
                    j as int,
                ),
            ) && i <= j <= s@.len(),
            None => spec_parse_opt_str_array(s@, i as int) is None,
        },
{
    if i < s.len() && s[i] == 110 {
        match parse_null(s, i) {
            Some(j) => Some((None, j)),
            None => None,
        }
    } else if i < s.len() && s[i] == 91 {
        if i + 1 < s.len() && s[i + 1] == 93 {
            let v: Vec<String> = Vec::new();
            proof {
                assert(v.deep_view() =~= Seq::<Seq<char>>::empty());
            }
            return Some((Some(v), i + 2));
        }
        match parse_string(s, i + 1) {
            Some((v0, j0)) => {
                let mut acc: Vec<String> = Vec::new();
                acc.push(v0);
                proof {
                    assert(acc.deep_view() =~= seq![spec_parse_string(s@, i as int + 1).unwrap().0]);
                }
                let mut j = j0;
                #[verifier::loop_isolation(false)]
                loop
                    invariant
                        i < j <= s@.len(),
                        spec_parse_opt_str_array(s@, i as int) == (match spec_parse_str_more(
                            s@,
                            j as int,
                            acc.deep_view(),
                        ) {
                            Some((v, jj)) => Some::<(Option<Seq<Seq<char>>>, int)>(
                                (Some(v), jj),
                            ),
                            None => None::<(Option<Seq<Seq<char>>>, int)>,
                        }),
                    decreases s@.len() - j,
                {
                    if j < s.len() && s[j] == 44 {
                        match parse_string(s, j + 1) {
                            Some((v, j2)) => {
                                let ghost accv = acc.deep_view();
                                acc.push(v);
                                proof {
                                    assert(acc.deep_view() =~= accv.push(v@));
                                }
                                if j2 <= j {
                                    return None;
                                }
                                j = j2;
                            },
                            None => {
                                return None;
                            },
                        }
                    } else if j < s.len() && s[j] == 93 {
                        return Some((Some(acc), j + 1));
                    } else {
                        return None;
                    }
                }
            },
            None => None,
        }
    } else {
        None
    }
}


/// Whether the input carries `lead` and then a `"name":` field head at
/// position `i`.
fn expect_key(s: &[u8], i: usize, lead: u8, name: &str) -> (r: Option<usize>)
    requires
        i <= s@.len(),
    ensures
        match r {
            Some(j) => expect(s@, i as int, seq![lead] + crate::ser::field_head(name@)) == Some(
                j as int,
            ) && i <= j <= s@.len(),
            None => expect(s@, i as int, seq![lead] + crate::ser::field_head(name@)) is None,
        },
{
    let mut tok: Vec<u8> = Vec::new();
    tok.push(lead);
    proof {
        assert(tok@ =~= seq![lead]);
    }
    crate::ser::push_field_head(&mut tok, name);
    proof {
        crate::ser::lemma_assoc3(seq![lead], seq![34u8], crate::ser::lit(name@), seq![34u8, 58u8]);
        assert(tok@ == seq![lead] + crate::ser::field_head(name@));
    }
    expect_bytes(s, i, tok.as_slice())
}

/// Whether the input carries a closing brace at position `i`.
fn expect_close(s: &[u8], i: usize) -> (r: Option<usize>)
    requires
        i <= s@.len(),
    ensures
        match r {
            Some(j) => expect(s@, i as int, seq![125u8]) == Some(j as int) && i <= j <= s@.len(),
            None => expect(s@, i as int, seq![125u8]) is None,
        },
{
    let tok: [u8; 1] = [125];
    proof {
        assert(tok@ =~= seq![125u8]);
    }
    expect_bytes(s, i, tok.as_slice())
}

/// One object field with a string value: the separator or opening brace,
/// the quoted field name, a colon, then the value.
pub open spec fn spec_field_str(s: Seq<u8>, i: int, lead: u8, name: Seq<char>) -> Option<
    (Seq<char>, int),
> {
    match expect(s, i, seq![lead] + crate::ser::field_head(name)) {
        Some(j) => spec_parse_string(s, j),
        None => None,
    }
}

/// One object field with an optional string value.
pub open spec fn spec_field_opt_str(s: Seq<u8>, i: int, lead: u8, name: Seq<char>) -> Option<
    (Option<Seq<char>>, int),
> {
    match expect(s, i, seq![lead] + crate::ser::field_head(name)) {
        Some(j) => spec_parse_opt_str(s, j),
        None => None,
    }
}

/// One object field with an optional integer value.
pub open spec fn spec_field_opt_int(s: Seq<u8>, i: int, lead: u8, name: Seq<char>) -> Option<
    (Option<int>, int),
> {
    match expect(s, i, seq![lead] + crate::ser::field_head(name)) {
        Some(j) => spec_parse_opt_int(s, j),
        None => None,
    }
}

/// One object field with an integer value.
pub open spec fn spec_field_int(s: Seq<u8>, i: int, lead: u8, name: Seq<char>) -> Option<
    (int, int),
> {
    match expect(s, i, seq![lead] + crate::ser::field_head(name)) {
        Some(j) => spec_parse_int(s, j),
        None => None,
    }
}

/// One object field with a boolean value.
pub open spec fn spec_field_bool(s: Seq<u8>, i: int, lead: u8, name: Seq<char>) -> Option<
    (bool, int),
> {
    match expect(s, i, seq![lead] + crate::ser::field_head(name)) {
        Some(j) => spec_parse_bool(s, j),
        None => None,
    }
}

/// One object field with an optional string-array value.
pub open spec fn spec_field_opt_str_array(s: Seq<u8>, i: int, lead: u8, name: Seq<char>) -> Option<
    (Option<Seq<Seq<char>>>, int),
> {
    match expect(s, i, seq![lead] + crate::ser::field_head(name)) {
        Some(j) => spec_parse_opt_str_array(s, j),
        None => None,
    }
}

/// One object field holding the options array.
pub open spec fn spec_field_options(s: Seq<u8>, i: int, lead: u8, name: Seq<char>) -> Option<
    (Seq<crate::dialogue::OptionV>, int),
> {
    match expect(s, i, seq![lead] + crate::ser::field_head(name)) {
        Some(j) => spec_parse_options(s, j),
        None => None,
    }
}

/// One object field holding the passive-check array.
pub open spec fn spec_field_checks(s: Seq<u8>, i: int, lead: u8, name: Seq<char>) -> Option<
    (Seq<crate::dialogue::CheckV>, int),
> {
    match expect(s, i, seq![lead] + crate::ser::field_head(name)) {
        Some(j) => spec_parse_checks(s, j),
        None => None,
    }
}

/// A parsed `DialogueOption` object, with its fields in the fixed order
/// the serializer writes.
pub open spec fn spec_parse_option(s: Seq<u8>, i: int) -> Option<(crate::dialogue::OptionV, int)> {
    match spec_field_str(s, i, 123, "description"@) {
        None => None,
        Some((description, j1)) => {
            match spec_field_opt_str(s, j1, 44, "challenge_attribute"@) {
                None => None,
                Some((challenge_attribute, j2)) => {
                    match spec_field_opt_int(s, j2, 44, "challenge_number"@) {
                        None => None,
                        Some((challenge_number, j3)) => {
                            match spec_field_opt_str(s, j3, 44, "success_dialogue"@) {
                                None => None,
                                Some((success_dialogue, j4)) => {
                                    match spec_field_opt_str(s, j4, 44, "failure_dialogue"@) {
                                        None => None,
                                        Some((failure_dialogue, j5)) => {
                                            match spec_field_opt_str(s, j5, 44, "item_to_pickup"@) {
                                                None => None,
                                                Some((item_to_pickup, j6)) => {
                                                    match spec_field_opt_str(s, j6, 44, "visible_when"@) {
                                                        None => None,
                                                        Some((visible_when, j7)) => {
                                                            match spec_field_opt_str_array(s, j7, 44, "flags"@) {
                                                                None => None,
                                                                Some((flags, j8)) => {
                                                                    match expect(s, j8, seq![125u8]) {
                                                                        None => None,
                                                                        Some(end) => Some((crate::dialogue::OptionV {
                                            description,
                                            challenge_attribute,
                                            challenge_number,
                                            success_dialogue,
                                            failure_dialogue,
                                            item_to_pickup,
                                            visible_when,
                                            flags,
                                        }, end)),
                                                                    }
                                                                },
                                                            }
                                                        },
                                                    }
                                                },
                                            }
                                        },
                                    }
                                },
                            }
                        },
                    }
                },
            }
        },
    }
}

/// Parse a `DialogueOption`, exactly as the specification says.
pub fn parse_option(s: &[u8], i: usize) -> (r: Option<(crate::dialogue::DialogueOption, usize)>)
    requires
        i <= s@.len(),
    ensures
        match r {
            Some((o, j)) => spec_parse_option(s@, i as int) == Some((o@, j as int)) && i <= j
                <= s@.len(),
            None => spec_parse_option(s@, i as int) is None,
        },
{
    let i1 = match expect_key(s, i, 123, "description") {
        Some(j) => j,
        None => {
            return None;
        },
    };
    let (description, j1) = match parse_string(s, i1) {
        Some(x) => x,
        None => {
            return None;
        },
    };
    let i2 = match expect_key(s, j1, 44, "challenge_attribute") {
        Some(j) => j,
        None => {
            return None;
        },
    };
    let (challenge_attribute, j2) = match parse_opt_str(s, i2) {
        Some(x) => x,
        None => {
            return None;
        },
    };
    let i3 = match expect_key(s, j2, 44, "challenge_number") {
        Some(j) => j,
        None => {
            return None;
        },
    };
    let (challenge_number, j3) = match parse_opt_int(s, i3) {
        Some(x) => x,
        None => {
            return None;
        },
    };
    let i4 = match expect_key(s, j3, 44, "success_dialogue") {
        Some(j) => j,
        None => {
            return None;
        },
    };
    let (success_dialogue, j4) = match parse_opt_str(s, i4) {
        Some(x) => x,
        None => {
            return None;
        },
    };
    let i5 = match expect_key(s, j4, 44, "failure_dialogue") {
        Some(j) => j,
        None => {
            return None;
        },
    };
    let (failure_dialogue, j5) = match parse_opt_str(s, i5) {
        Some(x) => x,
        None => {
            return None;
        },
    };
    let i6 = match expect_key(s, j5, 44, "item_to_pickup") {
        Some(j) => j,
        None => {
            return None;
        },
    };
    let (item_to_pickup, j6) = match parse_opt_str(s, i6) {
        Some(x) => x,
        None => {
            return None;
        },
    };
    let i7 = match expect_key(s, j6, 44, "visible_when") {
        Some(j) => j,
        None => {
            return None;
        },
    };
    let (visible_when, j7) = match parse_opt_str(s, i7) {
        Some(x) => x,
        None => {
            return None;
        },
    };
    let i8 = match expect_key(s, j7, 44, "flags") {
        Some(j) => j,
        None => {
            return None;
        },
    };
    let (flags, j8) = match parse_opt_str_array(s, i8) {
        Some(x) => x,
        None => {
            return None;
        },
    };
    let end = match expect_close(s, j8) {
        Some(j) => j,
        None => {
            return None;
        },
    };
    let o = crate::dialogue::DialogueOption {
        description,
        challenge_attribute,
        challenge_number,
        success_dialogue,
        failure_dialogue,
        item_to_pickup,
        visible_when,
        flags,
    };
    proof {
        assert(spec_parse_option(s@, i as int) == Some((o@, end as int))) by {
            assert(o@ =~= spec_parse_option(s@, i as int).unwrap().0);
        }
    }
    Some((o, end))
}

/// A parsed `PassiveCheck` object.
pub open spec fn spec_parse_check(s: Seq<u8>, i: int) -> Option<(crate::dialogue::CheckV, int)> {
    match spec_field_str(s, i, 123, "skill"@) {
        None => None,
        Some((skill, j1)) => {
            match spec_field_int(s, j1, 44, "target"@) {
                None => None,
                Some((target, j2)) => {
                    match spec_field_opt_str(s, j2, 44, "success_text"@) {
                        None => None,
                        Some((success_text, j3)) => {
                            match spec_field_opt_str(s, j3, 44, "failure_text"@) {
                                None => None,
                                Some((failure_text, j4)) => {
                                    match spec_field_opt_str(s, j4, 44, "speaker"@) {
                                        None => None,
                                        Some((speaker, j5)) => {
                                            match expect(s, j5, seq![125u8]) {
                                                None => None,
                                                Some(end) => Some((crate::dialogue::CheckV { skill, target, success_text, failure_text, speaker }, end)),
                                            }
                                        },
                                    }
                                },
                            }
                        },
                    }
                },
            }
        },
    }
}

/// Parse a `PassiveCheck`, exactly as the specification says.
pub fn parse_check(s: &[u8], i: usize) -> (r: Option<(crate::dialogue::PassiveCheck, usize)>)
    requires
        i <= s@.len(),
    ensures
        match r {
            Some((c, j)) => spec_parse_check(s@, i as int) == Some((c@, j as int)) && i <= j
                <= s@.len(),
            None => spec_parse_check(s@, i as int) is None,
        },
{
    let i1 = match expect_key(s, i, 123, "skill") {
        Some(j) => j,
        None => {
            return None;
        },
    };
    let (skill, j1) = match parse_string(s, i1) {
        Some(x) => x,
        None => {
            return None;
        },
    };
    let i2 = match expect_key(s, j1, 44, "target") {
        Some(j) => j,
        None => {
            return None;
        },
    };
    let (target, j2) = match parse_int(s, i2) {
        Some(x) => x,
        None => {
            return None;
        },
    };
    let i3 = match expect_key(s, j2, 44, "success_text") {
        Some(j) => j,
        None => {
            return None;
        },
    };
    let (success_text, j3) = match parse_opt_str(s, i3) {
        Some(x) => x,
        None => {
            return None;
        },
    };
    let i4 = match expect_key(s, j3, 44, "failure_text") {
        Some(j) => j,
        None => {
            return None;
        },
    };
    let (failure_text, j4) = match parse_opt_str(s, i4) {
        Some(x) => x,
        None => {
            return None;
        },
    };
    let i5 = match expect_key(s, j4, 44, "speaker") {
        Some(j) => j,
        None => {
            return None;
        },
    };
    let (speaker, j5) = match parse_opt_str(s, i5) {
        Some(x) => x,
        None => {
            return None;
        },
    };
    let end = match expect_close(s, j5) {
        Some(j) => j,
        None => {
            return None;
        },
    };
    let c = crate::dialogue::PassiveCheck { skill, target, success_text, failure_text, speaker };
    proof {
        assert(spec_parse_check(s@, i as int) == Some((c@, end as int))) by {
            assert(c@ =~= spec_parse_check(s@, i as int).unwrap().0);
        }
    }
    Some((c, end))
}

/// The options after the first in an options array.
pub open spec fn spec_parse_options_more(
    s: Seq<u8>,
    i: int,
    acc: Seq<crate::dialogue::OptionV>,
) -> Option<(Seq<crate::dialogue::OptionV>, int)>
    decreases s.len() - i,
    when 0 <= i <= s.len()
{
    if 0 <= i < s.len() && s[i] == 44 {
        match spec_parse_option(s, i + 1) {
            Some((v, j)) => if i < j <= s.len() {
                spec_parse_options_more(s, j, acc.push(v))
            } else {
                None
            },
            None => None,
        }
    } else if 0 <= i < s.len() && s[i] == 93 {
        Some((acc, i + 1))
    } else {
        None
    }
}

/// A parsed array of options.
pub open spec fn spec_parse_options(s: Seq<u8>, i: int) -> Option<
    (Seq<crate::dialogue::OptionV>, int),
> {
    if 0 <= i < s.len() && s[i] == 91 {
        if i + 1 < s.len() && s[i + 1] == 93 {
            Some((Seq::empty(), i + 2))
        } else {
            match spec_parse_option(s, i + 1) {
                Some((v, j)) => if i < j <= s.len() {
                    spec_parse_options_more(s, j, seq![v])
                } else {
                    None
                },
                None => None,
            }
        }
    } else {
        None
    }
}

/// Parse an array of options, exactly as the specification says.
pub fn parse_options_array(s: &[u8], i: usize) -> (r: Option<
    (Vec<crate::dialogue::DialogueOption>, usize),
>)
    requires
        i <= s@.len(),
    ensures
        match r {
            Some((v, j)) => spec_parse_options(s@, i as int) == Some((v.deep_view(), j as int)) && i
                <= j <= s@.len(),
            None => spec_parse_options(s@, i as int) is None,
        },
{
    if i >= s.len() || s[i] != 91 {
        return None;
    }
    if i + 1 < s.len() && s[i + 1] == 93 {
        let v: Vec<crate::dialogue::DialogueOption> = Vec::new();
        proof {
            assert(v.deep_view() =~= Seq::<crate::dialogue::OptionV>::empty());
        }
        return Some((v, i + 2));
    }
    match parse_option(s, i + 1) {
        Some((v0, j0)) => {
            let mut acc: Vec<crate::dialogue::DialogueOption> = Vec::new();
            acc.push(v0);
            proof {
                assert(acc.deep_view() =~= seq![spec_parse_option(s@, i as int + 1).unwrap().0]);
            }
            let mut j = j0;
            #[verifier::loop_isolation(false)]
            loop
                invariant
                    i < j <= s@.len(),
                    spec_parse_options(s@, i as int) == spec_parse_options_more(
                        s@,
                        j as int,
                        acc.deep_view(),
                    ),
                decreases s@.len() - j,
            {
                if j < s.len() && s[j] == 44 {
                    match parse_option(s, j + 1) {
                        Some((v, j2)) => {
                            let ghost accv = acc.deep_view();
                            acc.push(v);
                            proof {
                                assert(acc.deep_view() =~= accv.push(v@));
                            }
                            if j2 <= j {
                                return None;
                            }
                            j = j2;
                        },
                        None => {
                            return None;
                        },
                    }
                } else if j < s.len() && s[j] == 93 {
                    return Some((acc, j + 1));
                } else {
                    return None;
                }
            }
        },
        None => None,
    }
}

/// The checks after the first in a passive-check array.
pub open spec fn spec_parse_checks_more(s: Seq<u8>, i: int, acc: Seq<crate::dialogue::CheckV>) -> Option<
    (Seq<crate::dialogue::CheckV>, int),
>
    decreases s.len() - i,
    when 0 <= i <= s.len()
{
    if 0 <= i < s.len() && s[i] == 44 {
        match spec_parse_check(s, i + 1) {
            Some((v, j)) => if i < j <= s.len() {
                spec_parse_checks_more(s, j, acc.push(v))
            } else {
                None
            },
            None => None,
        }
    } else if 0 <= i < s.len() && s[i] == 93 {
        Some((acc, i + 1))
    } else {
        None
    }
}

/// A parsed array of passive checks.
pub open spec fn spec_parse_checks(s: Seq<u8>, i: int) -> Option<
    (Seq<crate::dialogue::CheckV>, int),
> {
    if 0 <= i < s.len() && s[i] == 91 {
        if i + 1 < s.len() && s[i + 1] == 93 {
            Some((Seq::empty(), i + 2))
        } else {
            match spec_parse_check(s, i + 1) {
                Some((v, j)) => if i < j <= s.len() {
                    spec_parse_checks_more(s, j, seq![v])
                } else {
                    None
                },
                None => None,
            }
        }
    } else {
        None
    }
}

/// Parse an array of passive checks, exactly as the specification says.
pub fn parse_checks_array(s: &[u8], i: usize) -> (r: Option<
    (Vec<crate::dialogue::PassiveCheck>, usize),
>)
    requires
        i <= s@.len(),
    ensures
        match r {
            Some((v, j)) => spec_parse_checks(s@, i as int) == Some((v.deep_view(), j as int)) && i
                <= j <= s@.len(),
            None => spec_parse_checks(s@, i as int) is None,
        },
{
    if i >= s.len() || s[i] != 91 {
        return None;
    }
    if i + 1 < s.len() && s[i + 1] == 93 {
        let v: Vec<crate::dialogue::PassiveCheck> = Vec::new();
        proof {
            assert(v.deep_view() =~= Seq::<crate::dialogue::CheckV>::empty());
        }
        return Some((v, i + 2));
    }
    match parse_check(s, i + 1) {
        Some((v0, j0)) => {
            let mut acc: Vec<crate::dialogue::PassiveCheck> = Vec::new();
            acc.push(v0);
            proof {
                assert(acc.deep_view() =~= seq![spec_parse_check(s@, i as int + 1).unwrap().0]);
            }
            let mut j = j0;
            #[verifier::loop_isolation(false)]
            loop
                invariant
                    i < j <= s@.len(),
                    spec_parse_checks(s@, i as int) == spec_parse_checks_more(
                        s@,
                        j as int,
                        acc.deep_view(),
                    ),
                decreases s@.len() - j,
            {
                if j < s.len() && s[j] == 44 {
                    match parse_check(s, j + 1) {
                        Some((v, j2)) => {
                            let ghost accv = acc.deep_view();
                            acc.push(v);
                            proof {
                                assert(acc.deep_view() =~= accv.push(v@));
                            }
                            if j2 <= j {
                                return None;
                            }
                            j = j2;
                        },
                        None => {
                            return None;
                        },
                    }
                } else if j < s.len() && s[j] == 93 {
                    return Some((acc, j + 1));
                } else {
                    return None;
                }
            }
        },
        None => None,
    }
}

/// A parsed `Dialogue` object.
pub open spec fn spec_parse_dialogue(s: Seq<u8>, i: int) -> Option<(crate::dialogue::DialogueV, int)> {
    match spec_field_str(s, i, 123, "speaker"@) {
        None => None,
        Some((speaker, j1)) => {
            match spec_field_str(s, j1, 44, "intro"@) {
                None => None,
                Some((intro, j2)) => {
                    match spec_field_options(s, j2, 44, "options"@) {
                        None => None,
                        Some((options, j3)) => {
                            match spec_field_checks(s, j3, 44, "passive_check"@) {
                                None => None,
                                Some((passive_check, j4)) => {
                                    match spec_field_opt_int(s, j4, 44, "xp_reward"@) {
                                        None => None,
                                        Some((xp_reward, j5)) => {
                                            match spec_field_bool(s, j5, 44, "is_hidden"@) {
                                                None => None,
                                                Some((is_hidden, j6)) => {
                                                    match spec_field_opt_int(s, j6, 44, "time"@) {
                                                        None => None,
                                                        Some((time, j7)) => {
                                                            match expect(s, j7, seq![125u8]) {
                                                                None => None,
                                                                Some(end) => Some((crate::dialogue::DialogueV {
                                            speaker,
                                            intro,
                                            options,
                                            passive_check,
                                            xp_reward,
                                            is_hidden,
                                            time,
                                        }, end)),
                                                            }
                                                        },
                                                    }
                                                },
                                            }
                                        },
                                    }
                                },
                            }
                        },
                    }
                },
            }
        },
    }
}

/// Parse a `Dialogue`, exactly as the specification says.
pub fn parse_dialogue(s: &[u8], i: usize) -> (r: Option<(crate::dialogue::Dialogue, usize)>)
    requires
        i <= s@.len(),
    ensures
        match r {
            Some((d, j)) => spec_parse_dialogue(s@, i as int) == Some((d@, j as int)) && i <= j
                <= s@.len(),
            None => spec_parse_dialogue(s@, i as int) is None,
        },
{
    let i1 = match expect_key(s, i, 123, "speaker") {
        Some(j) => j,
        None => {
            return None;
        },
    };
    let (speaker, j1) = match parse_string(s, i1) {
        Some(x) => x,
        None => {
            return None;
        },
    };
    let i2 = match expect_key(s, j1, 44, "intro") {
        Some(j) => j,
        None => {
            return None;
        },
    };
    let (intro, j2) = match parse_string(s, i2) {
        Some(x) => x,
        None => {
            return None;
        },
    };
    let i3 = match expect_key(s, j2, 44, "options") {
        Some(j) => j,
        None => {
            return None;
        },
    };
    let (options, j3) = match parse_options_array(s, i3) {
        Some(x) => x,
        None => {
            return None;
        },
    };
    let i4 = match expect_key(s, j3, 44, "passive_check") {
        Some(j) => j,
        None => {
            return None;
        },
    };
    let (passive_check, j4) = match parse_checks_array(s, i4) {
        Some(x) => x,
        None => {
            return None;
        },
    };
    let i5 = match expect_key(s, j4, 44, "xp_reward") {
        Some(j) => j,
        None => {
            return None;
        },
    };
    let (xp_reward, j5) = match parse_opt_int(s, i5) {
        Some(x) => x,
        None => {
            return None;
        },
    };
    let i6 = match expect_key(s, j5, 44, "is_hidden") {
        Some(j) => j,
        None => {
            return None;
        },
    };
    let (is_hidden, j6) = match parse_bool(s, i6) {
        Some(x) => x,
        None => {
            return None;
        },
    };
    let i7 = match expect_key(s, j6, 44, "time") {
        Some(j) => j,
        None => {
            return None;
        },
    };
    let (time, j7) = match parse_opt_int(s, i7) {
        Some(x) => x,
        None => {
            return None;
        },
    };
    let end = match expect_close(s, j7) {
        Some(j) => j,
        None => {
            return None;
        },
    };
    let d = crate::dialogue::Dialogue {
        speaker,
        intro,
        options,
        passive_check,
        xp_reward,
        is_hidden,
        time,
    };
    proof {
        assert(spec_parse_dialogue(s@, i as int) == Some((d@, end as int))) by {
            assert(d@ =~= spec_parse_dialogue(s@, i as int).unwrap().0);
        }
    }
    Some((d, end))
}

/// A parsed graph entry: a key string, a colon, a dialogue.
pub open spec fn spec_parse_entry(s: Seq<u8>, i: int) -> Option<
    ((Seq<char>, crate::dialogue::DialogueV), int),
> {
    match spec_parse_string(s, i) {
        None => None,
        Some((key, j1)) => match expect(s, j1, seq![58u8]) {
            None => None,
            Some(i2) => match spec_parse_dialogue(s, i2) {
                None => None,
                Some((d, j2)) => Some(((key, d), j2)),
            },
        },
    }
}

/// Parse one graph entry, exactly as the specification says.
fn parse_entry(s: &[u8], i: usize) -> (r: Option<(String, crate::dialogue::Dialogue, usize)>)
    requires
        i <= s@.len(),
    ensures
        match r {
            Some((k, d, j)) => spec_parse_entry(s@, i as int) == Some(((k@, d@), j as int)) && i <= j
                <= s@.len(),
            None => spec_parse_entry(s@, i as int) is None,
        },
{
    let (key, j1) = match parse_string(s, i) {
        Some(x) => x,
        None => {
            return None;
        },
    };
    let tok: [u8; 1] = [58];
    proof {
        assert(tok@ =~= seq![58u8]);
    }
    let i2 = match expect_bytes(s, j1, tok.as_slice()) {
        Some(j) => j,
        None => {
            return None;
        },
    };
    let (d, j2) = match parse_dialogue(s, i2) {
        Some(x) => x,
        None => {
            return None;
        },
    };
    Some((key, d, j2))
}

/// The graph entries after the first. A key that repeats an earlier one
/// is rejected.
pub open spec fn spec_parse_graph_more(
    s: Seq<u8>,
    i: int,
    acc: Seq<(Seq<char>, crate::dialogue::DialogueV)>,
) -> Option<(Seq<(Seq<char>, crate::dialogue::DialogueV)>, int)>
    decreases s.len() - i,
    when 0 <= i <= s.len()
{
    if 0 <= i < s.len() && s[i] == 44 {
        match spec_parse_entry(s, i + 1) {
            Some((e, j)) => if crate::graph::assoc_has(acc, e.0) {
                None
            } else if i < j <= s.len() {
                spec_parse_graph_more(s, j, acc.push(e))
            } else {
                None
            },
            None => None,
        }
    } else if 0 <= i < s.len() && s[i] == 125 {
        Some((acc, i + 1))
    } else {
        None
    }
}

/// A whole parsed graph: a JSON object over the full input, keys unique.
pub open spec fn spec_parse_graph(s: Seq<u8>) -> Option<
    Seq<(Seq<char>, crate::dialogue::DialogueV)>,
> {
    if s.len() >= 1 && s[0] == 123 {
        if s.len() >= 2 && s[1] == 125 {
            if s.len() == 2 {
                Some(Seq::empty())
            } else {
                None
            }
        } else {
            match spec_parse_entry(s, 1) {
                Some((e, j)) => if 1 < j <= s.len() {
                    match spec_parse_graph_more(s, j, seq![e]) {
                        Some((v, jj)) => if jj == s.len() {
                            Some(v)
                        } else {
                            None
                        },
                        None => None,
                    }
                } else {
                    None
                },
                None => None,
            }
        }
    } else {
        None
    }
}

/// Parse a whole graph, exactly as the specification says. On success
/// the keys are unique.
pub fn parse_graph(s: &[u8]) -> (r: Option<crate::graph::DialogueMap>)
    ensures
        match r {
            Some(g) => spec_parse_graph(s@) == Some(g@) && crate::graph::map_wf(g@),
            None => spec_parse_graph(s@) is None,
        },
{
    if s.len() < 1 || s[0] != 123 {
        return None;
    }
    if s.len() >= 2 && s[1] == 125 {
        if s.len() == 2 {
            return Some(crate::graph::DialogueMap::new());
        } else {
            return None;
        }
    }
    let (key0, d0, j0) = match parse_entry(s, 1) {
        Some(x) => x,
        None => {
            return None;
        },
    };
    if j0 <= 1 {
        return None;
    }
    let mut g = crate::graph::DialogueMap::new();
    g.insert(key0, d0);
    proof {
        assert(g@ =~= seq![spec_parse_entry(s@, 1).unwrap().0]);
    }
    let mut j = j0;
    #[verifier::loop_isolation(false)]
    loop
        invariant
            1 < j <= s@.len(),
            crate::graph::map_wf(g@),
            spec_parse_graph(s@) == (match spec_parse_graph_more(s@, j as int, g@) {
                Some((v, jj)) => if jj == s@.len() {
                    Some::<Seq<(Seq<char>, crate::dialogue::DialogueV)>>(v)
                } else {
                    None::<Seq<(Seq<char>, crate::dialogue::DialogueV)>>
                },
                None => None::<Seq<(Seq<char>, crate::dialogue::DialogueV)>>,
            }),
        decreases s@.len() - j,
    {
        if j < s.len() && s[j] == 44 {
            match parse_entry(s, j + 1) {
                Some((k, d, j2)) => {
                    if g.contains_key(&k) {
                        return None;
                    }
                    if j2 <= j {
                        return None;
                    }
                    let ghost gv = g@;
                    g.insert(k, d);
                    proof {
                        assert(g@ =~= gv.push(spec_parse_entry(s@, j as int + 1).unwrap().0));
                    }
                    j = j2;
                },
                None => {
                    return None;
                },
            }
        } else if j < s.len() && s[j] == 125 {
            if j + 1 == s.len() {
                return Some(g);
            } else {
                return None;
            }
        } else {
            return None;
        }
    }
}

} // verus!
