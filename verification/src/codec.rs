//! The transcoder: converts a user record to and from its wire text form,
//! a flat JSON object with an optional integer `id` and the string fields
//! `name` and `email`.
//!
//! The grammar accepted by the deserializer follows the JSON the original
//! service accepted for this record: optional whitespace around every token;
//! one object; the members `id` (integer, or null read as absent), `name`
//! (string) and `email` (string), each at most once, in any order, with
//! `name` and `email` required; unknown members are skipped whatever JSON
//! value they hold; strings take the standard escapes (quote, backslash,
//! slash, `\b \f \n \r \t`, and `\uXXXX` with surrogate pairs) and reject
//! raw control bytes; nothing but whitespace may follow the closing brace.
//! The serializer escapes `"`, `\` and control bytes and writes every other
//! byte raw.

use vstd::prelude::*;
use crate::user::{User, UserView, views_of};

verus! {

// ---------------------------------------------------------------------------
// escaping
// ---------------------------------------------------------------------------

/// The lowercase hex digit of a value below sixteen.
pub open spec fn hex_digit(d: int) -> u8 {
    if d < 10 {
        (48 + d) as u8
    } else {
        (87 + d) as u8
    }
}

/// Wire form of one byte inside a quoted string: quotes and backslashes take
/// a backslash escape, control bytes a unicode escape, all else is raw.
pub open spec fn esc_char(c: u8) -> Seq<u8> {
    if c == 34 || c == 92 {
        seq![92u8, c]
    } else if c < 32 {
        seq![92u8, 117, 48, 48, hex_digit(c as int / 16), hex_digit(c as int % 16)]
    } else {
        seq![c]
    }
}

/// Wire form of a whole string value (without the surrounding quotes).
pub open spec fn esc(s: Seq<u8>) -> Seq<u8>
    decreases s.len(),
{
    if s.len() == 0 {
        Seq::empty()
    } else {
        esc_char(s[0]) + esc(s.subrange(1, s.len() as int))
    }
}

proof fn lemma_esc_push(s: Seq<u8>, c: u8)
    ensures
        esc(s.push(c)) == esc(s) + esc_char(c),
    decreases s.len(),
{
    if s.len() == 0 {
        let sc = s.push(c);
        assert(sc[0] == c);
        assert(sc.subrange(1, 1) =~= Seq::<u8>::empty());
        assert(esc(Seq::<u8>::empty()) == Seq::<u8>::empty());
        assert(esc(sc) =~= esc_char(c));
        assert(esc(s) + esc_char(c) =~= esc_char(c));
    } else {
        let t = s.subrange(1, s.len() as int);
        lemma_esc_push(t, c);
        assert(s.push(c).subrange(1, s.push(c).len() as int) =~= t.push(c));
        assert(esc(s.push(c)) =~= esc(s) + esc_char(c));
    }
}

fn hex_digit_x(d: u8) -> (r: u8)
    requires
        d < 16,
    ensures
        r == hex_digit(d as int),
{
    if d < 10 {
        48 + d
    } else {
        87 + d
    }
}

/// Appends the escaped form of `s` to `v`.
fn push_escaped(v: &mut Vec<u8>, s: &Vec<u8>)
    ensures
        final(v)@ == old(v)@ + esc(s@),
{
    let ghost orig = v@;
    let mut i: usize = 0;
    while i < s.len()
        invariant
            i <= s.len(),
            v@ == orig + esc(s@.subrange(0, i as int)),
        decreases s.len() - i,
    {
        let c = s[i];
        if c == 34 || c == 92 {
            v.push(92);
            v.push(c);
        } else if c < 32 {
            v.push(92);
            v.push(117);
            v.push(48);
            v.push(48);
            v.push(hex_digit_x(c / 16));
            v.push(hex_digit_x(c % 16));
        } else {
            v.push(c);
        }
        proof {
            let pre = s@.subrange(0, i as int);
            lemma_esc_push(pre, c);
            assert(s@.subrange(0, i + 1 as int) =~= pre.push(c));
            assert(v@ =~= orig + esc(s@.subrange(0, i + 1 as int)));
        }
        i = i + 1;
    }
    proof {
        assert(s@.subrange(0, s@.len() as int) =~= s@);
    }
}

// ---------------------------------------------------------------------------
// decimal digits
// ---------------------------------------------------------------------------

/// Decimal digits of `n`, most significant first.
pub open spec fn dec_digits(n: nat) -> Seq<u8>
    decreases n,
{
    if n < 10 {
        seq![(48 + n) as u8]
    } else {
        dec_digits(n / 10) + seq![(48 + n % 10) as u8]
    }
}

/// Decimal form of a signed integer: a minus sign before the digits of the
/// magnitude when negative.
pub open spec fn int_bytes(n: int) -> Seq<u8> {
    if n < 0 {
        seq![45u8] + dec_digits((-n) as nat)
    } else {
        dec_digits(n as nat)
    }
}

/// Appends the decimal digits of `n` to `v`.
fn push_u64_decimal(v: &mut Vec<u8>, n: u64)
    ensures
        final(v)@ == old(v)@ + dec_digits(n as nat),
    decreases n,
{
    if n < 10 {
        v.push(48 + n as u8);
        proof {
            assert(v@ =~= old(v)@ + dec_digits(n as nat));
        }
    } else {
        push_u64_decimal(v, n / 10);
        v.push(48 + (n % 10) as u8);
        proof {
            assert(v@ =~= old(v)@ + dec_digits(n as nat));
        }
    }
}

/// Appends the decimal form of `n` to `v`.
fn push_i32_decimal(v: &mut Vec<u8>, n: i32)
    ensures
        final(v)@ == old(v)@ + int_bytes(n as int),
{
    if n < 0 {
        v.push(45);
        let mag: u64 = (-(n as i64)) as u64;
        push_u64_decimal(v, mag);
        proof {
            assert(v@ =~= old(v)@ + int_bytes(n as int));
        }
    } else {
        push_u64_decimal(v, n as u64);
    }
}

// ---------------------------------------------------------------------------
// serialization
// ---------------------------------------------------------------------------

/// The bytes `"id":`.
pub open spec fn json_id_part() -> Seq<u8> {
    seq![34u8, 105, 100, 34, 58]
}

/// The bytes `"name":"`.
pub open spec fn json_name_part() -> Seq<u8> {
    seq![34u8, 110, 97, 109, 101, 34, 58, 34]
}

/// The bytes `","email":"`.
pub open spec fn json_mid_part() -> Seq<u8> {
    seq![34u8, 44, 34, 101, 109, 97, 105, 108, 34, 58, 34]
}

/// Wire form of one user record.
pub open spec fn spec_serialize_user(u: UserView) -> Seq<u8> {
    seq![123u8] + (match u.id {
        Some(n) => json_id_part() + int_bytes(n as int) + seq![44u8],
        None => Seq::<u8>::empty(),
    }) + json_name_part() + esc(u.name) + json_mid_part() + esc(u.email) + seq![34u8, 125]
}

fn push_json_id_part(v: &mut Vec<u8>)
    ensures
        final(v)@ == old(v)@ + json_id_part(),
{
    v.push(34);
    v.push(105);
    v.push(100);
    v.push(34);
    v.push(58);
    proof {
        assert(v@ =~= old(v)@ + json_id_part());
    }
}

fn push_json_name_part(v: &mut Vec<u8>)
    ensures
        final(v)@ == old(v)@ + json_name_part(),
{
    v.push(34);
    v.push(110);
    v.push(97);
    v.push(109);
    v.push(101);
    v.push(34);
    v.push(58);
    v.push(34);
    proof {
        assert(v@ =~= old(v)@ + json_name_part());
    }
}

fn push_json_mid_part(v: &mut Vec<u8>)
    ensures
        final(v)@ == old(v)@ + json_mid_part(),
{
    v.push(34);
    v.push(44);
    v.push(34);
    v.push(101);
    v.push(109);
    v.push(97);
    v.push(105);
    v.push(108);
    v.push(34);
    v.push(58);
    v.push(34);
    proof {
        assert(v@ =~= old(v)@ + json_mid_part());
    }
}

/// Serializes one user record to its wire form.
pub fn serialize_user(u: &User) -> (r: Vec<u8>)
    ensures
        r@ == spec_serialize_user(u@),
{
    let mut v: Vec<u8> = Vec::new();
    v.push(123);
    match u.id {
        Some(n) => {
            push_json_id_part(&mut v);
            push_i32_decimal(&mut v, n);
            v.push(44);
        }
        None => {}
    }
    push_json_name_part(&mut v);
    push_escaped(&mut v, &u.name);
    push_json_mid_part(&mut v);
    push_escaped(&mut v, &u.email);
    v.push(34);
    v.push(125);
    proof {
        assert(v@ =~= spec_serialize_user(u@));
    }
    v
}

/// Wire form of the records between the brackets of an array.
pub open spec fn spec_serialize_users_inner(us: Seq<UserView>) -> Seq<u8>
    decreases us.len(),
{
    if us.len() == 0 {
        Seq::empty()
    } else if us.len() == 1 {
        spec_serialize_user(us[0])
    } else {
        spec_serialize_user(us[0]) + seq![44u8]
            + spec_serialize_users_inner(us.subrange(1, us.len() as int))
    }
}

/// Wire form of a sequence of user records: a JSON array.
pub open spec fn spec_serialize_users(us: Seq<UserView>) -> Seq<u8> {
    seq![91u8] + spec_serialize_users_inner(us) + seq![93u8]
}

proof fn lemma_serialize_users_inner_push(us: Seq<UserView>, u: UserView)
    ensures
        spec_serialize_users_inner(us.push(u)) == if us.len() == 0 {
            spec_serialize_user(u)
        } else {
            spec_serialize_users_inner(us) + seq![44u8] + spec_serialize_user(u)
        },
    decreases us.len(),
{
    if us.len() == 0 {
        assert(us.push(u).len() == 1);
        assert(us.push(u)[0] == u);
        assert(spec_serialize_users_inner(us.push(u)) =~= spec_serialize_user(u));
    } else {
        let t = us.subrange(1, us.len() as int);
        lemma_serialize_users_inner_push(t, u);
        assert(us.push(u).subrange(1, us.push(u).len() as int) =~= t.push(u));
        if us.len() == 1 {
            assert(t.len() == 0);
            assert(spec_serialize_users_inner(us.push(u))
                =~= spec_serialize_users_inner(us) + seq![44u8] + spec_serialize_user(u));
        } else {
            assert(spec_serialize_users_inner(us.push(u))
                =~= spec_serialize_users_inner(us) + seq![44u8] + spec_serialize_user(u));
        }
    }
}

/// Serializes a sequence of user records as a JSON array.
pub fn serialize_users(us: &Vec<User>) -> (r: Vec<u8>)
    ensures
        r@ == spec_serialize_users(views_of(us@)),
{
    let ghost uviews = views_of(us@);
    let mut v: Vec<u8> = Vec::new();
    v.push(91);
    let mut i: usize = 0;
    while i < us.len()
        invariant
            i <= us.len(),
            uviews == views_of(us@),
            v@ == seq![91u8] + spec_serialize_users_inner(uviews.subrange(0, i as int)),
        decreases us.len() - i,
    {
        if i > 0 {
            v.push(44);
        }
        let one = serialize_user(&us[i]);
        let mut k: usize = 0;
        while k < one.len()
            invariant
                k <= one.len(),
                v@ == seq![91u8] + spec_serialize_users_inner(uviews.subrange(0, i as int))
                    + (if i > 0 { seq![44u8] } else { Seq::<u8>::empty() })
                    + one@.subrange(0, k as int),
                i < us.len(),
                one@ == spec_serialize_user(uviews[i as int]),
            decreases one.len() - k,
        {
            v.push(one[k]);
            proof {
                assert(one@.subrange(0, k + 1 as int) =~= one@.subrange(0, k as int).push(one@[k as int]));
                assert(v@ =~= seq![91u8] + spec_serialize_users_inner(uviews.subrange(0, i as int))
                    + (if i > 0 { seq![44u8] } else { Seq::<u8>::empty() })
                    + one@.subrange(0, k + 1 as int));
            }
            k = k + 1;
        }
        proof {
            assert(one@.subrange(0, one@.len() as int) =~= one@);
            let pre = uviews.subrange(0, i as int);
            lemma_serialize_users_inner_push(pre, uviews[i as int]);
            assert(uviews.subrange(0, i + 1 as int) =~= pre.push(uviews[i as int]));
            assert(v@ =~= seq![91u8] + spec_serialize_users_inner(uviews.subrange(0, i + 1 as int)));
        }
        i = i + 1;
    }
    v.push(93);
    proof {
        assert(uviews.subrange(0, uviews.len() as int) =~= uviews);
        assert(v@ =~= spec_serialize_users(uviews));
    }
    v
}



// ---------------------------------------------------------------------------
// deserialization
// ---------------------------------------------------------------------------

/// Whitespace accepted between tokens.
pub open spec fn is_ws(c: u8) -> bool {
    c == 32 || c == 9 || c == 10 || c == 13
}

/// First position at or after `i` holding a non-whitespace byte (or the end).
pub open spec fn skip_ws(s: Seq<u8>, i: int) -> int
    decreases s.len() - i,
{
    if 0 <= i && i < s.len() && is_ws(s[i]) {
        skip_ws(s, i + 1)
    } else {
        i
    }
}

/// A decimal digit.
pub open spec fn is_digit(c: u8) -> bool {
    48 <= c && c <= 57
}

/// End of the digit run starting at `i`.
pub open spec fn digits_end(s: Seq<u8>, i: int) -> int
    decreases s.len() - i,
{
    if 0 <= i && i < s.len() && is_digit(s[i]) {
        digits_end(s, i + 1)
    } else {
        i
    }
}

/// Numeric value of one digit byte (zero for any other byte).
pub open spec fn digit_of(c: u8) -> int {
    if is_digit(c) {
        c - 48
    } else {
        0
    }
}

/// Value of the digits in `s[i..j)`.
pub open spec fn digits_val(s: Seq<u8>, i: int, j: int) -> int
    decreases j - i,
{
    if i < j {
        digits_val(s, i, j - 1) * 10 + digit_of(s[j - 1])
    } else {
        0
    }
}

proof fn lemma_digits_val_nonneg(s: Seq<u8>, i: int, j: int)
    ensures
        digits_val(s, i, j) >= 0,
    decreases j - i,
{
    if i < j {
        lemma_digits_val_nonneg(s, i, j - 1);
    }
}

/// An integer member value at `i`: an optional minus sign, then digits under
/// the JSON number grammar (no leading zero), with a value that fits the
/// record identifier type.
pub open spec fn spec_parse_int(s: Seq<u8>, i: int) -> Option<(i32, int)> {
    let neg = 0 <= i && i < s.len() && s[i] == 45;
    let k = if neg {
        i + 1
    } else {
        i
    };
    let j = digits_end(s, k);
    if j == k {
        None
    } else if s[k] == 48 && j > k + 1 {
        None
    } else {
        let v = digits_val(s, k, j);
        let sv = if neg {
            -v
        } else {
            v
        };
        if -2147483648 <= sv && sv <= 2147483647 {
            Some((sv as i32, j))
        } else {
            None
        }
    }
}

/// A whole path segment as a signed integer: an optional plus or minus sign,
/// then digits (leading zeros allowed) up to the end of the segment, with a
/// value that fits the record identifier type.
pub open spec fn spec_parse_seg_i32(s: Seq<u8>) -> Option<i32> {
    if s.len() == 0 {
        None
    } else {
        let neg = s[0] == 45;
        let k: int = if s[0] == 45 || s[0] == 43 {
            1
        } else {
            0
        };
        let j = digits_end(s, k);
        if j != s.len() || j == k {
            None
        } else {
            let v = digits_val(s, k, j);
            let sv = if neg {
                -v
            } else {
                v
            };
            if -2147483648 <= sv && sv <= 2147483647 {
                Some(sv as i32)
            } else {
                None
            }
        }
    }
}

/// A hex digit of a unicode escape.
pub open spec fn is_hex(c: u8) -> bool {
    (48 <= c && c <= 57) || (97 <= c && c <= 102) || (65 <= c && c <= 70)
}

/// Value of a hex digit.
pub open spec fn hex_val(c: u8) -> int {
    if 48 <= c && c <= 57 {
        c - 48
    } else if 97 <= c && c <= 102 {
        c - 87
    } else {
        c - 55
    }
}

/// Four hex digits at `i`.
pub open spec fn spec_hex4(s: Seq<u8>, i: int) -> Option<int> {
    if 0 <= i && i + 4 <= s.len() && is_hex(s[i]) && is_hex(s[i + 1]) && is_hex(s[i + 2]) && is_hex(
        s[i + 3],
    ) {
        Some(hex_val(s[i]) * 4096 + hex_val(s[i + 1]) * 256 + hex_val(s[i + 2]) * 16 + hex_val(
            s[i + 3],
        ))
    } else {
        None
    }
}

/// The UTF-8 encoding of a code point.
pub open spec fn utf8_enc(cp: int) -> Seq<u8> {
    if cp < 0x80 {
        seq![cp as u8]
    } else if cp < 0x800 {
        seq![(0xC0 + cp / 0x40) as u8, (0x80 + cp % 0x40) as u8]
    } else if cp < 0x10000 {
        seq![(0xE0 + cp / 0x1000) as u8, (0x80 + (cp / 0x40) % 0x40) as u8, (0x80 + cp % 0x40) as u8]
    } else {
        seq![
            (0xF0 + cp / 0x40000) as u8,
            (0x80 + (cp / 0x1000) % 0x40) as u8,
            (0x80 + (cp / 0x40) % 0x40) as u8,
            (0x80 + cp % 0x40) as u8,
        ]
    }
}

/// A unicode escape read from just after `\u`: four hex digits, a leading
/// surrogate demanding a trailing one, a lone surrogate an error. Returns the
/// bytes the escape stands for and the position after it.
pub open spec fn spec_u_escape(s: Seq<u8>, i: int) -> Option<(Seq<u8>, int)> {
    match spec_hex4(s, i) {
        None => None,
        Some(cp) => {
            if 0xD800 <= cp && cp < 0xDC00 {
                if i + 10 <= s.len() && s[i + 4] == 92 && s[i + 5] == 117 {
                    match spec_hex4(s, i + 6) {
                        None => None,
                        Some(cp2) => if 0xDC00 <= cp2 && cp2 < 0xE000 {
                            Some(
                                (
                                    utf8_enc(0x10000 + (cp - 0xD800) * 0x400 + (cp2 - 0xDC00)),
                                    i + 10,
                                ),
                            )
                        } else {
                            None
                        },
                    }
                } else {
                    None
                }
            } else if 0xDC00 <= cp && cp < 0xE000 {
                None
            } else {
                Some((utf8_enc(cp), i + 4))
            }
        },
    }
}

/// The byte a single-character escape stands for.
pub open spec fn unescape_char(e: u8) -> Option<u8> {
    if e == 34 {
        Some(34u8)
    } else if e == 92 {
        Some(92u8)
    } else if e == 47 {
        Some(47u8)
    } else if e == 98 {
        Some(8u8)
    } else if e == 102 {
        Some(12u8)
    } else if e == 110 {
        Some(10u8)
    } else if e == 114 {
        Some(13u8)
    } else if e == 116 {
        Some(9u8)
    } else {
        None
    }
}

/// Content of a quoted string, read from just after the opening quote:
/// standard escapes, raw control bytes rejected. Returns the unescaped bytes
/// and the position after the closing quote.
pub open spec fn parse_str_rest(s: Seq<u8>, i: int) -> Option<(Seq<u8>, int)>
    decreases s.len() - i,
{
    if !(0 <= i && i < s.len()) {
        None
    } else if s[i] == 34 {
        Some((Seq::empty(), i + 1))
    } else if s[i] == 92 {
        if i + 1 < s.len() {
            let e = s[i + 1];
            if e == 117 {
                match spec_u_escape(s, i + 2) {
                    None => None,
                    Some((bs, j)) => if i < j && j <= s.len() {
                        match parse_str_rest(s, j) {
                            Some((t, k)) => Some((bs + t, k)),
                            None => None,
                        }
                    } else {
                        None
                    },
                }
            } else {
                match unescape_char(e) {
                    None => None,
                    Some(b) => match parse_str_rest(s, i + 2) {
                        Some((t, j)) => Some((seq![b] + t, j)),
                        None => None,
                    },
                }
            }
        } else {
            None
        }
    } else if s[i] < 32 {
        None
    } else {
        match parse_str_rest(s, i + 1) {
            Some((t, j)) => Some((seq![s[i]] + t, j)),
            None => None,
        }
    }
}

// ---------------------------------------------------------------------------
// skipping unknown member values
// ---------------------------------------------------------------------------

/// The keyword literals.
pub open spec fn lit_true() -> Seq<u8> {
    seq![116u8, 114, 117, 101]
}

pub open spec fn lit_false() -> Seq<u8> {
    seq![102u8, 97, 108, 115, 101]
}

pub open spec fn lit_null() -> Seq<u8> {
    seq![110u8, 117, 108, 108]
}

/// The word `w` stands at `i`; returns the position after it.
pub open spec fn skip_lit(s: Seq<u8>, i: int, w: Seq<u8>) -> Option<int> {
    if 0 <= i && i + w.len() <= s.len() && s.subrange(i, i + w.len() as int) == w {
        Some(i + w.len() as int)
    } else {
        None
    }
}

/// An optional fraction part at `j`.
pub open spec fn skip_frac(s: Seq<u8>, j: int) -> Option<int> {
    if 0 <= j && j < s.len() && s[j] == 46 {
        let jf = digits_end(s, j + 1);
        if jf == j + 1 {
            None
        } else {
            Some(jf)
        }
    } else {
        Some(j)
    }
}

/// An optional exponent part at `j`.
pub open spec fn skip_exp(s: Seq<u8>, j: int) -> Option<int> {
    if 0 <= j && j < s.len() && (s[j] == 101 || s[j] == 69) {
        let k = if j + 1 < s.len() && (s[j + 1] == 43 || s[j + 1] == 45) {
            j + 2
        } else {
            j + 1
        };
        let je = digits_end(s, k);
        if je == k {
            None
        } else {
            Some(je)
        }
    } else {
        Some(j)
    }
}

/// A number under the JSON grammar at `i`; returns the position after it.
pub open spec fn skip_number(s: Seq<u8>, i: int) -> Option<int> {
    let k = if 0 <= i && i < s.len() && s[i] == 45 {
        i + 1
    } else {
        i
    };
    let j = digits_end(s, k);
    if j == k {
        None
    } else if s[k] == 48 && j > k + 1 {
        None
    } else {
        match skip_frac(s, j) {
            None => None,
            Some(j2) => skip_exp(s, j2),
        }
    }
}

/// Any JSON value at `i` (whitespace already skipped); returns the position
/// after it.
pub open spec fn skip_value(s: Seq<u8>, i: int) -> Option<int>
    decreases s.len() - i, 0int,
{
    if !(0 <= i && i < s.len()) {
        None
    } else if s[i] == 34 {
        match parse_str_rest(s, i + 1) {
            Some((t, j)) => Some(j),
            None => None,
        }
    } else if s[i] == 123 {
        let j = skip_ws(s, i + 1);
        if j < s.len() && s[j] == 125 {
            Some(j + 1)
        } else if i < j && j <= s.len() {
            skip_members(s, j)
        } else {
            None
        }
    } else if s[i] == 91 {
        let j = skip_ws(s, i + 1);
        if j < s.len() && s[j] == 93 {
            Some(j + 1)
        } else if i < j && j <= s.len() {
            skip_elems(s, j)
        } else {
            None
        }
    } else if s[i] == 116 {
        skip_lit(s, i, lit_true())
    } else if s[i] == 102 {
        skip_lit(s, i, lit_false())
    } else if s[i] == 110 {
        skip_lit(s, i, lit_null())
    } else if s[i] == 45 || is_digit(s[i]) {
        skip_number(s, i)
    } else {
        None
    }
}

/// Members of an object being skipped, from a key position up to and
/// including the closing brace.
pub open spec fn skip_members(s: Seq<u8>, i: int) -> Option<int>
    decreases s.len() - i, 1int,
{
    if !(0 <= i && i < s.len() && s[i] == 34) {
        None
    } else {
        match parse_str_rest(s, i + 1) {
            None => None,
            Some((key, j1)) => {
                let j2 = skip_ws(s, j1);
                if !(j2 < s.len() && s[j2] == 58) {
                    None
                } else {
                    let j3 = skip_ws(s, j2 + 1);
                    if !(i < j3 && j3 <= s.len()) {
                        None
                    } else {
                        match skip_value(s, j3) {
                            None => None,
                            Some(j4) => {
                                let j5 = skip_ws(s, j4);
                                if j5 < s.len() && s[j5] == 44 {
                                    let j6 = skip_ws(s, j5 + 1);
                                    if i < j6 && j6 <= s.len() {
                                        skip_members(s, j6)
                                    } else {
                                        None
                                    }
                                } else if j5 < s.len() && s[j5] == 125 {
                                    Some(j5 + 1)
                                } else {
                                    None
                                }
                            },
                        }
                    }
                }
            },
        }
    }
}

/// Elements of an array being skipped, from a value position up to and
/// including the closing bracket.
pub open spec fn skip_elems(s: Seq<u8>, i: int) -> Option<int>
    decreases s.len() - i, 1int,
{
    if !(0 <= i && i < s.len()) {
        None
    } else {
        match skip_value(s, i) {
            None => None,
            Some(j4) => {
                let j5 = skip_ws(s, j4);
                if j5 < s.len() && s[j5] == 44 {
                    let j6 = skip_ws(s, j5 + 1);
                    if i < j6 && j6 <= s.len() {
                        skip_elems(s, j6)
                    } else {
                        None
                    }
                } else if j5 < s.len() && s[j5] == 93 {
                    Some(j5 + 1)
                } else {
                    None
                }
            },
        }
    }
}

// ---------------------------------------------------------------------------
// the record object
// ---------------------------------------------------------------------------

/// The member names of the record object.
pub open spec fn lit_id() -> Seq<u8> {
    seq![105u8, 100]
}

pub open spec fn lit_name() -> Seq<u8> {
    seq![110u8, 97, 109, 101]
}

pub open spec fn lit_email() -> Seq<u8> {
    seq![101u8, 109, 97, 105, 108]
}

/// The known members gathered while reading an object: each one seen at most
/// once (a seen `id` may hold no value, from null).
#[verifier::ext_equal]
pub ghost struct FieldsV {
    pub id: Option<Option<i32>>,
    pub name: Option<Seq<u8>>,
    pub email: Option<Seq<u8>>,
}

/// One member value at `i`, keyed by `key`: a duplicate known member is an
/// error, an unknown member is skipped whatever JSON value it holds.
pub open spec fn spec_member_value(s: Seq<u8>, i: int, key: Seq<u8>, f: FieldsV) -> Option<
    (FieldsV, int),
> {
    if key == lit_id() {
        if f.id is Some {
            None
        } else {
            match skip_lit(s, i, lit_null()) {
                Some(j) => Some((FieldsV { id: Some(None), name: f.name, email: f.email }, j)),
                None => match spec_parse_int(s, i) {
                    Some((v, j)) => Some(
                        (FieldsV { id: Some(Some(v)), name: f.name, email: f.email }, j),
                    ),
                    None => None,
                },
            }
        }
    } else if key == lit_name() {
        if f.name is Some {
            None
        } else if 0 <= i && i < s.len() && s[i] == 34 {
            match parse_str_rest(s, i + 1) {
                Some((t, j)) => Some((FieldsV { id: f.id, name: Some(t), email: f.email }, j)),
                None => None,
            }
        } else {
            None
        }
    } else if key == lit_email() {
        if f.email is Some {
            None
        } else if 0 <= i && i < s.len() && s[i] == 34 {
            match parse_str_rest(s, i + 1) {
                Some((t, j)) => Some((FieldsV { id: f.id, name: f.name, email: Some(t) }, j)),
                None => None,
            }
        } else {
            None
        }
    } else {
        match skip_value(s, i) {
            Some(j) => Some((f, j)),
            None => None,
        }
    }
}

/// Members of the record object from the first key at `i` (whitespace already
/// skipped) up to and including the closing brace.
pub open spec fn spec_parse_members(s: Seq<u8>, i: int, f: FieldsV) -> Option<(FieldsV, int)>
    decreases s.len() - i,
{
    if !(0 <= i && i < s.len() && s[i] == 34) {
        None
    } else {
        match parse_str_rest(s, i + 1) {
            None => None,
            Some((key, j1)) => {
                let j2 = skip_ws(s, j1);
                if !(j2 < s.len() && s[j2] == 58) {
                    None
                } else {
                    let j3 = skip_ws(s, j2 + 1);
                    match spec_member_value(s, j3, key, f) {
                        None => None,
                        Some((f2, j4)) => {
                            let j5 = skip_ws(s, j4);
                            if j5 < s.len() && s[j5] == 44 {
                                let j6 = skip_ws(s, j5 + 1);
                                if i < j6 && j6 <= s.len() {
                                    spec_parse_members(s, j6, f2)
                                } else {
                                    None
                                }
                            } else if j5 < s.len() && s[j5] == 125 {
                                Some((f2, j5 + 1))
                            } else {
                                None
                            }
                        },
                    }
                }
            },
        }
    }
}

/// The whole deserializer: one object whose members give `name` and `email`
/// (required) and `id` (optional, null as absent), with nothing but
/// whitespace after it.
pub open spec fn spec_parse_user(s: Seq<u8>) -> Option<UserView> {
    let i = skip_ws(s, 0);
    if 0 <= i && i < s.len() && s[i] == 123 {
        let j = skip_ws(s, i + 1);
        let fsr = if j < s.len() && s[j] == 125 {
            Some((FieldsV { id: None, name: None, email: None }, j + 1))
        } else {
            spec_parse_members(s, j, FieldsV { id: None, name: None, email: None })
        };
        match fsr {
            None => None,
            Some((f, k)) => match (f.name, f.email) {
                (Some(nm), Some(em)) => if skip_ws(s, k) == s.len() {
                    Some(
                        UserView {
                            id: match f.id {
                                Some(v) => v,
                                None => None,
                            },
                            name: nm,
                            email: em,
                        },
                    )
                } else {
                    None
                },
                _ => None,
            },
        }
    } else {
        None
    }
}

// ---------------------------------------------------------------------------
// the executable deserializer
// ---------------------------------------------------------------------------

fn is_ws_x(c: u8) -> (r: bool)
    ensures
        r == is_ws(c),
{
    c == 32 || c == 9 || c == 10 || c == 13
}

fn skip_ws_x(s: &[u8], i: usize) -> (r: usize)
    requires
        i <= s@.len(),
    ensures
        i <= r <= s@.len(),
        r as int == skip_ws(s@, i as int),
    decreases s@.len() - i,
{
    if i < s.len() && is_ws_x(s[i]) {
        skip_ws_x(s, i + 1)
    } else {
        i
    }
}

fn is_digit_x(c: u8) -> (r: bool)
    ensures
        r == is_digit(c),
{
    48 <= c && c <= 57
}

fn digits_end_x(s: &[u8], i: usize) -> (r: usize)
    requires
        i <= s@.len(),
    ensures
        r as int == digits_end(s@, i as int),
        i <= r <= s@.len(),
        forall|m: int| i <= m < r ==> is_digit(s@[m]),
{
    let sl = s.len();
    let mut j: usize = i;
    while j < sl && is_digit_x(s[j])
        invariant
            i <= j <= sl,
            sl == s@.len(),
            forall|m: int| i <= m < j ==> is_digit(s@[m]),
            digits_end(s@, i as int) == digits_end(s@, j as int),
        decreases sl - j,
    {
        j = j + 1;
    }
    j
}

/// The value of the digit run `s[k..j)`, unless it exceeds the identifier
/// magnitude bound.
fn digits_value_x(s: &[u8], k: usize, j: usize) -> (r: Option<i64>)
    requires
        k <= j <= s@.len(),
        forall|m: int| k <= m < j ==> is_digit(s@[m]),
    ensures
        ({
            let v = digits_val(s@, k as int, j as int);
            match r {
                Some(acc) => acc == v && 0 <= acc <= 2147483648,
                None => v > 2147483648,
            }
        }),
{
    let mut acc: i64 = 0;
    let mut m: usize = k;
    let mut over = false;
    while m < j
        invariant
            k <= m <= j <= s@.len(),
            forall|mm: int| k <= mm < j ==> is_digit(s@[mm]),
            !over ==> acc == digits_val(s@, k as int, m as int) && 0 <= acc <= 2147483648,
            over ==> digits_val(s@, k as int, m as int) > 2147483648,
        decreases j - m,
    {
        let d = (s[m] - 48) as i64;
        if !over {
            let na = acc * 10 + d;
            if na > 2147483648 {
                over = true;
            } else {
                acc = na;
            }
        } else {
            proof {
                let prev = digits_val(s@, k as int, m as int);
                assert(digits_val(s@, k as int, m + 1 as int) == prev * 10 + (s@[m as int] - 48));
                assert(prev * 10 >= prev);
            }
        }
        m = m + 1;
    }
    if over {
        None
    } else {
        Some(acc)
    }
}

pub(crate) fn parse_int_x(s: &[u8], i: usize) -> (r: Option<(i32, usize)>)
    requires
        i <= s@.len(),
    ensures
        ({
            let sr = spec_parse_int(s@, i as int);
            match r {
                Some((v, j)) => sr == Some((v, j as int)) && i < j <= s@.len(),
                None => sr is None,
            }
        }),
{
    let sl = s.len();
    let neg = i < sl && s[i] == 45;
    let k: usize = if neg {
        i + 1
    } else {
        i
    };
    let j = digits_end_x(s, k);
    if j == k {
        return None;
    }
    if s[k] == 48 && j > k + 1 {
        return None;
    }
    match digits_value_x(s, k, j) {
        None => {
            proof {
                lemma_digits_val_nonneg(s@, k as int, j as int);
            }
            None
        },
        Some(acc) => {
            if neg {
                Some(((-acc) as i32, j))
            } else {
                if acc > 2147483647 {
                    return None;
                }
                Some((acc as i32, j))
            }
        },
    }
}

/// Parses a whole path segment as the record identifier, per
/// `spec_parse_seg_i32`.
pub(crate) fn parse_seg_i32(s: &[u8]) -> (r: Option<i32>)
    ensures
        r == spec_parse_seg_i32(s@),
{
    let sl = s.len();
    if sl == 0 {
        return None;
    }
    let c0 = s[0];
    let neg = c0 == 45;
    let k: usize = if c0 == 45 || c0 == 43 {
        1
    } else {
        0
    };
    let j = digits_end_x(s, k);
    if j != sl || j == k {
        return None;
    }
    match digits_value_x(s, k, j) {
        None => {
            proof {
                lemma_digits_val_nonneg(s@, k as int, j as int);
            }
            None
        },
        Some(acc) => {
            if neg {
                Some((-acc) as i32)
            } else {
                if acc > 2147483647 {
                    return None;
                }
                Some(acc as i32)
            }
        },
    }
}

fn is_hex_x(c: u8) -> (r: bool)
    ensures
        r == is_hex(c),
{
    (48 <= c && c <= 57) || (97 <= c && c <= 102) || (65 <= c && c <= 70)
}

fn hex_val_x(c: u8) -> (r: u8)
    requires
        is_hex(c),
    ensures
        r as int == hex_val(c),
        r < 16,
{
    if 48 <= c && c <= 57 {
        c - 48
    } else if 97 <= c && c <= 102 {
        c - 87
    } else {
        c - 55
    }
}

fn hex4_x(s: &[u8], i: usize) -> (r: Option<u32>)
    requires
        i <= s@.len(),
    ensures
        ({
            let sr = spec_hex4(s@, i as int);
            match r {
                Some(v) => sr == Some(v as int) && v < 0x10000,
                None => sr is None,
            }
        }),
{
    let sl = s.len();
    if sl < 4 || i > sl - 4 {
        return None;
    }
    if is_hex_x(s[i]) && is_hex_x(s[i + 1]) && is_hex_x(s[i + 2]) && is_hex_x(s[i + 3]) {
        let v: u32 = (hex_val_x(s[i]) as u32) * 4096 + (hex_val_x(s[i + 1]) as u32) * 256 + (
        hex_val_x(s[i + 2]) as u32) * 16 + (hex_val_x(s[i + 3]) as u32);
        Some(v)
    } else {
        None
    }
}

fn utf8_enc_x(cp: u32) -> (r: Vec<u8>)
    requires
        cp < 0x110000,
    ensures
        r@ == utf8_enc(cp as int),
{
    let mut v: Vec<u8> = Vec::new();
    if cp < 0x80 {
        v.push(cp as u8);
    } else if cp < 0x800 {
        v.push((0xC0 + cp / 0x40) as u8);
        v.push((0x80 + cp % 0x40) as u8);
    } else if cp < 0x10000 {
        v.push((0xE0 + cp / 0x1000) as u8);
        v.push((0x80 + (cp / 0x40) % 0x40) as u8);
        v.push((0x80 + cp % 0x40) as u8);
    } else {
        v.push((0xF0 + cp / 0x40000) as u8);
        v.push((0x80 + (cp / 0x1000) % 0x40) as u8);
        v.push((0x80 + (cp / 0x40) % 0x40) as u8);
        v.push((0x80 + cp % 0x40) as u8);
    }
    proof {
        assert(v@ =~= utf8_enc(cp as int));
    }
    v
}

fn u_escape_x(s: &[u8], i: usize) -> (r: Option<(Vec<u8>, usize)>)
    requires
        i <= s@.len(),
    ensures
        ({
            let sr = spec_u_escape(s@, i as int);
            match r {
                Some((bs, j)) => sr == Some((bs@, j as int)) && i < j <= s@.len(),
                None => sr is None,
            }
        }),
{
    let sl = s.len();
    match hex4_x(s, i) {
        None => None,
        Some(cp) => {
            if 0xD800 <= cp && cp < 0xDC00 {
                if sl < 10 || i > sl - 10 {
                    return None;
                }
                if s[i + 4] == 92 && s[i + 5] == 117 {
                    match hex4_x(s, i + 6) {
                        None => None,
                        Some(cp2) => {
                            if 0xDC00 <= cp2 && cp2 < 0xE000 {
                                let combined: u32 = 0x10000 + (cp - 0xD800) * 0x400 + (cp2
                                    - 0xDC00);
                                Some((utf8_enc_x(combined), i + 10))
                            } else {
                                None
                            }
                        },
                    }
                } else {
                    None
                }
            } else if 0xDC00 <= cp && cp < 0xE000 {
                None
            } else {
                proof {
                    assert(i + 4 <= sl);
                }
                Some((utf8_enc_x(cp), i + 4))
            }
        },
    }
}

fn unescape_char_x(e: u8) -> (r: Option<u8>)
    ensures
        r == unescape_char(e),
{
    if e == 34 {
        Some(34)
    } else if e == 92 {
        Some(92)
    } else if e == 47 {
        Some(47)
    } else if e == 98 {
        Some(8)
    } else if e == 102 {
        Some(12)
    } else if e == 110 {
        Some(10)
    } else if e == 114 {
        Some(13)
    } else if e == 116 {
        Some(9)
    } else {
        None
    }
}

/// A fresh vector holding `a` then `b`.
fn concat_bytes(a: &Vec<u8>, b: &Vec<u8>) -> (r: Vec<u8>)
    ensures
        r@ == a@ + b@,
{
    let mut v: Vec<u8> = Vec::new();
    let mut i: usize = 0;
    while i < a.len()
        invariant
            i <= a.len(),
            v@ == a@.subrange(0, i as int),
        decreases a.len() - i,
    {
        v.push(a[i]);
        proof {
            assert(a@.subrange(0, i + 1 as int) =~= a@.subrange(0, i as int).push(a@[i as int]));
        }
        i = i + 1;
    }
    proof {
        assert(a@.subrange(0, a@.len() as int) =~= a@);
    }
    let mut k: usize = 0;
    while k < b.len()
        invariant
            k <= b.len(),
            v@ == a@ + b@.subrange(0, k as int),
        decreases b.len() - k,
    {
        v.push(b[k]);
        proof {
            assert(b@.subrange(0, k + 1 as int) =~= b@.subrange(0, k as int).push(b@[k as int]));
            assert(v@ =~= a@ + b@.subrange(0, k + 1 as int));
        }
        k = k + 1;
    }
    proof {
        assert(b@.subrange(0, b@.len() as int) =~= b@);
        assert(v@ =~= a@ + b@);
    }
    v
}

fn parse_str_rest_x(s: &[u8], i: usize) -> (r: Option<(Vec<u8>, usize)>)
    requires
        i <= s@.len(),
    ensures
        ({
            let sr = parse_str_rest(s@, i as int);
            match r {
                Some((v, j)) => sr == Some((v@, j as int)) && i < j <= s@.len(),
                None => sr is None,
            }
        }),
    decreases s@.len() - i,
{
    if i >= s.len() {
        return None;
    }
    let c = s[i];
    if c == 34 {
        let v: Vec<u8> = Vec::new();
        proof {
            assert(v@ =~= Seq::<u8>::empty());
        }
        Some((v, i + 1))
    } else if c == 92 {
        if i + 1 >= s.len() {
            return None;
        }
        let e = s[i + 1];
        if e == 117 {
            match u_escape_x(s, i + 2) {
                None => None,
                Some((bs, j)) => match parse_str_rest_x(s, j) {
                    None => None,
                    Some((t, k)) => {
                        let v = concat_bytes(&bs, &t);
                        Some((v, k))
                    },
                },
            }
        } else {
            match unescape_char_x(e) {
                None => None,
                Some(b) => match parse_str_rest_x(s, i + 2) {
                    None => None,
                    Some((mut t, j)) => {
                        t.insert(0, b);
                        proof {
                            assert(t@ =~= seq![b] + t@.subrange(1, t@.len() as int));
                        }
                        Some((t, j))
                    },
                },
            }
        }
    } else if c < 32 {
        None
    } else {
        match parse_str_rest_x(s, i + 1) {
            None => None,
            Some((mut t, j)) => {
                t.insert(0, c);
                proof {
                    assert(t@ =~= seq![s@[i as int]] + t@.subrange(1, t@.len() as int));
                }
                Some((t, j))
            },
        }
    }
}

fn lit_true_bytes() -> (r: Vec<u8>)
    ensures
        r@ == lit_true(),
{
    let mut v: Vec<u8> = Vec::new();
    v.push(116);
    v.push(114);
    v.push(117);
    v.push(101);
    proof {
        assert(v@ =~= lit_true());
    }
    v
}

fn lit_false_bytes() -> (r: Vec<u8>)
    ensures
        r@ == lit_false(),
{
    let mut v: Vec<u8> = Vec::new();
    v.push(102);
    v.push(97);
    v.push(108);
    v.push(115);
    v.push(101);
    proof {
        assert(v@ =~= lit_false());
    }
    v
}

fn lit_null_bytes() -> (r: Vec<u8>)
    ensures
        r@ == lit_null(),
{
    let mut v: Vec<u8> = Vec::new();
    v.push(110);
    v.push(117);
    v.push(108);
    v.push(108);
    proof {
        assert(v@ =~= lit_null());
    }
    v
}

fn skip_lit_x(s: &[u8], i: usize, w: &Vec<u8>) -> (r: Option<usize>)
    requires
        i <= s@.len(),
    ensures
        ({
            let sr = skip_lit(s@, i as int, w@);
            match r {
                Some(j) => sr == Some(j as int) && j as int == i + w@.len() && j <= s@.len(),
                None => sr is None,
            }
        }),
{
    let sl = s.len();
    let wl = w.len();
    if wl > sl || i > sl - wl {
        return None;
    }
    let mut m: usize = 0;
    while m < wl
        invariant
            m <= wl,
            wl == w@.len(),
            sl == s@.len(),
            i + wl <= sl,
            forall|t: int| 0 <= t < m ==> s@[i + t] == w@[t],
        decreases wl - m,
    {
        if s[i + m] != w[m] {
            proof {
                if skip_lit(s@, i as int, w@) is Some {
                    assert(s@.subrange(i as int, i + w@.len())[m as int] == s@[i + m]);
                    assert(false);
                }
            }
            return None;
        }
        m = m + 1;
    }
    proof {
        assert(s@.subrange(i as int, i + w@.len()) =~= w@);
    }
    Some(i + wl)
}

fn skip_number_x(s: &[u8], i: usize) -> (r: Option<usize>)
    requires
        i <= s@.len(),
    ensures
        ({
            let sr = skip_number(s@, i as int);
            match r {
                Some(j) => sr == Some(j as int) && i < j <= s@.len(),
                None => sr is None,
            }
        }),
{
    let sl = s.len();
    let k: usize = if i < sl && s[i] == 45 {
        i + 1
    } else {
        i
    };
    let j = digits_end_x(s, k);
    if j == k {
        return None;
    }
    if s[k] == 48 && j > k + 1 {
        return None;
    }
    let j2: usize;
    if j < sl && s[j] == 46 {
        let jf = digits_end_x(s, j + 1);
        if jf == j + 1 {
            return None;
        }
        j2 = jf;
    } else {
        j2 = j;
    }
    if j2 < sl && (s[j2] == 101 || s[j2] == 69) {
        let k2: usize = if j2 + 1 < sl && (s[j2 + 1] == 43 || s[j2 + 1] == 45) {
            j2 + 2
        } else {
            j2 + 1
        };
        let je = digits_end_x(s, k2);
        if je == k2 {
            return None;
        }
        Some(je)
    } else {
        Some(j2)
    }
}

fn skip_value_x(s: &[u8], i: usize) -> (r: Option<usize>)
    requires
        i <= s@.len(),
    ensures
        ({
            let sr = skip_value(s@, i as int);
            match r {
                Some(j) => sr == Some(j as int) && i < j <= s@.len(),
                None => sr is None,
            }
        }),
    decreases s@.len() - i, 0int,
{
    if i >= s.len() {
        return None;
    }
    let c = s[i];
    if c == 34 {
        match parse_str_rest_x(s, i + 1) {
            Some((_, j)) => Some(j),
            None => None,
        }
    } else if c == 123 {
        let j = skip_ws_x(s, i + 1);
        if j < s.len() && s[j] == 125 {
            Some(j + 1)
        } else {
            skip_members_x(s, j)
        }
    } else if c == 91 {
        let j = skip_ws_x(s, i + 1);
        if j < s.len() && s[j] == 93 {
            Some(j + 1)
        } else {
            skip_elems_x(s, j)
        }
    } else if c == 116 {
        let w = lit_true_bytes();
        skip_lit_x(s, i, &w)
    } else if c == 102 {
        let w = lit_false_bytes();
        skip_lit_x(s, i, &w)
    } else if c == 110 {
        let w = lit_null_bytes();
        skip_lit_x(s, i, &w)
    } else if c == 45 || is_digit_x(c) {
        skip_number_x(s, i)
    } else {
        None
    }
}

fn skip_members_x(s: &[u8], i: usize) -> (r: Option<usize>)
    requires
        i <= s@.len(),
    ensures
        ({
            let sr = skip_members(s@, i as int);
            match r {
                Some(j) => sr == Some(j as int) && i < j <= s@.len(),
                None => sr is None,
            }
        }),
    decreases s@.len() - i, 1int,
{
    if !(i < s.len() && s[i] == 34) {
        return None;
    }
    match parse_str_rest_x(s, i + 1) {
        None => None,
        Some((_, j1)) => {
            let j2 = skip_ws_x(s, j1);
            if !(j2 < s.len() && s[j2] == 58) {
                return None;
            }
            let j3 = skip_ws_x(s, j2 + 1);
            match skip_value_x(s, j3) {
                None => None,
                Some(j4) => {
                    let j5 = skip_ws_x(s, j4);
                    if j5 < s.len() && s[j5] == 44 {
                        let j6 = skip_ws_x(s, j5 + 1);
                        skip_members_x(s, j6)
                    } else if j5 < s.len() && s[j5] == 125 {
                        Some(j5 + 1)
                    } else {
                        None
                    }
                },
            }
        },
    }
}

fn skip_elems_x(s: &[u8], i: usize) -> (r: Option<usize>)
    requires
        i <= s@.len(),
    ensures
        ({
            let sr = skip_elems(s@, i as int);
            match r {
                Some(j) => sr == Some(j as int) && i < j <= s@.len(),
                None => sr is None,
            }
        }),
    decreases s@.len() - i, 1int,
{
    if i >= s.len() {
        return None;
    }
    match skip_value_x(s, i) {
        None => None,
        Some(j4) => {
            let j5 = skip_ws_x(s, j4);
            if j5 < s.len() && s[j5] == 44 {
                let j6 = skip_ws_x(s, j5 + 1);
                skip_elems_x(s, j6)
            } else if j5 < s.len() && s[j5] == 93 {
                Some(j5 + 1)
            } else {
                None
            }
        },
    }
}

/// The known members gathered so far while reading an object.
struct PartFields {
    id: Option<Option<i32>>,
    name: Option<Vec<u8>>,
    email: Option<Vec<u8>>,
}

impl View for PartFields {
    type V = FieldsV;

    closed spec fn view(&self) -> FieldsV {
        FieldsV {
            id: self.id,
            name: match self.name {
                Some(v) => Some(v@),
                None => None,
            },
            email: match self.email {
                Some(v) => Some(v@),
                None => None,
            },
        }
    }
}

fn key_is_id(key: &Vec<u8>) -> (r: bool)
    ensures
        r == (key@ == lit_id()),
{
    let r = key.len() == 2 && key[0] == 105 && key[1] == 100;
    proof {
        if r {
            assert(key@ =~= lit_id());
        } else if key@ == lit_id() {
            assert(key@.len() == 2 && key@[0] == 105 && key@[1] == 100);
        }
    }
    r
}

fn key_is_name(key: &Vec<u8>) -> (r: bool)
    ensures
        r == (key@ == lit_name()),
{
    let r = key.len() == 4 && key[0] == 110 && key[1] == 97 && key[2] == 109 && key[3] == 101;
    proof {
        if r {
            assert(key@ =~= lit_name());
        } else if key@ == lit_name() {
            assert(key@.len() == 4 && key@[0] == 110 && key@[1] == 97 && key@[2] == 109
                && key@[3] == 101);
        }
    }
    r
}

fn key_is_email(key: &Vec<u8>) -> (r: bool)
    ensures
        r == (key@ == lit_email()),
{
    let r = key.len() == 5 && key[0] == 101 && key[1] == 109 && key[2] == 97 && key[3] == 105
        && key[4] == 108;
    proof {
        if r {
            assert(key@ =~= lit_email());
        } else if key@ == lit_email() {
            assert(key@.len() == 5 && key@[0] == 101 && key@[1] == 109 && key@[2] == 97
                && key@[3] == 105 && key@[4] == 108);
        }
    }
    r
}

fn member_value_x(s: &[u8], i: usize, key: &Vec<u8>, f: PartFields) -> (r: Option<
    (PartFields, usize),
>)
    requires
        i <= s@.len(),
    ensures
        ({
            let sr = spec_member_value(s@, i as int, key@, f@);
            match r {
                Some((g, j)) => sr == Some((g@, j as int)) && j <= s@.len(),
                None => sr is None,
            }
        }),
{
    if key_is_id(key) {
        if f.id.is_some() {
            None
        } else {
            let w = lit_null_bytes();
            match skip_lit_x(s, i, &w) {
                Some(j) => Some((PartFields { id: Some(None), name: f.name, email: f.email }, j)),
                None => match parse_int_x(s, i) {
                    Some((v, j)) => Some(
                        (PartFields { id: Some(Some(v)), name: f.name, email: f.email }, j),
                    ),
                    None => None,
                },
            }
        }
    } else if key_is_name(key) {
        if f.name.is_some() {
            None
        } else if i < s.len() && s[i] == 34 {
            match parse_str_rest_x(s, i + 1) {
                Some((t, j)) => Some((PartFields { id: f.id, name: Some(t), email: f.email }, j)),
                None => None,
            }
        } else {
            None
        }
    } else if key_is_email(key) {
        if f.email.is_some() {
            None
        } else if i < s.len() && s[i] == 34 {
            match parse_str_rest_x(s, i + 1) {
                Some((t, j)) => Some((PartFields { id: f.id, name: f.name, email: Some(t) }, j)),
                None => None,
            }
        } else {
            None
        }
    } else {
        match skip_value_x(s, i) {
            Some(j) => Some((f, j)),
            None => None,
        }
    }
}

fn parse_members_x(s: &[u8], i: usize, f: PartFields) -> (r: Option<(PartFields, usize)>)
    requires
        i <= s@.len(),
    ensures
        ({
            let sr = spec_parse_members(s@, i as int, f@);
            match r {
                Some((g, j)) => sr == Some((g@, j as int)) && j <= s@.len(),
                None => sr is None,
            }
        }),
    decreases s@.len() - i,
{
    if !(i < s.len() && s[i] == 34) {
        return None;
    }
    match parse_str_rest_x(s, i + 1) {
        None => None,
        Some((key, j1)) => {
            let j2 = skip_ws_x(s, j1);
            if !(j2 < s.len() && s[j2] == 58) {
                return None;
            }
            let j3 = skip_ws_x(s, j2 + 1);
            match member_value_x(s, j3, &key, f) {
                None => None,
                Some((f2, j4)) => {
                    let j5 = skip_ws_x(s, j4);
                    if j5 < s.len() && s[j5] == 44 {
                        let j6 = skip_ws_x(s, j5 + 1);
                        if i < j6 {
                            parse_members_x(s, j6, f2)
                        } else {
                            None
                        }
                    } else if j5 < s.len() && s[j5] == 125 {
                        Some((f2, j5 + 1))
                    } else {
                        None
                    }
                },
            }
        },
    }
}

/// Deserializes one user record from its wire form, per the grammar above.
pub fn parse_user(s: &[u8]) -> (r: Option<User>)
    ensures
        ({
            let sr = spec_parse_user(s@);
            match r {
                Some(u) => sr == Some(u@),
                None => sr is None,
            }
        }),
{
    let i = skip_ws_x(s, 0);
    if !(i < s.len() && s[i] == 123) {
        return None;
    }
    let j = skip_ws_x(s, i + 1);
    let fsr: Option<(PartFields, usize)> = if j < s.len() && s[j] == 125 {
        Some((PartFields { id: None, name: None, email: None }, j + 1))
    } else {
        parse_members_x(s, j, PartFields { id: None, name: None, email: None })
    };
    match fsr {
        None => None,
        Some((f, k)) => {
            match (f.name, f.email) {
                (Some(nm), Some(em)) => {
                    if skip_ws_x(s, k) == s.len() {
                        let idv: Option<i32> = match f.id {
                            Some(v) => v,
                            None => None,
                        };
                        Some(User { id: idv, name: nm, email: em })
                    } else {
                        None
                    }
                },
                _ => None,
            }
        },
    }
}

// ---------------------------------------------------------------------------
// the round trip
// ---------------------------------------------------------------------------

proof fn lemma_esc_no_specials(x: Seq<u8>)
    requires
        forall|k: int| 0 <= k < x.len() ==> x[k] != 34 && x[k] != 92 && x[k] >= 32,
    ensures
        esc(x) == x,
    decreases x.len(),
{
    if x.len() > 0 {
        let t = x.subrange(1, x.len() as int);
        assert forall|k: int| 0 <= k < t.len() implies t[k] != 34 && t[k] != 92 && t[k] >= 32 by {
            assert(t[k] == x[k + 1]);
        }
        lemma_esc_no_specials(t);
        assert(esc(x) =~= x);
    }
}

proof fn lemma_hex_digit(d: int)
    requires
        0 <= d < 16,
    ensures
        is_hex(hex_digit(d)),
        hex_val(hex_digit(d)) == d,
{
}

proof fn lemma_parse_str_esc(s: Seq<u8>, i: int, x: Seq<u8>, tail: Seq<u8>)
    requires
        0 <= i <= s.len(),
        s.subrange(i, s.len() as int) == esc(x) + seq![34u8] + tail,
    ensures
        parse_str_rest(s, i) == Some((x, i + esc(x).len() + 1)),
    decreases x.len(),
{
    let suf = s.subrange(i, s.len() as int);
    assert(suf.len() == s.len() - i);
    if x.len() == 0 {
        assert(esc(x) == Seq::<u8>::empty());
        assert(suf[0] == 34);
        assert(s[i] == suf[0]);
        assert(parse_str_rest(s, i) == Some((Seq::<u8>::empty(), i + 1)));
        assert(x =~= Seq::<u8>::empty());
    } else {
        let c = x[0];
        let xr = x.subrange(1, x.len() as int);
        assert(esc(x) == esc_char(c) + esc(xr));
        if c == 34 || c == 92 {
            assert(esc_char(c) == seq![92u8, c]);
            assert(s[i] == suf[0]);
            assert(s[i + 1] == suf[1]);
            assert(suf[0] == 92);
            assert(suf[1] == c);
            assert(unescape_char(c) == Some(c));
            assert(s.subrange(i + 2, s.len() as int) =~= suf.subrange(2, suf.len() as int));
            assert(suf.subrange(2, suf.len() as int) =~= esc(xr) + seq![34u8] + tail);
            lemma_parse_str_esc(s, i + 2, xr, tail);
            assert(seq![s[i + 1]] + xr =~= x);
        } else if c < 32 {
            let dh = c as int / 16;
            let dl = c as int % 16;
            assert(esc_char(c) == seq![92u8, 117, 48, 48, hex_digit(dh), hex_digit(dl)]);
            assert(s[i] == suf[0]);
            assert(s[i + 1] == suf[1]);
            assert(s[i + 2] == suf[2]);
            assert(s[i + 3] == suf[3]);
            assert(s[i + 4] == suf[4]);
            assert(s[i + 5] == suf[5]);
            assert(suf[0] == 92);
            assert(suf[1] == 117);
            assert(suf[2] == 48 && suf[3] == 48);
            assert(suf[4] == hex_digit(dh) && suf[5] == hex_digit(dl));
            lemma_hex_digit(dh);
            lemma_hex_digit(dl);
            assert(is_hex(48u8) && hex_val(48u8) == 0);
            assert(i + 2 + 4 <= s.len());
            assert(spec_hex4(s, i + 2) == Some(dh * 16 + dl));
            assert(dh * 16 + dl == c as int);
            assert(spec_u_escape(s, i + 2) == Some((utf8_enc(c as int), i + 6)));
            assert(utf8_enc(c as int) =~= seq![c]);
            assert(s.subrange(i + 6, s.len() as int) =~= suf.subrange(6, suf.len() as int));
            assert(suf.subrange(6, suf.len() as int) =~= esc(xr) + seq![34u8] + tail);
            lemma_parse_str_esc(s, i + 6, xr, tail);
            assert(seq![c] + xr =~= x);
            assert(parse_str_rest(s, i) == Some((x, i + esc(x).len() + 1)));
        } else {
            assert(esc_char(c) == seq![c]);
            assert(s[i] == suf[0]);
            assert(suf[0] == c);
            assert(s.subrange(i + 1, s.len() as int) =~= suf.subrange(1, suf.len() as int));
            assert(suf.subrange(1, suf.len() as int) =~= esc(xr) + seq![34u8] + tail);
            lemma_parse_str_esc(s, i + 1, xr, tail);
            assert(seq![s[i]] + xr =~= x);
        }
    }
}

proof fn lemma_dec_digits_are_digits(m: nat)
    ensures
        dec_digits(m).len() >= 1,
        forall|k: int| 0 <= k < dec_digits(m).len() ==> is_digit(#[trigger] dec_digits(m)[k]),
    decreases m,
{
    if m < 10 {
        assert(dec_digits(m)[0] == 48 + m);
    } else {
        lemma_dec_digits_are_digits(m / 10);
        let d = dec_digits(m);
        let front = dec_digits(m / 10);
        assert forall|k: int| 0 <= k < d.len() implies is_digit(d[k]) by {
            if k < front.len() {
                assert(d[k] == front[k]);
            } else {
                assert(d[k] == 48 + m % 10);
            }
        }
    }
}

proof fn lemma_dec_digits_leading(m: nat)
    requires
        m >= 1,
    ensures
        dec_digits(m)[0] != 48,
    decreases m,
{
    if m < 10 {
        assert(dec_digits(m)[0] == 48 + m);
    } else {
        lemma_dec_digits_leading(m / 10);
        lemma_dec_digits_are_digits(m / 10);
        assert(dec_digits(m)[0] == dec_digits(m / 10)[0]);
    }
}

proof fn lemma_digits_end_block(s: Seq<u8>, k: int, d: Seq<u8>, tail: Seq<u8>)
    requires
        0 <= k <= s.len(),
        s.subrange(k, s.len() as int) == d + tail,
        forall|m: int| 0 <= m < d.len() ==> is_digit(#[trigger] d[m]),
        tail.len() > 0 ==> !is_digit(tail[0]),
    ensures
        digits_end(s, k) == k + d.len(),
    decreases d.len(),
{
    let suf = s.subrange(k, s.len() as int);
    assert(suf.len() == s.len() - k);
    if d.len() == 0 {
        if tail.len() > 0 {
            assert(s[k] == suf[0]);
            assert(suf[0] == tail[0]);
        }
    } else {
        assert(s[k] == suf[0]);
        assert(suf[0] == d[0]);
        assert(is_digit(s[k]));
        let dr = d.subrange(1, d.len() as int);
        assert forall|m: int| 0 <= m < dr.len() implies is_digit(#[trigger] dr[m]) by {
            assert(dr[m] == d[m + 1]);
        }
        assert(s.subrange(k + 1, s.len() as int) =~= suf.subrange(1, suf.len() as int));
        assert(suf.subrange(1, suf.len() as int) =~= dr + tail);
        lemma_digits_end_block(s, k + 1, dr, tail);
    }
}

proof fn lemma_digits_val_dec(m: nat, s: Seq<u8>, k: int)
    requires
        0 <= k,
        k + dec_digits(m).len() <= s.len(),
        s.subrange(k, k + dec_digits(m).len() as int) == dec_digits(m),
    ensures
        digits_val(s, k, k + dec_digits(m).len()) == m,
    decreases m,
{
    let d = dec_digits(m);
    let l = d.len() as int;
    if m < 10 {
        assert(s[k] == s.subrange(k, k + 1)[0]);
        assert(s[k] == 48 + m);
        assert(digits_val(s, k, k) == 0);
        assert(digits_val(s, k, k + 1) == digit_of(s[k]));
    } else {
        let front = dec_digits(m / 10);
        assert(d == front + seq![(48 + m % 10) as u8]);
        assert(s.subrange(k, k + front.len() as int) =~= front);
        lemma_digits_val_dec(m / 10, s, k);
        assert(s[k + l - 1] == s.subrange(k, k + l)[l - 1]);
        assert(s[k + l - 1] == 48 + m % 10);
        assert(digits_val(s, k, k + l) == digits_val(s, k, k + l - 1) * 10 + digit_of(
            s[k + l - 1],
        ));
    }
}

#[verifier::rlimit(50)]
proof fn lemma_parse_int_ser(n: int, s: Seq<u8>, i: int, tail: Seq<u8>)
    requires
        -2147483648 <= n <= 2147483647,
        0 <= i <= s.len(),
        s.subrange(i, s.len() as int) == int_bytes(n) + tail,
        tail.len() > 0,
        !is_digit(tail[0]),
        tail[0] != 45,
    ensures
        spec_parse_int(s, i) == Some((n as i32, i + int_bytes(n).len())),
{
    let suf = s.subrange(i, s.len() as int);
    assert(suf.len() == s.len() - i);
    if n < 0 {
        let m = (-n) as nat;
        let d = dec_digits(m);
        lemma_dec_digits_are_digits(m);
        lemma_dec_digits_leading(m);
        assert(int_bytes(n) == seq![45u8] + d);
        assert(s[i] == suf[0]);
        assert(suf[0] == 45);
        assert(s.subrange(i + 1, s.len() as int) =~= suf.subrange(1, suf.len() as int));
        assert(suf.subrange(1, suf.len() as int) =~= d + tail);
        lemma_digits_end_block(s, i + 1, d, tail);
        assert(s.subrange(i + 1, (i + 1 + d.len()) as int) =~= d);
        lemma_digits_val_dec(m, s, i + 1);
        assert(digits_end(s, i + 1) == i + 1 + d.len());
        assert(digits_end(s, i + 1) != i + 1);
        assert(s[i + 1] == suf[1]);
        assert(suf[1] == d[0]);
        assert(s[i + 1] != 48);
    } else {
        let m = n as nat;
        let d = dec_digits(m);
        lemma_dec_digits_are_digits(m);
        assert(int_bytes(n) == d);
        assert(s[i] == suf[0]);
        assert(suf[0] == d[0]);
        assert(is_digit(s[i]));
        assert(s[i] != 45);
        lemma_digits_end_block(s, i, d, tail);
        assert(s.subrange(i, (i + d.len()) as int) =~= d);
        lemma_digits_val_dec(m, s, i);
        assert(digits_end(s, i) != i);
        if m >= 1 {
            lemma_dec_digits_leading(m);
            assert(s[i] != 48);
        } else {
            assert(d.len() == 1);
        }
    }
}

#[verifier::rlimit(100)]
proof fn lemma_parse_email_value(s: Seq<u8>, i: int, f: FieldsV, em: Seq<u8>, rest: Seq<u8>)
    requires
        0 <= i <= s.len(),
        f.email is None,
        s.subrange(i, s.len() as int) == seq![34u8, 101, 109, 97, 105, 108, 34, 58, 34] + esc(em)
            + seq![34u8] + rest,
    ensures
        0 <= i + 7 < s.len(),
        s[i] == 34,
        s[i + 7] == 58,
        parse_str_rest(s, i + 1) == Some((lit_email(), i + 7)),
        skip_ws(s, i + 7) == i + 7,
        skip_ws(s, i + 8) == i + 8,
        spec_member_value(s, i + 8, lit_email(), f) == Some(
            (FieldsV { id: f.id, name: f.name, email: Some(em) }, i + 9 + esc(em).len() + 1),
        ),
{
    let suf = s.subrange(i, s.len() as int);
    let ee = esc(em).len() as int;
    assert(suf.len() == s.len() - i);
    assert(suf.len() == 9 + ee + 1 + rest.len());
    assert(s[i] == suf[0]);
    assert(suf[0] == 34);
    assert(forall|k: int|
        0 <= k < 5 ==> lit_email()[k] != 34 && lit_email()[k] != 92 && lit_email()[k] >= 32);
    lemma_esc_no_specials(lit_email());
    let tail3 = seq![58u8, 34] + esc(em) + seq![34u8] + rest;
    assert(s.subrange(i + 1, s.len() as int) =~= suf.subrange(1, suf.len() as int));
    assert(suf.subrange(1, suf.len() as int) =~= esc(lit_email()) + seq![34u8] + tail3);
    lemma_parse_str_esc(s, i + 1, lit_email(), tail3);
    assert(parse_str_rest(s, i + 1) == Some((lit_email(), i + 7)));
    assert(s[i + 7] == suf[7]);
    assert(suf[7] == 58);
    assert(skip_ws(s, i + 7) == i + 7);
    assert(s[i + 8] == suf[8]);
    assert(suf[8] == 34);
    assert(skip_ws(s, i + 8) == i + 8);
    assert(lit_email() != lit_id());
    assert(lit_email() != lit_name());
    assert(s.subrange(i + 9, s.len() as int) =~= suf.subrange(9, suf.len() as int));
    assert(suf.subrange(9, suf.len() as int) =~= esc(em) + seq![34u8] + rest);
    lemma_parse_str_esc(s, i + 9, em, rest);
    assert(parse_str_rest(s, i + 9) == Some((em, i + 9 + ee + 1)));
}

#[verifier::rlimit(100)]
proof fn lemma_parse_email_member(s: Seq<u8>, i: int, f: FieldsV, em: Seq<u8>)
    requires
        0 <= i <= s.len(),
        f.email is None,
        s.subrange(i, s.len() as int) == seq![34u8, 101, 109, 97, 105, 108, 34, 58, 34] + esc(em)
            + seq![34u8, 125],
    ensures
        spec_parse_members(s, i, f) == Some(
            (FieldsV { id: f.id, name: f.name, email: Some(em) }, s.len() as int),
        ),
{
    let suf = s.subrange(i, s.len() as int);
    let ee = esc(em).len() as int;
    assert(suf.len() == s.len() - i);
    assert(suf.len() == 9 + ee + 2);
    assert(s.subrange(i, s.len() as int) =~= seq![34u8, 101, 109, 97, 105, 108, 34, 58, 34] + esc(
        em,
    ) + seq![34u8] + seq![125u8]);
    lemma_parse_email_value(s, i, f, em, seq![125u8]);
    let f3 = FieldsV { id: f.id, name: f.name, email: Some(em) };
    let j4b = i + 9 + ee + 1;
    assert(spec_member_value(s, i + 8, lit_email(), f) == Some((f3, j4b)));
    assert(s[j4b] == suf[suf.len() - 1]);
    assert(s[j4b] == 125);
    assert(skip_ws(s, j4b) == j4b);
    assert(j4b + 1 == s.len());
    assert(spec_parse_members(s, i, f) == Some((f3, s.len() as int)));
}

#[verifier::rlimit(100)]
proof fn lemma_parse_name_value(s: Seq<u8>, i: int, f: FieldsV, nm: Seq<u8>, rest: Seq<u8>)
    requires
        0 <= i <= s.len(),
        f.name is None,
        s.subrange(i, s.len() as int) == json_name_part() + esc(nm) + seq![34u8] + rest,
    ensures
        0 <= i + 6 < s.len(),
        s[i] == 34,
        s[i + 6] == 58,
        parse_str_rest(s, i + 1) == Some((lit_name(), i + 6)),
        skip_ws(s, i + 6) == i + 6,
        skip_ws(s, i + 7) == i + 7,
        spec_member_value(s, i + 7, lit_name(), f) == Some(
            (FieldsV { id: f.id, name: Some(nm), email: f.email }, i + 8 + esc(nm).len() + 1),
        ),
{
    let suf = s.subrange(i, s.len() as int);
    let en = esc(nm).len() as int;
    assert(suf.len() == s.len() - i);
    assert(suf.len() == 8 + en + 1 + rest.len());
    assert(s[i] == suf[0]);
    assert(suf[0] == 34);
    assert(forall|k: int|
        0 <= k < 4 ==> lit_name()[k] != 34 && lit_name()[k] != 92 && lit_name()[k] >= 32);
    lemma_esc_no_specials(lit_name());
    let tail1 = seq![58u8, 34] + esc(nm) + seq![34u8] + rest;
    assert(s.subrange(i + 1, s.len() as int) =~= suf.subrange(1, suf.len() as int));
    assert(suf.subrange(1, suf.len() as int) =~= esc(lit_name()) + seq![34u8] + tail1);
    lemma_parse_str_esc(s, i + 1, lit_name(), tail1);
    assert(parse_str_rest(s, i + 1) == Some((lit_name(), i + 6)));
    assert(s[i + 6] == suf[6]);
    assert(suf[6] == 58);
    assert(skip_ws(s, i + 6) == i + 6);
    assert(s[i + 7] == suf[7]);
    assert(suf[7] == 34);
    assert(skip_ws(s, i + 7) == i + 7);
    assert(lit_name() != lit_id());
    assert(lit_name() != lit_email());
    assert(s.subrange(i + 8, s.len() as int) =~= suf.subrange(8, suf.len() as int));
    assert(suf.subrange(8, suf.len() as int) =~= esc(nm) + seq![34u8] + rest);
    lemma_parse_str_esc(s, i + 8, nm, rest);
    assert(parse_str_rest(s, i + 8) == Some((nm, i + 8 + en + 1)));
}

#[verifier::rlimit(100)]
proof fn lemma_parse_members_name_email(s: Seq<u8>, i: int, f: FieldsV, nm: Seq<u8>, em: Seq<u8>)
    requires
        0 <= i <= s.len(),
        f.name is None,
        f.email is None,
        s.subrange(i, s.len() as int) == json_name_part() + esc(nm) + json_mid_part() + esc(em)
            + seq![34u8, 125],
    ensures
        spec_parse_members(s, i, f) == Some(
            (FieldsV { id: f.id, name: Some(nm), email: Some(em) }, s.len() as int),
        ),
{
    let suf = s.subrange(i, s.len() as int);
    let en = esc(nm).len() as int;
    let ee = esc(em).len() as int;
    assert(suf.len() == s.len() - i);
    assert(suf.len() == 8 + en + 11 + ee + 2);
    let rest1 = json_mid_part().subrange(1, 11) + esc(em) + seq![34u8, 125];
    assert(json_mid_part() =~= seq![34u8] + json_mid_part().subrange(1, 11));
    assert(s.subrange(i, s.len() as int) =~= json_name_part() + esc(nm) + seq![34u8] + rest1);
    lemma_parse_name_value(s, i, f, nm, rest1);
    let f2 = FieldsV { id: f.id, name: Some(nm), email: f.email };
    let j4 = i + 8 + en + 1;
    assert(s[j4] == suf[8 + en + 1]);
    assert(suf[8 + en + 1] == json_mid_part()[1]);
    assert(s[j4] == 44);
    assert(skip_ws(s, j4) == j4);
    assert(s[j4 + 1] == suf[8 + en + 2]);
    assert(suf[8 + en + 2] == json_mid_part()[2]);
    assert(s[j4 + 1] == 34);
    let j6 = j4 + 1;
    assert(skip_ws(s, j4 + 1) == j6);
    // the email member, from j6
    assert(s.subrange(j6, s.len() as int) =~= suf.subrange(8 + en + 2, suf.len() as int));
    assert(suf.subrange(8 + en + 2, suf.len() as int) =~= seq![
        34u8,
        101,
        109,
        97,
        105,
        108,
        34,
        58,
        34,
    ] + esc(em) + seq![34u8, 125]);
    lemma_parse_email_member(s, j6, f2, em);
    let f3 = FieldsV { id: f.id, name: Some(nm), email: Some(em) };
    assert(spec_parse_members(s, j6, f2) == Some((f3, s.len() as int)));
    assert(spec_parse_members(s, i, f) == Some((f3, s.len() as int)));
}

#[verifier::rlimit(100)]
proof fn lemma_parse_id_value(s: Seq<u8>, i: int, f: FieldsV, n: i32, rest: Seq<u8>)
    requires
        0 <= i <= s.len(),
        f.id is None,
        s.subrange(i, s.len() as int) == json_id_part() + int_bytes(n as int) + seq![44u8] + rest,
        rest.len() > 0,
        rest[0] == 34,
    ensures
        ({
            let l = int_bytes(n as int).len() as int;
            &&& 0 <= i + 4 < s.len()
            &&& s[i] == 34
            &&& s[i + 4] == 58
            &&& parse_str_rest(s, i + 1) == Some((lit_id(), i + 4))
            &&& skip_ws(s, i + 4) == i + 4
            &&& skip_ws(s, i + 5) == i + 5
            &&& spec_member_value(s, i + 5, lit_id(), f) == Some(
                (FieldsV { id: Some(Some(n)), name: f.name, email: f.email }, i + 5 + l),
            )
            &&& s[i + 5 + l] == 44
            &&& skip_ws(s, i + 5 + l) == i + 5 + l
            &&& skip_ws(s, i + 6 + l) == i + 6 + l
            &&& i + 6 + l < s.len()
            &&& s[i + 6 + l] == 34
        }),
{
    let suf = s.subrange(i, s.len() as int);
    let ib = int_bytes(n as int);
    let l = ib.len() as int;
    assert(suf.len() == s.len() - i);
    assert(suf.len() == 5 + l + 1 + rest.len());
    assert(s[i] == suf[0]);
    assert(suf[0] == 34);
    assert(forall|k: int|
        0 <= k < 2 ==> lit_id()[k] != 34 && lit_id()[k] != 92 && lit_id()[k] >= 32);
    lemma_esc_no_specials(lit_id());
    let tail0 = seq![58u8] + ib + seq![44u8] + rest;
    assert(s.subrange(i + 1, s.len() as int) =~= suf.subrange(1, suf.len() as int));
    assert(suf.subrange(1, suf.len() as int) =~= esc(lit_id()) + seq![34u8] + tail0);
    lemma_parse_str_esc(s, i + 1, lit_id(), tail0);
    assert(parse_str_rest(s, i + 1) == Some((lit_id(), i + 4)));
    assert(s[i + 4] == suf[4]);
    assert(suf[4] == 58);
    assert(skip_ws(s, i + 4) == i + 4);
    let tail5 = seq![44u8] + rest;
    assert(s.subrange(i + 5, s.len() as int) =~= suf.subrange(5, suf.len() as int));
    assert(suf.subrange(5, suf.len() as int) =~= ib + tail5);
    assert(!is_digit(tail5[0]) && tail5[0] != 45);
    lemma_parse_int_ser(n as int, s, i + 5, tail5);
    lemma_dec_digits_are_digits(
        if n < 0 {
            (-n) as nat
        } else {
            n as nat
        },
    );
    assert(s[i + 5] == suf[5]);
    assert(suf[5] == ib[0]);
    assert(!is_ws(s[i + 5]) && s[i + 5] != 110) by {
        if n < 0 {
            assert(ib[0] == 45);
        } else {
            assert(is_digit(ib[0]));
        }
    }
    assert(skip_ws(s, i + 5) == i + 5);
    if skip_lit(s, i + 5, lit_null()) is Some {
        assert(s.subrange(i + 5, i + 5 + lit_null().len() as int)[0] == s[i + 5]);
        assert(false);
    }
    assert(spec_parse_int(s, i + 5) == Some((n, i + 5 + l)));
    assert(spec_member_value(s, i + 5, lit_id(), f) == Some(
        (FieldsV { id: Some(Some(n)), name: f.name, email: f.email }, i + 5 + l),
    ));
    assert(s[i + 5 + l] == suf[5 + l]);
    assert(suf[5 + l] == 44);
    assert(skip_ws(s, i + 5 + l) == i + 5 + l);
    assert(s[i + 6 + l] == suf[6 + l]);
    assert(suf[6 + l] == rest[0]);
    assert(s[i + 6 + l] == 34);
    assert(skip_ws(s, i + 6 + l) == i + 6 + l);
}

#[verifier::rlimit(100)]
proof fn lemma_round_trip_with_id(u: UserView, n: i32)
    requires
        u.id == Some(n),
    ensures
        spec_parse_user(spec_serialize_user(u)) == Some(u),
{
    let s = spec_serialize_user(u);
    let f0 = FieldsV { id: None, name: None, email: None };
    let ib = int_bytes(n as int);
    let l = ib.len() as int;
    let rest = json_name_part() + esc(u.name) + json_mid_part() + esc(u.email) + seq![34u8, 125];
    assert(s == seq![123u8] + (json_id_part() + ib + seq![44u8]) + rest);
    assert(s[0] == 123);
    assert(skip_ws(s, 0) == 0);
    assert(rest[0] == json_name_part()[0]);
    assert(rest[0] == 34);
    assert(s.subrange(1, s.len() as int) =~= json_id_part() + ib + seq![44u8] + rest);
    lemma_parse_id_value(s, 1, f0, n, rest);
    assert(s[1] == 34);
    assert(skip_ws(s, 1) == 1);
    let f1 = FieldsV { id: Some(Some(n)), name: None, email: None };
    assert(s.subrange(7 + l, s.len() as int) =~= rest);
    lemma_parse_members_name_email(s, 7 + l, f1, u.name, u.email);
    assert(spec_parse_members(s, 7 + l, f1) == Some(
        (
            FieldsV { id: Some(Some(n)), name: Some(u.name), email: Some(u.email) },
            s.len() as int,
        ),
    ));
    assert(spec_parse_members(s, 1, f0) == Some(
        (
            FieldsV { id: Some(Some(n)), name: Some(u.name), email: Some(u.email) },
            s.len() as int,
        ),
    ));
    assert(skip_ws(s, s.len() as int) == s.len());
    assert(spec_parse_user(s) == Some(UserView { id: Some(n), name: u.name, email: u.email }));
    assert(UserView { id: Some(n), name: u.name, email: u.email } =~= u);
}

/// The transcoder round trip: a serialized record deserializes to itself, so
/// a well-formed body, once read, keeps its meaning when written back.
#[verifier::rlimit(100)]
pub proof fn lemma_transcoder_round_trip(u: UserView)
    ensures
        spec_parse_user(spec_serialize_user(u)) == Some(u),
{
    let s = spec_serialize_user(u);
    let f0 = FieldsV { id: None, name: None, email: None };
    match u.id {
        None => {
            assert(s == seq![123u8] + json_name_part() + esc(u.name) + json_mid_part() + esc(
                u.email,
            ) + seq![34u8, 125]);
            assert(s[0] == 123);
            assert(skip_ws(s, 0) == 0);
            assert(s[1] == json_name_part()[0]);
            assert(s[1] == 34);
            assert(skip_ws(s, 1) == 1);
            assert(s.subrange(1, s.len() as int) =~= json_name_part() + esc(u.name)
                + json_mid_part() + esc(u.email) + seq![34u8, 125]);
            lemma_parse_members_name_email(s, 1, f0, u.name, u.email);
            assert(skip_ws(s, s.len() as int) == s.len());
            assert(spec_parse_user(s) == Some(UserView { id: None, name: u.name, email: u.email }));
            assert(UserView { id: None, name: u.name, email: u.email } =~= u);
        },
        Some(n) => {
            lemma_round_trip_with_id(u, n);
        },
    }
}

/// A well-formed body keeps its meaning when the record it carries is
/// written back: serializing what the body deserialized to yields text that
/// deserializes the same way.
pub proof fn lemma_body_round_trip(body: Seq<u8>, u: UserView)
    requires
        spec_parse_user(body) == Some(u),
    ensures
        spec_parse_user(spec_serialize_user(u)) == spec_parse_user(body),
{
    lemma_transcoder_round_trip(u);
}

} // verus!
