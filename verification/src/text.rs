//! Rendering of numbers as text.
//!
//! The mailbox listing and the "not found" notices print indices, and the
//! record summaries print timestamps. Everything here is built from one
//! spec-level alphabet: [`spec_dec_digits`] gives the decimal digits of a
//! number as ASCII bytes, [`spec_pad_digits`] left-pads them with zeros,
//! and [`ascii_chars`] reads ASCII bytes as the characters they stand for.

use vstd::prelude::*;

verus! {

use vstd::utf8::{
    encode_utf8, valid_utf8, is_ascii_chars, is_ascii_chars_encode_utf8, encode_utf8_valid_utf8,
    encode_utf8_decode_utf8,
};
use crate::wire::utf8_to_string;

/// The decimal digits of `n`, most significant first, as ASCII bytes.
pub open spec fn spec_dec_digits(n: nat) -> Seq<u8>
    decreases n,
{
    if n < 10 {
        seq![(48 + n) as u8]
    } else {
        spec_dec_digits(n / 10).push((48 + n % 10) as u8)
    }
}

/// `k` ASCII zero digits.
pub open spec fn spec_zero_digits(k: nat) -> Seq<u8> {
    Seq::new(k, |i: int| 48u8)
}

/// The decimal digits of `n` left-padded with zeros to width `w`.
pub open spec fn spec_pad_digits(n: nat, w: nat) -> Seq<u8> {
    if spec_dec_digits(n).len() >= w {
        spec_dec_digits(n)
    } else {
        spec_zero_digits((w - spec_dec_digits(n).len()) as nat) + spec_dec_digits(n)
    }
}

/// ASCII bytes read as the characters they stand for.
pub open spec fn ascii_chars(bs: Seq<u8>) -> Seq<char> {
    Seq::new(bs.len(), |i: int| bs[i] as char)
}

/// Every byte is an ASCII byte.
pub open spec fn all_ascii(bs: Seq<u8>) -> bool {
    forall|i: int| 0 <= i < bs.len() ==> bs[i] < 128
}

/// Every byte of a padded decimal rendering is an ASCII digit.
pub proof fn lemma_pad_digits_ascii(n: nat, w: nat)
    ensures
        forall|i: int| 0 <= i < spec_pad_digits(n, w).len()
            ==> 48 <= #[trigger] spec_pad_digits(n, w)[i] <= 57,
{
    lemma_dec_digits_ascii(n);
    let p = spec_pad_digits(n, w);
    assert forall|i: int| 0 <= i < p.len() implies 48 <= #[trigger] p[i] <= 57 by {
        if spec_dec_digits(n).len() < w {
            let k = w - spec_dec_digits(n).len();
            if i < k {
                assert(p[i] == spec_zero_digits(k as nat)[i]);
            } else {
                assert(p[i] == spec_dec_digits(n)[i - k]);
            }
        }
    }
}

/// The decimal notation of `n` as a character sequence.
pub open spec fn spec_dec_str(n: nat) -> Seq<char> {
    ascii_chars(spec_dec_digits(n))
}

/// Every decimal digit byte is an ASCII digit, and there is at least one.
pub proof fn lemma_dec_digits_ascii(n: nat)
    ensures
        spec_dec_digits(n).len() >= 1,
        forall|i: int| 0 <= i < spec_dec_digits(n).len()
            ==> 48 <= #[trigger] spec_dec_digits(n)[i] <= 57,
    decreases n,
{
    if n >= 10 {
        lemma_dec_digits_ascii(n / 10);
    }
}

/// Distinct numbers have distinct decimal digit sequences.
pub proof fn lemma_dec_digits_injective(m: nat, n: nat)
    requires
        m != n,
    ensures
        spec_dec_digits(m) != spec_dec_digits(n),
    decreases m + n,
{
    lemma_dec_digits_ascii(m);
    lemma_dec_digits_ascii(n);
    if m >= 10 {
        lemma_dec_digits_ascii(m / 10);
    }
    if n >= 10 {
        lemma_dec_digits_ascii(n / 10);
    }
    if m < 10 && n < 10 {
        assert(spec_dec_digits(m)[0] != spec_dec_digits(n)[0]);
    } else if m < 10 && n >= 10 {
        assert(spec_dec_digits(m).len() == 1);
        assert(spec_dec_digits(n).len() >= 2);
    } else if m >= 10 && n < 10 {
        assert(spec_dec_digits(m).len() >= 2);
        assert(spec_dec_digits(n).len() == 1);
    } else {
        if m % 10 != n % 10 {
            assert(spec_dec_digits(m).last() != spec_dec_digits(n).last());
        } else {
            assert(m / 10 != n / 10);
            lemma_dec_digits_injective(m / 10, n / 10);
            if spec_dec_digits(m) == spec_dec_digits(n) {
                assert(spec_dec_digits(m).drop_last() =~= spec_dec_digits(m / 10));
                assert(spec_dec_digits(n).drop_last() =~= spec_dec_digits(n / 10));
                assert(false);
            }
        }
    }
}

/// Distinct numbers have distinct decimal notations.
pub proof fn lemma_dec_str_injective(m: nat, n: nat)
    requires
        m != n,
    ensures
        spec_dec_str(m) != spec_dec_str(n),
{
    lemma_dec_digits_injective(m, n);
    lemma_dec_digits_ascii(m);
    lemma_dec_digits_ascii(n);
    let dm = spec_dec_digits(m);
    let dn = spec_dec_digits(n);
    if spec_dec_str(m) == spec_dec_str(n) {
        assert(spec_dec_str(m).len() == dm.len());
        assert(spec_dec_str(n).len() == dn.len());
        assert(dm.len() == dn.len());
        assert forall|i: int| 0 <= i < dm.len() implies dm[i] == dn[i] by {
            assert(ascii_chars(dm)[i] == ascii_chars(dn)[i]);
            assert(dm[i] as char == dn[i] as char);
            assert((dm[i] as char) as u8 == (dn[i] as char) as u8);
        }
        assert(dm =~= dn);
        assert(false);
    }
}

/// A decimal digit character.
pub open spec fn is_digit_char(c: char) -> bool {
    '0' <= c && c <= '9'
}

/// The numeric value of a digit character.
pub open spec fn digit_of(c: char) -> int {
    c as u32 - 48
}

/// The number a digit string denotes, most significant digit first.
pub open spec fn chars_value(p: Seq<char>) -> int
    decreases p.len(),
{
    if p.len() == 0 {
        0
    } else {
        chars_value(p.drop_last()) * 10 + digit_of(p.last())
    }
}

/// Every character of a decimal notation is a digit, and its length is
/// one digit per power of ten: 1 below 10, 2 below 100, 3 below 1000.
pub proof fn lemma_dec_str_digits(n: nat)
    ensures
        spec_dec_str(n).len() == spec_dec_digits(n).len(),
        spec_dec_str(n).len() >= 1,
        forall|i: int| 0 <= i < spec_dec_str(n).len()
            ==> is_digit_char(#[trigger] spec_dec_str(n)[i]),
        n < 10 ==> spec_dec_str(n).len() == 1,
        10 <= n < 100 ==> spec_dec_str(n).len() == 2,
        100 <= n < 1000 ==> spec_dec_str(n).len() == 3,
        n >= 10 ==> spec_dec_str(n)[0] != '0',
    decreases n,
{
    lemma_dec_digits_ascii(n);
    if n >= 10 {
        lemma_dec_str_digits(n / 10);
        assert(spec_dec_digits(n)[0] == spec_dec_digits(n / 10)[0]);
        assert(spec_dec_str(n)[0] == spec_dec_str(n / 10)[0]);
        if n / 10 < 10 {
            assert(spec_dec_digits(n / 10)[0] == (48 + n / 10) as u8);
            assert(spec_dec_str(n)[0] != '0');
        }
    }
    assert forall|i: int| 0 <= i < spec_dec_str(n).len() implies is_digit_char(
        #[trigger] spec_dec_str(n)[i],
    ) by {
        assert(spec_dec_str(n)[i] == spec_dec_digits(n)[i] as char);
        assert(48 <= spec_dec_digits(n)[i] <= 57);
    }
}

/// The denoted value of a decimal notation is the number itself.
pub proof fn lemma_dec_str_value(n: nat)
    ensures
        chars_value(spec_dec_str(n)) == n,
    decreases n,
{
    lemma_dec_digits_ascii(n);
    let p = spec_dec_str(n);
    assert(chars_value(p) == chars_value(p.drop_last()) * 10 + digit_of(p.last()));
    if n < 10 {
        assert(p.len() == 1);
        assert(p.drop_last() =~= Seq::<char>::empty());
        assert(chars_value(Seq::<char>::empty()) == 0);
        assert(p.last() == ((48 + n) as u8) as char);
        assert(digit_of(p.last()) == n);
    } else {
        lemma_dec_str_value(n / 10);
        let q = spec_dec_str(n / 10);
        assert(p.drop_last() =~= q);
        assert(p.last() == ((48 + n % 10) as u8) as char);
        assert(digit_of(p.last()) == n % 10);
        assert(chars_value(p) == chars_value(q) * 10 + n % 10);
    }
}

/// A digit string denotes a number that is not negative.
pub proof fn lemma_value_nonneg(p: Seq<char>)
    requires
        forall|i: int| 0 <= i < p.len() ==> is_digit_char(#[trigger] p[i]),
    ensures
        0 <= chars_value(p),
    decreases p.len(),
{
    if p.len() > 0 {
        lemma_value_nonneg(p.drop_last());
        assert(digit_of(p.last()) >= 0);
    }
}

/// A digit string that does not start with a zero denotes at least one.
pub proof fn lemma_value_first_nonzero(p: Seq<char>)
    requires
        forall|i: int| 0 <= i < p.len() ==> is_digit_char(#[trigger] p[i]),
        p.len() >= 1,
        p[0] != '0',
    ensures
        chars_value(p) >= 1,
    decreases p.len(),
{
    if p.len() == 1 {
        assert(p.last() == p[0]);
        if digit_of(p[0]) == 0 {
            assert(p[0] as u32 == 48);
            vstd::utf8::char_u32_cast(p[0], 48);
            assert(p[0] == 48u32 as char);
            assert(p[0] == '0');
        }
    } else {
        lemma_value_first_nonzero(p.drop_last());
        lemma_value_nonneg(p);
        assert(digit_of(p.last()) >= 0);
        assert(chars_value(p.drop_last()) >= 1);
    }
}

/// A digit string without a leading zero is the decimal notation of the
/// number it denotes: decimal notation is canonical.
pub proof fn lemma_dec_str_canon(p: Seq<char>, v: int)
    requires
        forall|i: int| 0 <= i < p.len() ==> is_digit_char(#[trigger] p[i]),
        p.len() >= 1,
        p.len() > 1 ==> p[0] != '0',
        chars_value(p) == v,
    ensures
        v >= 0,
        p == spec_dec_str(v as nat),
    decreases p.len(),
{
    lemma_value_nonneg(p);
    let c = p.last();
    let d = digit_of(c);
    assert(0 <= d <= 9);
    assert(chars_value(p) == chars_value(p.drop_last()) * 10 + digit_of(p.last()));
    if p.len() == 1 {
        assert(p.drop_last() =~= Seq::<char>::empty());
        assert(chars_value(Seq::<char>::empty()) == 0);
        assert(v == d);
        assert(spec_dec_digits(v as nat) == seq![(48 + v) as u8]);
        vstd::utf8::char_u32_cast(c, (48 + v) as u32);
        assert(p =~= spec_dec_str(v as nat));
    } else {
        let q = p.drop_last();
        assert(forall|i: int| 0 <= i < q.len() ==> is_digit_char(#[trigger] q[i]));
        assert(q[0] == p[0]);
        lemma_value_first_nonzero(q);
        let w = chars_value(q);
        assert(v == w * 10 + d);
        assert(w >= 1);
        assert(v >= 10);
        assert(v / 10 == w && v % 10 == d) by (nonlinear_arith)
            requires
                v == w * 10 + d,
                0 <= d <= 9,
                w >= 0,
        ;
        lemma_dec_str_canon(q, w);
        let dv = spec_dec_str(v as nat);
        assert(spec_dec_digits(v as nat) == spec_dec_digits(w as nat).push(
            (48 + v % 10) as u8,
        ));
        assert(dv.len() == spec_dec_digits(w as nat).len() + 1);
        assert(dv.drop_last() =~= spec_dec_str(w as nat));
        assert(dv.last() == ((48 + d) as u8) as char);
        assert(c == dv.last());
        assert(p.len() == dv.len());
        assert forall|i: int| 0 <= i < p.len() implies p[i] == dv[i] by {
            if i < p.len() - 1 {
                assert(p[i] == q[i]);
                assert(dv[i] == dv.drop_last()[i]);
            } else {
                assert(p[i] == p.last());
                assert(dv[i] == dv.last());
            }
        }
        assert(p =~= dv);
    }
}

/// The decimal digits of `n`, most significant first, as ASCII bytes.
pub fn dec_digits(n: u64) -> (v: Vec<u8>)
    ensures
        v@ == spec_dec_digits(n as nat),
    decreases n,
{
    if n < 10 {
        let mut v: Vec<u8> = Vec::new();
        v.push(48 + (n as u8));
        proof {
            assert(v@ =~= spec_dec_digits(n as nat));
        }
        v
    } else {
        let mut v = dec_digits(n / 10);
        v.push(48 + ((n % 10) as u8));
        v
    }
}

/// The decimal digits of `n` left-padded with zeros to width `w`.
pub fn dec_digits_padded(n: u64, w: usize) -> (v: Vec<u8>)
    ensures
        v@ == spec_pad_digits(n as nat, w as nat),
{
    let mut d = dec_digits(n);
    if d.len() >= w {
        return d;
    }
    let need: usize = w - d.len();
    let mut v: Vec<u8> = Vec::new();
    let mut i: usize = 0;
    while i < need
        invariant
            i <= need,
            v@ =~= spec_zero_digits(i as nat),
        decreases need - i,
    {
        v.push(48);
        i += 1;
        proof {
            assert(v@ =~= spec_zero_digits(i as nat));
        }
    }
    v.append(&mut d);
    proof {
        assert(v@ =~= spec_pad_digits(n as nat, w as nat));
    }
    v
}

/// Turns ASCII bytes into the string of the characters they stand for.
pub fn ascii_to_string(v: &Vec<u8>) -> (s: String)
    requires
        all_ascii(v@),
    ensures
        s@ == ascii_chars(v@),
{
    let ghost chars = ascii_chars(v@);
    proof {
        assert forall|i: int| 0 <= i < chars.len() implies '\0' <= #[trigger] chars[i] <= '\u{7f}' by {
            assert(chars[i] == v@[i] as char);
        }
        assert(is_ascii_chars(chars));
        is_ascii_chars_encode_utf8(chars);
        assert forall|i: int| 0 <= i < chars.len() implies encode_utf8(chars)[i] == v@[i] by {
            assert(encode_utf8(chars)[i] == chars[i] as u8);
            assert((v@[i] as char) as u8 == v@[i]);
        }
        assert(encode_utf8(chars) =~= v@);
        encode_utf8_valid_utf8(chars);
    }
    match utf8_to_string(v.as_slice()) {
        Some(s) => {
            proof {
                encode_utf8_decode_utf8(s@);
                encode_utf8_decode_utf8(chars);
            }
            s
        },
        None => {
            proof {
                assert(false);
            }
            unreached()
        },
    }
}

/// The decimal notation of `n` as a string.
pub fn u64_to_dec_string(n: u64) -> (s: String)
    ensures
        s@ == spec_dec_str(n as nat),
{
    let v = dec_digits(n);
    proof {
        lemma_dec_digits_ascii(n as nat);
    }
    ascii_to_string(&v)
}

} // verus!
