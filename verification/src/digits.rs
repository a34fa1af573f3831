//! Canonical decimal numerals.
//!
//! The store keeps the numeric attributes of a transaction as decimal
//! strings. This module defines the canonical numeral of a number at the
//! specification level, executable encoders and parsers, and the lemmas
//! (round trip, injectivity) the marshaling contracts rest on.

use vstd::prelude::*;
use vstd::string::StrSliceExecFns;
use vstd::string::StringExecFns;

verus! {

/// The digit character of a value below ten.
pub open spec fn digit_char(d: nat) -> char {
    if d == 0 {
        '0'
    } else if d == 1 {
        '1'
    } else if d == 2 {
        '2'
    } else if d == 3 {
        '3'
    } else if d == 4 {
        '4'
    } else if d == 5 {
        '5'
    } else if d == 6 {
        '6'
    } else if d == 7 {
        '7'
    } else if d == 8 {
        '8'
    } else {
        '9'
    }
}

/// The value of a digit character.
pub open spec fn char_digit(c: char) -> nat {
    (c as u32 - 48) as nat
}

/// Whether `c` is a decimal digit.
pub open spec fn is_digit(c: char) -> bool {
    48 <= c as u32 <= 57
}

/// The canonical decimal numeral of `n`: no sign, no leading zero.
pub open spec fn dec_of(n: nat) -> Seq<char>
    decreases n,
{
    if n < 10 {
        seq![digit_char(n)]
    } else {
        dec_of(n / 10).push(digit_char(n % 10))
    }
}

/// The number a digit string denotes.
pub open spec fn dec_val(s: Seq<char>) -> nat
    decreases s.len(),
{
    if s.len() == 0 {
        0
    } else {
        dec_val(s.drop_last()) * 10 + char_digit(s.last())
    }
}

/// Whether every character of `s` is a decimal digit.
pub open spec fn all_digits(s: Seq<char>) -> bool {
    forall|i: int| 0 <= i < s.len() ==> is_digit(s[i])
}

/// Whether `s` is a canonical numeral: digits only, non-empty, and no
/// leading zero unless it is the single digit zero.
pub open spec fn canonical_dec(s: Seq<char>) -> bool {
    &&& all_digits(s)
    &&& s.len() >= 1
    &&& (s.len() > 1 ==> s[0] != '0')
}

/// The canonical numeral of a signed number: a minus sign before the
/// numeral of the magnitude when the number is negative.
pub open spec fn int_str(i: int) -> Seq<char> {
    if i >= 0 {
        dec_of(i as nat)
    } else {
        seq!['-'] + dec_of((-i) as nat)
    }
}

/// The canonical rendering of a monetary amount counted in cents:
/// the whole units, a point, and exactly two fractional digits.
pub open spec fn cents_str(c: nat) -> Seq<char> {
    dec_of(c / 100) + seq!['.', digit_char((c % 100) / 10), digit_char((c % 100) % 10)]
}

/// Round trip of a single digit: reading the character of `d` gives `d`
/// back.
pub proof fn lemma_digit_char_val(d: nat)
    requires
        d < 10,
    ensures
        is_digit(digit_char(d)),
        char_digit(digit_char(d)) == d,
{
}

/// A digit character denotes the value whose character it is.
pub proof fn lemma_char_digit_char(c: char)
    requires
        is_digit(c),
    ensures
        char_digit(c) < 10,
        digit_char(char_digit(c)) == c,
{
}

/// Shape of a canonical numeral: it is made of digits, it is non-empty,
/// its length is one exactly for values below ten, and its first digit is
/// zero only for the value zero.
pub proof fn lemma_dec_of_shape(n: nat)
    ensures
        all_digits(dec_of(n)),
        dec_of(n).len() >= 1,
        dec_of(n).len() == 1 <==> n < 10,
        dec_of(n)[0] == '0' <==> n == 0,
    decreases n,
{
    if n < 10 {
        lemma_digit_char_val(n);
        assert(dec_of(n) =~= seq![digit_char(n)]);
    } else {
        lemma_dec_of_shape(n / 10);
        lemma_digit_char_val(n % 10);
        let s = dec_of(n / 10).push(digit_char(n % 10));
        assert(s[0] == dec_of(n / 10)[0]);
        assert forall|i: int| 0 <= i < s.len() implies is_digit(s[i]) by {
            if i < s.len() - 1 {
                assert(s[i] == dec_of(n / 10)[i]);
            }
        }
    }
}

/// Reading back the canonical numeral of `n` gives `n`.
pub proof fn lemma_dec_val_of_dec_of(n: nat)
    ensures
        dec_val(dec_of(n)) == n,
    decreases n,
{
    if n < 10 {
        lemma_digit_char_val(n);
        let s = seq![digit_char(n)];
        assert(s.drop_last() =~= Seq::<char>::empty());
        assert(s.last() == digit_char(n));
        assert(dec_val(s) == dec_val(s.drop_last()) * 10 + char_digit(s.last()));
        assert(dec_val(s) == n);
    } else {
        lemma_dec_val_of_dec_of(n / 10);
        lemma_digit_char_val(n % 10);
        let s = dec_of(n / 10).push(digit_char(n % 10));
        assert(s.drop_last() =~= dec_of(n / 10));
        assert(s.last() == digit_char(n % 10));
        assert(dec_val(s) == (n / 10) * 10 + n % 10);
    }
}

/// Canonical numerals are injective: equal numerals mean equal values.
pub proof fn lemma_dec_of_injective(a: nat, b: nat)
    requires
        dec_of(a) == dec_of(b),
    ensures
        a == b,
{
    lemma_dec_val_of_dec_of(a);
    lemma_dec_val_of_dec_of(b);
}

/// A digit string that does not start with zero denotes at least one,
/// and at least ten when it is longer than one digit.
pub proof fn lemma_dec_val_no_leading_zero(s: Seq<char>)
    requires
        all_digits(s),
        s.len() >= 1,
        s[0] != '0',
    ensures
        dec_val(s) >= 1,
        s.len() >= 2 ==> dec_val(s) >= 10,
    decreases s.len(),
{
    if s.len() == 1 {
        lemma_char_digit_char(s[0]);
        assert(s.drop_last() =~= Seq::<char>::empty());
        if char_digit(s[0]) == 0 {
            assert(s[0] == digit_char(0));
        }
    } else {
        let front = s.drop_last();
        assert(front[0] == s[0]);
        lemma_dec_val_no_leading_zero(front);
    }
}

/// A canonical digit string is the canonical numeral of its own value.
pub proof fn lemma_dec_of_dec_val(s: Seq<char>)
    requires
        canonical_dec(s),
    ensures
        dec_of(dec_val(s)) == s,
    decreases s.len(),
{
    if s.len() == 1 {
        lemma_char_digit_char(s[0]);
        assert(s.drop_last() =~= Seq::<char>::empty());
        assert(s.last() == s[0]);
        assert(dec_val(s) == dec_val(s.drop_last()) * 10 + char_digit(s.last()));
        assert(dec_val(s) == char_digit(s[0]));
        assert(dec_of(dec_val(s)) =~= seq![s[0]]);
        assert(seq![s[0]] =~= s);
    } else {
        let front = s.drop_last();
        assert(front[0] == s[0]);
        assert(all_digits(front)) by {
            assert forall|i: int| 0 <= i < front.len() implies is_digit(front[i]) by {
                assert(front[i] == s[i]);
            }
        }
        lemma_dec_val_no_leading_zero(front);
        lemma_char_digit_char(s.last());
        let v = dec_val(front);
        let d = char_digit(s.last());
        let n = v * 10 + d;
        assert(n >= 10);
        assert(n / 10 == v && n % 10 == d) by {
            vstd::arithmetic::div_mod::lemma_fundamental_div_mod_converse(
                n as int, 10, v as int, d as int);
        }
        lemma_dec_of_dec_val(front);
        assert(dec_of(n) == dec_of(v).push(digit_char(d)));
        assert(dec_of(v).push(digit_char(d)) =~= s);
    }
}

/// The value of a digit string is no less than the value of any prefix.
pub proof fn lemma_dec_val_prefix(s: Seq<char>, i: int)
    requires
        0 <= i <= s.len(),
    ensures
        dec_val(s) >= dec_val(s.take(i)),
    decreases s.len() - i,
{
    if i < s.len() {
        lemma_dec_val_prefix(s, i + 1);
        assert(s.take(i + 1).drop_last() =~= s.take(i));
        assert(dec_val(s.take(i + 1)) == dec_val(s.take(i)) * 10 + char_digit(s.take(i + 1).last()));
        assert(dec_val(s.take(i)) * 10 >= dec_val(s.take(i))) by (nonlinear_arith);
    } else {
        assert(s.take(i) =~= s);
    }
}

/// The one-character string of a digit value.
fn digit_str(d: u64) -> (s: &'static str)
    requires
        d < 10,
    ensures
        s@ =~= seq![digit_char(d as nat)],
{
    proof {
        reveal_strlit("0");
        reveal_strlit("1");
        reveal_strlit("2");
        reveal_strlit("3");
        reveal_strlit("4");
        reveal_strlit("5");
        reveal_strlit("6");
        reveal_strlit("7");
        reveal_strlit("8");
        reveal_strlit("9");
    }
    if d == 0 {
        "0"
    } else if d == 1 {
        "1"
    } else if d == 2 {
        "2"
    } else if d == 3 {
        "3"
    } else if d == 4 {
        "4"
    } else if d == 5 {
        "5"
    } else if d == 6 {
        "6"
    } else if d == 7 {
        "7"
    } else if d == 8 {
        "8"
    } else {
        "9"
    }
}

/// Renders `n` as its canonical decimal numeral.
pub fn u64_to_dec(n: u64) -> (s: String)
    ensures
        s@ == dec_of(n as nat),
    decreases n,
{
    if n < 10 {
        let s = digit_str(n).to_owned();
        assert(s@ =~= dec_of(n as nat));
        s
    } else {
        let mut s = u64_to_dec(n / 10);
        s.append(digit_str(n % 10));
        assert(s@ =~= dec_of(n as nat));
        s
    }
}

/// Renders `i` as a canonical signed decimal numeral.
pub fn i32_to_dec(i: i32) -> (s: String)
    ensures
        s@ == int_str(i as int),
{
    if i >= 0 {
        u64_to_dec(i as u64)
    } else {
        let mag: u64 = (-(i as i64)) as u64;
        let mut s = "-".to_owned();
        let digits = u64_to_dec(mag);
        s.append(digits.as_str());
        proof {
            reveal_strlit("-");
            assert(s@ =~= int_str(i as int));
        }
        s
    }
}

/// Renders an amount of `c` cents as a decimal number with exactly two
/// fractional digits.
pub fn cents_to_dec(c: u64) -> (s: String)
    ensures
        s@ == cents_str(c as nat),
{
    let mut s = u64_to_dec(c / 100);
    s.append(".");
    s.append(digit_str((c % 100) / 10));
    s.append(digit_str((c % 100) % 10));
    proof {
        reveal_strlit(".");
        assert(s@ =~= cents_str(c as nat));
    }
    s
}

/// Parses the canonical decimal numeral of an unsigned number. Returns
/// the number whose numeral `s` is, and nothing when `s` is the numeral
/// of no `u64` value.
pub fn parse_u64_dec(s: &str) -> (r: Option<u64>)
    ensures
        r matches Some(n) ==> s@ == dec_of(n as nat),
        r is None ==> forall|n: u64| s@ != dec_of(n as nat),
{
    let len = s.unicode_len();
    if len == 0 {
        proof {
            assert forall|n: u64| s@ != dec_of(n as nat) by {
                lemma_dec_of_shape(n as nat);
            }
        }
        return None;
    }
    if len > 1 && s.get_char(0) == '0' {
        proof {
            assert forall|n: u64| s@ != dec_of(n as nat) by {
                lemma_dec_of_shape(n as nat);
            }
        }
        return None;
    }
    let mut val: u64 = 0;
    let mut i: usize = 0;
    while i < len
        invariant
            0 <= i <= len,
            len == s@.len(),
            val == dec_val(s@.take(i as int)),
            all_digits(s@.take(i as int)),
        decreases len - i,
    {
        let c = s.get_char(i);
        let cv = c as u32;
        if cv < 48 || cv > 57 {
            proof {
                assert(!is_digit(s@[i as int]));
                assert forall|n: u64| s@ != dec_of(n as nat) by {
                    lemma_dec_of_shape(n as nat);
                }
            }
            return None;
        }
        let d = (cv - 48) as u64;
        proof {
            assert(s@.take(i + 1).drop_last() =~= s@.take(i as int));
            assert(s@.take(i + 1).last() == s@[i as int]);
            assert(all_digits(s@.take(i + 1)));
        }
        if val > u64::MAX / 10 {
            proof {
                vstd::arithmetic::mul::lemma_mul_inequality(
                    (u64::MAX / 10 + 1) as int, val as int, 10);
                assert(dec_val(s@.take(i + 1)) > u64::MAX);
                lemma_dec_val_prefix(s@, i + 1);
                assert(s@.take(s@.len() as int) =~= s@);
                assert forall|n: u64| s@ != dec_of(n as nat) by {
                    lemma_dec_val_of_dec_of(n as nat);
                }
            }
            return None;
        }
        proof {
            vstd::arithmetic::mul::lemma_mul_inequality(
                val as int, (u64::MAX / 10) as int, 10);
        }
        let next = val * 10;
        if d > u64::MAX - next {
            proof {
                assert(dec_val(s@.take(i + 1)) > u64::MAX);
                lemma_dec_val_prefix(s@, i + 1);
                assert(s@.take(s@.len() as int) =~= s@);
                assert forall|n: u64| s@ != dec_of(n as nat) by {
                    lemma_dec_val_of_dec_of(n as nat);
                }
            }
            return None;
        }
        val = next + d;
        i = i + 1;
    }
    proof {
        assert(s@.take(len as int) =~= s@);
        assert(canonical_dec(s@));
        lemma_dec_of_dec_val(s@);
    }
    Some(val)
}

/// Parses the canonical signed decimal numeral of an `i32`. Returns the
/// number whose numeral `s` is, and nothing when `s` is the numeral of
/// no `i32` value.
pub fn parse_i32_dec(s: &str) -> (r: Option<i32>)
    ensures
        r matches Some(i) ==> s@ == int_str(i as int),
        r is None ==> forall|i: i32| s@ != int_str(i as int),
{
    proof {
        reveal_strlit("-");
    }
    let len = s.unicode_len();
    if len >= 1 && s.get_char(0) == '-' {
        let rest = s.substring_char(1, len);
        match parse_u64_dec(rest) {
            Some(mag) if 1 <= mag && mag <= 2147483648 => {
                let i = (-(mag as i64)) as i32;
                proof {
                    assert(s@ =~= seq!['-'] + rest@);
                }
                Some(i)
            },
            other => {
                proof {
                    assert forall|i: i32| s@ != int_str(i as int) by {
                        lemma_dec_of_shape(if i >= 0 { i as nat } else { (-i) as nat });
                        if i >= 0 {
                            // A non-negative numeral starts with a digit,
                            // not with the minus sign.
                            assert(int_str(i as int)[0] != '-');
                        } else if s@ == int_str(i as int) {
                            assert(rest@ =~= dec_of((-i) as nat));
                            let m = (-i) as u64;
                            assert(rest@ == dec_of(m as nat));
                            if let Some(mag) = other {
                                lemma_dec_of_injective(mag as nat, m as nat);
                            }
                        }
                    }
                }
                None
            },
        }
    } else {
        match parse_u64_dec(s) {
            Some(n) if n <= 2147483647 => Some(n as i32),
            other => {
                proof {
                    assert forall|i: i32| s@ != int_str(i as int) by {
                        if i >= 0 {
                            if let Some(n) = other {
                                if s@ == int_str(i as int) {
                                    lemma_dec_of_injective(n as nat, i as nat);
                                }
                            }
                        } else {
                            lemma_dec_of_shape((-i) as nat);
                            if s@ == int_str(i as int) {
                                assert(s@[0] == '-');
                            }
                        }
                    }
                }
                None
            },
        }
    }
}

/// Parses the canonical rendering of an amount in cents: whole units, a
/// point, and exactly two fractional digits. Returns the amount whose
/// rendering `s` is, and nothing when `s` is the rendering of no `u64`
/// amount.
pub fn parse_cents_dec(s: &str) -> (r: Option<u64>)
    ensures
        r matches Some(c) ==> s@ == cents_str(c as nat),
        r is None ==> forall|c: u64| s@ != cents_str(c as nat),
{
    let len = s.unicode_len();
    if len < 4 {
        proof {
            assert forall|c: u64| s@ != cents_str(c as nat) by {
                lemma_dec_of_shape((c as nat) / 100);
            }
        }
        return None;
    }
    if s.get_char(len - 3) != '.' {
        proof {
            assert forall|c: u64| s@ != cents_str(c as nat) by {
                lemma_dec_of_shape((c as nat) / 100);
                if s@ == cents_str(c as nat) {
                    let p = dec_of((c as nat) / 100).len() as int;
                    assert(cents_str(c as nat)[p] == '.');
                    assert(p == len - 3);
                }
            }
        }
        return None;
    }
    let c1 = s.get_char(len - 2);
    let c2 = s.get_char(len - 1);
    let v1 = c1 as u32;
    let v2 = c2 as u32;
    if v1 < 48 || v1 > 57 || v2 < 48 || v2 > 57 {
        proof {
            assert forall|c: u64| s@ != cents_str(c as nat) by {
                lemma_dec_of_shape((c as nat) / 100);
                lemma_digit_char_val((((c as nat) % 100) / 10));
                lemma_digit_char_val(((c as nat) % 100) % 10);
                if s@ == cents_str(c as nat) {
                    assert(s@[len - 2] == digit_char(((c as nat) % 100) / 10));
                    assert(s@[len - 1] == digit_char(((c as nat) % 100) % 10));
                }
            }
        }
        return None;
    }
    let whole = s.substring_char(0, len - 3);
    proof {
        assert forall|c: u64| s@ == cents_str(c as nat) implies whole@
            == dec_of((c as nat) / 100) by {
            lemma_dec_of_shape((c as nat) / 100);
            assert(whole@ =~= dec_of((c as nat) / 100));
        }
    }
    match parse_u64_dec(whole) {
        Some(q) => {
            if q > u64::MAX / 100 {
                proof {
                    assert forall|c: u64| s@ != cents_str(c as nat) by {
                        if s@ == cents_str(c as nat) {
                            lemma_dec_of_injective(q as nat, (c as nat) / 100);
                            vstd::arithmetic::div_mod::lemma_div_is_ordered(
                                c as int, u64::MAX as int, 100);
                        }
                    }
                }
                return None;
            }
            proof {
                vstd::arithmetic::mul::lemma_mul_inequality(
                    q as int, (u64::MAX / 100) as int, 100);
            }
            let base = q * 100;
            let d1 = (v1 - 48) as u64;
            let d2 = (v2 - 48) as u64;
            let frac = d1 * 10 + d2;
            if frac > u64::MAX - base {
                proof {
                    assert forall|c: u64| s@ != cents_str(c as nat) by {
                        if s@ == cents_str(c as nat) {
                            lemma_dec_of_injective(q as nat, (c as nat) / 100);
                            let rm = (c as nat) % 100;
                            lemma_digit_char_val(rm / 10);
                            lemma_digit_char_val(rm % 10);
                            lemma_char_digit_char(s@[len - 2]);
                            lemma_char_digit_char(s@[len - 1]);
                            assert(rm / 10 == d1 && rm % 10 == d2);
                            assert(rm == d1 * 10 + d2);
                            assert(c as nat == ((c as nat) / 100) * 100 + rm);
                        }
                    }
                }
                return None;
            }
            let c = base + frac;
            proof {
                let cn = c as nat;
                assert(cn / 100 == q as nat && cn % 100 == (frac) as nat) by {
                    vstd::arithmetic::div_mod::lemma_fundamental_div_mod_converse(
                        cn as int, 100, q as int, frac as int);
                }
                assert((frac as nat) / 10 == d1 as nat && (frac as nat) % 10 == d2 as nat) by {
                    vstd::arithmetic::div_mod::lemma_fundamental_div_mod_converse(
                        frac as int, 10, d1 as int, d2 as int);
                }
                lemma_digit_char_val(d1 as nat);
                lemma_digit_char_val(d2 as nat);
                assert(digit_char(d1 as nat) == s@[len - 2]);
                assert(digit_char(d2 as nat) == s@[len - 1]);
                assert(s@ =~= whole@ + seq![s@[len - 3], s@[len - 2], s@[len - 1]]);
                assert(s@ =~= cents_str(cn));
            }
            Some(c)
        },
        None => {
            proof {
                assert forall|c: u64| s@ != cents_str(c as nat) by {
                    if s@ == cents_str(c as nat) {
                        vstd::arithmetic::div_mod::lemma_div_is_ordered(
                            c as int, u64::MAX as int, 100);
                        assert(whole@ == dec_of(((c / 100) as u64) as nat));
                    }
                }
            }
            None
        },
    }
}

} // verus!


