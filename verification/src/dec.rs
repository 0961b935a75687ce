//! Decimal notation for machine integers: the canonical digit string of a
//! value, the value of a digit string, and verified conversions both ways.

use vstd::prelude::*;
use vstd::string::{StrSliceExecFns, StringExecFns};

verus! {

/// Whether `c` is a decimal digit.
pub open spec fn spec_is_digit(c: char) -> bool {
    48 <= c as int <= 57
}

/// The digit character for a value between 0 and 9; `'9'` for anything else.
pub open spec fn spec_digit_char(d: int) -> char {
    if d == 0 {
        '0'
    } else if d == 1 {
        '1'
    } else if d == 2 {
        '2'
    } else if d == 3 {
        '3'
    } else if d == 4 {
        '4'
    } else if d == 5 {
        '5'
    } else if d == 6 {
        '6'
    } else if d == 7 {
        '7'
    } else if d == 8 {
        '8'
    } else {
        '9'
    }
}

/// The canonical decimal digit string of a natural number: no sign, no
/// leading zeroes except for the single digit of zero itself.
pub open spec fn spec_dec_nat(n: nat) -> Seq<char>
    decreases n,
{
    if n < 10 {
        seq![spec_digit_char(n as int)]
    } else {
        spec_dec_nat(n / 10) + seq![spec_digit_char((n % 10) as int)]
    }
}

/// The canonical decimal string of an integer: a minus sign before the digits
/// of the magnitude when negative, the bare digits otherwise.
pub open spec fn spec_dec_int(v: int) -> Seq<char> {
    if v < 0 {
        seq!['-'] + spec_dec_nat((-v) as nat)
    } else {
        spec_dec_nat(v as nat)
    }
}

/// The value of a digit string read left to right.
pub open spec fn spec_val(s: Seq<char>) -> int
    decreases s.len(),
{
    if s.len() == 0 {
        0
    } else {
        spec_val(s.drop_last()) * 10 + (s.last() as int - 48)
    }
}

/// Whether every character of `s` is a decimal digit.
pub open spec fn spec_all_digits(s: Seq<char>) -> bool {
    forall|i: int| 0 <= i < s.len() ==> spec_is_digit(s[i])
}

/// The code point of a digit character is 48 plus the digit.
pub proof fn lemma_digit_char_val(d: int)
    requires
        0 <= d <= 9,
    ensures
        spec_digit_char(d) as int == 48 + d,
{
    assert('0' as int == 48);
    assert('1' as int == 49);
    assert('2' as int == 50);
    assert('3' as int == 51);
    assert('4' as int == 52);
    assert('5' as int == 53);
    assert('6' as int == 54);
    assert('7' as int == 55);
    assert('8' as int == 56);
    assert('9' as int == 57);
}

/// The canonical digit string of a natural number is nonempty and consists of
/// digits alone.
pub proof fn lemma_dec_nat_digits(n: nat)
    ensures
        spec_dec_nat(n).len() >= 1,
        spec_all_digits(spec_dec_nat(n)),
    decreases n,
{
    if n < 10 {
    } else {
        lemma_dec_nat_digits(n / 10);
    }
}

/// Reading the canonical digit string of a natural number back yields the
/// number.
pub proof fn lemma_val_dec_nat(n: nat)
    ensures
        spec_val(spec_dec_nat(n)) == n,
    decreases n,
{
    if n < 10 {
        lemma_digit_char_val(n as int);
        assert(seq![spec_digit_char(n as int)].drop_last() =~= Seq::<char>::empty());
        assert(spec_val(Seq::<char>::empty()) == 0);
        assert(seq![spec_digit_char(n as int)].last() == spec_digit_char(n as int));
    } else {
        lemma_val_dec_nat(n / 10);
        lemma_digit_char_val((n % 10) as int);
        let tail = seq![spec_digit_char((n % 10) as int)];
        assert((spec_dec_nat(n / 10) + tail).drop_last() =~= spec_dec_nat(n / 10));
        assert((spec_dec_nat(n / 10) + tail).last() == spec_digit_char((n % 10) as int));
    }
}

/// Appending one character multiplies the value by ten and adds the digit.
pub proof fn lemma_val_snoc(s: Seq<char>, c: char)
    ensures
        spec_val(s.push(c)) == spec_val(s) * 10 + (c as int - 48),
{
    assert(s.push(c).drop_last() =~= s);
    assert(s.push(c).last() == c);
}

/// The value of a digit string is nonnegative.
pub proof fn lemma_val_nonneg(s: Seq<char>)
    requires
        spec_all_digits(s),
    ensures
        spec_val(s) >= 0,
    decreases s.len(),
{
    if s.len() > 0 {
        assert(spec_all_digits(s.drop_last()));
        lemma_val_nonneg(s.drop_last());
    }
}

/// A prefix of a digit string never exceeds the whole string in value.
pub proof fn lemma_val_take_le(s: Seq<char>, j: int)
    requires
        spec_all_digits(s),
        0 <= j <= s.len(),
    ensures
        spec_val(s.take(j)) <= spec_val(s),
    decreases s.len() - j,
{
    if j == s.len() {
        assert(s.take(j) =~= s);
    } else {
        lemma_val_take_le(s, j + 1);
        assert(s.take(j + 1).drop_last() =~= s.take(j));
        assert(s.take(j + 1).last() == s[j]);
        assert(spec_all_digits(s.take(j))) by {
            assert(forall|i: int| 0 <= i < j ==> s.take(j)[i] == s[i]);
        }
        lemma_val_nonneg(s.take(j));
    }
}

/// The single-character string of one digit.
pub fn digit_str(d: u64) -> (r: &'static str)
    requires
        d <= 9,
    ensures
        r@ == seq![spec_digit_char(d as int)],
{
    proof {
        reveal_strlit("0");
        reveal_strlit("1");
        reveal_strlit("2");
        reveal_strlit("3");
        reveal_strlit("4");
        reveal_strlit("5");
        reveal_strlit("6");
        reveal_strlit("7");
        reveal_strlit("8");
        reveal_strlit("9");
    }
    let r = if d == 0 {
        "0"
    } else if d == 1 {
        "1"
    } else if d == 2 {
        "2"
    } else if d == 3 {
        "3"
    } else if d == 4 {
        "4"
    } else if d == 5 {
        "5"
    } else if d == 6 {
        "6"
    } else if d == 7 {
        "7"
    } else if d == 8 {
        "8"
    } else {
        "9"
    };
    proof {
        assert(r@ =~= seq![spec_digit_char(d as int)]);
    }
    r
}

/// The canonical decimal string of a natural number.
pub fn u64_to_dec(n: u64) -> (r: String)
    ensures
        r@ == spec_dec_nat(n as nat),
    decreases n,
{
    if n < 10 {
        String::from_str(digit_str(n))
    } else {
        let mut s = u64_to_dec(n / 10);
        s.append(digit_str(n % 10));
        s
    }
}

/// The canonical decimal string of an integer.
pub fn i64_to_dec(v: i64) -> (r: String)
    ensures
        r@ == spec_dec_int(v as int),
{
    if v >= 0 {
        u64_to_dec(v as u64)
    } else {
        let mag: u64 = (-(v as i128)) as u64;
        let mut s = String::from_str("-");
        let digits = u64_to_dec(mag);
        s.append(digits.as_str());
        proof {
            reveal_strlit("-");
            assert(s@ =~= spec_dec_int(v as int));
        }
        s
    }
}

/// Reads `s[from..to]` as a natural number, so far as the range is the
/// canonical digit string of one: whenever it is, the call returns exactly
/// that number.
pub fn parse_dec_u64(s: &str, from: usize, to: usize) -> (r: Option<u64>)
    requires
        from <= to <= s@.len(),
    ensures
        forall|n: u64|
            s@.subrange(from as int, to as int) == spec_dec_nat(n as nat) ==> r == Some(n),
{
    let ghost region = s@.subrange(from as int, to as int);
    if from == to {
        proof {
            assert forall|n: u64| region == spec_dec_nat(n as nat) implies false by {
                lemma_dec_nat_digits(n as nat);
            }
        }
        return None;
    }
    let mut acc: u64 = 0;
    let mut i: usize = from;
    while i < to
        invariant
            from <= i <= to <= s@.len(),
            region == s@.subrange(from as int, to as int),
            spec_all_digits(s@.subrange(from as int, i as int)),
            acc as int == spec_val(s@.subrange(from as int, i as int)),
        decreases to - i,
    {
        let ghost prefix = s@.subrange(from as int, i as int);
        let c = s.get_char(i);
        let code = c as u32;
        if code < 48 || code > 57 {
            proof {
                assert forall|n: u64| region == spec_dec_nat(n as nat) implies false by {
                    lemma_dec_nat_digits(n as nat);
                    assert(region[i - from] == c);
                    assert(spec_is_digit(c));
                }
            }
            return None;
        }
        let d = (code - 48) as u64;
        if acc > (u64::MAX - d) / 10 {
            proof {
                assert forall|n: u64| region == spec_dec_nat(n as nat) implies false by {
                    lemma_dec_nat_digits(n as nat);
                    lemma_val_dec_nat(n as nat);
                    lemma_val_take_le(region, i - from + 1);
                    assert(region.take(i - from + 1).drop_last() =~= prefix);
                    assert(region.take(i - from + 1).last() == c);
                    assert(spec_val(region.take(i - from + 1)) == acc * 10 + d);
                    assert(acc * 10 + d <= n);
                }
            }
            return None;
        }
        acc = acc * 10 + d;
        proof {
            assert(s@.subrange(from as int, i + 1 as int) =~= prefix.push(c));
            lemma_val_snoc(prefix, c);
        }
        i += 1;
    }
    proof {
        assert forall|n: u64| region == spec_dec_nat(n as nat) implies Some(acc) == Some(n) by {
            lemma_val_dec_nat(n as nat);
        }
    }
    Some(acc)
}

/// Reads `s[from..to]` as an integer, so far as the range is the canonical
/// decimal string of one: whenever it is, the call returns exactly that
/// integer.
pub fn parse_dec_i64(s: &str, from: usize, to: usize) -> (r: Option<i64>)
    requires
        from <= to <= s@.len(),
    ensures
        forall|v: i64|
            s@.subrange(from as int, to as int) == spec_dec_int(v as int) ==> r == Some(v),
{
    let ghost region = s@.subrange(from as int, to as int);
    if from == to {
        proof {
            assert forall|v: i64| region == spec_dec_int(v as int) implies false by {
                lemma_dec_nat_digits(if v >= 0 {
                    v as nat
                } else {
                    (-(v as int)) as nat
                });
            }
        }
        return None;
    }
    let c0 = s.get_char(from);
    if c0 == '-' {
        let r = parse_dec_u64(s, from + 1, to);
        proof {
            assert forall|v: i64|
                region == spec_dec_int(v as int) && v < 0 implies s@.subrange(
                from + 1 as int,
                to as int,
            ) == spec_dec_nat((-(v as int)) as nat) by {
                assert(s@.subrange(from + 1 as int, to as int) =~= region.subrange(
                    1,
                    region.len() as int,
                ));
                assert(region.subrange(1, region.len() as int) =~= spec_dec_nat(
                    (-(v as int)) as nat,
                ));
            }
            assert forall|v: i64| region == spec_dec_int(v as int) implies v < 0 by {
                if v >= 0 {
                    lemma_dec_nat_digits(v as nat);
                    assert(region[0] == c0);
                }
            }
        }
        match r {
            None => {
                proof {
                    assert forall|v: i64| region == spec_dec_int(v as int) implies false by {
                        let mag: u64 = (-(v as int)) as u64;
                        assert(s@.subrange(from + 1 as int, to as int) == spec_dec_nat(
                            mag as nat,
                        ));
                    }
                }
                None
            },
            Some(mag) => {
                if mag > 0x8000_0000_0000_0000u64 {
                    proof {
                        assert forall|v: i64| region == spec_dec_int(v as int) implies false by {
                            let m: u64 = (-(v as int)) as u64;
                            assert(s@.subrange(from + 1 as int, to as int) == spec_dec_nat(
                                m as nat,
                            ));
                            assert(mag == m);
                        }
                    }
                    None
                } else {
                    let neg: i128 = -(mag as i128);
                    let out = neg as i64;
                    proof {
                        assert forall|v: i64|
                            region == spec_dec_int(v as int) implies Some(out) == Some(v) by {
                            let m: u64 = (-(v as int)) as u64;
                            assert(s@.subrange(from + 1 as int, to as int) == spec_dec_nat(
                                m as nat,
                            ));
                            assert(mag == m);
                        }
                    }
                    Some(out)
                }
            },
        }
    } else {
        let r = parse_dec_u64(s, from, to);
        proof {
            assert forall|v: i64| region == spec_dec_int(v as int) implies v >= 0 && region
                == spec_dec_nat(v as nat) by {
                if v < 0 {
                    assert(region[0] == c0);
                }
            }
        }
        match r {
            None => {
                proof {
                    assert forall|v: i64| region == spec_dec_int(v as int) implies false by {
                        let m: u64 = v as u64;
                        assert(region == spec_dec_nat(m as nat));
                    }
                }
                None
            },
            Some(mag) => {
                if mag > i64::MAX as u64 {
                    proof {
                        assert forall|v: i64| region == spec_dec_int(v as int) implies false by {
                            assert(region == spec_dec_nat((v as u64) as nat));
                            assert(mag == v as u64);
                        }
                    }
                    None
                } else {
                    let out = mag as i64;
                    proof {
                        assert forall|v: i64|
                            region == spec_dec_int(v as int) implies Some(out) == Some(v) by {
                            assert(region == spec_dec_nat((v as u64) as nat));
                            assert(mag == v as u64);
                        }
                    }
                    Some(out)
                }
            },
        }
    }
}

} // verus!
