//! Rendering a balance as a signed `HH:MM:SS` duration string.

use vstd::prelude::*;
use vstd::string::StringExecFns;
use crate::dec::{spec_dec_nat, u64_to_dec};

verus! {

/// The sign prefix of a balance: `-` for debt, `+` for credit, a space for
/// exactly zero.
pub open spec fn spec_sign_char(ms: int) -> char {
    if ms < 0 {
        '-'
    } else if ms > 0 {
        '+'
    } else {
        ' '
    }
}

/// A number's digits, zero-padded on the left to at least two digits.
pub open spec fn spec_pad2(n: nat) -> Seq<char> {
    if n < 10 {
        seq!['0'] + spec_dec_nat(n)
    } else {
        spec_dec_nat(n)
    }
}

/// The rendering of a balance of `ms` milliseconds of credit: a sign prefix,
/// then whole hours, minutes and seconds of the magnitude, each truncated —
/// never rounded — at its stage, separated by colons. Minutes and seconds are
/// zero-padded to two digits; the hours field is zero-padded to two digits
/// but keeps all its digits beyond that.
pub open spec fn spec_format_duration(ms: int) -> Seq<char> {
    let a = if ms < 0 {
        -ms
    } else {
        ms
    };
    seq![spec_sign_char(ms)] + spec_pad2((a / 3_600_000) as nat) + seq![':'] + spec_pad2(
        ((a % 3_600_000) / 60_000) as nat,
    ) + seq![':'] + spec_pad2(((a % 60_000) / 1_000) as nat)
}

/// A number's digits, zero-padded on the left to at least two digits.
fn pad2(n: u64) -> (r: String)
    ensures
        r@ == spec_pad2(n as nat),
{
    if n < 10 {
        let mut s = String::from_str("0");
        let d = u64_to_dec(n);
        s.append(d.as_str());
        proof {
            reveal_strlit("0");
            assert(s@ =~= spec_pad2(n as nat));
        }
        s
    } else {
        u64_to_dec(n)
    }
}

/// Renders a balance, given in milliseconds of credit, as a signed
/// `HH:MM:SS` string: `+01:30:00` for an hour and a half of credit,
/// `-00:15:00` for a quarter hour of debt, ` 00:00:00` for exactly zero.
pub fn format_duration(ms: i64) -> (r: String)
    ensures
        r@ == spec_format_duration(ms as int),
{
    let sign = if ms < 0 {
        "-"
    } else if ms > 0 {
        "+"
    } else {
        " "
    };
    proof {
        reveal_strlit("-");
        reveal_strlit("+");
        reveal_strlit(" ");
        reveal_strlit(":");
        assert(sign@ =~= seq![spec_sign_char(ms as int)]);
    }
    let a: u64 = if ms < 0 {
        (-(ms as i128)) as u64
    } else {
        ms as u64
    };
    let h = a / 3_600_000;
    let m = (a % 3_600_000) / 60_000;
    let s = (a % 60_000) / 1_000;
    let mut out = String::from_str(sign);
    let hs = pad2(h);
    out.append(hs.as_str());
    out.append(":");
    let ms_part = pad2(m);
    out.append(ms_part.as_str());
    out.append(":");
    let ss = pad2(s);
    out.append(ss.as_str());
    proof {
        assert(out@ =~= spec_format_duration(ms as int));
    }
    out
}

} // verus!
