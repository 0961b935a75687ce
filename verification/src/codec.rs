//! The persisted text form of a [`State`]: a single-line JSON object with
//! exactly the three fields `balance`, `mode` and `start_time`, for example
//! `{"balance":-900000,"mode":"IDLE","start_time":1700000000000}`.
//!
//! [`encode_state`] produces the canonical encoding; [`parse_state`] accepts
//! exactly the canonical encodings and nothing else, so that writing a state
//! and reading it back reproduces it field for field; [`load_from_text`]
//! falls back to the default state on any other content, malformed or not.

use vstd::prelude::*;
use vstd::string::{StrSliceExecFns, StringExecFns};
use crate::dec::{
    i64_to_dec, lemma_dec_nat_digits, parse_dec_i64, spec_dec_int, spec_dec_nat, spec_is_digit,
};
use crate::state::{Mode, State};
use crate::text::{find_char, str_eq};

verus! {

/// The mode words the persisted record uses.
pub open spec fn spec_mode_chars(m: Mode) -> Seq<char> {
    match m {
        Mode::Idle => "IDLE"@,
        Mode::Work => "WORK"@,
        Mode::Research => "RESEARCH"@,
    }
}

/// The canonical encoding of a state: the three fields in fixed order, the
/// numbers as canonical decimal integers, the mode as its word.
pub open spec fn spec_encode(st: State) -> Seq<char> {
    "{\"balance\":"@ + spec_dec_int(st.balance as int) + ",\"mode\":\""@ + spec_mode_chars(st.mode)
        + "\",\"start_time\":"@ + spec_dec_int(st.start_time as int) + "}"@
}

/// The word of a mode.
pub fn mode_str(m: Mode) -> (r: &'static str)
    ensures
        r@ == spec_mode_chars(m),
{
    match m {
        Mode::Idle => "IDLE",
        Mode::Work => "WORK",
        Mode::Research => "RESEARCH",
    }
}

/// Encodes a state as its canonical persisted text.
pub fn encode_state(st: &State) -> (r: String)
    ensures
        r@ == spec_encode(*st),
{
    let mut out = String::from_str("{\"balance\":");
    let bal = i64_to_dec(st.balance);
    out.append(bal.as_str());
    out.append(",\"mode\":\"");
    out.append(mode_str(st.mode));
    out.append("\",\"start_time\":");
    let start = i64_to_dec(st.start_time);
    out.append(start.as_str());
    out.append("}");
    proof {
        assert(out@ =~= spec_encode(*st));
    }
    out
}

/// No character of a canonical decimal integer is a comma or a double quote.
proof fn lemma_dec_int_chars(v: int)
    ensures
        forall|i: int|
            0 <= i < spec_dec_int(v).len() ==> spec_dec_int(v)[i] != ',' && spec_dec_int(v)[i]
                != '"',
        spec_dec_int(v).len() >= 1,
{
    let m: nat = if v < 0 {
        (-v) as nat
    } else {
        v as nat
    };
    lemma_dec_nat_digits(m);
    assert forall|i: int|
        0 <= i < spec_dec_int(v).len() implies spec_dec_int(v)[i] != ','
        && spec_dec_int(v)[i] != '"' by {
        let c = spec_dec_int(v)[i];
        if v < 0 {
            if i == 0 {
                assert(c == '-');
            } else {
                assert(c == spec_dec_nat(m)[i - 1]);
                assert(spec_is_digit(c));
            }
        } else {
            assert(spec_is_digit(c));
        }
        assert(',' as int == 44);
        assert('"' as int == 34);
        assert('-' as int == 45);
    }
}

/// How a canonical encoding is laid out: where each literal piece, each
/// number and the mode word stand, that no comma occurs before the one after
/// the balance, and that no double quote occurs inside the mode word.
proof fn lemma_encode_parts(st: State)
    ensures
        ({
            let t = spec_encode(st);
            let d1 = spec_dec_int(st.balance as int);
            let md = spec_mode_chars(st.mode);
            let d2 = spec_dec_int(st.start_time as int);
            let a2 = 11 + d1.len();
            let a3 = a2 + 9;
            let a4 = a3 + md.len();
            let a5 = a4 + 15;
            let a6 = a5 + d2.len();
            &&& d1.len() >= 1
            &&& d2.len() >= 1
            &&& md.len() >= 4
            &&& t.len() == a6 + 1
            &&& t.subrange(11, a2 as int) == d1
            &&& t.subrange(a3 as int, a4 as int) == md
            &&& t.subrange(a5 as int, a6 as int) == d2
            &&& t[a6 as int] == '}'
            &&& (forall|j: int| 11 <= j < a2 ==> t[j] != ',')
            &&& t[a2 as int] == ','
            &&& (forall|j: int| a3 <= j < a4 ==> t[j] != '"')
            &&& t[a4 as int] == '"'
        }),
{
    reveal_strlit("{\"balance\":");
    reveal_strlit(",\"mode\":\"");
    reveal_strlit("\",\"start_time\":");
    reveal_strlit("}");
    reveal_strlit("IDLE");
    reveal_strlit("WORK");
    reveal_strlit("RESEARCH");
    lemma_dec_int_chars(st.balance as int);
    lemma_dec_int_chars(st.start_time as int);
    let t = spec_encode(st);
    let d1 = spec_dec_int(st.balance as int);
    let md = spec_mode_chars(st.mode);
    let d2 = spec_dec_int(st.start_time as int);
    let a2 = 11 + d1.len();
    let a3 = a2 + 9;
    let a4 = a3 + md.len();
    let a5 = a4 + 15;
    let a6 = a5 + d2.len();
    assert(("{\"balance\":"@).len() == 11);
    assert((",\"mode\":\""@).len() == 9);
    assert(("\",\"start_time\":"@).len() == 15);
    assert(("}"@).len() == 1);
    match st.mode {
        Mode::Idle => {
            assert(md[0] == 'I' && md[1] == 'D' && md[2] == 'L' && md[3] == 'E');
            assert(md.len() == 4);
        },
        Mode::Work => {
            assert(md[0] == 'W' && md[1] == 'O' && md[2] == 'R' && md[3] == 'K');
            assert(md.len() == 4);
        },
        Mode::Research => {
            assert(md[0] == 'R' && md[1] == 'E' && md[2] == 'S' && md[3] == 'E' && md[4] == 'A'
                && md[5] == 'R' && md[6] == 'C' && md[7] == 'H');
            assert(md.len() == 8);
        },
    }
    assert(forall|j: int| 0 <= j < md.len() ==> md[j] != '"');
    assert(t.subrange(11, a2 as int) =~= d1);
    assert(t.subrange(a3 as int, a4 as int) =~= md);
    assert(t.subrange(a5 as int, a6 as int) =~= d2);
    assert(t[a2 as int] == (",\"mode\":\""@)[0]);
    assert(t[a4 as int] == ("\",\"start_time\":"@)[0]);
    assert(t[a6 as int] == ("}"@)[0]);
    assert forall|j: int| 11 <= j < a2 implies t[j] != ',' by {
        assert(t[j] == d1[j - 11]);
    }
    assert forall|j: int| a3 <= j < a4 implies t[j] != '"' by {
        assert(t[j] == md[j - a3]);
    }
}

/// Parses persisted text. The call returns a state exactly when the text is
/// that state's canonical encoding: whatever comes back `Some` re-encodes to
/// the input, and every canonical encoding comes back as its own state — so
/// parsing rejects everything `encode_state` cannot have written.
pub fn parse_state(s: &str) -> (r: Option<State>)
    ensures
        r matches Some(st) ==> s@ == spec_encode(st),
        forall|st: State| s@ == spec_encode(st) ==> r == Some(st),
{
    let n = s.unicode_len();
    if n < 12 {
        proof {
            assert forall|st: State| s@ == spec_encode(st) implies false by {
                lemma_encode_parts(st);
            }
        }
        return None;
    }
    let c = match find_char(s, 11, ',') {
        Some(c) => c,
        None => {
            proof {
                assert forall|st: State| s@ == spec_encode(st) implies false by {
                    lemma_encode_parts(st);
                }
            }
            return None;
        },
    };
    let bal = match parse_dec_i64(s, 11, c) {
        Some(b) => b,
        None => {
            proof {
                assert forall|st: State| s@ == spec_encode(st) implies false by {
                    lemma_encode_parts(st);
                    let a2 = 11 + spec_dec_int(st.balance as int).len();
                    assert(c == a2);
                    assert(s@.subrange(11, c as int) == spec_dec_int(st.balance as int));
                }
            }
            return None;
        },
    };
    if n - c < 10 {
        proof {
            assert forall|st: State| s@ == spec_encode(st) implies false by {
                lemma_encode_parts(st);
                let a2 = 11 + spec_dec_int(st.balance as int).len();
                assert(c == a2);
            }
        }
        return None;
    }
    let q = match find_char(s, c + 9, '"') {
        Some(q) => q,
        None => {
            proof {
                assert forall|st: State| s@ == spec_encode(st) implies false by {
                    lemma_encode_parts(st);
                    let a2 = 11 + spec_dec_int(st.balance as int).len();
                    assert(c == a2);
                    let a4 = a2 + 9 + spec_mode_chars(st.mode).len();
                    assert(s@[a4 as int] == '"');
                }
            }
            return None;
        },
    };
    let mode_s = s.substring_char(c + 9, q);
    let is_idle = str_eq(mode_s, "IDLE");
    let is_work = str_eq(mode_s, "WORK");
    let is_research = str_eq(mode_s, "RESEARCH");
    proof {
        assert forall|st: State| s@ == spec_encode(st) implies mode_s@ == spec_mode_chars(
            st.mode,
        ) by {
            lemma_encode_parts(st);
            let a2 = 11 + spec_dec_int(st.balance as int).len();
            assert(c == a2);
            let a3 = a2 + 9;
            let a4 = a3 + spec_mode_chars(st.mode).len();
            assert(q == a4);
        }
    }
    let mode = if is_idle {
        Mode::Idle
    } else if is_work {
        Mode::Work
    } else if is_research {
        Mode::Research
    } else {
        proof {
            assert forall|st: State| s@ == spec_encode(st) implies false by {
                match st.mode {
                    Mode::Idle => assert(mode_s@ == "IDLE"@),
                    Mode::Work => assert(mode_s@ == "WORK"@),
                    Mode::Research => assert(mode_s@ == "RESEARCH"@),
                }
            }
        }
        return None;
    };
    if n - q < 16 {
        proof {
            assert forall|st: State| s@ == spec_encode(st) implies false by {
                lemma_encode_parts(st);
                let a2 = 11 + spec_dec_int(st.balance as int).len();
                assert(c == a2);
                let a4 = a2 + 9 + spec_mode_chars(st.mode).len();
                assert(q == a4);
            }
        }
        return None;
    }
    let start = match parse_dec_i64(s, q + 15, n - 1) {
        Some(v) => v,
        None => {
            proof {
                assert forall|st: State| s@ == spec_encode(st) implies false by {
                    lemma_encode_parts(st);
                    let a2 = 11 + spec_dec_int(st.balance as int).len();
                    assert(c == a2);
                    let a4 = a2 + 9 + spec_mode_chars(st.mode).len();
                    assert(q == a4);
                    assert(s@.subrange(q + 15 as int, n - 1 as int) == spec_dec_int(
                        st.start_time as int,
                    ));
                }
            }
            return None;
        },
    };
    let cand = State { balance: bal, mode, start_time: start };
    let enc = encode_state(&cand);
    let same = str_eq(enc.as_str(), s);
    proof {
        assert forall|st: State| s@ == spec_encode(st) implies cand == st by {
            lemma_encode_parts(st);
            let a2 = 11 + spec_dec_int(st.balance as int).len();
            assert(c == a2);
            assert(s@.subrange(11, c as int) == spec_dec_int(st.balance as int));
            assert(bal == st.balance);
            let a4 = a2 + 9 + spec_mode_chars(st.mode).len();
            assert(q == a4);
            assert(mode_s@ == spec_mode_chars(st.mode));
            reveal_strlit("IDLE");
            reveal_strlit("WORK");
            reveal_strlit("RESEARCH");
            assert(("IDLE"@)[0] != ("WORK"@)[0]);
            assert(("IDLE"@)[0] != ("RESEARCH"@)[0]);
            assert(("WORK"@)[0] != ("RESEARCH"@)[0]);
            match st.mode {
                Mode::Idle => assert(mode_s@ == "IDLE"@),
                Mode::Work => assert(mode_s@ == "WORK"@),
                Mode::Research => assert(mode_s@ == "RESEARCH"@),
            }
            assert(mode == st.mode);
            assert(s@.subrange(q + 15 as int, n - 1 as int) == spec_dec_int(
                st.start_time as int,
            ));
            assert(start == st.start_time);
        }
    }
    if same {
        Some(cand)
    } else {
        proof {
            assert forall|st: State| s@ == spec_encode(st) implies false by {
                assert(cand == st);
                assert(enc@ == s@);
            }
        }
        None
    }
}

/// The state persisted in `text`, or the default state when `text` is not a
/// canonical encoding — the silent fallback that keeps a corrupt or missing
/// file from ever blocking the display.
pub fn load_from_text(text: &str) -> (r: State)
    ensures
        forall|st: State| text@ == spec_encode(st) ==> r == st,
        (forall|st: State| text@ != spec_encode(st)) ==> r == (State {
            balance: 0,
            mode: Mode::Idle,
            start_time: 0,
        }),
{
    match parse_state(text) {
        Some(st) => st,
        None => State::default(),
    }
}

} // verus!
