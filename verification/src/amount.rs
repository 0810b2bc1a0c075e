//! Exact-decimal currency amounts.
//!
//! An amount is a signed count of minor currency units (hundredths, e.g.
//! cents), so every arithmetic step is exact integer arithmetic: no binary
//! floating point anywhere near money. The magnitude is capped well below
//! `i64::MAX` so that totals over any physically possible number of expenses
//! fit an `i128` accumulator.

use vstd::prelude::*;
use vstd::string::*;

use crate::digits::{
    all_digits, digits_val, is_digit, lemma_digits_val_nonneg, parse_digits_capped, pow10,
    push_digits_padded, push_number,
};

verus! {

/// Largest magnitude an amount may take, in minor units (ten trillion
/// currency units). Generous for a personal budget, and small enough that
/// summing one amount per vector slot can never overflow an `i128`.
pub const AMOUNT_LIMIT: i64 = 1_000_000_000_000_000;

/// An exact decimal currency value: `minor` hundredths of the currency unit.
#[derive(Clone, Copy, PartialEq, Eq, Structural, Debug)]
pub struct Amount {
    pub minor: i64,
}

impl Amount {
    /// A well-formed amount stays within the documented magnitude cap.
    pub open spec fn wf(self) -> bool {
        -AMOUNT_LIMIT <= self.minor <= AMOUNT_LIMIT
    }

    /// Builds an amount from a count of minor units, refusing magnitudes
    /// beyond the cap.
    pub fn from_minor(minor: i64) -> (r: Option<Amount>)
        ensures
            r matches Some(a) ==> a.minor == minor && a.wf(),
            r is Some <==> -AMOUNT_LIMIT <= minor <= AMOUNT_LIMIT,
    {
        if -AMOUNT_LIMIT <= minor && minor <= AMOUNT_LIMIT {
            Some(Amount { minor })
        } else {
            None
        }
    }

    /// The zero amount, what an empty budget totals to.
    pub fn zero() -> (r: Amount)
        ensures
            r.minor == 0,
            r.wf(),
    {
        Amount { minor: 0 }
    }
}

/// The position of the first `.` in the byte run, if any.
pub open spec fn dot_pos(s: Seq<u8>) -> Option<int>
    decreases s.len(),
{
    if s.len() == 0 {
        None
    } else if s[0] == 46 {
        Some(0)
    } else {
        match dot_pos(s.drop_first()) {
            Some(p) => Some(p + 1),
            None => None,
        }
    }
}

/// `dot_pos` names the first dot: the byte there is a dot and nothing
/// before it is; `None` means no dot at all.
proof fn lemma_dot_pos(s: Seq<u8>)
    ensures
        match dot_pos(s) {
            Some(p) => 0 <= p < s.len() && s[p] == 46 && (forall|m: int|
                0 <= m < p ==> s[m] != 46),
            None => forall|m: int| 0 <= m < s.len() ==> s[m] != 46,
        },
    decreases s.len(),
{
    if s.len() == 0 {
    } else if s[0] == 46 {
    } else {
        let t = s.drop_first();
        lemma_dot_pos(t);
        match dot_pos(t) {
            Some(p) => {
                assert(s[p + 1] == t[p]);
                assert forall|m: int| 0 <= m < p + 1 implies s[m] != 46 by {
                    if m > 0 {
                        assert(s[m] == t[m - 1]);
                    }
                }
            },
            None => {
                assert forall|m: int| 0 <= m < s.len() implies s[m] != 46 by {
                    if m > 0 {
                        assert(s[m] == t[m - 1]);
                    }
                }
            },
        }
    }
}

/// What a decimal money literal denotes, in minor units: an optional `-`,
/// one or more digits, and optionally a dot with one or two fraction
/// digits; the magnitude must stay within [`AMOUNT_LIMIT`]. Nothing else
/// parses.
pub open spec fn spec_parse_amount(b: Seq<u8>) -> Option<int> {
    let neg = b.len() > 0 && b[0] == 45;
    let t = if neg {
        b.subrange(1, b.len() as int)
    } else {
        b
    };
    match dot_pos(t) {
        None => {
            if t.len() >= 1 && all_digits(t) && digits_val(t) * 100 <= AMOUNT_LIMIT as int {
                Some(
                    if neg {
                        -(digits_val(t) * 100)
                    } else {
                        digits_val(t) * 100
                    },
                )
            } else {
                None
            }
        },
        Some(p) => {
            let ip = t.subrange(0, p);
            let fp = t.subrange(p + 1, t.len() as int);
            if ip.len() >= 1 && 1 <= fp.len() <= 2 && all_digits(ip) && all_digits(fp) {
                let cents = digits_val(ip) * 100 + digits_val(fp) * (
                if fp.len() == 1 {
                    10int
                } else {
                    1int
                });
                if cents <= AMOUNT_LIMIT as int {
                    Some(
                        if neg {
                            -cents
                        } else {
                            cents
                        },
                    )
                } else {
                    None
                }
            } else {
                None
            }
        },
    }
}

/// Reads a decimal money literal — `12`, `12.3`, `-12.34` — into minor
/// units, refusing anything else and any magnitude over the cap. Exact
/// decimal arithmetic starts here: no floating point is involved.
#[verifier::loop_isolation(false)]
pub fn parse_amount(s: &str) -> (r: Option<Amount>)
    ensures
        match r {
            Some(a) => spec_parse_amount(s.spec_bytes()) == Some(a.minor as int) && a.wf(),
            None => spec_parse_amount(s.spec_bytes()) is None,
        },
{
    let b = s.as_bytes();
    let neg = b.len() > 0 && b[0] == 45;
    let start: usize = if neg {
        1
    } else {
        0
    };
    let ghost t = if neg {
        b@.subrange(1, b@.len() as int)
    } else {
        b@
    };
    proof {
        assert(t =~= b@.subrange(start as int, b@.len() as int));
        assert forall|k: int| 0 <= k < t.len() implies t[k] == b@[k + start] by {}
        lemma_dot_pos(t);
    }
    let mut i: usize = start;
    while i < b.len() && b[i] != 46
        invariant
            start <= i <= b@.len(),
            forall|k: int| start <= k < i ==> b@[k] != 46,
        decreases b@.len() - i,
    {
        i = i + 1;
    }
    if i == b.len() {
        // No dot: the whole run is the integer part.
        proof {
            match dot_pos(t) {
                Some(p) => {
                    assert(b@[p + start] == t[p]);
                    assert(false);
                },
                None => {},
            }
        }
        if b.len() - start < 1 {
            return None;
        }
        let v = match parse_digits_capped(b, start, b.len(), AMOUNT_LIMIT) {
            Some(v) => v,
            None => {
                proof {
                    if all_digits(t) {
                        lemma_digits_val_nonneg(t);
                    }
                }
                return None;
            },
        };
        if v > AMOUNT_LIMIT / 100 {
            return None;
        }
        let minor = v * 100;
        let signed = if neg {
            -minor
        } else {
            minor
        };
        Some(Amount { minor: signed })
    } else {
        // First dot at `i`: integer part before it, fraction after it.
        let p = i;
        proof {
            assert(t[p - start] == 46);
            match dot_pos(t) {
                Some(q) => {
                    if q < p - start {
                        assert(b@[q + start] == t[q]);
                    } else if q > p - start {
                    }
                    assert(q == p - start);
                },
                None => {
                    assert(false);
                },
            }
            assert(t.subrange(0, p - start) =~= b@.subrange(start as int, p as int));
            assert(t.subrange(p - start + 1, t.len() as int) =~= b@.subrange(
                p + 1,
                b@.len() as int,
            ));
        }
        if p == start {
            return None;
        }
        let frac_len = b.len() - (p + 1);
        if frac_len < 1 || frac_len > 2 {
            return None;
        }
        let vip = match parse_digits_capped(b, start, p, AMOUNT_LIMIT) {
            Some(v) => v,
            None => {
                proof {
                    let fp = t.subrange(p - start + 1, t.len() as int);
                    if all_digits(fp) {
                        lemma_digits_val_nonneg(fp);
                    }
                }
                return None;
            },
        };
        let vfp = match parse_digits_capped(b, p + 1, b.len(), 99) {
            Some(v) => v,
            None => {
                proof {
                    // One or two digits can never exceed the fraction cap,
                    // so the refusal means a non-digit byte.
                    let fp = t.subrange(p - start + 1, t.len() as int);
                    if all_digits(fp) {
                        assert(crate::digits::pow10(0) == 1);
                        assert(crate::digits::pow10(1) == 10);
                        assert(crate::digits::pow10(2) == 100);
                        crate::digits::lemma_digits_val_upper(fp);
                    }
                }
                return None;
            },
        };
        let cents = vip * 100 + vfp * (if frac_len == 1 {
            10
        } else {
            1
        });
        if cents > AMOUNT_LIMIT {
            return None;
        }
        let signed = if neg {
            -cents
        } else {
            cents
        };
        Some(Amount { minor: signed })
    }
}

/// Writes an amount back as the decimal literal the parser accepts —
/// always with two fraction digits, a leading `-` only when negative:
/// rendering then parsing gives the amount back.
pub fn render_amount(a: &Amount) -> (r: Vec<u8>)
    requires
        a.wf(),
    ensures
        spec_parse_amount(r@) == Some(a.minor as int),
{
    proof {
        assert(pow10(0) == 1);
        assert(pow10(1) == 10);
        assert(pow10(2) == 100);
    }
    let negative = a.minor < 0;
    let abs: u64 = if negative {
        (-(a.minor)) as u64
    } else {
        a.minor as u64
    };
    let slen: usize = if negative {
        1
    } else {
        0
    };
    let mut out: Vec<u8> = Vec::new();
    if negative {
        out.push(45);
    }
    let ghost sa = out@;
    push_number(&mut out, abs / 100);
    let ghost sb = out@;
    let ghost ulen = sb.len() - slen;
    out.push(46);
    let ghost sc = out@;
    push_digits_padded(&mut out, abs % 100, 2);
    proof {
        let b = out@;
        assert(b.len() == slen + ulen + 3);
        assert(b.subrange(0, sc.len() as int) == sc);
        assert forall|i: int| 0 <= i < sc.len() implies b[i] == sc[i] by {
            assert(b[i] == b.subrange(0, sc.len() as int)[i]);
        }
        assert(sb.subrange(0, slen as int) == sa);
        assert forall|i: int| 0 <= i < slen implies sb[i] == sa[i] by {
            assert(sb[i] == sb.subrange(0, slen as int)[i]);
        }
        let units = sb.subrange(slen as int, sb.len() as int);
        let cents = b.subrange(sc.len() as int, b.len() as int);
        assert(all_digits(units) && digits_val(units) == abs / 100);
        assert(all_digits(cents) && digits_val(cents) == abs % 100);
        assert(sc[slen + ulen] == 46);
        assert(b[slen + ulen] == 46);
        // The sign decides exactly as the parser reads it: the first byte
        // of a unit run is a digit, never a minus.
        assert(is_digit(units[0]));
        assert(sb[slen as int] == units[0]);
        assert(sc[slen as int] == sb[slen as int]);
        assert(b[slen as int] == units[0]);
        let t = if b.len() > 0 && b[0] == 45 {
            b.subrange(1, b.len() as int)
        } else {
            b
        };
        if negative {
            assert(b[0] == 45);
        } else {
            assert(b[0] == units[0]);
            assert(b[0] != 45);
        }
        assert(t =~= b.subrange(slen as int, b.len() as int));
        assert forall|k: int| 0 <= k < t.len() implies t[k] == b[k + slen] by {}
        assert(t.len() == ulen + 3);
        assert(t[ulen as int] == 46);
        assert forall|k: int| 0 <= k < ulen implies t[k] == units[k] && is_digit(t[k]) by {
            assert(units[k] == sb[k + slen]);
            assert(b[k + slen] == sc[k + slen] == sb[k + slen]);
        }
        lemma_dot_pos(t);
        match dot_pos(t) {
            None => {
                assert(t[ulen as int] == 46);
                assert(false);
            },
            Some(p) => {
                if p < ulen as int {
                    assert(is_digit(t[p]));
                    assert(false);
                } else if p > ulen as int {
                    assert(t[ulen as int] != 46);
                    assert(false);
                }
            },
        }
        assert(dot_pos(t) == Some(ulen as int));
        let ip = t.subrange(0, ulen as int);
        let fp = t.subrange(ulen as int + 1, t.len() as int);
        assert(ip =~= units);
        assert(fp =~= cents) by {
            assert forall|k: int| 0 <= k < 2 implies fp[k] == cents[k] by {
                assert(fp[k] == t[ulen + 1 + k]);
                assert(t[ulen + 1 + k] == b[slen + ulen + 1 + k]);
                assert(cents[k] == b[sc.len() + k]);
            }
        }
        assert(digits_val(ip) * 100 + digits_val(fp) * 1int == abs);
        assert(spec_parse_amount(b) == Some(a.minor as int));
    }
    out
}

} // verus!
