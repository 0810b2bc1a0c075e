//! Decimal digit strings: the spec-level value of a digit run and the
//! verified routine that reads one, shared by the date and amount parsers.

use vstd::prelude::*;

verus! {

/// An ASCII decimal digit.
pub open spec fn is_digit(b: u8) -> bool {
    48 <= b <= 57
}

/// Every byte is an ASCII decimal digit.
pub open spec fn all_digits(s: Seq<u8>) -> bool {
    forall|i: int| 0 <= i < s.len() ==> is_digit(#[trigger] s[i])
}

/// The number a digit run denotes, most significant digit first.
pub open spec fn digits_val(s: Seq<u8>) -> int
    decreases s.len(),
{
    if s.len() == 0 {
        0
    } else {
        digits_val(s.drop_last()) * 10 + (s.last() - 48)
    }
}

/// Appending a digit multiplies the value by ten and adds the digit.
pub proof fn lemma_digits_val_push(s: Seq<u8>, b: u8)
    ensures
        digits_val(s.push(b)) == digits_val(s) * 10 + (b - 48),
{
    assert(s.push(b).drop_last() =~= s);
    assert(s.push(b).last() == b);
}

/// A digit run's value is non-negative.
pub proof fn lemma_digits_val_nonneg(s: Seq<u8>)
    requires
        all_digits(s),
    ensures
        digits_val(s) >= 0,
    decreases s.len(),
{
    if s.len() > 0 {
        let t = s.drop_last();
        assert forall|i: int| 0 <= i < t.len() implies is_digit(#[trigger] t[i]) by {
            assert(t[i] == s[i]);
        }
        lemma_digits_val_nonneg(t);
        assert(is_digit(s[s.len() - 1]));
    }
}

/// Ten to the `n`.
pub open spec fn pow10(n: nat) -> int
    decreases n,
{
    if n == 0 {
        1
    } else {
        pow10((n - 1) as nat) * 10
    }
}

/// `n` digits denote a value below ten to the `n`.
pub proof fn lemma_digits_val_upper(s: Seq<u8>)
    requires
        all_digits(s),
    ensures
        digits_val(s) < pow10(s.len() as nat),
    decreases s.len(),
{
    lemma_digits_val_nonneg(s);
    if s.len() > 0 {
        let t = s.drop_last();
        assert forall|i: int| 0 <= i < t.len() implies is_digit(#[trigger] t[i]) by {
            assert(t[i] == s[i]);
        }
        lemma_digits_val_upper(t);
        assert(is_digit(s[s.len() - 1]));
    }
}

/// Lengthening a digit run never shrinks its value.
pub proof fn lemma_digits_val_take_le(s: Seq<u8>, i: int)
    requires
        all_digits(s),
        0 <= i <= s.len(),
    ensures
        digits_val(s.take(i)) <= digits_val(s),
    decreases s.len() - i,
{
    if i == s.len() {
        assert(s.take(i) =~= s);
    } else {
        let shorter = s.take(i);
        let longer = s.take(i + 1);
        assert(longer =~= shorter.push(s[i]));
        lemma_digits_val_push(shorter, s[i]);
        assert forall|k: int| 0 <= k < shorter.len() implies is_digit(#[trigger] shorter[k]) by {
            assert(shorter[k] == s[k]);
        }
        lemma_digits_val_nonneg(shorter);
        assert(is_digit(s[i]));
        lemma_digits_val_take_le(s, i + 1);
    }
}

/// Appends `n` as exactly `width` digits, zero-padded, most significant
/// first.
pub fn push_digits_padded(out: &mut Vec<u8>, n: u64, width: usize)
    requires
        1 <= width,
        n < pow10(width as nat),
    ensures
        final(out)@.len() == old(out)@.len() + width,
        final(out)@.subrange(0, old(out)@.len() as int) == old(out)@,
        all_digits(final(out)@.subrange(old(out)@.len() as int, final(out)@.len() as int)),
        digits_val(final(out)@.subrange(old(out)@.len() as int, final(out)@.len() as int)) == n,
    decreases width,
{
    if width == 1 {
        proof {
            assert(pow10(0nat) == 1);
            assert(pow10(1nat) == 10);
        }
        let b: u8 = 48 + (n as u8);
        out.push(b);
        proof {
            let s = final(out)@.subrange(old(out)@.len() as int, final(out)@.len() as int);
            assert(s =~= Seq::<u8>::empty().push(b));
            lemma_digits_val_push(Seq::<u8>::empty(), b);
        }
    } else {
        proof {
            assert(pow10(width as nat) == pow10((width - 1) as nat) * 10);
            assert(n / 10 < pow10((width - 1) as nat)) by {
                assert(n <= pow10((width - 1) as nat) * 10 - 1);
            }
        }
        let ghost base = out@;
        push_digits_padded(out, n / 10, width - 1);
        let ghost mid = out@;
        let b: u8 = 48 + ((n % 10) as u8);
        out.push(b);
        proof {
            let head = mid.subrange(base.len() as int, mid.len() as int);
            let s = final(out)@.subrange(base.len() as int, final(out)@.len() as int);
            assert(s =~= head.push(b));
            lemma_digits_val_push(head, b);
            assert(digits_val(s) == (n / 10) * 10 + (n % 10));
            assert(final(out)@.subrange(0, base.len() as int) =~= base);
        }
    }
}

/// Appends `n` in its usual decimal form, one digit at least, no width
/// constraint.
pub fn push_number(out: &mut Vec<u8>, n: u64)
    ensures
        old(out)@.len() < final(out)@.len(),
        final(out)@.subrange(0, old(out)@.len() as int) == old(out)@,
        all_digits(final(out)@.subrange(old(out)@.len() as int, final(out)@.len() as int)),
        digits_val(final(out)@.subrange(old(out)@.len() as int, final(out)@.len() as int)) == n,
    decreases n,
{
    if n < 10 {
        let b: u8 = 48 + (n as u8);
        out.push(b);
        proof {
            let s = final(out)@.subrange(old(out)@.len() as int, final(out)@.len() as int);
            assert(s =~= Seq::<u8>::empty().push(b));
            lemma_digits_val_push(Seq::<u8>::empty(), b);
        }
    } else {
        let ghost base = out@;
        push_number(out, n / 10);
        let ghost mid = out@;
        let b: u8 = 48 + ((n % 10) as u8);
        out.push(b);
        proof {
            let head = mid.subrange(base.len() as int, mid.len() as int);
            let s = final(out)@.subrange(base.len() as int, final(out)@.len() as int);
            assert(s =~= head.push(b));
            lemma_digits_val_push(head, b);
            assert(digits_val(s) == (n / 10) * 10 + (n % 10));
            assert(final(out)@.subrange(0, base.len() as int) =~= base);
        }
    }
}

/// Reads the digit run `bytes[from..to]` as a number, refusing a non-digit
/// or a value over `cap`.
#[verifier::loop_isolation(false)]
pub fn parse_digits_capped(bytes: &[u8], from: usize, to: usize, cap: i64) -> (r: Option<i64>)
    requires
        from <= to <= bytes@.len(),
        9 <= cap,
    ensures
        match r {
            Some(v) => all_digits(bytes@.subrange(from as int, to as int)) && v == digits_val(
                bytes@.subrange(from as int, to as int),
            ) && 0 <= v <= cap,
            None => !all_digits(bytes@.subrange(from as int, to as int)) || digits_val(
                bytes@.subrange(from as int, to as int),
            ) > cap,
        },
{
    let ghost whole = bytes@.subrange(from as int, to as int);
    let mut acc: i64 = 0;
    let mut i: usize = from;
    while i < to
        invariant
            from <= i <= to,
            all_digits(whole.take(i - from)),
            acc == digits_val(whole.take(i - from)),
            0 <= acc <= cap,
        decreases to - i,
    {
        let c = bytes[i];
        proof {
            assert(whole.take(i + 1 - from) =~= whole.take(i - from).push(c));
            lemma_digits_val_push(whole.take(i - from), c);
        }
        if !(48 <= c && c <= 57) {
            proof {
                assert(whole[i - from] == c);
                assert(!all_digits(whole));
            }
            return None;
        }
        if acc > (cap - ((c - 48) as i64)) / 10 {
            proof {
                // The run is already over the cap, and further digits can
                // only grow it.
                assert(digits_val(whole.take(i + 1 - from)) > cap);
                if all_digits(whole) {
                    lemma_digits_val_take_le(whole, i + 1 - from);
                }
            }
            return None;
        }
        acc = acc * 10 + ((c - 48) as i64);
        i = i + 1;
    }
    proof {
        assert(whole.take(to - from) =~= whole);
    }
    Some(acc)
}

} // verus!
