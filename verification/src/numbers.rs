use vstd::prelude::*;

verus! {

// Decimal text of a number: the wire stores every number as decimal text.
pub open spec fn digit_char(d: nat) -> char {
    (((48 + d) as u8) as char)
}

/// The canonical decimal digits of `n`: no sign, no leading zeros.
pub open spec fn dec_digits(n: nat) -> Seq<char>
    decreases n,
{
    if n < 10 {
        seq![digit_char(n)]
    } else {
        dec_digits(n / 10).push(digit_char(n % 10))
    }
}

pub open spec fn dec_u64(n: u64) -> Seq<char> {
    dec_digits(n as nat)
}

/// The decimal text of a signed number: a leading minus sign for negatives.
pub open spec fn dec_i64(i: i64) -> Seq<char> {
    if i >= 0 {
        dec_digits(i as nat)
    } else {
        seq!['-'] + dec_digits((-(i as int)) as nat)
    }
}

// The grammar of a signed decimal integer: an optional sign, then one or
// more digits, with the value in range.
pub open spec fn is_digit(c: char) -> bool {
    48 <= (c as u32) <= 57
}

pub open spec fn digit_val(c: char) -> nat {
    (((c as u32) - 48) as nat)
}

pub open spec fn all_digits(s: Seq<char>) -> bool {
    forall|i: int| 0 <= i < s.len() ==> is_digit(#[trigger] s[i])
}

pub open spec fn digits_val(s: Seq<char>) -> nat
    decreases s,
{
    if s.len() == 0 {
        0
    } else {
        digits_val(s.drop_last()) * 10 + digit_val(s.last())
    }
}

/// What parsing decimal text as a signed 64-bit integer yields: `Some` exactly
/// on an optional sign followed by one or more digits whose value is in range.
pub open spec fn parse_i64_spec(s: Seq<char>) -> Option<i64> {
    let neg = s.len() > 0 && s[0] == '-';
    let digits = if s.len() > 0 && (s[0] == '-' || s[0] == '+') {
        s.drop_first()
    } else {
        s
    };
    if digits.len() == 0 || !all_digits(digits) {
        None
    } else {
        let sv = if neg {
            -(digits_val(digits) as int)
        } else {
            digits_val(digits) as int
        };
        if i64::MIN <= sv <= i64::MAX {
            Some(sv as i64)
        } else {
            None
        }
    }
}

/// Appending digits never shrinks the value.
proof fn lemma_digits_val_prefix(s: Seq<char>, j: int)
    requires
        0 <= j <= s.len(),
    ensures
        digits_val(s.take(j)) <= digits_val(s),
    decreases s.len() - j,
{
    if j < s.len() {
        lemma_digits_val_prefix(s, j + 1);
        assert(s.take(j + 1).drop_last() =~= s.take(j));
        assert(digits_val(s.take(j + 1)) == digits_val(s.take(j)) * 10 + digit_val(
            s.take(j + 1).last(),
        ));
    } else {
        assert(s.take(j) =~= s);
    }
}

/// Parse decimal text as a signed 64-bit integer: an optional `+` or `-`
/// sign, then one or more digits; fails on any other character or when the
/// value does not fit.
pub fn parse_i64(text: &str) -> (r: Option<i64>)
    ensures
        r == parse_i64_spec(text@),
{
    let n = text.unicode_len();
    let ghost whole = text@;
    let mut start: usize = 0;
    let mut neg = false;
    if n > 0 {
        let c0 = text.get_char(0);
        if c0 == '-' {
            neg = true;
            start = 1;
        } else if c0 == '+' {
            start = 1;
        }
    }
    let ghost digits = if whole.len() > 0 && (whole[0] == '-' || whole[0] == '+') {
        whole.drop_first()
    } else {
        whole
    };
    proof {
        assert(digits =~= whole.subrange(start as int, whole.len() as int));
        assert(digits.take(0) =~= Seq::<char>::empty());
        assert(digits_val(Seq::<char>::empty()) == 0);
        assert(all_digits(Seq::<char>::empty()));
    }
    if n == start {
        // No digits at all.
        return None;
    }
    // Largest magnitude that still fits: one more for the negative side.
    let limit: u64 = if neg {
        9223372036854775808u64
    } else {
        9223372036854775807u64
    };
    let mut acc: u64 = 0;
    let mut i: usize = start;
    while i < n
        invariant
            whole == text@,
            start <= i <= n,
            n == whole.len(),
            start == 0 || start == 1,
            start <= n,
            digits =~= whole.subrange(start as int, whole.len() as int),
            digits == (if whole.len() > 0 && (whole[0] == '-' || whole[0] == '+') {
                whole.drop_first()
            } else {
                whole
            }),
            acc == digits_val(digits.take(i - start)),
            acc <= limit,
            all_digits(digits.take(i - start)),
            neg == (whole.len() > 0 && whole[0] == '-'),
            neg ==> limit == 9223372036854775808u64,
            !neg ==> limit == 9223372036854775807u64,
        decreases n - i,
    {
        let c = text.get_char(i);
        let cv = c as u32;
        if cv < 48 || cv > 57 {
            proof {
                assert(digits[i - start] == whole[i as int]);
                assert(!is_digit(digits[i - start]));
                assert(!all_digits(digits));
            }
            return None;
        }
        let d = (cv - 48) as u64;
        proof {
            assert(digits.take(i + 1 - start).drop_last() =~= digits.take(i - start));
            assert(digits.take(i + 1 - start).last() == digits[i - start]);
            assert(digits[i - start] == whole[i as int]);
            assert(digit_val(whole[i as int]) == d);
        }
        if acc > (limit - d) / 10 {
            // The value can only grow with more digits, so it cannot fit.
            proof {
                assert(acc * 10 + d > limit) by (nonlinear_arith)
                    requires
                        acc > (limit - d) / 10,
                        d <= limit,
                        limit <= u64::MAX,
                ;
                assert(digits_val(digits.take(i + 1 - start)) > limit);
                lemma_digits_val_prefix(digits, i + 1 - start);
                assert(digits_val(digits) > limit);
                if neg {
                    assert(-(digits_val(digits) as int) < i64::MIN);
                } else {
                    assert(digits_val(digits) as int > i64::MAX);
                }
                assert(parse_i64_spec(whole) is None);
            }
            return None;
        }
        proof {
            assert(acc * 10 + d <= limit) by (nonlinear_arith)
                requires
                    acc <= (limit - d) / 10,
                    d <= limit,
                    limit <= u64::MAX,
            ;
            assert(is_digit(digits[i - start]));
            assert forall|j: int| 0 <= j < i + 1 - start implies is_digit(
                #[trigger] digits.take(i + 1 - start)[j],
            ) by {
                assert(digits.take(i + 1 - start)[j] == digits[j]);
                if j < i - start {
                    assert(digits.take(i - start)[j] == digits[j]);
                    assert(is_digit(digits.take(i - start)[j]));
                }
            }
        }
        acc = acc * 10 + d;
        i = i + 1;
    }
    proof {
        assert(digits.take(n - start) =~= digits);
    }
    if neg {
        if acc == 9223372036854775808u64 {
            Some(i64::MIN)
        } else {
            Some(-(acc as i64))
        }
    } else {
        Some(acc as i64)
    }
}

// Printing then parsing gives the number back.
proof fn lemma_digit_char_val(d: nat)
    requires
        d < 10,
    ensures
        is_digit(digit_char(d)),
        digit_val(digit_char(d)) == d,
{
    assert(((48 + d) as u8) as char as u32 == 48 + d);
}

proof fn lemma_dec_digits_ok(n: nat)
    ensures
        dec_digits(n).len() >= 1,
        all_digits(dec_digits(n)),
        digits_val(dec_digits(n)) == n,
    decreases n,
{
    if n < 10 {
        lemma_digit_char_val(n);
        let s = dec_digits(n);
        assert(s =~= seq![digit_char(n)]);
        assert(s.last() == digit_char(n));
        assert(s.drop_last() =~= Seq::<char>::empty());
        assert(digits_val(Seq::<char>::empty()) == 0);
        assert(digits_val(s) == digit_val(digit_char(n)));
    } else {
        lemma_dec_digits_ok(n / 10);
        lemma_digit_char_val(n % 10);
        let s = dec_digits(n);
        assert(s == dec_digits(n / 10).push(digit_char(n % 10)));
        assert(s.drop_last() =~= dec_digits(n / 10));
        assert(s.last() == digit_char(n % 10));
        assert(digits_val(s) == (n / 10) * 10 + n % 10);
        assert((n / 10) * 10 + n % 10 == n) by (nonlinear_arith);
        assert forall|i: int| 0 <= i < s.len() implies is_digit(#[trigger] s[i]) by {
            if i < s.len() - 1 {
                assert(s[i] == dec_digits(n / 10)[i]);
            }
        }
    }
}

/// The decimal text of an unsigned 64-bit number parses back to it.
pub proof fn lemma_parse_dec_u64(v: u64)
    requires
        v <= i64::MAX as u64,
    ensures
        parse_i64_spec(dec_u64(v)) == Some(v as i64),
{
    lemma_dec_digits_ok(v as nat);
    let s = dec_u64(v);
    assert(is_digit(s[0]));
    assert(s[0] != '-' && s[0] != '+');
}

/// The decimal text of a signed 64-bit number parses back to it.
pub proof fn lemma_parse_dec_i64(v: i64)
    ensures
        parse_i64_spec(dec_i64(v)) == Some(v),
{
    if v >= 0 {
        lemma_dec_digits_ok(v as nat);
        let s = dec_i64(v);
        assert(is_digit(s[0]));
        assert(s[0] != '-' && s[0] != '+');
    } else {
        let m = (-(v as int)) as nat;
        lemma_dec_digits_ok(m);
        let s = dec_i64(v);
        assert(s == seq!['-'] + dec_digits(m));
        assert(s[0] == '-');
        assert(s.drop_first() =~= dec_digits(m));
    }
}

} // verus!
