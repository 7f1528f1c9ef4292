//! Decimal digits: the value of a digit string, the tolerant whole-text key
//! parse that falls back to zero, and rendering a key back to decimal text.

use vstd::prelude::*;

verus! {

/// Whether `c` is an ASCII decimal digit.
pub open spec fn is_ascii_digit(c: char) -> bool {
    0x30 <= c as u32 && c as u32 <= 0x39
}

/// The numeric value of one ASCII decimal digit.
pub open spec fn digit_val(c: char) -> nat {
    (c as u32 - 0x30) as nat
}

/// Whether every character of `s` is an ASCII decimal digit.
pub open spec fn all_digits(s: Seq<char>) -> bool {
    forall|i: int| 0 <= i < s.len() ==> is_ascii_digit(#[trigger] s[i])
}

/// The value of a digit string read in base ten.
pub open spec fn digits_value(s: Seq<char>) -> nat
    decreases s.len(),
{
    if s.len() == 0 {
        0
    } else {
        digits_value(s.drop_last()) * 10 + digit_val(s.last())
    }
}

/// The value of a digit string never shrinks when digits are appended.
pub proof fn lemma_digits_value_prefix(s: Seq<char>, i: int)
    requires
        0 <= i <= s.len(),
    ensures
        digits_value(s) >= digits_value(s.take(i)),
    decreases s.len() - i,
{
    if i == s.len() {
        assert(s.take(i) =~= s);
    } else {
        lemma_digits_value_prefix(s, i + 1);
        let t = s.take(i + 1);
        assert(t.drop_last() =~= s.take(i));
        assert(t.last() == s[i]);
        assert(digits_value(s.take(i + 1)) == digits_value(s.take(i)) * 10 + digit_val(s[i]));
    }
}

/// The key a whole text field stands for: Rust's integer grammar, an optional
/// leading plus sign then one or more ASCII digits, with zero substituted for
/// anything unparseable or out of range.
pub open spec fn parse_usize_spec(s: Seq<char>) -> usize {
    let digits = if s.len() > 0 && s[0] == '+' {
        s.skip(1)
    } else {
        s
    };
    if digits.len() > 0 && all_digits(digits) && digits_value(digits) <= usize::MAX {
        digits_value(digits) as usize
    } else {
        0
    }
}

/// Parses the whole text as a non-negative key; any text that is not a plain
/// decimal integer in range, signs and stray characters included, yields zero.
pub fn parse_usize_or_zero(s: &str) -> (r: usize)
    ensures
        r == parse_usize_spec(s@),
{
    let n: usize = s.unicode_len();
    let start: usize = if n > 0 && s.get_char(0) == '+' {
        1
    } else {
        0
    };
    let ghost digits = if s@.len() > 0 && s@[0] == '+' {
        s@.skip(1)
    } else {
        s@
    };
    proof {
        assert(digits.len() == n - start);
        assert(forall|k: int| 0 <= k < digits.len() ==> digits[k] == s@[k + start]);
    }
    if start == n {
        return 0;
    }
    let mut acc: usize = 0;
    let mut i: usize = start;
    while i < n
        invariant
            n == s@.len(),
            start <= i <= n,
            start < n,
            start == 0 || start == 1,
            start == 1 ==> s@.len() > 0 && s@[0] == '+',
            start == 0 ==> !(s@.len() > 0 && s@[0] == '+'),
            digits == (if s@.len() > 0 && s@[0] == '+' {
                s@.skip(1)
            } else {
                s@
            }),
            digits.len() == n - start,
            forall|k: int| 0 <= k < digits.len() ==> digits[k] == s@[k + start],
            all_digits(digits.take(i - start)),
            acc == digits_value(digits.take(i - start)),
        decreases n - i,
    {
        let c = s.get_char(i);
        let u = c as u32;
        if u < 0x30 || u > 0x39 {
            proof {
                assert(digits[i - start] == s@[i as int]);
                assert(!is_ascii_digit(digits[i - start]));
            }
            return 0;
        }
        let d: usize = (u - 0x30) as usize;
        proof {
            assert(digits.take(i - start + 1).drop_last() =~= digits.take(i - start));
            assert(digits.take(i - start + 1).last() == digits[i - start]);
            assert(digits[i - start] == s@[i as int]);
        }
        if acc > (usize::MAX - d) / 10 {
            proof {
                assert(acc * 10 + d > usize::MAX) by (nonlinear_arith)
                    requires
                        acc > (usize::MAX - d) / 10,
                        d <= 9,
                ;
                assert(digits_value(digits.take(i - start + 1)) == acc * 10 + d);
                lemma_digits_value_prefix(digits, i - start + 1);
            }
            return 0;
        }
        proof {
            assert(acc * 10 + d <= usize::MAX) by (nonlinear_arith)
                requires
                    acc <= (usize::MAX - d) / 10,
                    d <= 9,
            ;
        }
        acc = acc * 10 + d;
        i = i + 1;
    }
    proof {
        assert(digits.take(n - start) =~= digits);
    }
    acc
}

/// The decimal rendering of `n`: its digits, most significant first, with no
/// sign and no leading zero except for zero itself.
pub open spec fn decimal_digits(n: nat) -> Seq<char>
    decreases n,
{
    if n < 10 {
        seq![digit_char(n)]
    } else {
        decimal_digits(n / 10).push(digit_char(n % 10))
    }
}

/// The ASCII character of one decimal digit value.
pub open spec fn digit_char(d: nat) -> char {
    if d == 0 {
        '0'
    } else if d == 1 {
        '1'
    } else if d == 2 {
        '2'
    } else if d == 3 {
        '3'
    } else if d == 4 {
        '4'
    } else if d == 5 {
        '5'
    } else if d == 6 {
        '6'
    } else if d == 7 {
        '7'
    } else if d == 8 {
        '8'
    } else {
        '9'
    }
}

/// `s` read back to front.
pub open spec fn rev_seq(s: Seq<char>) -> Seq<char>
    decreases s.len(),
{
    if s.len() == 0 {
        Seq::empty()
    } else {
        seq![s.last()] + rev_seq(s.drop_last())
    }
}

/// Reading back to front takes the first character to the end.
pub proof fn lemma_rev_seq_first(s: Seq<char>)
    requires
        s.len() > 0,
    ensures
        rev_seq(s) == rev_seq(s.skip(1)) + seq![s[0]],
    decreases s.len(),
{
    if s.len() == 1 {
        assert(s.drop_last() =~= Seq::<char>::empty());
        assert(s.skip(1) =~= Seq::<char>::empty());
        assert(rev_seq(Seq::<char>::empty()) == Seq::<char>::empty());
        assert(rev_seq(s) == seq![s.last()] + Seq::<char>::empty());
        assert(seq![s.last()] + Seq::<char>::empty() =~= seq![s[0]]);
        assert(rev_seq(s.skip(1)) + seq![s[0]] =~= seq![s[0]]);
    } else {
        lemma_rev_seq_first(s.drop_last());
        let t = s.drop_last();
        assert(t[0] == s[0]);
        assert(t.skip(1) =~= s.skip(1).drop_last());
        assert(s.skip(1).last() == s.last());
        assert(rev_seq(s.skip(1)) == seq![s.last()] + rev_seq(s.skip(1).drop_last()));
        assert(rev_seq(s) == seq![s.last()] + rev_seq(t));
        assert(rev_seq(t) == rev_seq(t.skip(1)) + seq![t[0]]);
        assert(seq![s.last()] + (rev_seq(t.skip(1)) + seq![t[0]]) =~= (seq![s.last()] + rev_seq(
            t.skip(1),
        )) + seq![t[0]]);
    }
}

/// Renders a key as decimal text, most significant digit first.
pub fn usize_to_string(n: usize) -> (r: String)
    ensures
        r@ == decimal_digits(n as nat),
{
    let mut rev: Vec<char> = Vec::new();
    let mut m: usize = n;
    proof {
        assert(decimal_digits(n as nat) + rev_seq(rev@) =~= decimal_digits(n as nat));
    }
    loop
        invariant_except_break
            m > 0 || rev@.len() == 0,
            decimal_digits(n as nat) == decimal_digits(m as nat) + rev_seq(rev@),
        ensures
            decimal_digits(n as nat) == rev_seq(rev@),
        decreases m,
    {
        let d: usize = m % 10;
        let c: char = if d == 0 {
            '0'
        } else if d == 1 {
            '1'
        } else if d == 2 {
            '2'
        } else if d == 3 {
            '3'
        } else if d == 4 {
            '4'
        } else if d == 5 {
            '5'
        } else if d == 6 {
            '6'
        } else if d == 7 {
            '7'
        } else if d == 8 {
            '8'
        } else {
            '9'
        };
        let ghost old_rev = rev@;
        let ghost old_m = m as nat;
        rev.push(c);
        m = m / 10;
        proof {
            assert(c == digit_char(old_m % 10));
            assert(rev@.drop_last() =~= old_rev);
            assert(rev@.last() == c);
            assert(rev_seq(rev@) == seq![c] + rev_seq(old_rev));
            if old_m >= 10 {
                assert(decimal_digits(old_m) == decimal_digits(old_m / 10).push(
                    digit_char(old_m % 10),
                ));
                assert(decimal_digits(old_m / 10).push(c) =~= decimal_digits(old_m / 10) + seq![c]);
                assert((decimal_digits(old_m / 10) + seq![c]) + rev_seq(old_rev)
                    =~= decimal_digits(old_m / 10) + (seq![c] + rev_seq(old_rev)));
            } else {
                assert(decimal_digits(old_m) == seq![c]);
            }
        }
        if m == 0 {
            break ;
        }
    }
    let mut out = String::new();
    let mut i: usize = rev.len();
    proof {
        assert(rev@.skip(i as int) =~= Seq::<char>::empty());
        assert(out@ =~= rev_seq(rev@.skip(i as int)));
    }
    while i > 0
        invariant
            i <= rev.len(),
            out@ == rev_seq(rev@.skip(i as int)),
            decimal_digits(n as nat) == rev_seq(rev@),
        decreases i,
    {
        i = i - 1;
        let c = rev[i];
        let ghost old_out = out@;
        out.push(c);
        proof {
            let tail = rev@.skip(i as int);
            assert(tail.len() > 0);
            assert(tail[0] == rev@[i as int]);
            lemma_rev_seq_first(tail);
            assert(tail.skip(1) =~= rev@.skip(i as int + 1));
            assert(out@ =~= old_out + seq![c]);
        }
    }
    proof {
        assert(rev@.skip(0) =~= rev@);
    }
    out
}

} // verus!
