use vstd::prelude::*;
use vstd::string::*;
use vstd::arithmetic::div_mod::lemma_fundamental_div_mod;

verus! {

/// The character for the decimal digit `d`.
pub open spec fn digit_char(d: nat) -> char
    recommends
        d < 10,
{
    if d == 0 {
        '0'
    } else if d == 1 {
        '1'
    } else if d == 2 {
        '2'
    } else if d == 3 {
        '3'
    } else if d == 4 {
        '4'
    } else if d == 5 {
        '5'
    } else if d == 6 {
        '6'
    } else if d == 7 {
        '7'
    } else if d == 8 {
        '8'
    } else {
        '9'
    }
}

/// Is `c` one of the ten decimal digit characters?
pub open spec fn is_digit(c: char) -> bool {
    '0' <= c && c <= '9'
}

/// The numeric value of the digit character `c`.
pub open spec fn digit_val(c: char) -> nat
    recommends
        is_digit(c),
{
    (c as int - '0' as int) as nat
}

/// Decimal rendering of `n`: most significant digit first, no leading zeros
/// (a single `'0'` for zero).
pub open spec fn dec_digits(n: nat) -> Seq<char>
    decreases n,
{
    if n < 10 {
        seq![digit_char(n)]
    } else {
        dec_digits(n / 10) + seq![digit_char(n % 10)]
    }
}

/// The numeric value of a digit string, most significant digit first.
pub open spec fn digits_val(s: Seq<char>) -> nat
    decreases s.len(),
{
    if s.len() == 0 {
        0
    } else {
        digits_val(s.drop_last()) * 10 + digit_val(s.last())
    }
}

/// Every character of `s` is a decimal digit.
pub open spec fn all_digits(s: Seq<char>) -> bool {
    forall|k: int| 0 <= k < s.len() ==> is_digit(#[trigger] s[k])
}

/// `digit_char` and `digit_val` invert each other on single digits.
proof fn lemma_digit_char_val(d: nat)
    requires
        d < 10,
    ensures
        is_digit(digit_char(d)),
        digit_val(digit_char(d)) == d,
{
}

/// The decimal rendering of any number consists of digits only and is
/// non-empty.
pub proof fn lemma_dec_digits_shape(n: nat)
    ensures
        dec_digits(n).len() >= 1,
        all_digits(dec_digits(n)),
    decreases n,
{
    if n < 10 {
        lemma_digit_char_val(n);
    } else {
        lemma_dec_digits_shape(n / 10);
        lemma_digit_char_val(n % 10);
        assert forall|k: int| 0 <= k < dec_digits(n).len() implies is_digit(
            #[trigger] dec_digits(n)[k],
        ) by {
            if k < dec_digits(n / 10).len() {
                assert(dec_digits(n)[k] == dec_digits(n / 10)[k]);
            } else {
                assert(dec_digits(n)[k] == digit_char(n % 10));
            }
        }
    }
}

/// Reading back the decimal rendering of `n` yields `n`: the digit-string
/// value function inverts the renderer.
pub proof fn lemma_dec_digits_val(n: nat)
    ensures
        digits_val(dec_digits(n)) == n,
    decreases n,
{
    if n < 10 {
        lemma_digit_char_val(n);
        assert(dec_digits(n) =~= seq![digit_char(n)]);
        assert(dec_digits(n).drop_last() =~= Seq::<char>::empty());
        assert(digits_val(Seq::<char>::empty()) == 0);
        assert(digits_val(dec_digits(n)) == digits_val(Seq::<char>::empty()) * 10 + digit_val(
            digit_char(n),
        ));
    } else {
        lemma_dec_digits_val(n / 10);
        lemma_digit_char_val(n % 10);
        let whole = dec_digits(n);
        assert(whole.drop_last() =~= dec_digits(n / 10));
        assert(whole.last() == digit_char(n % 10));
        lemma_fundamental_div_mod(n as int, 10);
    }
}

/// The decimal rendering never carries a leading zero: only zero itself
/// starts with `'0'`, and then it is the whole rendering.
pub proof fn lemma_dec_digits_no_leading_zero(n: nat)
    ensures
        dec_digits(n).len() > 1 ==> dec_digits(n)[0] != '0',
    decreases n,
{
    if n >= 10 {
        lemma_dec_digits_no_leading_zero(n / 10);
        lemma_dec_digits_shape(n / 10);
        assert(dec_digits(n)[0] == dec_digits(n / 10)[0]);
        if n / 10 < 10 {
            assert(n / 10 >= 1) by (nonlinear_arith)
                requires
                    n >= 10,
            ;
            assert(dec_digits(n / 10)[0] == digit_char((n / 10) as nat));
            assert(digit_char((n / 10) as nat) != '0');
        } else {
            lemma_dec_digits_shape(n / 10 / 10);
            assert(dec_digits(n / 10).len() > 1);
        }
    }
}

/// End of the run of digit characters that starts at `i`: the first
/// position at or after `i` holding no digit.
pub open spec fn digit_run_end(s: Seq<char>, i: int) -> int
    recommends
        0 <= i <= s.len(),
    decreases s.len() - i,
        when 0 <= i <= s.len()
{
    if i < s.len() && is_digit(s[i]) {
        digit_run_end(s, i + 1)
    } else {
        i
    }
}

/// The digit run that starts at `i` ends within the string, at or after `i`.
pub proof fn lemma_digit_run_bounds(s: Seq<char>, i: int)
    requires
        0 <= i <= s.len(),
    ensures
        i <= digit_run_end(s, i) <= s.len(),
    decreases s.len() - i,
{
    if i < s.len() && is_digit(s[i]) {
        lemma_digit_run_bounds(s, i + 1);
    }
}

/// When positions `i` to `j` hold digits and `j` does not, the run that
/// starts at `i` ends exactly at `j`.
pub proof fn lemma_digit_run_exact(s: Seq<char>, i: int, j: int)
    requires
        0 <= i <= j <= s.len(),
        forall|k: int| i <= k < j ==> is_digit(#[trigger] s[k]),
        j == s.len() || !is_digit(s[j]),
    ensures
        digit_run_end(s, i) == j,
    decreases j - i,
{
    if i < j {
        assert(is_digit(s[i]));
        lemma_digit_run_exact(s, i + 1, j);
    }
}

/// A run of digits reaches at least past every position known to hold one.
pub proof fn lemma_digit_run_lower(s: Seq<char>, i: int, k: int)
    requires
        0 <= i <= k <= s.len(),
        forall|t: int| i <= t < k ==> is_digit(#[trigger] s[t]),
    ensures
        digit_run_end(s, i) >= k,
    decreases k - i,
{
    if i < k {
        assert(is_digit(s[i]));
        lemma_digit_run_lower(s, i + 1, k);
    } else {
        lemma_digit_run_bounds(s, i);
    }
}

/// Reading one more digit multiplies the value so far by ten and adds it.
pub proof fn lemma_digits_val_step(s: Seq<char>, i: int, k: int)
    requires
        0 <= i <= k < s.len(),
    ensures
        digits_val(s.subrange(i, k + 1)) == digits_val(s.subrange(i, k)) * 10 + digit_val(s[k]),
{
    assert(s.subrange(i, k + 1).drop_last() =~= s.subrange(i, k));
    assert(s.subrange(i, k + 1).last() == s[k]);
}

/// A digit string's value never shrinks as more digits are read.
pub proof fn lemma_digits_val_monotone(s: Seq<char>, i: int, k: int, j: int)
    requires
        0 <= i <= k <= j <= s.len(),
    ensures
        digits_val(s.subrange(i, k)) <= digits_val(s.subrange(i, j)),
    decreases j - k,
{
    if k < j {
        lemma_digits_val_monotone(s, i, k, j - 1);
        lemma_digits_val_step(s, i, j - 1);
    }
}

/// A one-character string slice holding the digit `d`.
pub fn digit_str(d: u64) -> (r: &'static str)
    requires
        d < 10,
    ensures
        r@ =~= seq![digit_char(d as nat)],
{
    proof {
        reveal_strlit("0");
        reveal_strlit("1");
        reveal_strlit("2");
        reveal_strlit("3");
        reveal_strlit("4");
        reveal_strlit("5");
        reveal_strlit("6");
        reveal_strlit("7");
        reveal_strlit("8");
        reveal_strlit("9");
    }
    if d == 0 {
        "0"
    } else if d == 1 {
        "1"
    } else if d == 2 {
        "2"
    } else if d == 3 {
        "3"
    } else if d == 4 {
        "4"
    } else if d == 5 {
        "5"
    } else if d == 6 {
        "6"
    } else if d == 7 {
        "7"
    } else if d == 8 {
        "8"
    } else {
        "9"
    }
}

/// Renders `n` in decimal, most significant digit first.
pub fn u64_to_decimal(n: u64) -> (r: String)
    ensures
        r@ == dec_digits(n as nat),
    decreases n,
{
    if n < 10 {
        let s = digit_str(n);
        s.to_owned()
    } else {
        let mut r = u64_to_decimal(n / 10);
        r.append(digit_str(n % 10));
        proof {
            assert(r@ =~= dec_digits(n as nat));
        }
        r
    }
}

} // verus!
