//! Decimal numerals in names and modifier suffixes.
//!
//! Instantiation names carry 1-based indices (`case_2`, `b_1`) and the
//! `partial_N` modifier carries a position; both sides — rendering a
//! number and reading one back — are specified here, with the round trip
//! proved, so that distinct indices give distinct name fragments.

use vstd::prelude::*;

verus! {

pub open spec fn is_digit(c: char) -> bool {
    '0' <= c && c <= '9'
}

pub open spec fn digit_of(n: nat) -> char {
    if n == 0 {
        '0'
    } else if n == 1 {
        '1'
    } else if n == 2 {
        '2'
    } else if n == 3 {
        '3'
    } else if n == 4 {
        '4'
    } else if n == 5 {
        '5'
    } else if n == 6 {
        '6'
    } else if n == 7 {
        '7'
    } else if n == 8 {
        '8'
    } else {
        '9'
    }
}

pub open spec fn digit_val(c: char) -> nat {
    if c == '0' {
        0
    } else if c == '1' {
        1
    } else if c == '2' {
        2
    } else if c == '3' {
        3
    } else if c == '4' {
        4
    } else if c == '5' {
        5
    } else if c == '6' {
        6
    } else if c == '7' {
        7
    } else if c == '8' {
        8
    } else {
        9
    }
}

/// The decimal numeral of `n`, most significant digit first.
pub open spec fn dec_str(n: nat) -> Seq<char>
    decreases n,
{
    if n < 10 {
        seq![digit_of(n)]
    } else {
        dec_str(n / 10) + seq![digit_of(n % 10)]
    }
}

/// The value of a digit string, most significant digit first.
pub open spec fn digits_val(s: Seq<char>) -> nat
    decreases s.len(),
{
    if s.len() == 0 {
        0
    } else {
        digits_val(s.drop_last()) * 10 + digit_val(s.last())
    }
}

pub open spec fn all_digits(s: Seq<char>) -> bool {
    forall|i: int| 0 <= i < s.len() ==> is_digit(#[trigger] s[i])
}

pub proof fn lemma_dec_str_digits(n: nat)
    ensures
        dec_str(n).len() >= 1,
        all_digits(dec_str(n)),
    decreases n,
{
    if n < 10 {
        assert(is_digit(dec_str(n)[0]));
    } else {
        lemma_dec_str_digits(n / 10);
        assert forall|i: int| 0 <= i < dec_str(n).len() implies is_digit(
            #[trigger] dec_str(n)[i],
        ) by {
            if i < dec_str(n / 10).len() {
                assert(dec_str(n)[i] == dec_str(n / 10)[i]);
            } else {
                assert(dec_str(n)[i] == digit_of(n % 10));
            }
        }
    }
}

/// Reading the numeral back gives the number.
pub proof fn lemma_dec_str_val(n: nat)
    ensures
        digits_val(dec_str(n)) == n,
    decreases n,
{
    if n < 10 {
        assert(dec_str(n) == seq![digit_of(n)]);
        assert(dec_str(n).len() == 1);
        assert(dec_str(n).drop_last() =~= Seq::<char>::empty());
        assert(dec_str(n).last() == digit_of(n));
        assert(digits_val(dec_str(n)) == digits_val(dec_str(n).drop_last()) * 10 + digit_val(
            dec_str(n).last(),
        ));
        assert(digits_val(dec_str(n).drop_last()) == 0);
        assert(digit_val(digit_of(n)) == n);
    } else {
        lemma_dec_str_val(n / 10);
        assert(dec_str(n).drop_last() =~= dec_str(n / 10));
        assert(dec_str(n).last() == digit_of(n % 10));
        assert(digit_val(digit_of(n % 10)) == n % 10);
        assert(digits_val(dec_str(n)) == (n / 10) * 10 + n % 10);
        assert((n / 10) * 10 + n % 10 == n) by (nonlinear_arith);
    }
}

/// Append the decimal numeral of `n`.
pub fn push_dec(out: &mut Vec<char>, n: usize)
    ensures
        final(out)@ == old(out)@ + dec_str(n as nat),
    decreases n,
{
    if n < 10 {
        let d: char = match n {
            0 => '0',
            1 => '1',
            2 => '2',
            3 => '3',
            4 => '4',
            5 => '5',
            6 => '6',
            7 => '7',
            8 => '8',
            _ => '9',
        };
        out.push(d);
        proof {
            assert(out@ =~= old(out)@ + dec_str(n as nat));
        }
    } else {
        push_dec(out, n / 10);
        let r = n % 10;
        let d: char = match r {
            0 => '0',
            1 => '1',
            2 => '2',
            3 => '3',
            4 => '4',
            5 => '5',
            6 => '6',
            7 => '7',
            8 => '8',
            _ => '9',
        };
        out.push(d);
        proof {
            assert(digit_of((n % 10) as nat) == d);
            assert(out@ =~= old(out)@ + dec_str(n as nat));
        }
    }
}

/// Read a decimal suffix: the value of a nonempty, all-digit string that
/// fits the machine, or nothing.
pub fn parse_dec(s: &Vec<char>, from: usize) -> (r: Option<usize>)
    requires
        from <= s@.len(),
    ensures
        ({
            let suffix = s@.skip(from as int);
            match r {
                Some(v) => suffix.len() > 0 && all_digits(suffix) && digits_val(suffix) == v
                    && digits_val(suffix) <= usize::MAX,
                None => suffix.len() == 0 || !all_digits(suffix) || digits_val(suffix)
                    > usize::MAX,
            }
        }),
{
    let ghost suffix = s@.skip(from as int);
    if from >= s.len() {
        return None;
    }
    let mut acc: usize = 0;
    let mut i: usize = from;
    while i < s.len()
        invariant
            from <= i <= s@.len(),
            suffix == s@.skip(from as int),
            all_digits(suffix.take(i - from)),
            acc as nat == digits_val(suffix.take(i - from)),
        decreases s@.len() - i,
    {
        let c = s[i];
        let d: usize = match c {
            '0' => 0,
            '1' => 1,
            '2' => 2,
            '3' => 3,
            '4' => 4,
            '5' => 5,
            '6' => 6,
            '7' => 7,
            '8' => 8,
            '9' => 9,
            _ => {
                proof {
                    assert(suffix[i - from] == s@[i as int]);
                    assert(!is_digit(suffix[i - from]));
                }
                return None;
            },
        };
        proof {
            assert(suffix[i - from] == s@[i as int]);
            assert(is_digit(suffix[i - from]));
            assert(digit_val(suffix[i - from]) == d as nat);
        }
        if acc > (usize::MAX - d) / 10 {
            proof {
                assert(suffix.take(i - from + 1).drop_last() =~= suffix.take(i - from));
                assert(suffix.take(i - from + 1).last() == suffix[i - from]);
                assert(digits_val(suffix.take(i - from + 1)) == acc as nat * 10 + d as nat);
                assert(acc as nat * 10 + d as nat > usize::MAX) by (nonlinear_arith)
                    requires
                        acc > (usize::MAX - d) / 10,
                        d <= 9,
                        acc <= usize::MAX,
                        d as nat <= usize::MAX,
                ;
                lemma_digits_val_prefix(suffix, i - from + 1);
            }
            return None;
        }
        acc = acc * 10 + d;
        i += 1;
        proof {
            assert(suffix.take(i - from).drop_last() =~= suffix.take(i - from - 1));
            assert(suffix.take(i - from).last() == suffix[i - from - 1]);
            assert(all_digits(suffix.take(i - from)));
        }
    }
    proof {
        assert(suffix.take(i - from) =~= suffix);
    }
    Some(acc)
}

/// A longer digit string never has a smaller value than its prefix part.
proof fn lemma_digits_val_monotone(s: Seq<char>, n: int)
    requires
        0 < n <= s.len(),
    ensures
        digits_val(s.take(n)) >= digits_val(s.take(n - 1)),
{
    assert(s.take(n).drop_last() =~= s.take(n - 1));
    assert(digits_val(s.take(n)) == digits_val(s.take(n - 1)) * 10 + digit_val(s.take(n).last()));
}

/// A digit string's value never falls below any of its prefixes' values.
proof fn lemma_digits_val_prefix(s: Seq<char>, k: int)
    requires
        0 <= k <= s.len(),
    ensures
        digits_val(s.take(k)) <= digits_val(s),
    decreases s.len() - k,
{
    if k < s.len() {
        lemma_digits_val_monotone(s, k + 1);
        lemma_digits_val_prefix(s, k + 1);
    } else {
        assert(s.take(k) =~= s);
    }
}

} // verus!
