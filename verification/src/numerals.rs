use vstd::prelude::*;
use vstd::string::*;

verus! {

use crate::lexer::chars_to_string;

/// Whether `c` is an ASCII decimal digit.
pub open spec fn is_digit_char(c: char) -> bool {
    48 <= c as u32 && c as u32 <= 57
}

/// The numeric value of a digit character.
pub open spec fn digit_val(c: char) -> int {
    c as u32 - 48
}

/// Whether every character of `s` is a digit.
pub open spec fn all_digits(s: Seq<char>) -> bool {
    forall|i: int| 0 <= i < s.len() ==> is_digit_char(#[trigger] s[i])
}

/// The value of a digit string read in base ten.
pub open spec fn digits_val(s: Seq<char>) -> int
    decreases s.len(),
{
    if s.len() == 0 {
        0
    } else {
        digits_val(s.drop_last()) * 10 + digit_val(s.last())
    }
}

/// A token that denotes an integer literal: one or more digits, with no
/// sign — sign characters are tokens of their own and never part of a
/// numeral.
pub open spec fn is_int_token(s: Seq<char>) -> bool {
    s.len() > 0 && all_digits(s)
}

/// The digit character of a value below ten.
pub open spec fn spec_digit_char(d: int) -> char {
    if d == 0 {
        '0'
    } else if d == 1 {
        '1'
    } else if d == 2 {
        '2'
    } else if d == 3 {
        '3'
    } else if d == 4 {
        '4'
    } else if d == 5 {
        '5'
    } else if d == 6 {
        '6'
    } else if d == 7 {
        '7'
    } else if d == 8 {
        '8'
    } else {
        '9'
    }
}

/// The decimal digits of a non-negative number, most significant first.
pub open spec fn dec_rep(n: int) -> Seq<char>
    decreases n,
{
    if n < 10 {
        seq![spec_digit_char(n)]
    } else {
        dec_rep(n / 10).push(spec_digit_char(n % 10))
    }
}

/// The decimal text of a signed number: a `-` sign when negative, then the
/// digits of its magnitude.
pub open spec fn i64_dec_rep(n: int) -> Seq<char> {
    if n < 0 {
        seq!['-'] + dec_rep(-n)
    } else {
        dec_rep(n)
    }
}

proof fn lemma_digits_val_nonneg(s: Seq<char>)
    requires
        all_digits(s),
    ensures
        digits_val(s) >= 0,
    decreases s.len(),
{
    if s.len() > 0 {
        assert(all_digits(s.drop_last()));
        lemma_digits_val_nonneg(s.drop_last());
    }
}

proof fn lemma_digits_val_take_succ(s: Seq<char>, j: int)
    requires
        0 <= j < s.len(),
    ensures
        digits_val(s.take(j + 1)) == digits_val(s.take(j)) * 10 + digit_val(s[j]),
{
    assert(s.take(j + 1).drop_last() =~= s.take(j));
    assert(s.take(j + 1).last() == s[j]);
}

proof fn lemma_digits_val_take_le(s: Seq<char>, j: int)
    requires
        all_digits(s),
        0 <= j <= s.len(),
    ensures
        digits_val(s) >= digits_val(s.take(j)),
    decreases s.len() - j,
{
    if j == s.len() {
        assert(s.take(j) =~= s);
    } else {
        lemma_digits_val_take_le(s, j + 1);
        lemma_digits_val_take_succ(s, j);
        assert(all_digits(s.take(j)));
        lemma_digits_val_nonneg(s.take(j));
    }
}

/// Reads a token as a decimal integer literal.  Returns its value when the
/// token is one or more digits whose value fits in a 64-bit signed
/// integer, and nothing otherwise.
pub fn parse_int_token(t: &str) -> (r: Option<i64>)
    ensures
        match r {
            Some(v) => is_int_token(t@) && digits_val(t@) <= i64::MAX && v as int == digits_val(
                t@,
            ),
            None => !(is_int_token(t@) && digits_val(t@) <= i64::MAX),
        },
{
    let n: usize = t.unicode_len();
    if n == 0 {
        return None;
    }
    let mut val: i64 = 0;
    let mut i: usize = 0;
    proof {
        assert(t@.take(0) =~= Seq::<char>::empty());
    }
    while i < n
        invariant
            n == t@.len(),
            0 <= i <= n,
            all_digits(t@.take(i as int)),
            0 <= val,
            val as int == digits_val(t@.take(i as int)),
        decreases n - i,
    {
        let c = t.get_char(i);
        let cu: u32 = c as u32;
        if !(48 <= cu && cu <= 57) {
            proof {
                assert(!is_digit_char(t@[i as int]));
            }
            return None;
        }
        let d: i64 = (cu - 48) as i64;
        proof {
            lemma_digits_val_take_succ(t@, i as int);
        }
        if val > (9223372036854775807i64 - d) / 10 {
            proof {
                let m: int = 9223372036854775807;
                assert(val * 10 + d > m) by (nonlinear_arith)
                    requires
                        0 <= d < 10,
                        val > (m - d) / 10,
                        m == 9223372036854775807,
                        val >= 0,
                ;
                if all_digits(t@) {
                    lemma_digits_val_take_le(t@, i as int + 1);
                }
            }
            return None;
        }
        proof {
            let m: int = 9223372036854775807;
            assert(val * 10 + d <= m) by (nonlinear_arith)
                requires
                    0 <= d < 10,
                    val <= (m - d) / 10,
                    m == 9223372036854775807,
                    val >= 0,
            ;
        }
        val = val * 10 + d;
        i = i + 1;
    }
    proof {
        assert(t@.take(n as int) =~= t@);
    }
    Some(val)
}

fn digit_char_of(d: u64) -> (c: char)
    requires
        d < 10,
    ensures
        c == spec_digit_char(d as int),
{
    if d == 0 {
        '0'
    } else if d == 1 {
        '1'
    } else if d == 2 {
        '2'
    } else if d == 3 {
        '3'
    } else if d == 4 {
        '4'
    } else if d == 5 {
        '5'
    } else if d == 6 {
        '6'
    } else if d == 7 {
        '7'
    } else if d == 8 {
        '8'
    } else {
        '9'
    }
}

/// Writes a signed 64-bit integer as decimal text.
pub fn i64_to_string(n: i64) -> (r: String)
    ensures
        r@ == i64_dec_rep(n as int),
{
    let neg: bool = n < 0;
    let mut x: u64 = if n >= 0 {
        n as u64
    } else if n == i64::MIN {
        9223372036854775808u64
    } else {
        (-n) as u64
    };
    let ghost x0 = x as int;
    let mut rev: Vec<char> = Vec::new();
    proof {
        assert(rev@.reverse() =~= Seq::<char>::empty());
        assert(dec_rep(x0) =~= dec_rep(x as int) + rev@.reverse());
    }
    while x >= 10
        invariant
            dec_rep(x0) == dec_rep(x as int) + rev@.reverse(),
        decreases x,
    {
        let d: u64 = x % 10;
        let c = digit_char_of(d);
        let ghost rev0 = rev@;
        rev.push(c);
        proof {
            assert(rev@.reverse() =~= seq![c] + rev0.reverse());
            assert(dec_rep(x as int) == dec_rep(x as int / 10).push(c));
            assert(dec_rep(x as int / 10).push(c) + rev0.reverse() =~= dec_rep(x as int / 10) + (
            seq![c] + rev0.reverse()));
        }
        x = x / 10;
    }
    let c = digit_char_of(x);
    let ghost revb = rev@;
    rev.push(c);
    proof {
        assert(rev@.reverse() =~= seq![c] + revb.reverse());
        assert(dec_rep(x as int) =~= seq![c]);
        assert(dec_rep(x0) =~= rev@.reverse());
    }

    let mut out: Vec<char> = Vec::new();
    if neg {
        out.push('-');
    }
    let ghost sign: Seq<char> = if neg {
        seq!['-']
    } else {
        Seq::empty()
    };
    proof {
        assert(out@ =~= sign + rev@.reverse().take(0));
    }
    let m: usize = rev.len();
    let mut i: usize = 0;
    while i < m
        invariant
            m == rev@.len(),
            0 <= i <= m,
            out@ == sign + rev@.reverse().take(i as int),
        decreases m - i,
    {
        let ghost outp = out@;
        out.push(rev[m - 1 - i]);
        proof {
            assert(rev@.reverse()[i as int] == rev@[m - 1 - i as int]);
            assert(out@ =~= sign + rev@.reverse().take(i as int + 1));
        }
        i = i + 1;
    }
    proof {
        assert(rev@.reverse().take(m as int) =~= rev@.reverse());
        if neg {
            assert(x0 == -(n as int));
            assert(out@ =~= i64_dec_rep(n as int));
        } else {
            assert(out@ =~= i64_dec_rep(n as int));
        }
    }
    chars_to_string(&out)
}

} // verus!
