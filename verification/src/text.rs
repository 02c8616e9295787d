//! Small verified helpers on character sequences: equality of string slices
//! and rendering of decimal numbers (used for `$1`-style placeholders).

use vstd::prelude::*;
use vstd::string::StrSliceExecFns;
use vstd::string::StringExecFns;

verus! {

/// Whether two string slices hold the same characters.
pub fn str_eq(a: &str, b: &str) -> (r: bool)
    ensures
        r == (a@ == b@),
{
    let n = a.unicode_len();
    if n != b.unicode_len() {
        return false;
    }
    let mut i: usize = 0;
    while i < n
        invariant
            n == a@.len(),
            n == b@.len(),
            i <= n,
            forall|k: int| 0 <= k < i ==> a@[k] == b@[k],
        decreases n - i,
    {
        if a.get_char(i) != b.get_char(i) {
            return false;
        }
        i += 1;
    }
    proof {
        assert(a@ =~= b@);
    }
    true
}

/// The decimal digit character for `d`.
pub open spec fn dec_digit(d: nat) -> char {
    if d == 0 {
        '0'
    } else if d == 1 {
        '1'
    } else if d == 2 {
        '2'
    } else if d == 3 {
        '3'
    } else if d == 4 {
        '4'
    } else if d == 5 {
        '5'
    } else if d == 6 {
        '6'
    } else if d == 7 {
        '7'
    } else if d == 8 {
        '8'
    } else {
        '9'
    }
}

/// The usual decimal rendering of `n`, most significant digit first.
pub open spec fn dec_rep(n: nat) -> Seq<char>
    decreases n,
{
    if n < 10 {
        seq![dec_digit(n)]
    } else {
        dec_rep(n / 10).push(dec_digit(n % 10))
    }
}

/// The string slice holding the single decimal digit `d`.
fn dec_digit_str(d: usize) -> (s: &'static str)
    requires
        d < 10,
    ensures
        s@ == seq![dec_digit(d as nat)],
{
    proof {
        reveal_strlit("0");
        reveal_strlit("1");
        reveal_strlit("2");
        reveal_strlit("3");
        reveal_strlit("4");
        reveal_strlit("5");
        reveal_strlit("6");
        reveal_strlit("7");
        reveal_strlit("8");
        reveal_strlit("9");
    }
    let s: &'static str = match d {
        0 => "0",
        1 => "1",
        2 => "2",
        3 => "3",
        4 => "4",
        5 => "5",
        6 => "6",
        7 => "7",
        8 => "8",
        _ => "9",
    };
    proof {
        assert(s@ =~= seq![dec_digit(d as nat)]);
    }
    s
}

/// Renders `n` in decimal.
pub fn usize_string(n: usize) -> (s: String)
    ensures
        s@ == dec_rep(n as nat),
    decreases n,
{
    if n < 10 {
        String::from_str(dec_digit_str(n))
    } else {
        let mut s = usize_string(n / 10);
        s.append(dec_digit_str(n % 10));
        proof {
            assert(dec_rep((n / 10) as nat) + seq![dec_digit((n % 10) as nat)] =~= dec_rep(
                n as nat,
            ));
        }
        s
    }
}


/// Whether `c` is a decimal digit.
pub open spec fn is_dec_digit(c: char) -> bool {
    '0' <= c && c <= '9'
}

/// The numeric value of the digit `c`.
pub open spec fn digit_val(c: char) -> int {
    c as u32 - 48
}

/// The numeric value of a digit string, most significant digit first.
pub open spec fn dec_val(s: Seq<char>) -> int
    decreases s.len(),
{
    if s.len() == 0 {
        0
    } else {
        dec_val(s.drop_last()) * 10 + digit_val(s.last())
    }
}

/// Whether every character of `s` is a decimal digit.
pub open spec fn all_dec_digits(s: Seq<char>) -> bool {
    forall|i: int| 0 <= i < s.len() ==> is_dec_digit(#[trigger] s[i])
}

/// Ten to the `n`.
pub open spec fn pow10(n: nat) -> int
    decreases n,
{
    if n == 0 {
        1
    } else {
        10 * pow10((n - 1) as nat)
    }
}

/// Powers of ten are positive and grow.
pub proof fn lemma_pow10_mono(a: nat, b: nat)
    requires
        a <= b,
    ensures
        1 <= pow10(a) <= pow10(b),
    decreases b,
{
    if b > 0 {
        if a == b {
            lemma_pow10_mono((b - 1) as nat, (b - 1) as nat);
        } else {
            lemma_pow10_mono(a, (b - 1) as nat);
        }
    }
}

/// A digit string of length `n` denotes a value below ten to the `n`.
pub proof fn lemma_dec_val_bound(s: Seq<char>)
    requires
        all_dec_digits(s),
    ensures
        0 <= dec_val(s) < pow10(s.len()),
    decreases s.len(),
{
    if s.len() > 0 {
        assert(all_dec_digits(s.drop_last()));
        lemma_dec_val_bound(s.drop_last());
        assert(is_dec_digit(s.last()));
        assert(0 <= digit_val(s.last()) <= 9);
    }
}

/// Whether `s` reads as a decimal integer: an optional minus sign, then one
/// to eighteen digits (the bound keeps every accepted value well inside a
/// 64-bit integer).
pub open spec fn int_text_ok(s: Seq<char>) -> bool {
    if s.len() > 0 && s[0] == '-' {
        1 <= s.len() - 1 <= 18 && all_dec_digits(s.skip(1))
    } else {
        1 <= s.len() <= 18 && all_dec_digits(s)
    }
}

/// The integer a well-formed decimal string denotes.
pub open spec fn int_text_val(s: Seq<char>) -> int {
    if s.len() > 0 && s[0] == '-' {
        -dec_val(s.skip(1))
    } else {
        dec_val(s)
    }
}

/// Reads a decimal integer: an optional minus sign, then one to eighteen
/// digits. Anything else — empty, a stray character, or more digits — is
/// refused.
pub fn parse_i64(s: &str) -> (r: Option<i64>)
    ensures
        r is Some <==> int_text_ok(s@),
        r matches Some(v) ==> v as int == int_text_val(s@),
{
    let n = s.unicode_len();
    if n == 0 {
        return None;
    }
    let neg = s.get_char(0) == '-';
    let start: usize = if neg {
        1
    } else {
        0
    };
    if n - start == 0 || n - start > 18 {
        return None;
    }
    let ghost digits = s@.skip(start as int);
    let mut acc: i64 = 0;
    let mut i: usize = start;
    proof {
        assert(s@.subrange(start as int, start as int) =~= Seq::<char>::empty());
        lemma_pow10_mono(0, 0);
    }
    while i < n
        invariant
            start <= i <= n,
            n == s@.len(),
            n > 0,
            neg == (s@[0] == '-'),
            start == if neg {
                1int
            } else {
                0int
            },
            1 <= n - start <= 18,
            digits == s@.skip(start as int),
            all_dec_digits(s@.subrange(start as int, i as int)),
            acc == dec_val(s@.subrange(start as int, i as int)),
            0 <= acc < pow10((i - start) as nat),
        decreases n - i,
    {
        let c = s.get_char(i);
        if c < '0' || c > '9' {
            proof {
                assert(digits[i - start as int] == s@[i as int]);
                assert(!is_dec_digit(s@[i as int]));
                assert(!all_dec_digits(digits));
            }
            return None;
        }
        proof {
            lemma_pow10_mono((i - start) as nat, 17);
            reveal_with_fuel(pow10, 19);
            assert(pow10(17) == 100000000000000000);
        }
        let d = (c as u32 - 48) as i64;
        acc = acc * 10 + d;
        proof {
            let pre = s@.subrange(start as int, i as int);
            let cur = s@.subrange(start as int, i as int + 1);
            assert(cur =~= pre.push(s@[i as int]));
            assert(cur.drop_last() =~= pre);
            assert(is_dec_digit(s@[i as int]));
            assert(acc == dec_val(cur));
            assert(pow10((i + 1 - start) as nat) == 10 * pow10((i - start) as nat));
        }
        i += 1;
    }
    proof {
        assert(s@.subrange(start as int, n as int) =~= digits);
        if !neg {
            assert(digits =~= s@);
        }
        assert(int_text_ok(s@));
        if neg {
            assert(int_text_val(s@) == -dec_val(digits));
        } else {
            assert(int_text_val(s@) == dec_val(digits));
        }
    }
    if neg {
        Some(-acc)
    } else {
        Some(acc)
    }
}

} // verus!
