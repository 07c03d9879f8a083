//! Decimal text for 64-bit integers: rendering a value to its canonical
//! digit run, and reading an optionally signed digit run back, with the
//! same acceptance and overflow behaviour as `str::parse::<i64>`.

use vstd::prelude::*;

verus! {

/// The decimal digit character for a value below ten.
pub open spec fn digit_char(d: nat) -> char {
    ((d + 0x30) as u32) as char
}

/// The canonical decimal digit run of a natural number, most significant
/// digit first, no leading zeros (a single `'0'` for zero).
pub open spec fn dec_digits(n: nat) -> Seq<char>
    decreases n,
{
    if n < 10 {
        seq![digit_char(n)]
    } else {
        dec_digits(n / 10).push(digit_char(n % 10))
    }
}

/// The canonical decimal rendering of a 64-bit signed integer: a minus
/// sign for negative values, then the digit run of the magnitude.
pub open spec fn dec_i64(v: i64) -> Seq<char> {
    if v < 0 {
        seq!['-'].add(dec_digits((-(v as int)) as nat))
    } else {
        dec_digits(v as nat)
    }
}

fn push_digit(s: &mut String, d: u64)
    requires
        d < 10,
    ensures
        final(s)@ == old(s)@ + seq![digit_char(d as nat)],
{
    proof {
        reveal_strlit("0");
        reveal_strlit("1");
        reveal_strlit("2");
        reveal_strlit("3");
        reveal_strlit("4");
        reveal_strlit("5");
        reveal_strlit("6");
        reveal_strlit("7");
        reveal_strlit("8");
        reveal_strlit("9");
    }
    let piece: &str = match d {
        0 => "0",
        1 => "1",
        2 => "2",
        3 => "3",
        4 => "4",
        5 => "5",
        6 => "6",
        7 => "7",
        8 => "8",
        _ => "9",
    };
    s.append(piece);
    proof {
        assert(s@ =~= old(s)@ + seq![digit_char(d as nat)]);
    }
}

/// Appends the decimal digit run of `n` to `s`.
fn append_dec(s: &mut String, n: u64)
    ensures
        final(s)@ == old(s)@ + dec_digits(n as nat),
    decreases n,
{
    if n < 10 {
        push_digit(s, n);
    } else {
        append_dec(s, n / 10);
        push_digit(s, n % 10);
        proof {
            assert(s@ =~= old(s)@ + dec_digits(n as nat));
        }
    }
}

/// Renders a 64-bit signed integer as canonical decimal text.
pub fn i64_to_string(v: i64) -> (r: String)
    ensures
        r@ == dec_i64(v),
{
    let mut s = String::new();
    if v < 0 {
        proof {
            reveal_strlit("-");
        }
        s.append("-");
        let magnitude: u64 = if v == i64::MIN {
            9223372036854775808u64
        } else {
            (-v) as u64
        };
        append_dec(&mut s, magnitude);
        proof {
            assert(s@ =~= dec_i64(v));
        }
    } else {
        append_dec(&mut s, v as u64);
    }
    s
}

/// Whether `c` is a decimal digit character.
pub open spec fn is_dec_digit(c: char) -> bool {
    '0' <= c && c <= '9'
}

/// The value of a decimal digit character.
pub open spec fn digit_val(c: char) -> nat {
    (c as nat - '0' as nat) as nat
}

/// The value of a digit run, read most significant digit first.
pub open spec fn dec_value(s: Seq<char>) -> nat
    decreases s.len(),
{
    if s.len() == 0 {
        0
    } else {
        dec_value(s.drop_last()) * 10 + digit_val(s.last())
    }
}

/// Whether every character of `s` is a decimal digit.
pub open spec fn all_dec_digits(s: Seq<char>) -> bool {
    forall|i: int| 0 <= i < s.len() ==> is_dec_digit(#[trigger] s[i])
}

/// The digit run of `s` with its optional leading sign removed.
pub open spec fn unsigned_part(s: Seq<char>) -> Seq<char> {
    if s.len() > 0 && (s[0] == '+' || s[0] == '-') {
        s.drop_first()
    } else {
        s
    }
}

/// Whether `s` is negative decimal text: a leading minus sign.
pub open spec fn is_negative_text(s: Seq<char>) -> bool {
    s.len() > 0 && s[0] == '-'
}

/// The signed value denoted by decimal text `s`, ignoring range limits.
pub open spec fn signed_value(s: Seq<char>) -> int {
    if is_negative_text(s) {
        -(dec_value(unsigned_part(s)) as int)
    } else {
        dec_value(unsigned_part(s)) as int
    }
}

/// Whether `s` is well-formed signed decimal text: an optional sign, then
/// one or more digits and nothing else.
pub open spec fn is_dec_text(s: Seq<char>) -> bool {
    unsigned_part(s).len() > 0 && all_dec_digits(unsigned_part(s))
}

/// The value of `s` as an `i64`, exactly as `str::parse::<i64>` reads it:
/// `None` on malformed text and on values outside the 64-bit signed range.
pub open spec fn spec_parse_i64(s: Seq<char>) -> Option<i64> {
    if is_dec_text(s) && i64::MIN <= signed_value(s) <= i64::MAX {
        Some(signed_value(s) as i64)
    } else {
        None
    }
}

/// A canonical digit run is nonempty and holds digit characters only.
pub proof fn lemma_dec_digits_shape(n: nat)
    ensures
        dec_digits(n).len() >= 1,
        all_dec_digits(dec_digits(n)),
    decreases n,
{
    if n < 10 {
        assert(is_dec_digit(digit_char(n)));
    } else {
        lemma_dec_digits_shape(n / 10);
        let s = dec_digits(n);
        assert(s.drop_last() =~= dec_digits(n / 10));
        assert(is_dec_digit(digit_char(n % 10)));
        assert(forall|i: int| 0 <= i < s.len() ==> is_dec_digit(#[trigger] s[i]));
    }
}

/// A power of ten.
pub open spec fn pow10(k: nat) -> nat
    decreases k,
{
    if k == 0 {
        1
    } else {
        10 * pow10((k - 1) as nat)
    }
}

/// A value below the `k`-th power of ten has at most `k` digits.
pub proof fn lemma_dec_digits_len_bound(n: nat, k: nat)
    requires
        1 <= k,
        n < pow10(k),
    ensures
        dec_digits(n).len() <= k,
    decreases n,
{
    if n < 10 {
    } else {
        assert(k >= 2) by {
            if k == 1 {
                assert(pow10(0) == 1);
                assert(pow10(1) == 10);
            }
        };
        assert(pow10(k) == 10 * pow10((k - 1) as nat));
        assert(n / 10 < pow10((k - 1) as nat)) by {
            vstd::arithmetic::div_mod::lemma_multiply_divide_lt(
                n as int,
                10,
                pow10((k - 1) as nat) as int,
            );
        };
        vstd::arithmetic::div_mod::lemma_div_is_strictly_smaller(n as int, 10);
        lemma_dec_digits_len_bound(n / 10, (k - 1) as nat);
    }
}

/// A 64-bit value has at most nineteen digits.
pub proof fn lemma_dec_digits_len_i64(v: i64)
    requires
        0 <= v,
    ensures
        dec_digits(v as nat).len() <= 19,
{
    assert(pow10(19) == 10000000000000000000) by {
        reveal_with_fuel(pow10, 20);
    };
    lemma_dec_digits_len_bound(v as nat, 19);
}

/// Reading back a canonical digit run yields the value it was made from.
pub proof fn lemma_dec_digits_value(n: nat)
    ensures
        dec_value(dec_digits(n)) == n,
    decreases n,
{
    if n < 10 {
        assert(dec_digits(n).drop_last() =~= Seq::<char>::empty());
        assert(dec_value(Seq::<char>::empty()) == 0);
        assert(dec_digits(n).last() == digit_char(n));
        assert(digit_val(digit_char(n)) == n);
    } else {
        lemma_dec_digits_value(n / 10);
        let s = dec_digits(n);
        assert(s.drop_last() =~= dec_digits(n / 10));
        assert(digit_val(digit_char(n % 10)) == n % 10);
        assert(dec_value(s) == (n / 10) * 10 + n % 10);
        assert((n / 10) * 10 + n % 10 == n) by {
            vstd::arithmetic::div_mod::lemma_fundamental_div_mod(n as int, 10);
        };
    }
}

/// Extending a digit run never shrinks its value.
proof fn lemma_dec_value_prefix(s: Seq<char>, i: int)
    requires
        0 <= i <= s.len(),
    ensures
        dec_value(s.subrange(0, i)) <= dec_value(s),
    decreases s.len() - i,
{
    if i == s.len() {
        assert(s.subrange(0, i) =~= s);
    } else {
        lemma_dec_value_prefix(s, i + 1);
        let t = s.subrange(0, i + 1);
        assert(t.drop_last() =~= s.subrange(0, i));
        assert(dec_value(s.subrange(0, i)) <= dec_value(t));
    }
}

/// Reads a digit run as an unsigned 64-bit magnitude, `None` when any
/// character is not a digit, when the run is empty, or when the value
/// exceeds `bound`.
fn parse_magnitude(s: &str, start: usize, bound: u64) -> (r: Option<u64>)
    requires
        start <= s@.len(),
        9 <= bound,
    ensures
        ({
            let digits = s@.subrange(start as int, s@.len() as int);
            match r {
                Some(m) => digits.len() > 0 && all_dec_digits(digits) && m == dec_value(digits)
                    && m <= bound,
                None => !(digits.len() > 0 && all_dec_digits(digits) && dec_value(digits)
                    <= bound),
            }
        }),
{
    let ghost digits = s@.subrange(start as int, s@.len() as int);
    let len = s.unicode_len();
    if start >= len {
        return None;
    }
    let mut acc: u64 = 0;
    let mut i: usize = start;
    while i < len
        invariant
            start <= i <= len,
            len == s@.len(),
            digits == s@.subrange(start as int, len as int),
            all_dec_digits(s@.subrange(start as int, i as int)),
            acc == dec_value(s@.subrange(start as int, i as int)),
            acc <= bound,
            9 <= bound <= u64::MAX,
        decreases len - i,
    {
        let c = s.get_char(i);
        if c < '0' || c > '9' {
            proof {
                assert(digits[i - start] == s@[i as int]);
                assert(!all_dec_digits(digits));
            }
            return None;
        }
        assert(48 <= c as u32 <= 57);
        let d: u64 = (c as u32 as u64) - 48;
        assert(d <= 9);
        proof {
            let pre = s@.subrange(start as int, i as int);
            let ext = s@.subrange(start as int, i + 1);
            assert(ext.drop_last() =~= pre);
            assert(ext.last() == s@[i as int]);
        }
        if acc > (bound - d) / 10 {
            proof {
                let ext = s@.subrange(start as int, i + 1);
                assert(dec_value(ext) == acc * 10 + d);
                assert(acc * 10 + d > bound) by {
                    assert(acc >= (bound - d) / 10 + 1);
                    assert(((bound - d) / 10 + 1) * 10 == ((bound - d) / 10) * 10 + 10);
                    assert(((bound - d) / 10) * 10 + (bound - d) % 10 == bound - d);
                };
                if all_dec_digits(digits) {
                    assert(digits =~= s@.subrange(start as int, len as int));
                    assert(forall|j: int|
                        0 <= j < ext.len() ==> ext[j] == digits[j] && is_dec_digit(
                            #[trigger] ext[j],
                        ));
                    lemma_dec_value_prefix(digits, i + 1 - start);
                    assert(ext =~= digits.subrange(0, i + 1 - start));
                    assert(dec_value(digits) >= dec_value(ext));
                    assert(dec_value(ext) > bound);
                }
            }
            return None;
        }
        acc = acc * 10 + d;
        i = i + 1;
        proof {
            assert(s@.subrange(start as int, i as int).last() == s@[i - 1]);
            assert(s@.subrange(start as int, i as int).drop_last() =~= s@.subrange(
                start as int,
                i - 1,
            ));
        }
    }
    proof {
        assert(s@.subrange(start as int, i as int) =~= digits);
    }
    Some(acc)
}

/// Reads optionally signed decimal text as an `i64`, with exactly the
/// acceptance and overflow behaviour of `str::parse::<i64>`.
pub fn str_to_i64(s: &str) -> (r: Option<i64>)
    ensures
        r == spec_parse_i64(s@),
{
    let len = s.unicode_len();
    if len == 0 {
        return None;
    }
    let first = s.get_char(0);
    if first == '-' {
        match parse_magnitude(s, 1, 9223372036854775808u64) {
            Some(m) => {
                proof {
                    assert(unsigned_part(s@) =~= s@.subrange(1, s@.len() as int));
                }
                if m == 9223372036854775808u64 {
                    Some(i64::MIN)
                } else {
                    Some(-(m as i64))
                }
            },
            None => {
                proof {
                    assert(unsigned_part(s@) =~= s@.subrange(1, s@.len() as int));
                }
                None
            },
        }
    } else if first == '+' {
        let r = parse_magnitude(s, 1, 9223372036854775807u64);
        proof {
            assert(unsigned_part(s@) =~= s@.subrange(1, s@.len() as int));
        }
        match r {
            Some(m) => Some(m as i64),
            None => None,
        }
    } else {
        let r = parse_magnitude(s, 0, 9223372036854775807u64);
        proof {
            assert(unsigned_part(s@) =~= s@.subrange(0, s@.len() as int));
        }
        match r {
            Some(m) => Some(m as i64),
            None => None,
        }
    }
}

} // verus!
