//! Decimal text: turning unsigned integers into their decimal strings and
//! reading them back.  Record ids travel as decimal text in URLs and file
//! names, so both directions carry exact contracts.

use vstd::prelude::*;

verus! {

/// The character standing for the decimal digit `d`.
pub open spec fn digit_char(d: int) -> char {
    if d == 0 {
        '0'
    } else if d == 1 {
        '1'
    } else if d == 2 {
        '2'
    } else if d == 3 {
        '3'
    } else if d == 4 {
        '4'
    } else if d == 5 {
        '5'
    } else if d == 6 {
        '6'
    } else if d == 7 {
        '7'
    } else if d == 8 {
        '8'
    } else {
        '9'
    }
}

/// The decimal representation of a nonnegative integer, most significant
/// digit first, with no leading zeros (`0` is written as "0").
pub open spec fn dec_rep(n: int) -> Seq<char>
    decreases n,
{
    if n < 10 {
        seq![digit_char(n)]
    } else {
        dec_rep(n / 10).push(digit_char(n % 10))
    }
}

/// Whether `c` is a decimal digit.
pub open spec fn is_digit(c: char) -> bool {
    '0' <= c && c <= '9'
}

/// The value of the decimal digit `c`.
pub open spec fn digit_val(c: char) -> int {
    c as int - '0' as int
}

/// The value of a digit string, most significant digit first.  The empty
/// string has value 0.
pub open spec fn dec_val(s: Seq<char>) -> int
    decreases s.len(),
{
    if s.len() == 0 {
        0
    } else {
        dec_val(s.drop_last()) * 10 + digit_val(s.last())
    }
}

/// Every character of a decimal representation is a digit; in particular no
/// representation contains a separator such as '-'.
pub proof fn lemma_dec_rep_digits(n: int)
    requires
        n >= 0,
    ensures
        dec_rep(n).len() >= 1,
        forall|i: int| 0 <= i < dec_rep(n).len() ==> is_digit(#[trigger] dec_rep(n)[i]),
    decreases n,
{
    if n >= 10 {
        lemma_dec_rep_digits(n / 10);
    }
}

/// A digit written and read back is itself.
pub proof fn lemma_digit_roundtrip(d: int)
    requires
        0 <= d < 10,
    ensures
        digit_val(digit_char(d)) == d,
{
    if d == 0 {
        assert(digit_val('0') == 0);
    } else if d == 1 {
        assert(digit_val('1') == 1);
    } else if d == 2 {
        assert(digit_val('2') == 2);
    } else if d == 3 {
        assert(digit_val('3') == 3);
    } else if d == 4 {
        assert(digit_val('4') == 4);
    } else if d == 5 {
        assert(digit_val('5') == 5);
    } else if d == 6 {
        assert(digit_val('6') == 6);
    } else if d == 7 {
        assert(digit_val('7') == 7);
    } else if d == 8 {
        assert(digit_val('8') == 8);
    } else {
        assert(digit_val('9') == 9);
    }
}

/// Reading a decimal representation back gives the number it was written
/// from.
pub proof fn lemma_dec_rep_val(n: int)
    requires
        n >= 0,
    ensures
        dec_val(dec_rep(n)) == n,
    decreases n,
{
    assert(dec_val(Seq::<char>::empty()) == 0);
    if n < 10 {
        lemma_digit_roundtrip(n);
        let s = dec_rep(n);
        assert(s == seq![digit_char(n)]);
        assert(s.drop_last() =~= Seq::<char>::empty());
        assert(s.last() == digit_char(n));
        assert(dec_val(s) == dec_val(s.drop_last()) * 10 + digit_val(s.last()));
    } else {
        lemma_dec_rep_val(n / 10);
        lemma_digit_roundtrip(n % 10);
        let s = dec_rep(n);
        assert(s == dec_rep(n / 10).push(digit_char(n % 10)));
        assert(s.drop_last() =~= dec_rep(n / 10));
        assert(s.last() == digit_char(n % 10));
        assert(dec_val(s) == dec_val(s.drop_last()) * 10 + digit_val(s.last()));
    }
}

/// Decimal representation is injective: two numbers with the same digits are
/// the same number.
pub proof fn lemma_dec_rep_injective(a: int, b: int)
    requires
        a >= 0,
        b >= 0,
        dec_rep(a) == dec_rep(b),
    ensures
        a == b,
{
    lemma_dec_rep_val(a);
    lemma_dec_rep_val(b);
}

fn digit_str(d: u64) -> (r: &'static str)
    requires
        d < 10,
    ensures
        r@ == seq![digit_char(d as int)],
{
    proof {
        reveal_strlit("0");
        reveal_strlit("1");
        reveal_strlit("2");
        reveal_strlit("3");
        reveal_strlit("4");
        reveal_strlit("5");
        reveal_strlit("6");
        reveal_strlit("7");
        reveal_strlit("8");
        reveal_strlit("9");
    }
    let r: &'static str = if d == 0 {
        "0"
    } else if d == 1 {
        "1"
    } else if d == 2 {
        "2"
    } else if d == 3 {
        "3"
    } else if d == 4 {
        "4"
    } else if d == 5 {
        "5"
    } else if d == 6 {
        "6"
    } else if d == 7 {
        "7"
    } else if d == 8 {
        "8"
    } else {
        "9"
    };
    proof {
        assert(r@ =~= seq![digit_char(d as int)]);
    }
    r
}

/// Appends the decimal representation of `n` to `out`.
pub fn push_dec(n: u64, out: &mut String)
    ensures
        final(out)@ == old(out)@ + dec_rep(n as int),
    decreases n,
{
    if n < 10 {
        out.append(digit_str(n));
        proof {
            assert(out@ =~= old(out)@ + dec_rep(n as int));
        }
    } else {
        push_dec(n / 10, out);
        out.append(digit_str(n % 10));
        proof {
            assert(out@ =~= old(out)@ + dec_rep(n as int));
        }
    }
}

/// The decimal representation of `n` as a fresh string.
pub fn u64_to_dec(n: u64) -> (r: String)
    ensures
        r@ == dec_rep(n as int),
{
    let mut out = String::new();
    push_dec(n, &mut out);
    proof {
        assert(out@ =~= dec_rep(n as int));
    }
    out
}

/// The value of a digit prefix never exceeds the value of the whole digit
/// string.
proof fn lemma_dec_val_prefix_le(s: Seq<char>, i: int)
    requires
        0 <= i <= s.len(),
        forall|j: int| 0 <= j < s.len() ==> is_digit(#[trigger] s[j]),
    ensures
        dec_val(s.take(i)) <= dec_val(s),
        dec_val(s) >= 0,
    decreases s.len(),
{
    if s.len() == 0 {
    } else {
        lemma_dec_val_prefix_le(s.drop_last(), if i < s.len() { i } else { i - 1 });
        if i < s.len() {
            assert(s.take(i) =~= s.drop_last().take(i));
        } else {
            assert(s.take(i) =~= s);
        }
    }
}

/// Reads an unsigned 64-bit number from decimal text.  Returns the value
/// exactly when the text is nonempty, all digits, and the value fits.
pub fn parse_u64(s: &str) -> (r: Option<u64>)
    ensures
        match r {
            Some(v) => s@.len() > 0 && (forall|j: int| 0 <= j < s@.len() ==> is_digit(#[trigger] s@[j]))
                && v == dec_val(s@) && dec_val(s@) <= u64::MAX,
            None => s@.len() == 0 || (exists|j: int| 0 <= j < s@.len() && !is_digit(#[trigger] s@[j]))
                || dec_val(s@) > u64::MAX,
        },
{
    let len = s.unicode_len();
    if len == 0 {
        return None;
    }
    let mut acc: u64 = 0;
    let mut i: usize = 0;
    while i < len
        invariant
            0 <= i <= len,
            len == s@.len(),
            forall|j: int| 0 <= j < i ==> is_digit(#[trigger] s@[j]),
            acc == dec_val(s@.take(i as int)),
        decreases len - i,
    {
        let c = s.get_char(i);
        if !(c >= '0' && c <= '9') {
            return None;
        }
        let d: u64 = (c as u32 as u64) - ('0' as u32 as u64);
        proof {
            assert(d == digit_val(c));
        }
        if acc > (u64::MAX - d) / 10 {
            proof {
                assert(s@.take(i + 1).drop_last() =~= s@.take(i as int));
                assert(s@.take(i + 1).last() == c);
                assert(dec_val(s@.take(i + 1)) == acc * 10 + d);
                assert(acc >= (u64::MAX - d) / 10 + 1);
                assert(acc * 10 >= ((u64::MAX - d) / 10 + 1) * 10) by (nonlinear_arith)
                    requires
                        acc >= (u64::MAX - d) / 10 + 1,
                ;
                assert(((u64::MAX - d) / 10 + 1) * 10 > u64::MAX - d);
                if forall|j: int| 0 <= j < s@.len() ==> is_digit(#[trigger] s@[j]) {
                    lemma_dec_val_prefix_le(s@, i + 1);
                    assert(dec_val(s@) > u64::MAX);
                }
            }
            return None;
        }
        proof {
            assert(acc <= (u64::MAX - d) / 10);
            assert(acc * 10 <= ((u64::MAX - d) / 10) * 10) by (nonlinear_arith)
                requires
                    acc <= (u64::MAX - d) / 10,
            ;
            assert(((u64::MAX - d) / 10) * 10 <= u64::MAX - d);
            assert(s@.take(i + 1).drop_last() =~= s@.take(i as int));
            assert(s@.take(i + 1).last() == c);
        }
        acc = acc * 10 + d;
        i = i + 1;
    }
    proof {
        assert(s@.take(len as int) =~= s@);
    }
    Some(acc)
}

} // verus!
