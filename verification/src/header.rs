use vstd::prelude::*;
use crate::record::Record;

verus! {

/// The character of the decimal digit `d`.
pub open spec fn digit_char(d: nat) -> char {
    if d == 0 {
        '0'
    } else if d == 1 {
        '1'
    } else if d == 2 {
        '2'
    } else if d == 3 {
        '3'
    } else if d == 4 {
        '4'
    } else if d == 5 {
        '5'
    } else if d == 6 {
        '6'
    } else if d == 7 {
        '7'
    } else if d == 8 {
        '8'
    } else {
        '9'
    }
}

/// The decimal digits of `m`, most significant first, with no leading zero (`0` is "0").
pub open spec fn digits(m: nat) -> Seq<char>
    decreases m,
{
    if m < 10 {
        seq![digit_char(m)]
    } else {
        digits(m / 10).push(digit_char(m % 10))
    }
}

/// `k` zeros.
pub open spec fn zeros(k: nat) -> Seq<char> {
    Seq::new(k, |i: int| '0')
}

/// The digits of `m`, with zeros in front up to `width` characters.
pub open spec fn padded(m: nat, width: nat) -> Seq<char> {
    if digits(m).len() < width {
        zeros((width - digits(m).len()) as nat) + digits(m)
    } else {
        digits(m)
    }
}

/// `n` written in decimal and filled with zeros to `width` characters: the sign, when `n`
/// is negative, comes first and counts toward the width.
pub open spec fn decimal_text(n: int, width: nat) -> Seq<char> {
    if n >= 0 {
        padded(n as nat, width)
    } else {
        seq!['-'] + padded((-n) as nat, if width > 0 { (width - 1) as nat } else { 0 })
    }
}

/// The text of the digit `d`.
fn digit_str(d: u32) -> (r: &'static str)
    requires
        d < 10,
    ensures
        r@ == seq![digit_char(d as nat)],
{
    if d == 0 {
        proof { reveal_strlit("0"); }
        "0"
    } else if d == 1 {
        proof { reveal_strlit("1"); }
        "1"
    } else if d == 2 {
        proof { reveal_strlit("2"); }
        "2"
    } else if d == 3 {
        proof { reveal_strlit("3"); }
        "3"
    } else if d == 4 {
        proof { reveal_strlit("4"); }
        "4"
    } else if d == 5 {
        proof { reveal_strlit("5"); }
        "5"
    } else if d == 6 {
        proof { reveal_strlit("6"); }
        "6"
    } else if d == 7 {
        proof { reveal_strlit("7"); }
        "7"
    } else if d == 8 {
        proof { reveal_strlit("8"); }
        "8"
    } else {
        proof { reveal_strlit("9"); }
        "9"
    }
}

/// Appends the digits of `m` to `s`.
fn push_digits(s: &mut String, m: u32)
    ensures
        final(s)@ == old(s)@ + digits(m as nat),
    decreases m,
{
    if m >= 10 {
        push_digits(s, m / 10);
    }
    let d = digit_str(m % 10);
    s.append(d);
    proof {
        if m >= 10 {
            assert(digits(m as nat) == digits((m / 10) as nat).push(digit_char((m % 10) as nat)));
        }
        assert(s@ =~= old(s)@ + digits(m as nat));
    }
}

/// How many digits `m` has.
fn count_digits(m: u32) -> (r: usize)
    ensures
        r == digits(m as nat).len(),
        1 <= r <= 10,
    decreases m,
{
    if m >= 10 {
        let k = count_digits(m / 10);
        proof {
            assert(digits(m as nat).len() == digits((m / 10) as nat).len() + 1);
            lemma_digits_of_large(m as nat);
        }
        k + 1
    } else {
        1
    }
}

/// Numbers from ten up have at least two digits, and a `u32` has at most ten.
proof fn lemma_digits_of_large(m: nat)
    requires
        10 <= m <= u32::MAX,
    ensures
        2 <= digits(m).len() <= 10,
{
    lemma_digits_len_bound(m, 10);
    assert(digits(m).len() == digits(m / 10).len() + 1);
}

/// Ten to the power `k`.
pub open spec fn pow10(k: nat) -> nat
    decreases k,
{
    if k == 0 {
        1
    } else {
        10 * pow10((k - 1) as nat)
    }
}

/// A number below `10^k` has at most `k` digits (for `k` at least one).
proof fn lemma_digits_len_bound(m: nat, k: nat)
    requires
        k >= 1,
        m < pow10(k) || (k == 10 && m <= u32::MAX),
    ensures
        digits(m).len() <= k,
    decreases k,
{
    if k == 10 {
        assert(pow10(10) == 10000000000) by {
            reveal_with_fuel(pow10, 11);
        }
    }
    if m >= 10 {
        assert(pow10(k) == 10 * pow10((k - 1) as nat));
        if k == 1 {
            assert(pow10(1) == 10) by {
                reveal_with_fuel(pow10, 2);
            }
        } else {
            assert(m / 10 < pow10((k - 1) as nat));
            lemma_digits_len_bound(m / 10, (k - 1) as nat);
        }
    }
}

/// Appends `k` zeros to `s`.
fn push_zeros(s: &mut String, k: usize)
    ensures
        final(s)@ == old(s)@ + zeros(k as nat),
{
    let mut i: usize = 0;
    while i < k
        invariant
            0 <= i <= k,
            s@ == old(s)@ + zeros(i as nat),
        decreases k - i,
    {
        proof { reveal_strlit("0"); }
        s.append("0");
        proof {
            assert(zeros((i + 1) as nat) =~= zeros(i as nat).push('0'));
            assert(s@ =~= old(s)@ + zeros((i + 1) as nat));
        }
        i = i + 1;
    }
}

/// Appends `m` to `s` with zeros in front up to `width` characters.
fn push_padded(s: &mut String, m: u32, width: usize)
    ensures
        final(s)@ == old(s)@ + padded(m as nat, width as nat),
{
    let n = count_digits(m);
    if n < width {
        push_zeros(s, width - n);
    }
    push_digits(s, m);
    assert(s@ =~= old(s)@ + padded(m as nat, width as nat));
}

/// `n` in decimal, filled with zeros to `width` characters (the sign, if any, first).
pub fn decimal(n: i32, width: usize) -> (r: String)
    ensures
        r@ == decimal_text(n as int, width as nat),
{
    let mut s = String::new();
    if n >= 0 {
        push_padded(&mut s, n as u32, width);
        proof {
            assert(s@ =~= decimal_text(n as int, width as nat));
        }
    } else {
        proof { reveal_strlit("-"); }
        s.append("-");
        let m: u32 = (-(n as i64)) as u32;
        let w: usize = if width > 0 { width - 1 } else { 0 };
        push_padded(&mut s, m, w);
        proof {
            assert(s@ =~= decimal_text(n as int, width as nat));
        }
    }
    s
}

/// The score as the header shows it: five digits.
pub fn update_score(record: &Record) -> (r: String)
    ensures
        r@ == decimal_text(record.score as int, 5),
{
    decimal(record.score(), 5)
}

/// The high score as the header shows it: five digits.
pub fn update_hi_score(record: &Record) -> (r: String)
    ensures
        r@ == decimal_text(record.hi_score as int, 5),
{
    decimal(record.hi_score(), 5)
}

/// The stage as the header shows it: two digits.
pub fn update_stage(record: &Record) -> (r: String)
    ensures
        r@ == decimal_text(record.stage as int, 2),
{
    decimal(record.stage(), 2)
}

/// The demo's best as the footer shows it: the stage in two digits, a dash, and the score
/// in five digits.
pub fn demo_record_text(stage: i32, score: i32) -> (r: String)
    ensures
        r@ == decimal_text(stage as int, 2) + seq!['-'] + decimal_text(score as int, 5),
{
    let mut s = decimal(stage, 2);
    proof { reveal_strlit("-"); }
    s.append("-");
    let t = decimal(score, 5);
    s.append(t.as_str());
    proof {
        assert(s@ =~= decimal_text(stage as int, 2) + seq!['-'] + decimal_text(score as int, 5));
    }
    s
}

} // verus!
