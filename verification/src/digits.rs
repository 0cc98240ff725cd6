//! Verified decimal rendering of unsigned integers, with zero padding to a
//! minimum width.  Invoice sequence numbers and timestamp fields are printed
//! through these functions.

use vstd::prelude::*;
use vstd::string::StringExecFns;

verus! {

/// The character for a single decimal digit.
pub open spec fn digit_char(d: int) -> char {
    if d == 0 {
        '0'
    } else if d == 1 {
        '1'
    } else if d == 2 {
        '2'
    } else if d == 3 {
        '3'
    } else if d == 4 {
        '4'
    } else if d == 5 {
        '5'
    } else if d == 6 {
        '6'
    } else if d == 7 {
        '7'
    } else if d == 8 {
        '8'
    } else {
        '9'
    }
}

/// The decimal representation of `n`, most significant digit first, with no
/// leading zeros (a single `'0'` for zero itself).
pub open spec fn dec_rep(n: nat) -> Seq<char>
    decreases n,
{
    if n < 10 {
        seq![digit_char(n as int)]
    } else {
        dec_rep(n / 10).push(digit_char((n % 10) as int))
    }
}

/// `dec_rep(n)` left-padded with `'0'` to at least `width` characters.
pub open spec fn padded_dec(n: nat, width: nat) -> Seq<char> {
    if dec_rep(n).len() >= width {
        dec_rep(n)
    } else {
        Seq::new((width - dec_rep(n).len()) as nat, |i: int| '0') + dec_rep(n)
    }
}

pub open spec fn pow10(k: nat) -> nat
    decreases k,
{
    if k == 0 {
        1
    } else {
        10 * pow10((k - 1) as nat)
    }
}

proof fn lemma_dec_rep_len(n: nat, k: nat)
    requires
        k >= 1,
        n < pow10(k),
    ensures
        1 <= dec_rep(n).len() <= k,
    decreases k,
{
    if n < 10 {
    } else {
        if k == 1 {
            assert(pow10(1) == 10 * pow10(0));
            assert(false);
        }
        assert(pow10(k) == 10 * pow10((k - 1) as nat));
        assert(n / 10 < pow10((k - 1) as nat)) by (nonlinear_arith)
            requires
                n < 10 * pow10((k - 1) as nat),
        ;
        lemma_dec_rep_len(n / 10, (k - 1) as nat);
    }
}

fn digit_str(d: u64) -> (s: &'static str)
    requires
        d < 10,
    ensures
        s@ == seq![digit_char(d as int)],
{
    let s: &'static str = if d == 0 {
        "0"
    } else if d == 1 {
        "1"
    } else if d == 2 {
        "2"
    } else if d == 3 {
        "3"
    } else if d == 4 {
        "4"
    } else if d == 5 {
        "5"
    } else if d == 6 {
        "6"
    } else if d == 7 {
        "7"
    } else if d == 8 {
        "8"
    } else {
        "9"
    };
    proof {
        reveal_strlit("0");
        reveal_strlit("1");
        reveal_strlit("2");
        reveal_strlit("3");
        reveal_strlit("4");
        reveal_strlit("5");
        reveal_strlit("6");
        reveal_strlit("7");
        reveal_strlit("8");
        reveal_strlit("9");
        assert(s@ =~= seq![digit_char(d as int)]);
    }
    s
}

/// Appends the unpadded decimal representation of `n` to `out`.
pub fn append_dec(out: &mut String, n: u64)
    ensures
        final(out)@ == old(out)@ + dec_rep(n as nat),
    decreases n,
{
    if n < 10 {
        out.append(digit_str(n));
    } else {
        append_dec(out, n / 10);
        out.append(digit_str(n % 10));
        proof {
            assert(out@ =~= old(out)@ + dec_rep(n as nat));
        }
    }
}

/// Appends the decimal representation of `n`, zero-padded on the left to at
/// least `width` characters, to `out`.
pub fn append_padded(out: &mut String, n: u64, width: u64)
    requires
        width <= 32,
    ensures
        final(out)@ == old(out)@ + padded_dec(n as nat, width as nat),
{
    let ghost digits: Seq<char> = dec_rep(n as nat);
    proof {
        reveal_with_fuel(pow10, 21);
        assert((n as nat) < pow10(20));
        lemma_dec_rep_len(n as nat, 20);
    }
    // Count the digits of `n`.
    let mut m: u64 = n;
    let mut len: u64 = 1;
    while m >= 10
        invariant
            1 <= len <= 20,
            1 <= dec_rep(m as nat).len(),
            digits.len() == dec_rep(m as nat).len() + len - 1,
            digits == dec_rep(n as nat),
            digits.len() <= 20,
        decreases m,
    {
        proof {
            reveal_with_fuel(dec_rep, 3);
        }
        m = m / 10;
        len = len + 1;
    }
    assert(dec_rep(m as nat).len() == 1);
    assert(digits.len() == len);
    // Left padding.
    let mut k: u64 = len;
    while k < width
        invariant
            width <= 32,
            len <= k,
            k <= width || k == len,
            digits == dec_rep(n as nat),
            digits.len() == len,
            out@ == old(out)@ + Seq::new((k - len) as nat, |i: int| '0'),
        decreases width - k,
    {
        proof {
            reveal_strlit("0");
        }
        out.append("0");
        k = k + 1;
        proof {
            assert(out@ =~= old(out)@ + Seq::new((k - len) as nat, |i: int| '0'));
        }
    }
    append_dec(out, n);
    proof {
        assert(out@ =~= old(out)@ + padded_dec(n as nat, width as nat));
    }
}

} // verus!
