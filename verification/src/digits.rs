//! Decimal digits: reading them out of labels and writing them into reports.

use vstd::prelude::*;

verus! {

/// True when `c` is one of the characters '0' through '9'.
pub open spec fn is_dec_digit(c: char) -> bool {
    48 <= c as int <= 57
}

/// Numeric value of a digit character; 0 for anything else.
pub open spec fn digit_val(c: char) -> nat {
    if is_dec_digit(c) {
        (c as int - 48) as nat
    } else {
        0
    }
}

/// The digit character for a value below ten.
pub open spec fn dec_digit(d: int) -> char {
    if d == 0 {
        '0'
    } else if d == 1 {
        '1'
    } else if d == 2 {
        '2'
    } else if d == 3 {
        '3'
    } else if d == 4 {
        '4'
    } else if d == 5 {
        '5'
    } else if d == 6 {
        '6'
    } else if d == 7 {
        '7'
    } else if d == 8 {
        '8'
    } else {
        '9'
    }
}

/// Decimal rendering of `n`, without leading zeroes (a lone zero for 0).
pub open spec fn dec_str(n: nat) -> Seq<char>
    decreases n,
{
    if n < 10 {
        seq![dec_digit(n as int)]
    } else {
        dec_str(n / 10) + seq![dec_digit((n % 10) as int)]
    }
}

/// True when every character of `s` is a decimal digit.
pub open spec fn all_dec_digits(s: Seq<char>) -> bool {
    forall|i: int| 0 <= i < s.len() ==> is_dec_digit(#[trigger] s[i])
}

/// Value of `s` read as a decimal numeral.
pub open spec fn dec_val(s: Seq<char>) -> nat
    decreases s.len(),
{
    if s.len() == 0 {
        0
    } else {
        dec_val(s.drop_last()) * 10 + digit_val(s.last())
    }
}

/// A numeral is at least as large as any of its prefixes.
pub proof fn lemma_dec_val_prefix_le(s: Seq<char>, i: int)
    requires
        0 <= i <= s.len(),
    ensures
        dec_val(s.subrange(0, i)) <= dec_val(s),
    decreases s.len(),
{
    if i == s.len() {
        assert(s.subrange(0, i) =~= s);
    } else {
        assert(s.subrange(0, i) =~= s.drop_last().subrange(0, i));
        lemma_dec_val_prefix_le(s.drop_last(), i);
    }
}

/// Reads one character as a decimal digit.
pub fn digit_of(c: char) -> (r: Option<u8>)
    ensures
        r is Some <==> is_dec_digit(c),
        is_dec_digit(c) ==> r == Some(digit_val(c) as u8),
{
    let u = c as u32;
    if 48 <= u && u <= 57 {
        Some((u - 48) as u8)
    } else {
        None
    }
}

/// Appends the digit character for `d` to `out`.
pub fn push_digit(out: &mut String, d: u8)
    requires
        d < 10,
    ensures
        final(out)@ == old(out)@ + seq![dec_digit(d as int)],
{
    if d == 0 {
        proof { reveal_strlit("0"); }
        out.append("0");
    } else if d == 1 {
        proof { reveal_strlit("1"); }
        out.append("1");
    } else if d == 2 {
        proof { reveal_strlit("2"); }
        out.append("2");
    } else if d == 3 {
        proof { reveal_strlit("3"); }
        out.append("3");
    } else if d == 4 {
        proof { reveal_strlit("4"); }
        out.append("4");
    } else if d == 5 {
        proof { reveal_strlit("5"); }
        out.append("5");
    } else if d == 6 {
        proof { reveal_strlit("6"); }
        out.append("6");
    } else if d == 7 {
        proof { reveal_strlit("7"); }
        out.append("7");
    } else if d == 8 {
        proof { reveal_strlit("8"); }
        out.append("8");
    } else {
        proof { reveal_strlit("9"); }
        out.append("9");
    }
}

/// Appends the decimal rendering of `n` to `out`.
pub fn push_dec_u32(out: &mut String, n: u32)
    ensures
        final(out)@ == old(out)@ + dec_str(n as nat),
    decreases n,
{
    if n >= 10 {
        push_dec_u32(out, n / 10);
    }
    push_digit(out, (n % 10) as u8);
    proof {
        assert(final(out)@ =~= old(out)@ + dec_str(n as nat));
    }
}

/// Parses the characters of `s` from position `from` to the end as a
/// decimal numeral. Returns the value exactly when that suffix is
/// nonempty, contains digits only, and fits in a `u32`.
pub fn parse_u32_from(s: &str, from: usize) -> (r: Option<u32>)
    ensures
        r is Some <==> from < s@.len() && all_dec_digits(s@.skip(from as int)) && dec_val(
            s@.skip(from as int),
        ) <= u32::MAX,
        r is Some ==> r == Some(dec_val(s@.skip(from as int)) as u32),
{
    let n = s.unicode_len();
    if from >= n {
        return None;
    }
    let ghost t = s@.skip(from as int);
    let mut acc: u32 = 0;
    let mut i: usize = from;
    while i < n
        invariant
            from <= i <= n,
            n == s@.len(),
            t == s@.skip(from as int),
            acc == dec_val(t.subrange(0, i - from)),
            all_dec_digits(t.subrange(0, i - from)),
        decreases n - i,
    {
        let c = s.get_char(i);
        assert(c == t[i - from]);
        let d = match digit_of(c) {
            Some(d) => d,
            None => {
                assert(!all_dec_digits(t));
                return None;
            },
        };
        if acc > 429496729 || (acc == 429496729 && d > 5) {
            proof {
                assert(t.subrange(0, i - from + 1).drop_last() =~= t.subrange(0, i - from));
                assert(dec_val(t.subrange(0, i - from + 1)) > u32::MAX);
                lemma_dec_val_prefix_le(t, i - from + 1);
            }
            return None;
        }
        proof {
            assert(t.subrange(0, i - from + 1).drop_last() =~= t.subrange(0, i - from));
        }
        acc = acc * 10 + (d as u32);
        i = i + 1;
    }
    proof {
        assert(t.subrange(0, n - from) =~= t);
    }
    Some(acc)
}

} // verus!
