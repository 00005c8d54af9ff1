//! Building display text: decimal and hexadecimal numbers.
use vstd::prelude::*;

verus! {

/// The lower-case hexadecimal digit for `d` (which is below 16).
pub open spec fn hex_char(d: u8) -> char {
    if d < 10 {
        (d + 48) as char
    } else {
        (d + 87) as char
    }
}

/// The one-character string holding the hexadecimal digit `d`.
pub fn hex_digit_str(d: u8) -> (s: &'static str)
    requires
        d < 16,
    ensures
        s@ == seq![hex_char(d)],
{
    match d {
        0 => { proof { reveal_strlit("0"); } "0" },
        1 => { proof { reveal_strlit("1"); } "1" },
        2 => { proof { reveal_strlit("2"); } "2" },
        3 => { proof { reveal_strlit("3"); } "3" },
        4 => { proof { reveal_strlit("4"); } "4" },
        5 => { proof { reveal_strlit("5"); } "5" },
        6 => { proof { reveal_strlit("6"); } "6" },
        7 => { proof { reveal_strlit("7"); } "7" },
        8 => { proof { reveal_strlit("8"); } "8" },
        9 => { proof { reveal_strlit("9"); } "9" },
        10 => { proof { reveal_strlit("a"); } "a" },
        11 => { proof { reveal_strlit("b"); } "b" },
        12 => { proof { reveal_strlit("c"); } "c" },
        13 => { proof { reveal_strlit("d"); } "d" },
        14 => { proof { reveal_strlit("e"); } "e" },
        _ => { proof { reveal_strlit("f"); } "f" },
    }
}

/// The decimal digits of `n`, most significant first.
pub open spec fn decimal(n: nat) -> Seq<char>
    decreases n,
{
    if n < 10 {
        seq![hex_char(n as u8)]
    } else {
        decimal(n / 10) + seq![hex_char((n % 10) as u8)]
    }
}

/// `0x` and the lower-case hexadecimal digits of `b`, without leading zeros.
pub open spec fn hex_prefixed(b: u8) -> Seq<char> {
    if b < 16 {
        "0x"@ + seq![hex_char(b)]
    } else {
        "0x"@ + seq![hex_char(b / 16), hex_char(b % 16)]
    }
}

/// Appends the decimal digits of `n` to `s`.
pub fn append_decimal(s: &mut String, n: u64)
    ensures
        final(s)@ == old(s)@ + decimal(n as nat),
{
    let mut rest: u64 = n;
    let mut rev: Vec<u8> = Vec::new();
    loop
        invariant_except_break
            decimal(n as nat) == decimal(rest as nat) + rev@.reverse().map_values(|d: u8| hex_char(d)),
            forall|i: int| 0 <= i < rev@.len() ==> rev@[i] < 10,
        ensures
            decimal(n as nat) == rev@.reverse().map_values(|d: u8| hex_char(d)),
            forall|i: int| 0 <= i < rev@.len() ==> rev@[i] < 10,
        decreases rest,
    {
        let ghost before = rev@;
        if rest < 10 {
            rev.push(rest as u8);
            proof {
                assert(rev@.reverse().map_values(|d: u8| hex_char(d)) =~= seq![hex_char(rest as u8)]
                    + before.reverse().map_values(|d: u8| hex_char(d)));
            }
            break;
        }
        rev.push((rest % 10) as u8);
        proof {
            assert(rev@.reverse().map_values(|d: u8| hex_char(d)) =~= seq![hex_char((rest % 10) as u8)]
                + before.reverse().map_values(|d: u8| hex_char(d)));
        }
        rest = rest / 10;
    }
    let k = rev.len();
    let ghost start = s@;
    let ghost body = rev@.reverse().map_values(|d: u8| hex_char(d));
    let mut j: usize = 0;
    while j < k
        invariant
            k == rev@.len(),
            forall|i: int| 0 <= i < rev@.len() ==> rev@[i] < 10,
            body == rev@.reverse().map_values(|d: u8| hex_char(d)),
            j <= k,
            s@ == start + body.subrange(0, j as int),
        decreases k - j,
    {
        s.append(hex_digit_str(rev[k - 1 - j]));
        proof {
            assert(body.subrange(0, j + 1) =~= body.subrange(0, j as int) + seq![body[j as int]]);
        }
        j = j + 1;
    }
    proof {
        assert(body.subrange(0, k as int) =~= body);
    }
}

/// Appends `0x` and the lower-case hexadecimal digits of `b` to `s`.
pub fn append_hex_prefixed(s: &mut String, b: u8)
    ensures
        final(s)@ == old(s)@ + hex_prefixed(b),
{
    s.append("0x");
    if b >= 16 {
        s.append(hex_digit_str(b / 16));
    }
    s.append(hex_digit_str(b % 16));
    proof {
        if b < 16 {
            assert(b % 16 == b);
        }
    }
}

} // verus!
