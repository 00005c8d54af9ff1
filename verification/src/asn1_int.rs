use vstd::prelude::*;
use vstd::arithmetic::div_mod::{
    lemma_fundamental_div_mod, lemma_fundamental_div_mod_converse_div,
    lemma_fundamental_div_mod_converse_mod,
};

use crate::der::pow256;

verus! {

/// The absolute value of `v`.
pub open spec fn magnitude(v: int) -> int {
    if v < 0 {
        -v
    } else {
        v
    }
}

/// Floor division by 256 and its remainder; the quotient is smaller in magnitude.
pub proof fn lemma_floor_div_256(v: int)
    ensures
        v == (v / 256) * 256 + v % 256,
        0 <= v % 256 < 256,
        (v >= 128 || v < -128) ==> magnitude(v / 256) < magnitude(v),
{
    lemma_fundamental_div_mod(v, 256);
    assert(v == (v / 256) * 256 + v % 256) by (nonlinear_arith)
        requires
            v == 256 * (v / 256) + v % 256,
    ;
    if v >= 128 {
        assert(v / 256 >= 0 && v / 256 < v) by (nonlinear_arith)
            requires
                v == (v / 256) * 256 + v % 256,
                0 <= v % 256 < 256,
                v >= 128,
        ;
    } else if v < -128 {
        assert(v / 256 < 0 && v / 256 > v) by (nonlinear_arith)
            requires
                v == (v / 256) * 256 + v % 256,
                0 <= v % 256 < 256,
                v < -128,
        ;
    }
}

/// The shortest two's-complement big-endian encoding of `v` (the content of a
/// DER INTEGER).
pub open spec fn int_bytes(v: int) -> Seq<u8>
    decreases magnitude(v),
{
    if -128 <= v < 128 {
        seq![(if v < 0 { v + 256 } else { v }) as u8]
    } else {
        proof {
            lemma_floor_div_256(v);
        }
        int_bytes(v / 256).push((v % 256) as u8)
    }
}

/// The value of a two's-complement big-endian byte string.
pub open spec fn int_value(b: Seq<u8>) -> int
    decreases b.len(),
{
    if b.len() == 0 {
        0
    } else if b.len() == 1 {
        if b[0] >= 128 {
            b[0] - 256
        } else {
            b[0] as int
        }
    } else {
        int_value(b.drop_last()) * 256 + b.last()
    }
}

/// The byte string is a shortest two's-complement encoding: non-empty, and its
/// first nine bits are neither all zero nor all one.
pub open spec fn int_minimal(b: Seq<u8>) -> bool {
    &&& b.len() >= 1
    &&& b.len() >= 2 ==> !(b[0] == 0 && b[1] < 128)
    &&& b.len() >= 2 ==> !(b[0] == 0xff && b[1] >= 128)
}

/// The encoding of `v` reads back as `v`, is minimal, and takes at most `k`
/// bytes when `v` lies in the `k`-byte signed range.
pub proof fn lemma_int_bytes(v: int)
    ensures
        int_value(int_bytes(v)) == v,
        int_minimal(int_bytes(v)),
        int_bytes(v).len() >= 1,
        int_bytes(v).len() >= 2 ==> (v >= 128 || v < -128),
        int_bytes(v).len() >= 1 && (v >= 0 <==> int_bytes(v)[0] < 128),
    decreases magnitude(v),
{
    if -128 <= v < 128 {
        let b = int_bytes(v);
        assert(b.len() == 1);
    } else {
        lemma_floor_div_256(v);
        let q = v / 256;
        let r = (v % 256) as u8;
        lemma_int_bytes(q);
        let p = int_bytes(q);
        let b = int_bytes(v);
        assert(b == p.push(r));
        assert(b.drop_last() == p);
        assert(b[0] == p[0]);
        if p.len() == 1 {
            assert(b[1] == r);
            if v >= 128 {
                assert(q >= 0);
                assert(p[0] as int == q);
                if q == 0 {
                    assert(r as int == v);
                }
            } else {
                assert(q < 0);
                assert(p[0] as int == q + 256);
                if q == -1 {
                    assert(r as int == v + 256);
                }
            }
        } else {
            assert(b[1] == p[1]);
        }
        assert(v >= 0 <==> q >= 0);
    }
}

/// The encoding of a value within the `k`-byte signed range takes at most `k` bytes.
pub proof fn lemma_int_bytes_len(v: int, k: nat)
    requires
        k >= 1,
        -128 * pow256((k - 1) as nat) <= v < 128 * pow256((k - 1) as nat),
    ensures
        int_bytes(v).len() <= k,
    decreases magnitude(v),
{
    if !(-128 <= v < 128) {
        lemma_floor_div_256(v);
        if k == 1 {
            assert(pow256(0) == 1);
        } else {
            let q = v / 256;
            let p2 = pow256((k - 2) as nat) as int;
            assert(pow256((k - 1) as nat) == 256 * pow256((k - 2) as nat));
            assert(-128 * p2 <= q < 128 * p2);
            lemma_int_bytes_len(q, (k - 1) as nat);
        }
    }
}

/// A minimal two's-complement byte string is the encoding of its value.
pub proof fn lemma_int_value_minimal(b: Seq<u8>)
    requires
        int_minimal(b),
    ensures
        int_bytes(int_value(b)) == b,
        b.len() >= 2 ==> (int_value(b) >= 128 || int_value(b) < -128),
    decreases b.len(),
{
    if b.len() == 1 {
        assert(b =~= seq![b[0]]);
    } else {
        let p = b.drop_last();
        let x = b.last();
        assert(int_minimal(p));
        lemma_int_value_minimal(p);
        let q = int_value(p);
        let v = int_value(b);
        assert(v == q * 256 + x);
        lemma_fundamental_div_mod_converse_div(v, 256, q, x as int);
        lemma_fundamental_div_mod_converse_mod(v, 256, q, x as int);
        if p.len() == 1 {
            assert(p[0] == b[0]);
            assert(b[1] == x);
        }
        assert(v >= 128 || v < -128);
        assert(b =~= p.push(x));
    }
}

/// A two's-complement string of `k >= 1` bytes holds a value in the `k`-byte
/// signed range, `-128 * 256^(k-1) <= v < 128 * 256^(k-1)`.
pub proof fn lemma_int_value_range(b: Seq<u8>)
    requires
        b.len() >= 1,
    ensures
        -128 * pow256((b.len() - 1) as nat) <= int_value(b) < 128 * pow256((b.len() - 1) as nat),
    decreases b.len(),
{
    if b.len() == 1 {
        assert(pow256(0) == 1);
    } else {
        let p = b.drop_last();
        lemma_int_value_range(p);
        assert(pow256((b.len() - 1) as nat) == 256 * pow256((p.len() - 1) as nat));
    }
}

/// The content bytes of a DER INTEGER holding `v`: its shortest two's-complement
/// big-endian form.
pub fn encode_integer(v: i128) -> (out: Vec<u8>)
    ensures
        out@ == int_bytes(v as int),
{
    let mut rest: i128 = v;
    let mut rev: Vec<u8> = Vec::new();
    loop
        invariant_except_break
            int_bytes(v as int) == int_bytes(rest as int) + rev@.reverse(),
        ensures
            int_bytes(v as int) == rev@.reverse(),
        decreases magnitude(rest as int),
    {
        let ghost before = rev@;
        if -128 <= rest && rest < 128 {
            let b: u8 = if rest < 0 {
                (rest + 256) as u8
            } else {
                rest as u8
            };
            rev.push(b);
            proof {
                assert(rev@.reverse() =~= seq![b] + before.reverse());
            }
            break;
        }
        proof {
            lemma_floor_div_256(rest as int);
        }
        if rest >= 0 {
            let w = rest as u128;
            rev.push((w % 256) as u8);
            proof {
                assert(rev@.reverse() =~= seq![(w % 256) as u8] + before.reverse());
                assert(int_bytes(rest as int) == int_bytes(rest / 256).push((rest % 256) as u8));
            }
            rest = (w / 256) as i128;
        } else {
            let w = (-1 - rest) as u128;
            let q = w / 256;
            let r = w % 256;
            rev.push((255 - r) as u8);
            proof {
                assert(rev@.reverse() =~= seq![(255 - r) as u8] + before.reverse());
                assert(w == q * 256 + r) by (nonlinear_arith)
                    requires
                        q == w / 256,
                        r == w % 256,
                ;
                let x = rest as int;
                assert(x == (-1 - q) * 256 + (255 - r));
                lemma_fundamental_div_mod_converse_div(x, 256, -1 - q, 255 - r);
                lemma_fundamental_div_mod_converse_mod(x, 256, -1 - q, 255 - r);
                assert(int_bytes(x) == int_bytes(x / 256).push((x % 256) as u8));
            }
            rest = -1 - (q as i128);
        }
    }
    let n = rev.len();
    let ghost body = rev@.reverse();
    let mut out: Vec<u8> = Vec::new();
    let mut j: usize = 0;
    while j < n
        invariant
            n == rev.len(),
            body == rev@.reverse(),
            j <= n,
            out@ == body.subrange(0, j as int),
        decreases n - j,
    {
        out.push(rev[n - 1 - j]);
        j = j + 1;
        proof {
            assert(body.subrange(0, j as int) =~= body.subrange(0, j - 1).push(body[j - 1]));
        }
    }
    proof {
        assert(body.subrange(0, n as int) =~= body);
    }
    out
}

/// The value of the content bytes of a DER INTEGER of one to sixteen bytes.
pub fn decode_integer(bytes: &[u8]) -> (v: i128)
    requires
        1 <= bytes@.len() <= 16,
    ensures
        v as int == int_value(bytes@),
{
    let n = bytes.len();
    let first = bytes[0];
    let mut acc: i128 = if first >= 128 {
        first as i128 - 256
    } else {
        first as i128
    };
    proof {
        assert(bytes@.subrange(0, 1).len() == 1);
        assert(bytes@.subrange(0, 1)[0] == first);
        assert(pow256(15) == 0x1_0000_0000_0000_0000_0000_0000_0000_00) by {
            reveal_with_fuel(pow256, 16);
        }
    }
    let mut i: usize = 1;
    while i < n
        invariant
            n == bytes@.len(),
            1 <= i <= n <= 16,
            pow256(15) == 0x1_0000_0000_0000_0000_0000_0000_0000_00,
            acc as int == int_value(bytes@.subrange(0, i as int)),
        decreases n - i,
    {
        let ghost pre = bytes@.subrange(0, i as int);
        proof {
            lemma_int_value_range(pre);
            lemma_pow256_mono((i - 1) as nat, 14);
            assert(bytes@.subrange(0, i + 1).drop_last() =~= pre);
        }
        acc = acc * 256 + bytes[i] as i128;
        i = i + 1;
    }
    proof {
        assert(bytes@.subrange(0, n as int) =~= bytes@);
    }
    acc
}

proof fn lemma_pow256_mono(a: nat, b: nat)
    requires
        a <= b,
    ensures
        pow256(a) <= pow256(b),
    decreases b,
{
    if a < b {
        lemma_pow256_mono(a, (b - 1) as nat);
    }
}

} // verus!
