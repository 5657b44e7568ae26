//! Little-endian byte strings for the fixed-width integers of the wire
//! format, with the facts the codec needs: a width-`n` encoding has length
//! `n`, decoding inverts encoding, and a decoded value is below `256^n`.

use vstd::prelude::*;
use vstd::arithmetic::div_mod::lemma_div_denominator;

verus! {

/// `256^n`.
pub open spec fn pow256(n: nat) -> nat
    decreases n,
{
    if n == 0 {
        1
    } else {
        256 * pow256((n - 1) as nat)
    }
}

/// The `n` little-endian bytes of `v` (low byte first); `v` is truncated to
/// its low `n` bytes.
pub open spec fn le_bytes(v: nat, n: nat) -> Seq<u8>
    decreases n,
{
    if n == 0 {
        Seq::empty()
    } else {
        seq![(v % 256) as u8] + le_bytes(v / 256, (n - 1) as nat)
    }
}

/// The value of a little-endian byte string.
pub open spec fn le_val(s: Seq<u8>) -> nat
    decreases s.len(),
{
    if s.len() == 0 {
        0
    } else {
        s[0] as nat + 256 * le_val(s.drop_first())
    }
}

pub proof fn lemma_pow256_pos(n: nat)
    ensures
        pow256(n) >= 1,
    decreases n,
{
    if n > 0 {
        lemma_pow256_pos((n - 1) as nat);
    }
}

pub proof fn lemma_le_bytes_len(v: nat, n: nat)
    ensures
        le_bytes(v, n).len() == n,
    decreases n,
{
    if n > 0 {
        lemma_le_bytes_len(v / 256, (n - 1) as nat);
    }
}

pub proof fn lemma_le_val_bound(s: Seq<u8>)
    ensures
        le_val(s) < pow256(s.len()),
    decreases s.len(),
{
    if s.len() > 0 {
        lemma_le_val_bound(s.drop_first());
    }
}

pub proof fn lemma_le_val_le_bytes(v: nat, n: nat)
    requires
        v < pow256(n),
    ensures
        le_val(le_bytes(v, n)) == v,
    decreases n,
{
    if n > 0 {
        assert(v / 256 < pow256((n - 1) as nat)) by {
            assert(pow256(n) == 256 * pow256((n - 1) as nat));
            assert(v < 256 * pow256((n - 1) as nat));
            assert(v / 256 < pow256((n - 1) as nat)) by (nonlinear_arith)
                requires
                    v < 256 * pow256((n - 1) as nat),
            ;
        }
        lemma_le_val_le_bytes(v / 256, (n - 1) as nat);
        let s = le_bytes(v, n);
        assert(s.drop_first() =~= le_bytes(v / 256, (n - 1) as nat));
        assert(le_val(s) == v % 256 + 256 * (v / 256));
    }
}

pub proof fn lemma_le_bytes_snoc(v: nat, n: nat)
    ensures
        le_bytes(v, n + 1) == le_bytes(v, n).push((v / pow256(n) % 256) as u8),
    decreases n,
{
    if n == 0 {
        assert(le_bytes(v / 256, 0) =~= Seq::<u8>::empty());
        assert(pow256(0) == 1);
        assert(v / 1 == v);
        assert(le_bytes(v, 1) =~= le_bytes(v, 0).push((v / pow256(0) % 256) as u8));
    } else {
        lemma_le_bytes_snoc(v / 256, (n - 1) as nat);
        assert(v / 256 / pow256((n - 1) as nat) == v / pow256(n)) by {
            lemma_pow256_pos((n - 1) as nat);
            lemma_div_denominator(v as int, 256, pow256((n - 1) as nat) as int);
            assert(256 * pow256((n - 1) as nat) == pow256(n));
        }
        assert(le_bytes(v, n + 1) =~= le_bytes(v, n).push((v / pow256(n) % 256) as u8));
    }
}

/// Appends the `n` little-endian bytes of `v` to `out`.
pub fn push_le(out: &mut Vec<u8>, v: u128, n: usize)
    ensures
        final(out)@ == old(out)@ + le_bytes(v as nat, n as nat),
{
    let ghost init = out@;
    let mut x: u128 = v;
    let mut i: usize = 0;
    proof {
        assert(out@ =~= init + le_bytes(v as nat, 0));
        assert(pow256(0) == 1);
        assert(v as nat / 1 == v as nat);
    }
    while i < n
        invariant
            i <= n,
            x as nat == v as nat / pow256(i as nat),
            out@ == init + le_bytes(v as nat, i as nat),
        decreases n - i,
    {
        proof {
            lemma_le_bytes_snoc(v as nat, i as nat);
            lemma_le_bytes_len(v as nat, i as nat);
        }
        out.push((x % 256) as u8);
        proof {
            assert((x % 256) as u8 == (v as nat / pow256(i as nat) % 256) as u8);
            assert(out@ =~= init + le_bytes(v as nat, (i + 1) as nat));
            lemma_pow256_pos(i as nat);
            lemma_div_denominator(v as int, pow256(i as nat) as int, 256);
            assert(pow256(i as nat) * 256 == 256 * pow256(i as nat)) by (nonlinear_arith);
            assert(pow256((i + 1) as nat) == 256 * pow256(i as nat));
        }
        x = x / 256;
        i = i + 1;
    }
}

/// Reads the value of the `n` little-endian bytes of `s` starting at `i`.
pub fn read_le(s: &[u8], i: usize, n: usize) -> (r: u128)
    requires
        i + n <= s@.len(),
        n <= 16,
    ensures
        r as nat == le_val(s@.subrange(i as int, i + n)),
{
    let slen: usize = s.len();
    let mut acc: u128 = 0;
    let mut j: usize = i + n;
    while j > i
        invariant
            i <= j <= i + n <= s@.len(),
            n <= 16,
            acc as nat == le_val(s@.subrange(j as int, i + n)),
            (acc as nat) < pow256((i + n - j) as nat),
        decreases j,
    {
        proof {
            lemma_le_val_bound(s@.subrange(j as int, i + n));
            assert(pow256((i + n - j) as nat) <= pow256(16)) by {
                lemma_pow256_increases((i + n - j) as nat, 16);
            }
            assert(pow256(16) == 0x1_0000_0000_0000_0000_0000_0000_0000_0000) by {
                reveal_with_fuel(pow256, 17);
            }
            assert(256 * pow256((i + n - j) as nat) == pow256((i + n - j + 1) as nat));
            assert((acc as nat) * 256 + 255 < pow256((i + n - j + 1) as nat)) by (nonlinear_arith)
                requires
                    (acc as nat) < pow256((i + n - j) as nat),
                    256 * pow256((i + n - j) as nat) == pow256((i + n - j + 1) as nat),
            ;
            assert(pow256((i + n - j + 1) as nat) <= pow256(16)) by {
                lemma_pow256_increases((i + n - j + 1) as nat, 16);
            }
        }
        j = j - 1;
        acc = acc * 256 + (s[j] as u128);
        proof {
            let sub = s@.subrange(j as int, i + n);
            assert(sub[0] == s@[j as int]);
            assert(sub.drop_first() =~= s@.subrange(j + 1, i + n));
        }
    }
    proof {
        assert(s@.subrange(i as int, i + n) =~= s@.subrange(j as int, i + n));
    }
    acc
}

pub proof fn lemma_pow256_increases(a: nat, b: nat)
    requires
        a <= b,
    ensures
        pow256(a) <= pow256(b),
    decreases b,
{
    if a < b {
        lemma_pow256_increases(a, (b - 1) as nat);
        assert(pow256(b) == 256 * pow256((b - 1) as nat));
        assert(pow256((b - 1) as nat) <= 256 * pow256((b - 1) as nat)) by (nonlinear_arith)
            requires
                pow256((b - 1) as nat) >= 0,
        ;
    }
}

} // verus!
