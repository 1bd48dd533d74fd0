//! Big-endian encoding of unsigned integer fields.

use vstd::prelude::*;

verus! {

/// `256` raised to the power `n`.
pub open spec fn pow256(n: nat) -> nat
    decreases n,
{
    if n == 0 {
        1
    } else {
        256 * pow256((n - 1) as nat)
    }
}

/// The `n` big-endian bytes of `v` (the low `n` bytes when `v` is larger).
pub open spec fn be_bytes(v: nat, n: nat) -> Seq<u8>
    decreases n,
{
    if n == 0 {
        Seq::empty()
    } else {
        be_bytes(v / 256, (n - 1) as nat).push((v % 256) as u8)
    }
}

/// The number whose big-endian representation is `s`.
pub open spec fn be_value(s: Seq<u8>) -> nat
    decreases s.len(),
{
    if s.len() == 0 {
        0
    } else {
        be_value(s.drop_last()) * 256 + s.last() as nat
    }
}

pub proof fn lemma_pow256_positive(n: nat)
    ensures
        pow256(n) >= 1,
    decreases n,
{
    if n > 0 {
        lemma_pow256_positive((n - 1) as nat);
    }
}

pub proof fn lemma_be_bytes_len(v: nat, n: nat)
    ensures
        be_bytes(v, n).len() == n,
    decreases n,
{
    if n > 0 {
        lemma_be_bytes_len(v / 256, (n - 1) as nat);
    }
}

/// Reading back the bytes of a value that fits in `n` bytes gives the value.
pub proof fn lemma_be_value_of_bytes(v: nat, n: nat)
    requires
        v < pow256(n),
    ensures
        be_value(be_bytes(v, n)) == v,
    decreases n,
{
    if n > 0 {
        let p = pow256((n - 1) as nat);
        let q = v / 256;
        assert(q < p) by (nonlinear_arith)
            requires
                v < 256 * p,
                q == v / 256,
        ;
        lemma_be_value_of_bytes(q, (n - 1) as nat);
        let s = be_bytes(v, n);
        assert(s.drop_last() =~= be_bytes(q, (n - 1) as nat));
        assert(v == q * 256 + v % 256) by (nonlinear_arith)
            requires
                q == v / 256,
        ;
    }
}

/// A big-endian value is below `256^len`.
pub proof fn lemma_be_value_bound(s: Seq<u8>)
    ensures
        be_value(s) < pow256(s.len()),
    decreases s.len(),
{
    if s.len() > 0 {
        lemma_be_value_bound(s.drop_last());
        let a = be_value(s.drop_last());
        let p = pow256(s.drop_last().len());
        let b = s.last() as nat;
        assert(a * 256 + b < 256 * p) by (nonlinear_arith)
            requires
                a < p,
                b < 256,
        ;
    }
}

/// Writing a value read from bytes gives back those bytes.
pub proof fn lemma_be_bytes_of_value(s: Seq<u8>)
    ensures
        be_bytes(be_value(s), s.len()) =~= s,
    decreases s.len(),
{
    if s.len() > 0 {
        let rest = s.drop_last();
        let a = be_value(rest);
        let b = s.last() as int;
        vstd::arithmetic::div_mod::lemma_fundamental_div_mod_converse(
            a * 256 + b,
            256,
            a as int,
            b,
        );
        lemma_be_bytes_of_value(rest);
        assert(s =~= rest.push(s.last()));
    }
}

/// Appends the `n` big-endian bytes of `v` to `out`.
pub fn append_be(out: &mut Vec<u8>, v: u64, n: usize)
    ensures
        final(out)@ == old(out)@ + be_bytes(v as nat, n as nat),
    decreases n,
{
    if n > 0 {
        append_be(out, v / 256, n - 1);
        out.push((v % 256) as u8);
        assert(old(out)@ + be_bytes(v as nat, n as nat) =~= (old(out)@ + be_bytes(
            (v / 256) as nat,
            (n - 1) as nat,
        )).push((v % 256) as u8));
    }
}

/// Reads the big-endian number held in `bytes[start..start + n]`.
pub fn read_be(bytes: &[u8], start: usize, n: usize) -> (r: u64)
    requires
        n <= 8,
        start + n <= bytes@.len(),
    ensures
        r as nat == be_value(bytes@.subrange(start as int, start + n)),
{
    let len = bytes.len();
    let mut acc: u64 = 0;
    let mut i: usize = 0;
    proof {
        lemma_pow256_8();
    }
    while i < n
        invariant
            n <= 8,
            start + n <= bytes@.len(),
            len == bytes@.len(),
            i <= n,
            acc as nat == be_value(bytes@.subrange(start as int, start + i)),
            pow256(8) == 0x1_0000_0000_0000_0000,
        decreases n - i,
    {
        proof {
            lemma_be_value_bound(bytes@.subrange(start as int, start + i));
            lemma_pow256_monotone(i as nat, 7);
        }
        let b = bytes[start + i];
        assert(acc * 256 + b < 0x1_0000_0000_0000_0000) by (nonlinear_arith)
            requires
                acc < pow256(i as nat),
                pow256(i as nat) <= pow256(7),
                256 * pow256(7) == 0x1_0000_0000_0000_0000,
                b < 256,
        ;
        let ghost prev = bytes@.subrange(start as int, start + i);
        acc = acc * 256 + b as u64;
        i = i + 1;
        assert(bytes@.subrange(start as int, start + i).drop_last() =~= prev);
    }
    acc
}

pub proof fn lemma_pow256_8()
    ensures
        pow256(8) == 0x1_0000_0000_0000_0000,
        pow256(2) == 0x1_0000,
        pow256(4) == 0x1_0000_0000,
{
    reveal_with_fuel(pow256, 9);
}

pub proof fn lemma_pow256_monotone(a: nat, b: nat)
    requires
        a <= b,
    ensures
        pow256(a) <= pow256(b),
    decreases b,
{
    if a < b {
        lemma_pow256_monotone(a, (b - 1) as nat);
    }
}

} // verus!
