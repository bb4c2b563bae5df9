//! Big-endian numbers as byte sequences.

use vstd::prelude::*;

verus! {

/// 256 to the power `n`: how many values `n` bytes can hold.
pub open spec fn pow256(n: nat) -> nat
    decreases n,
{
    if n == 0 {
        1
    } else {
        256 * pow256((n - 1) as nat)
    }
}

/// The number that `s` spells, most significant byte first.
pub open spec fn be(s: Seq<u8>) -> nat
    decreases s.len(),
{
    if s.len() == 0 {
        0
    } else {
        be(s.drop_last()) * 256 + s.last() as nat
    }
}

/// The low `n` bytes of `v`, most significant byte first.
pub open spec fn be_bytes(v: nat, n: nat) -> Seq<u8>
    decreases n,
{
    if n == 0 {
        Seq::empty()
    } else {
        be_bytes(v / 256, (n - 1) as nat).push((v % 256) as u8)
    }
}

/// The values of `pow256` for the widths that fit a machine word.
pub proof fn lemma_pow256_table()
    ensures
        pow256(0) == 1,
        pow256(1) == 0x100,
        pow256(2) == 0x1_0000,
        pow256(3) == 0x100_0000,
        pow256(4) == 0x1_0000_0000,
        pow256(5) == 0x100_0000_0000,
        pow256(6) == 0x1_0000_0000_0000,
        pow256(7) == 0x100_0000_0000_0000,
        pow256(8) == 0x1_0000_0000_0000_0000,
{
    reveal_with_fuel(pow256, 9);
}

pub proof fn lemma_pow256_positive(n: nat)
    ensures
        pow256(n) > 0,
    decreases n,
{
    if n > 0 {
        lemma_pow256_positive((n - 1) as nat);
    }
}

pub proof fn lemma_pow256_monotonic(m: nat, n: nat)
    requires
        m <= n,
    ensures
        pow256(m) <= pow256(n),
    decreases n,
{
    if m < n {
        lemma_pow256_monotonic(m, (n - 1) as nat);
    }
}

/// `n` bytes spell a number below `pow256(n)`.
pub proof fn lemma_be_bound(s: Seq<u8>)
    ensures
        be(s) < pow256(s.len()),
    decreases s.len(),
{
    if s.len() > 0 {
        lemma_be_bound(s.drop_last());
    }
}

pub proof fn lemma_be_bytes_len(v: nat, n: nat)
    ensures
        be_bytes(v, n).len() == n,
    decreases n,
{
    if n > 0 {
        lemma_be_bytes_len(v / 256, (n - 1) as nat);
    }
}

/// Spelling a number out and reading it back gives the same number.
pub proof fn lemma_be_of_be_bytes(v: nat, n: nat)
    requires
        v < pow256(n),
    ensures
        be(be_bytes(v, n)) == v,
    decreases n,
{
    if n > 0 {
        let q = v / 256;
        assert(q < pow256((n - 1) as nat));
        lemma_be_of_be_bytes(q, (n - 1) as nat);
        let s = be_bytes(q, (n - 1) as nat).push((v % 256) as u8);
        assert(s.drop_last() =~= be_bytes(q, (n - 1) as nat));
    }
}

/// Reading a sequence and spelling the number out gives the same sequence.
pub proof fn lemma_be_bytes_of_be(s: Seq<u8>)
    ensures
        be_bytes(be(s), s.len()) == s,
    decreases s.len(),
{
    if s.len() > 0 {
        lemma_be_bytes_of_be(s.drop_last());
        let v = be(s);
        assert(v / 256 == be(s.drop_last()));
        assert(v % 256 == s.last() as nat);
        assert(s.drop_last().push(s.last()) =~= s);
    } else {
        assert(be_bytes(be(s), s.len()) =~= s);
    }
}

/// The most significant byte counts `pow256` of the bytes after it.
pub proof fn lemma_be_first(s: Seq<u8>)
    requires
        s.len() > 0,
    ensures
        be(s) == s[0] as nat * pow256((s.len() - 1) as nat) + be(s.drop_first()),
    decreases s.len(),
{
    if s.len() == 1 {
        assert(s.drop_last() =~= Seq::<u8>::empty());
        assert(s.drop_first() =~= Seq::<u8>::empty());
        assert(be(s.drop_last()) == 0 && be(s.drop_first()) == 0);
        assert(pow256(0) == 1);
        assert(s[0] as nat * pow256(0) == s[0] as nat) by (nonlinear_arith)
            requires
                pow256(0) == 1,
        ;
    } else {
        let t = s.drop_last();
        lemma_be_first(t);
        assert(s.drop_first().drop_last() =~= t.drop_first());
        let p = pow256((t.len() - 1) as nat);
        let a = s[0] as nat;
        let b = be(t.drop_first());
        assert((a * p + b) * 256 == a * (256 * p) + b * 256) by (nonlinear_arith);
        assert(s.drop_first().last() == s.last());
        assert(pow256((s.len() - 1) as nat) == 256 * p);
        assert(be(s.drop_first()) == b * 256 + s.last() as nat);
    }
}

/// Prepending a zero byte does not change the number.
pub proof fn lemma_be_leading_zeros(zeros: Seq<u8>, s: Seq<u8>)
    requires
        forall|i: int| 0 <= i < zeros.len() ==> zeros[i] == 0,
    ensures
        be(zeros + s) == be(s),
    decreases zeros.len(),
{
    if zeros.len() == 0 {
        assert(zeros + s =~= s);
    } else {
        let t = zeros + s;
        lemma_be_first(t);
        assert(t.drop_first() =~= zeros.drop_first() + s);
        lemma_be_leading_zeros(zeros.drop_first(), s);
    }
}

/// The number in the `len` bytes of `buf` from `pos` on.
pub fn be_value(buf: &[u8], pos: usize, len: usize) -> (v: u64)
    requires
        len <= 8,
        pos + len <= buf@.len(),
    ensures
        v == be(buf@.subrange(pos as int, pos + len)),
{
    let total: usize = buf.len();
    let mut v: u64 = 0;
    let mut i: usize = 0;
    while i < len
        invariant
            i <= len <= 8,
            pos + len <= total,
            total == buf@.len(),
            v == be(buf@.subrange(pos as int, pos + i)),
        decreases len - i,
    {
        let ghost s = buf@.subrange(pos as int, pos + i);
        let ghost t = buf@.subrange(pos as int, pos + i + 1);
        proof {
            assert(t.drop_last() =~= s);
            lemma_be_bound(t);
            lemma_pow256_monotonic((i + 1) as nat, 8);
            lemma_pow256_table();
        }
        v = v * 256 + buf[pos + i] as u64;
        i += 1;
    }
    v
}

/// Appends the low `n` bytes of `v` to `out`, most significant byte first.
pub fn push_be(out: &mut Vec<u8>, v: u64, n: usize)
    ensures
        final(out)@ == old(out)@ + be_bytes(v as nat, n as nat),
    decreases n,
{
    if n > 0 {
        push_be(out, v / 256, n - 1);
        out.push((v % 256) as u8);
    }
    assert(out@ =~= old(out)@ + be_bytes(v as nat, n as nat));
}

} // verus!
