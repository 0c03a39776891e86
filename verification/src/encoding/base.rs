//! Little-endian integers: the building block of strict encoding.

use vstd::prelude::*;

use super::serialize::DecodeError;

verus! {

/// `256` to the power of `n`.
pub open spec fn pow256(n: nat) -> nat
    decreases n,
{
    if n == 0 {
        1
    } else {
        256 * pow256((n - 1) as nat)
    }
}

/// The `n` lowest bytes of `v`, least significant first.
pub open spec fn le_bytes(v: nat, n: nat) -> Seq<u8>
    decreases n,
{
    if n == 0 {
        Seq::empty()
    } else {
        seq![(v % 256) as u8] + le_bytes(v / 256, (n - 1) as nat)
    }
}

/// The number whose little-endian bytes are `s`.
pub open spec fn le_value(s: Seq<u8>) -> nat
    decreases s.len(),
{
    if s.len() == 0 {
        0
    } else {
        s[0] as nat + 256 * le_value(s.drop_first())
    }
}

pub proof fn lemma_pow256_pos(n: nat)
    ensures
        pow256(n) >= 1,
    decreases n,
{
    if n > 0 {
        lemma_pow256_pos((n - 1) as nat);
    }
}

/// Reading back `n` little-endian bytes of a number below `256^n` gives the number.
pub proof fn lemma_le_roundtrip(v: nat, n: nat)
    requires
        v < pow256(n),
    ensures
        le_bytes(v, n).len() == n,
        le_value(le_bytes(v, n)) == v,
    decreases n,
{
    if n > 0 {
        let s = le_bytes(v, n);
        assert(v / 256 < pow256((n - 1) as nat)) by (nonlinear_arith)
            requires
                v < 256 * pow256((n - 1) as nat),
        ;
        lemma_le_roundtrip(v / 256, (n - 1) as nat);
        assert(s.drop_first() == le_bytes(v / 256, (n - 1) as nat));
        assert(v == v % 256 + 256 * (v / 256)) by (nonlinear_arith);
    }
}

/// The value of `n` bytes is below `256^n`.
pub proof fn lemma_le_value_bound(s: Seq<u8>)
    ensures
        le_value(s) < pow256(s.len()),
    decreases s.len(),
{
    if s.len() > 0 {
        lemma_le_value_bound(s.drop_first());
        let r = le_value(s.drop_first());
        let p = pow256((s.len() - 1) as nat);
        assert(s[0] as nat + 256 * r < 256 * p) by (nonlinear_arith)
            requires
                r < p,
                s[0] < 256,
        ;
    }
}

/// Writing back the value of `n` bytes gives the same bytes.
pub proof fn lemma_le_bytes_of_value(s: Seq<u8>)
    ensures
        le_bytes(le_value(s), s.len()) == s,
    decreases s.len(),
{
    if s.len() > 0 {
        let v = le_value(s);
        let r = le_value(s.drop_first());
        lemma_le_bytes_of_value(s.drop_first());
        assert(v % 256 == s[0] && v / 256 == r) by (nonlinear_arith)
            requires
                v == s[0] as nat + 256 * r,
                s[0] < 256,
        ;
        assert(le_bytes(v, s.len()) == seq![s[0]] + s.drop_first());
        assert(seq![s[0]] + s.drop_first() == s);
    }
}

/// Appends the `n` lowest little-endian bytes of `v` to `out`.
pub fn write_le(v: u128, n: usize, out: &mut Vec<u8>)
    requires
        n <= 16,
    ensures
        final(out)@ == old(out)@ + le_bytes(v as nat, n as nat),
{
    let mut rest: u128 = v;
    let mut i: usize = 0;
    let ghost start = old(out)@;
    while i < n
        invariant
            i <= n,
            le_bytes(v as nat, i as nat) + le_bytes(rest as nat, (n - i) as nat) == le_bytes(
                v as nat,
                n as nat,
            ),
            out@ == start + le_bytes(v as nat, i as nat),
        decreases n - i,
    {
        let byte = (rest % 256) as u8;
        proof {
            lemma_le_split(v as nat, i as nat, rest as nat, (n - i) as nat);
        }
        out.push(byte);
        rest = rest / 256;
        i = i + 1;
        assert(out@ == start + le_bytes(v as nat, i as nat)) by {
            assert(le_bytes(v as nat, i as nat) == le_bytes(v as nat, (i - 1) as nat).push(byte));
        }
    }
    assert(le_bytes(v as nat, n as nat) + Seq::<u8>::empty() == le_bytes(v as nat, n as nat));
}

/// `le_bytes` of `v` splits into its first `i` bytes and the bytes of what remains.
proof fn lemma_le_split(v: nat, i: nat, rest: nat, k: nat)
    requires
        k > 0,
        le_bytes(v, i) + le_bytes(rest, k) == le_bytes(v, i + k),
    ensures
        le_bytes(v, i + 1) == le_bytes(v, i).push((rest % 256) as u8),
        le_bytes(v, i + 1) + le_bytes(rest / 256, (k - 1) as nat) == le_bytes(v, i + k),
{
    lemma_le_prefix(v, i, k);
    let a = le_bytes(v, i);
    let b = le_bytes(rest, k);
    assert(b == seq![(rest % 256) as u8] + le_bytes(rest / 256, (k - 1) as nat));
    assert(le_bytes(v, i + k).subrange(0, (i + 1) as int) == le_bytes(v, i + 1));
    assert((a + b).subrange(0, i as int + 1) == a.push((rest % 256) as u8));
    assert(a + b == a.push((rest % 256) as u8) + le_bytes(rest / 256, (k - 1) as nat));
}

/// The first `i` bytes of `le_bytes(v, i + k)` are `le_bytes(v, i)`, for any `i` and `k`,
/// and the first `i + 1` bytes are `le_bytes(v, i + 1)` when `k > 0`.
proof fn lemma_le_prefix(v: nat, i: nat, k: nat)
    ensures
        le_bytes(v, i + k).len() == i + k,
        le_bytes(v, i + k).subrange(0, i as int) == le_bytes(v, i),
        k > 0 ==> le_bytes(v, i + k).subrange(0, (i + 1) as int) == le_bytes(v, i + 1),
    decreases i,
{
    lemma_le_len(v, i + k);
    lemma_le_len(v, i);
    if i > 0 {
        lemma_le_prefix(v / 256, (i - 1) as nat, k);
        let whole = le_bytes(v, i + k);
        assert(whole == seq![(v % 256) as u8] + le_bytes(v / 256, (i - 1 + k) as nat));
        assert(whole.subrange(0, i as int) == seq![(v % 256) as u8] + le_bytes(v / 256, (i - 1 + k) as nat).subrange(0, i - 1));
        if k > 0 {
            assert(whole.subrange(0, (i + 1) as int) == seq![(v % 256) as u8] + le_bytes(v / 256, (i - 1 + k) as nat).subrange(0, i as int));
        }
    } else {
        if k > 0 {
            lemma_le_len(v / 256, (k - 1) as nat);
            assert(le_bytes(v, k).subrange(0, 1) == seq![(v % 256) as u8]);
            assert(le_bytes(v, 1) == seq![(v % 256) as u8] + le_bytes(v / 256, 0));
        }
    }
}

pub proof fn lemma_le_len(v: nat, n: nat)
    ensures
        le_bytes(v, n).len() == n,
    decreases n,
{
    if n > 0 {
        lemma_le_len(v / 256, (n - 1) as nat);
    }
}

/// Reads `n` little-endian bytes at position `pos` of `data`.
pub fn read_le(data: &[u8], pos: usize, n: usize) -> (res: Result<u128, DecodeError>)
    requires
        n <= 16,
        pos <= data@.len(),
    ensures
        data@.len() - pos < n ==> res == Err::<u128, DecodeError>(DecodeError::UnexpectedEnd),
        data@.len() - pos >= n ==> res == Ok::<u128, DecodeError>(
            le_value(data@.subrange(pos as int, pos + n)) as u128,
        ),
{
    if data.len() - pos < n {
        return Err(DecodeError::UnexpectedEnd);
    }
    let ghost s = data@.subrange(pos as int, pos + n);
    let dlen = data.len();
    let mut v: u128 = 0;
    let mut i: usize = n;
    proof {
        lemma_le_value_bound(s);
    }
    while i > 0
        invariant
            i <= n <= 16,
            pos + n <= data@.len(),
            dlen == data@.len(),
            s == data@.subrange(pos as int, pos + n),
            v as nat == le_value(s.subrange(i as int, n as int)),
            v < pow256((n - i) as nat),
        decreases i,
    {
        i = i - 1;
        assert(pos + i < dlen);
        let b = data[pos + i];
        proof {
            let t = s.subrange(i as int, n as int);
            assert(t.drop_first() == s.subrange(i + 1, n as int));
            assert(t[0] == b);
            lemma_pow_bound((n - i - 1) as nat);
            assert(b as nat + 256 * (v as nat) < 256 * pow256((n - i - 1) as nat)) by (nonlinear_arith)
                requires
                    (v as nat) < pow256((n - i - 1) as nat),
                    b < 256,
            ;
        }
        v = (b as u128) + 256 * v;
    }
    assert(s.subrange(0, n as int) == s);
    Ok(v)
}

/// `256^n` fits in 129 bits for `n <= 16`.
proof fn lemma_pow_bound(n: nat)
    requires
        n <= 15,
    ensures
        256 * pow256(n) <= 0x1_0000_0000_0000_0000_0000_0000_0000_0000,
{
    lemma_pow_mono(n, 15);
    reveal_with_fuel(pow256, 17);
    assert(pow256(16) == 0x1_0000_0000_0000_0000_0000_0000_0000_0000);
}

proof fn lemma_pow_mono(a: nat, b: nat)
    requires
        a <= b,
    ensures
        pow256(a) <= pow256(b),
    decreases b,
{
    if a < b {
        lemma_pow_mono(a, (b - 1) as nat);
        lemma_pow256_pos((b - 1) as nat);
    }
}

} // verus!
