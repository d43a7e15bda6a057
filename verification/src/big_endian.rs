use vstd::prelude::*;

verus! {

/// 256 to the power `n`: one more than the largest number `n` bytes hold.
pub open spec fn pow256(n: nat) -> nat
    decreases n,
{
    if n == 0 {
        1
    } else {
        256 * pow256((n - 1) as nat)
    }
}

/// The number that a big-endian byte string stands for.
pub open spec fn be_to_nat(bytes: Seq<u8>) -> nat
    decreases bytes.len(),
{
    if bytes.len() == 0 {
        0
    } else {
        be_to_nat(bytes.drop_last()) * 256 + bytes.last() as nat
    }
}

/// The `len`-byte big-endian encoding of `value`, most significant byte
/// first (digits above `len` bytes are dropped).
pub open spec fn be_bytes(value: nat, len: nat) -> Seq<u8>
    decreases len,
{
    if len == 0 {
        Seq::empty()
    } else {
        be_bytes(value / 256, (len - 1) as nat).push((value % 256) as u8)
    }
}

pub proof fn lemma_pow256_positive(n: nat)
    ensures
        pow256(n) >= 1,
    decreases n,
{
    if n > 0 {
        lemma_pow256_positive((n - 1) as nat);
    }
}

pub proof fn lemma_pow256_monotone(m: nat, n: nat)
    requires
        m <= n,
    ensures
        pow256(m) <= pow256(n),
    decreases n,
{
    if m < n {
        lemma_pow256_monotone(m, (n - 1) as nat);
        lemma_pow256_positive((n - 1) as nat);
    }
}

pub proof fn lemma_pow256_values()
    ensures
        pow256(4) == 0x1_0000_0000,
        pow256(8) == 0x1_0000_0000_0000_0000,
{
    reveal_with_fuel(pow256, 9);
}

pub proof fn lemma_be_bytes_len(value: nat, len: nat)
    ensures
        be_bytes(value, len).len() == len,
    decreases len,
{
    if len > 0 {
        lemma_be_bytes_len(value / 256, (len - 1) as nat);
    }
}

/// A byte string stands for a number below `256^len`.
pub proof fn lemma_be_to_nat_bound(bytes: Seq<u8>)
    ensures
        be_to_nat(bytes) < pow256(bytes.len()),
    decreases bytes.len(),
{
    if bytes.len() > 0 {
        let rest = bytes.drop_last();
        lemma_be_to_nat_bound(rest);
        let a = be_to_nat(rest);
        let p = pow256(rest.len());
        let b = bytes.last() as int;
        assert(a * 256 + b < 256 * p) by (nonlinear_arith)
            requires
                a < p,
                0 <= b < 256,
        ;
    }
}

/// Decoding the encoding of a number that fits gives the number back.
pub proof fn lemma_be_round_trip(value: nat, len: nat)
    requires
        value < pow256(len),
    ensures
        be_to_nat(be_bytes(value, len)) == value,
    decreases len,
{
    if len > 0 {
        let q = value / 256;
        let p = pow256((len - 1) as nat);
        assert(q < p) by (nonlinear_arith)
            requires
                value < 256 * p,
                q == value / 256,
        ;
        lemma_be_round_trip(q, (len - 1) as nat);
        let s = be_bytes(value, len);
        assert(s.drop_last() =~= be_bytes(q, (len - 1) as nat));
        assert(q * 256 + value % 256 == value) by (nonlinear_arith)
            requires
                q == value / 256,
        ;
    }
}

/// Equal-length byte strings that stand for the same number are equal.
pub proof fn lemma_be_injective(a: Seq<u8>, b: Seq<u8>)
    requires
        a.len() == b.len(),
        be_to_nat(a) == be_to_nat(b),
    ensures
        a == b,
    decreases a.len(),
{
    if a.len() > 0 {
        let x = be_to_nat(a.drop_last());
        let y = be_to_nat(b.drop_last());
        let u = a.last() as int;
        let v = b.last() as int;
        assert(x == y && u == v) by (nonlinear_arith)
            requires
                x * 256 + u == y * 256 + v,
                0 <= u < 256,
                0 <= v < 256,
                x >= 0,
                y >= 0,
        ;
        lemma_be_injective(a.drop_last(), b.drop_last());
        assert(a =~= a.drop_last().push(a.last()));
        assert(b =~= b.drop_last().push(b.last()));
    }
}

/// Among equal-length byte strings, the one standing for the smaller number
/// comes first byte by byte: they agree up to some position where it holds
/// the smaller byte.
pub proof fn lemma_be_order(a: Seq<u8>, b: Seq<u8>)
    requires
        a.len() == b.len(),
        be_to_nat(a) < be_to_nat(b),
    ensures
        exists|i: int| 0 <= i < a.len() && a.take(i) == b.take(i) && a[i] < b[i],
    decreases a.len(),
{
    let n = a.len() as int;
    let x = be_to_nat(a.drop_last());
    let y = be_to_nat(b.drop_last());
    let u = a.last() as int;
    let v = b.last() as int;
    if x < y {
        lemma_be_order(a.drop_last(), b.drop_last());
        let i = choose|i: int|
            0 <= i < n - 1 && a.drop_last().take(i) == b.drop_last().take(i) && a.drop_last()[i]
                < b.drop_last()[i];
        assert(a.take(i) =~= a.drop_last().take(i));
        assert(b.take(i) =~= b.drop_last().take(i));
        assert(0 <= i < a.len() && a.take(i) == b.take(i) && a[i] < b[i]);
    } else {
        assert(x == y && u < v) by (nonlinear_arith)
            requires
                x * 256 + u < y * 256 + v,
                x >= y,
                0 <= u < 256,
                0 <= v < 256,
        ;
        lemma_be_injective(a.drop_last(), b.drop_last());
        assert(a.take(n - 1) =~= a.drop_last());
        assert(b.take(n - 1) =~= b.drop_last());
        assert(0 <= n - 1 < a.len() && a.take(n - 1) == b.take(n - 1) && a[n - 1] < b[n - 1]);
    }
}

/// Writes `value` as `N` big-endian bytes; the digits above `N` bytes are
/// dropped.
fn encode_be<const N: usize>(value: u64) -> (bytes: [u8; N])
    ensures
        bytes@ == be_bytes(value as nat, N as nat),
{
    let mut out = [0u8; N];
    let mut rest: u64 = value;
    let mut k: usize = N;
    proof {
        lemma_be_bytes_len(value as nat, N as nat);
        assert(out@.subrange(N as int, N as int) =~= Seq::<u8>::empty());
        assert(be_bytes(value as nat, N as nat) =~= be_bytes(value as nat, N as nat) + Seq::<
            u8,
        >::empty());
    }
    while k > 0
        invariant
            k <= N,
            out@.len() == N,
            be_bytes(value as nat, N as nat) == be_bytes(rest as nat, k as nat) + out@.subrange(
                k as int,
                N as int,
            ),
        decreases k,
    {
        let ghost before = out@;
        let byte = (rest % 256) as u8;
        out[k - 1] = byte;
        proof {
            assert(out@.subrange(k - 1, N as int) =~= seq![byte] + before.subrange(
                k as int,
                N as int,
            ));
            assert(be_bytes(rest as nat, k as nat) == be_bytes(
                (rest / 256) as nat,
                (k - 1) as nat,
            ).push(byte));
            assert(be_bytes(rest as nat, k as nat) + before.subrange(k as int, N as int) =~= be_bytes(
                (rest / 256) as nat,
                (k - 1) as nat,
            ) + out@.subrange(k - 1, N as int));
        }
        rest = rest / 256;
        k = k - 1;
    }
    proof {
        assert(out@.subrange(0, N as int) =~= out@);
    }
    out
}

/// The 8-byte big-endian encoding of a `u64`.
pub fn u64_to_be(value: u64) -> (bytes: [u8; 8])
    ensures
        bytes@ == be_bytes(value as nat, 8),
        be_to_nat(bytes@) == value,
{
    let bytes = encode_be::<8>(value);
    proof {
        lemma_pow256_values();
        lemma_be_round_trip(value as nat, 8);
    }
    bytes
}

/// The 4-byte big-endian encoding of a `u32`.
pub fn u32_to_be(value: u32) -> (bytes: [u8; 4])
    ensures
        bytes@ == be_bytes(value as nat, 4),
        be_to_nat(bytes@) == value,
{
    let bytes = encode_be::<4>(value as u64);
    proof {
        lemma_pow256_values();
        lemma_be_round_trip(value as nat, 4);
    }
    bytes
}

/// Reads the `len` bytes of `bytes` from `start` on as a big-endian number.
pub fn be_decode(bytes: &[u8], start: usize, len: usize) -> (value: u64)
    requires
        len <= 8,
        start + len <= bytes@.len(),
    ensures
        value == be_to_nat(bytes@.subrange(start as int, start + len)),
        value < pow256(len as nat),
{
    let total = bytes.len();
    let mut acc: u64 = 0;
    let mut i: usize = 0;
    proof {
        assert(bytes@.subrange(start as int, start as int) =~= Seq::<u8>::empty());
    }
    while i < len
        invariant
            i <= len,
            len <= 8,
            start + len <= bytes@.len(),
            total == bytes@.len(),
            acc == be_to_nat(bytes@.subrange(start as int, start + i)),
        decreases len - i,
    {
        let ghost prefix = bytes@.subrange(start as int, start + i);
        proof {
            lemma_be_to_nat_bound(prefix);
            lemma_pow256_monotone(i as nat, 7);
            reveal_with_fuel(pow256, 8);
            assert(acc * 256 + 255 < 0x1_0000_0000_0000_0000) by (nonlinear_arith)
                requires
                    acc < 0x100_0000_0000_0000,
            ;
        }
        let b = bytes[start + i];
        acc = acc * 256 + b as u64;
        proof {
            let next = bytes@.subrange(start as int, start + i + 1);
            assert(next.drop_last() =~= prefix);
        }
        i = i + 1;
    }
    proof {
        lemma_be_to_nat_bound(bytes@.subrange(start as int, start + len));
    }
    acc
}

/// Copies `src` into `dst` from position `at` on, leaving the other bytes.
pub fn write_bytes<const N: usize>(dst: &mut [u8; N], at: usize, src: &[u8])
    requires
        at + src@.len() <= N,
    ensures
        final(dst)@ == old(dst)@.take(at as int) + src@ + old(dst)@.skip(at + src@.len()),
{
    let len = src.len();
    let mut i: usize = 0;
    while i < len
        invariant
            i <= len,
            len == src@.len(),
            at + len <= N,
            dst@.len() == N,
            forall|j: int| 0 <= j < at ==> dst@[j] == old(dst)@[j],
            forall|j: int| at <= j < at + i ==> dst@[j] == src@[j - at],
            forall|j: int| at + i <= j < N ==> dst@[j] == old(dst)@[j],
        decreases len - i,
    {
        dst[at + i] = src[i];
        i = i + 1;
    }
    assert(dst@ =~= old(dst)@.take(at as int) + src@ + old(dst)@.skip(at + src@.len()));
}

} // verus!
