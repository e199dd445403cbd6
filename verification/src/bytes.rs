//! Big-endian integers as sequences of bytes.
use vstd::prelude::*;

verus! {

/// The number that the bytes `s` write in base 256, most significant first.
pub open spec fn be_value(s: Seq<u8>) -> nat
    decreases s.len(),
{
    if s.len() == 0 {
        0
    } else {
        be_value(s.drop_last()) * 256 + s.last() as nat
    }
}

/// The `n` lowest base-256 digits of `u`, most significant first.
pub open spec fn be_bytes(u: nat, n: nat) -> Seq<u8>
    decreases n,
{
    if n == 0 {
        Seq::empty()
    } else {
        be_bytes(u / 256, (n - 1) as nat).push((u % 256) as u8)
    }
}

pub open spec fn pow256(n: nat) -> nat
    decreases n,
{
    if n == 0 {
        1
    } else {
        256 * pow256((n - 1) as nat)
    }
}

/// The two's complement number of `n` bytes whose unsigned reading is `u`.
pub open spec fn signed(u: nat, n: nat) -> int {
    if 2 * u < pow256(n) {
        u as int
    } else {
        u - pow256(n)
    }
}

/// The unsigned reading of the two's complement number `v` of `n` bytes.
pub open spec fn unsigned(v: int, n: nat) -> nat {
    if v >= 0 {
        v as nat
    } else {
        (v + pow256(n)) as nat
    }
}

pub proof fn lemma_be_bytes_len(u: nat, n: nat)
    ensures
        be_bytes(u, n).len() == n,
    decreases n,
{
    if n > 0 {
        lemma_be_bytes_len(u / 256, (n - 1) as nat);
    }
}

/// Reading back the digits of a number that fits gives the number.
pub proof fn lemma_be_round_trip(u: nat, n: nat)
    requires
        u < pow256(n),
    ensures
        be_value(be_bytes(u, n)) == u,
    decreases n,
{
    if n > 0 {
        lemma_be_round_trip(u / 256, (n - 1) as nat);
        let s = be_bytes(u, n);
        assert(s.drop_last() =~= be_bytes(u / 256, (n - 1) as nat));
    }
}

pub proof fn lemma_be_value_bound(s: Seq<u8>)
    ensures
        be_value(s) < pow256(s.len()),
    decreases s.len(),
{
    if s.len() > 0 {
        lemma_be_value_bound(s.drop_last());
    }
}

pub proof fn lemma_pow256()
    ensures
        pow256(0) == 1,
        pow256(1) == 0x100,
        pow256(2) == 0x1_0000,
        pow256(4) == 0x1_0000_0000,
        pow256(8) == 0x1_0000_0000_0000_0000,
{
    reveal_with_fuel(pow256, 9);
}

/// The big-endian reading of `raw[at..at + n]`, for at most eight bytes.
pub fn read_be(raw: &[u8], at: usize, n: usize) -> (u: u64)
    requires
        n <= 8,
        at + n <= raw@.len(),
    ensures
        u == be_value(raw@.subrange(at as int, at + n)),
{
    let mut u: u64 = 0;
    let mut i: usize = 0;
    let total: usize = raw.len();
    proof {
        lemma_pow256();
        assert(raw@.subrange(at as int, at as int) =~= Seq::<u8>::empty());
    }
    while i < n
        invariant
            i <= n <= 8,
            at + n <= total == raw@.len(),
            u == be_value(raw@.subrange(at as int, at + i)),
        decreases n - i,
    {
        let ghost part = raw@.subrange(at as int, at + i);
        let ghost next = raw@.subrange(at as int, at + i + 1);
        proof {
            lemma_be_value_bound(part);
            lemma_be_value_bound(next);
            lemma_pow256_monotonic(i as nat + 1, 8);
            lemma_pow256();
            assert(next.drop_last() =~= part);
        }
        u = u * 256 + raw[at + i] as u64;
        i = i + 1;
    }
    u
}

pub proof fn lemma_pow256_monotonic(a: nat, b: nat)
    requires
        a <= b,
    ensures
        pow256(a) <= pow256(b),
    decreases b - a,
{
    if a < b {
        lemma_pow256_monotonic(a, (b - 1) as nat);
    }
}

/// Appends the `n` lowest base-256 digits of `u`.
pub fn push_be(out: &mut Vec<u8>, u: u64, n: usize)
    requires
        n <= 8,
    ensures
        final(out)@ == old(out)@ + be_bytes(u as nat, n as nat),
    decreases n,
{
    if n > 0 {
        push_be(out, u / 256, n - 1);
        out.push((u % 256) as u8);
    }
}

} // verus!
