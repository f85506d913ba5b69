//! Little-endian byte encodings of unsigned integers.
use vstd::prelude::*;

verus! {

/// The `n` least significant bytes of `x`, least significant first.
pub open spec fn le_bytes(x: nat, n: nat) -> Seq<u8>
    decreases n,
{
    if n == 0 {
        Seq::empty()
    } else {
        seq![(x % 256) as u8] + le_bytes(x / 256, (n - 1) as nat)
    }
}

/// The number that a little-endian byte string stands for.
pub open spec fn le_value(s: Seq<u8>) -> nat
    decreases s.len(),
{
    if s.len() == 0 {
        0
    } else {
        s[0] as nat + 256 * le_value(s.drop_first())
    }
}

pub proof fn lemma_le_bytes_len(x: nat, n: nat)
    ensures
        le_bytes(x, n).len() == n,
    decreases n,
{
    if n > 0 {
        lemma_le_bytes_len(x / 256, (n - 1) as nat);
    }
}

/// Appends the `n` least significant bytes of `x` to `out`, least significant first.
pub fn push_le(out: &mut Vec<u8>, x: u64, n: usize)
    requires
        n <= 8,
    ensures
        final(out)@ == old(out)@ + le_bytes(x as nat, n as nat),
{
    let mut cur: u64 = x;
    let mut i: usize = 0;
    while i < n
        invariant
            i <= n,
            out@ + le_bytes(cur as nat, (n - i) as nat) == old(out)@ + le_bytes(x as nat, n as nat),
        decreases n - i,
    {
        let ghost before = out@;
        out.push((cur % 256) as u8);
        assert(le_bytes(cur as nat, (n - i) as nat) == seq![(cur % 256) as u8] + le_bytes(
            (cur / 256) as nat,
            (n - i - 1) as nat,
        ));
        assert(out@ + le_bytes((cur / 256) as nat, (n - i - 1) as nat) =~= before + le_bytes(
            cur as nat,
            (n - i) as nat,
        ));
        cur = cur / 256;
        i = i + 1;
    }
    assert(out@ =~= out@ + le_bytes(cur as nat, 0));
}

/// Reads eight bytes from `s` at `start` as a little-endian word.
pub fn read_le_u64(s: &[u8], start: usize) -> (r: u64)
    requires
        start + 8 <= s@.len(),
    ensures
        r as nat == le_value(s@.subrange(start as int, start + 8)),
{
    let len = s.len();
    let mut r: u64 = 0;
    let mut k: usize = 8;
    while k > 0
        invariant
            k <= 8,
            start + 8 <= s@.len(),
            len == s@.len(),
            r as nat == le_value(s@.subrange(start + k, start + 8)),
            r < pow256((8 - k) as nat),
        decreases k,
    {
        k = k - 1;
        let b = s[start + k];
        let ghost sub = s@.subrange(start + k, start + 8);
        assert(sub.drop_first() =~= s@.subrange(start + k + 1, start + 8));
        proof {
            lemma_pow256_step((7 - k) as nat);
            assert(r * 256 + b < pow256((8 - k) as nat)) by (nonlinear_arith)
                requires
                    r < pow256((7 - k) as nat),
                    b < 256,
                    pow256((8 - k) as nat) == 256 * pow256((7 - k) as nat),
            ;
            lemma_pow256_8();
            lemma_pow256_mono((8 - k) as nat, 8);
        }
        r = r * 256 + b as u64;
    }
    r
}

pub open spec fn pow256(n: nat) -> nat
    decreases n,
{
    if n == 0 {
        1
    } else {
        256 * pow256((n - 1) as nat)
    }
}

proof fn lemma_pow256_step(n: nat)
    ensures
        pow256(n + 1) == 256 * pow256(n),
{
}

pub proof fn lemma_pow256_8()
    ensures
        pow256(8) == 0x1_0000_0000_0000_0000,
{
    reveal_with_fuel(pow256, 9);
}

proof fn lemma_pow256_mono(a: nat, b: nat)
    requires
        a <= b,
    ensures
        pow256(a) <= pow256(b),
    decreases b,
{
    if a < b {
        lemma_pow256_mono(a, (b - 1) as nat);
    }
}


/// Reading back the `n` low bytes of `x` gives `x` modulo 256^n.
pub proof fn lemma_le_round_trip(x: nat, n: nat)
    ensures
        le_value(le_bytes(x, n)) == x % pow256(n),
    decreases n,
{
    if n == 0 {
    } else {
        lemma_le_round_trip(x / 256, (n - 1) as nat);
        lemma_le_bytes_len(x / 256, (n - 1) as nat);
        let s = le_bytes(x, n);
        assert(s.drop_first() =~= le_bytes(x / 256, (n - 1) as nat));
        vstd::arithmetic::power2::lemma_pow2_pos(0);
        lemma_pow256_pos((n - 1) as nat);
        vstd::arithmetic::div_mod::lemma_mod_breakdown(x as int, 256, pow256((n - 1) as nat) as int);
    }
}

proof fn lemma_pow256_pos(n: nat)
    ensures
        pow256(n) > 0,
    decreases n,
{
    if n > 0 {
        lemma_pow256_pos((n - 1) as nat);
    }
}

/// A word read back from its eight bytes is the word itself.
pub proof fn lemma_le_word_round_trip(w: u64)
    ensures
        le_value(le_bytes(w as nat, 8)) == w,
        le_bytes(w as nat, 8).len() == 8,
{
    lemma_le_round_trip(w as nat, 8);
    lemma_le_bytes_len(w as nat, 8);
    lemma_pow256_8();
}


/// Byte `k` of the encoding is `x / 256^k`, modulo 256.
pub proof fn lemma_le_bytes_index(x: nat, n: nat, k: nat)
    requires
        k < n,
    ensures
        le_bytes(x, n)[k as int] == ((x / pow256(k)) % 256) as u8,
    decreases k,
{
    lemma_le_bytes_len(x / 256, (n - 1) as nat);
    let s = le_bytes(x, n);
    assert(s == seq![(x % 256) as u8] + le_bytes(x / 256, (n - 1) as nat));
    if k > 0 {
        lemma_le_bytes_index(x / 256, (n - 1) as nat, (k - 1) as nat);
        lemma_pow256_pos((k - 1) as nat);
        assert(s[k as int] == le_bytes(x / 256, (n - 1) as nat)[k - 1]);
        assert(pow256(k) == 256 * pow256((k - 1) as nat));
        vstd::arithmetic::div_mod::lemma_div_denominator(x as int, 256, pow256((k - 1) as nat) as int);
    } else {
        assert(pow256(0) == 1);
    }
}


/// The value of two byte strings one after the other.
pub proof fn lemma_le_value_concat(a: Seq<u8>, b: Seq<u8>)
    ensures
        le_value(a + b) == le_value(a) + pow256(a.len()) * le_value(b),
    decreases a.len(),
{
    if a.len() > 0 {
        assert((a + b).drop_first() =~= a.drop_first() + b);
        lemma_le_value_concat(a.drop_first(), b);
        let p = pow256((a.len() - 1) as nat);
        assert(pow256(a.len()) == 256 * p);
        assert((a + b)[0] == a[0]);
        assert(le_value(a + b) == a[0] + 256 * le_value(a.drop_first() + b));
        assert(le_value(a) == a[0] + 256 * le_value(a.drop_first()));
        assert(256 * (le_value(a.drop_first()) + p * le_value(b)) == 256 * le_value(a.drop_first())
            + (256 * p) * le_value(b)) by (nonlinear_arith);
    } else {
        assert(a + b =~= b);
        assert(pow256(0) == 1);
    }
}

/// Eight bytes stand for a number below 2^64.
pub proof fn lemma_le_value_bound(s: Seq<u8>)
    ensures
        le_value(s) < pow256(s.len()),
    decreases s.len(),
{
    if s.len() > 0 {
        lemma_le_value_bound(s.drop_first());
        let p = pow256((s.len() - 1) as nat);
        let v = le_value(s.drop_first());
        assert(s[0] + 256 * v < 256 * p) by (nonlinear_arith)
            requires
                s[0] < 256,
                v < p,
        ;
    }
}

} // verus!
