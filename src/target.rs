//! 256-bit unsigned integers and compact difficulty targets.
use core::cmp::Ordering;
use crate::le::{le_bytes, le_value, push_le, read_le_u64};
use vstd::arithmetic::power2::{
    lemma2_to64, lemma_pow2_adds, lemma_pow2_pos, lemma_pow2_strictly_increases, pow2,
};
use vstd::bits::{lemma_u64_low_bits_mask_is_mod, lemma_u64_shl_is_mul, lemma_u64_shr_is_div};
use vstd::prelude::*;

verus! {

/// 2^64, the weight of one word.
pub open spec fn word_base() -> nat {
    0x1_0000_0000_0000_0000
}

/// Little-endian large integer type: word 0 is the least significant.
#[derive(Copy, Clone, Debug, Hash, Eq)]
pub struct Uint256(pub [u64; 4]);

/// Orders two words.
pub open spec fn cmp_word(a: u64, b: u64) -> Ordering {
    if a < b {
        Ordering::Less
    } else if a > b {
        Ordering::Greater
    } else {
        Ordering::Equal
    }
}

impl Uint256 {
    /// Word `i` of the number.
    pub open spec fn word(self, i: int) -> u64 {
        self.0@[i]
    }

    /// The number that the four words stand for.
    pub open spec fn value(self) -> nat {
        self.word(0) as nat + word_base() * (self.word(1) as nat + word_base() * (self.word(2)
            as nat + word_base() * (self.word(3) as nat)))
    }

    /// Compares the words from the most significant one down; the first pair
    /// that differs decides.
    pub open spec fn spec_cmp(self, other: Uint256) -> Ordering {
        if self.word(3) != other.word(3) {
            cmp_word(self.word(3), other.word(3))
        } else if self.word(2) != other.word(2) {
            cmp_word(self.word(2), other.word(2))
        } else if self.word(1) != other.word(1) {
            cmp_word(self.word(1), other.word(1))
        } else {
            cmp_word(self.word(0), other.word(0))
        }
    }

    pub fn new(v: [u64; 4]) -> (r: Uint256)
        ensures
            r.0 == v,
    {
        Uint256(v)
    }

    /// The number whose low word is `init`.
    pub open spec fn spec_from_u64(init: u64) -> Uint256 {
        Uint256([init, 0, 0, 0])
    }

    /// Create an object from a given unsigned 64-bit integer
    pub fn from_u64(init: u64) -> (r: Uint256)
        ensures
            r == Uint256::spec_from_u64(init),
            r.0@ == seq![init, 0u64, 0u64, 0u64],
            r.value() == init,
    {
        let r = Uint256([init, 0, 0, 0]);
        assert(r.0@ =~= seq![init, 0u64, 0u64, 0u64]);
        assert(r.0 =~= Uint256::spec_from_u64(init).0);
        r
    }

    /// Word-by-word comparison, most significant word first.
    pub fn cmp(&self, other: &Uint256) -> (r: Ordering)
        ensures
            r == self.spec_cmp(*other),
    {
        let mut i: usize = 4;
        while i > 0
            invariant
                i <= 4,
                forall|j: int| i <= j < 4 ==> self.word(j) == other.word(j),
            decreases i,
        {
            i = i - 1;
            if self.0[i] < other.0[i] {
                return Ordering::Less;
            }
            if self.0[i] > other.0[i] {
                return Ordering::Greater;
            }
        }
        Ordering::Equal
    }

    /// The 32 bytes of the number, least significant first.
    pub open spec fn le_bytes_spec(self) -> Seq<u8> {
        le_bytes(self.word(0) as nat, 8) + le_bytes(self.word(1) as nat, 8) + le_bytes(
            self.word(2) as nat,
            8,
        ) + le_bytes(self.word(3) as nat, 8)
    }

    /// Number of significant bits: the position of the highest set bit, plus one.
    pub open spec fn spec_bits(self) -> u32 {
        if self.word(3) != 0 {
            (192 + word_bits(self.word(3))) as u32
        } else if self.word(2) != 0 {
            (128 + word_bits(self.word(2))) as u32
        } else if self.word(1) != 0 {
            (64 + word_bits(self.word(1))) as u32
        } else {
            word_bits(self.word(0)) as u32
        }
    }

    /// Returns the number of significant bits in the Uint256
    /// Counts the number of bits from the most significant non-zero bit.
    pub fn bits(&self) -> (r: u32)
        ensures
            r == self.spec_bits(),
            r == 0 <==> self.value() == 0,
            self.value() > 0 ==> pow2((r - 1) as nat) <= self.value() < pow2(r as nat),
    {
        let mut i: usize = 4;
        while i > 0
            invariant
                i <= 4,
                forall|j: int| i <= j < 4 ==> self.word(j) == 0,
            decreases i,
        {
            i = i - 1;
            let word = self.0[i];
            if word != 0 {
                let lz = word.leading_zeros();
                proof {
                    broadcast use vstd::std_specs::bits::axiom_u64_leading_zeros;

                }
                let r = (i as u32) * 64 + (64 - lz);
                proof {
                    lemma_bits_value(*self);
                }
                return r;
            }
        }
        proof {
            lemma_bits_value(*self);
        }
        0
    }

    pub fn as_bytes(&self) -> (r: [u8; 32])
        ensures
            r@ == self.le_bytes_spec(),
    {
        self.to_le_bytes()
    }

    /// Reads four little-endian words from 32 bytes.
    pub fn from_le_bytes(bytes: [u8; 32]) -> (r: Uint256)
        ensures
            r == words_of(bytes@),
            r.value() == le_value(bytes@),
    {
        proof {
            lemma_words_of_value(bytes@);
        }
        let b: &[u8] = &bytes;
        let w0 = read_le_u64(b, 0);
        let w1 = read_le_u64(b, 8);
        let w2 = read_le_u64(b, 16);
        let w3 = read_le_u64(b, 24);
        let r = Uint256([w0, w1, w2, w3]);
        assert(r.0 =~= words_of(bytes@).0);
        r
    }

    pub fn to_le_bytes(self) -> (r: [u8; 32])
        ensures
            r@ == self.le_bytes_spec(),
            forall|j: int|
                0 <= j < 32 ==> #[trigger] r@[j] == ((self.word(j / 8) as nat / crate::le::pow256(
                    (j % 8) as nat,
                )) % 256) as u8,
    {
        let mut v: Vec<u8> = Vec::new();
        push_le(&mut v, self.0[0], 8);
        push_le(&mut v, self.0[1], 8);
        push_le(&mut v, self.0[2], 8);
        push_le(&mut v, self.0[3], 8);
        proof {
            crate::le::lemma_le_bytes_len(self.word(0) as nat, 8);
            crate::le::lemma_le_bytes_len(self.word(1) as nat, 8);
            crate::le::lemma_le_bytes_len(self.word(2) as nat, 8);
            crate::le::lemma_le_bytes_len(self.word(3) as nat, 8);
        }
        let mut out = [0u8; 32];
        let mut j: usize = 0;
        while j < 32
            invariant
                j <= 32,
                v@ == self.le_bytes_spec(),
                v@.len() == 32,
                forall|k: int| 0 <= k < j ==> out@[k] == v@[k],
            decreases 32 - j,
        {
            out[j] = v[j];
            j = j + 1;
        }
        assert(out@ =~= v@);
        assert forall|j: int| 0 <= j < 32 implies #[trigger] out@[j] == ((self.word(j / 8) as nat
            / crate::le::pow256((j % 8) as nat)) % 256) as u8 by {
            crate::le::lemma_le_bytes_index(self.word(j / 8) as nat, 8, (j % 8) as nat);
        }
        out
    }
}

/// Number of significant bits of one word.
pub open spec fn word_bits(w: u64) -> int {
    64 - vstd::std_specs::bits::u64_leading_zeros(w)
}


impl PartialEq for Uint256 {
    fn eq(&self, other: &Uint256) -> (r: bool) {
        let r = self.0[0] == other.0[0] && self.0[1] == other.0[1] && self.0[2] == other.0[2]
            && self.0[3] == other.0[3];
        proof {
            if r {
                assert(self.0@ =~= other.0@);
            }
        }
        r
    }
}

impl vstd::std_specs::cmp::PartialEqSpecImpl for Uint256 {
    open spec fn obeys_eq_spec() -> bool {
        true
    }

    open spec fn eq_spec(&self, other: &Uint256) -> bool {
        self.0@ == other.0@
    }
}

impl PartialOrd for Uint256 {
    fn partial_cmp(&self, other: &Uint256) -> (r: Option<Ordering>) {
        Some(self.cmp(other))
    }
}

impl vstd::std_specs::cmp::PartialOrdSpecImpl for Uint256 {
    open spec fn obeys_partial_cmp_spec() -> bool {
        true
    }

    open spec fn partial_cmp_spec(&self, other: &Uint256) -> Option<Ordering> {
        Some(self.spec_cmp(*other))
    }
}

impl Default for Uint256 {
    fn default() -> (r: Uint256)
        ensures
            r.0@ == seq![0u64, 0u64, 0u64, 0u64],
    {
        Uint256::from_u64(0)
    }
}


/// Word `j` of `x` shifted left by `shift` bits: the bits that word `j - shift / 64`
/// keeps, joined with those that carry out of the word below it.
pub open spec fn shifted_word(x: Uint256, shift: nat, j: int) -> u64 {
    let ws = (shift / 64) as int;
    let bs = (shift % 64) as u64;
    let lo: u64 = if 0 <= j - ws < 4 {
        x.word(j - ws) << bs
    } else {
        0
    };
    let hi: u64 = if bs > 0 && 0 <= j - ws - 1 < 4 {
        x.word(j - ws - 1) >> (64 - bs) as u64
    } else {
        0
    };
    lo | hi
}

/// `x` shifted left by `shift` bits; bits shifted past the top are dropped.
pub open spec fn spec_shl(x: Uint256, shift: nat) -> Uint256 {
    Uint256(
        [
            shifted_word(x, shift, 0),
            shifted_word(x, shift, 1),
            shifted_word(x, shift, 2),
            shifted_word(x, shift, 3),
        ],
    )
}

fn shift_word(words: &[u64; 4], word_shift: usize, bit_shift: usize, j: usize) -> (r: u64)
    requires
        bit_shift < 64,
        j < 4,
    ensures
        r == shifted_word(
            Uint256(*words),
            (word_shift * 64 + bit_shift) as nat,
            j as int,
        ),
{
    let ghost shift = (word_shift * 64 + bit_shift) as nat;
    assert(shift / 64 == word_shift && shift % 64 == bit_shift) by (nonlinear_arith)
        requires
            shift == word_shift * 64 + bit_shift,
            bit_shift < 64,
    ;
    // Shift
    let lo: u64 = if j >= word_shift && j - word_shift < 4 {
        words[j - word_shift] << (bit_shift as u64)
    } else {
        0
    };
    // Carry
    let hi: u64 = if bit_shift > 0 && j > word_shift && j - word_shift - 1 < 4 {
        words[j - word_shift - 1] >> ((64 - bit_shift) as u64)
    } else {
        0
    };
    lo | hi
}

impl core::ops::Shl<usize> for Uint256 {
    type Output = Uint256;

    fn shl(self, shift: usize) -> (r: Uint256) {
        let Uint256(ref words) = self;
        let word_shift = shift / 64;
        let bit_shift = shift % 64;
        let r0 = shift_word(words, word_shift, bit_shift, 0);
        let r1 = shift_word(words, word_shift, bit_shift, 1);
        let r2 = shift_word(words, word_shift, bit_shift, 2);
        let r3 = shift_word(words, word_shift, bit_shift, 3);
        let r = Uint256([r0, r1, r2, r3]);
        assert(r.0@ =~= spec_shl(self, shift as nat).0@);
        r
    }
}

impl vstd::std_specs::ops::ShlSpecImpl<usize> for Uint256 {
    open spec fn obeys_shl_spec() -> bool {
        true
    }

    open spec fn shl_req(self, shift: usize) -> bool {
        true
    }

    open spec fn shl_spec(self, shift: usize) -> Uint256 {
        spec_shl(self, shift as nat)
    }
}


/// 2^256: one more than the largest value.
pub open spec fn modulus() -> nat {
    word_base() * word_base() * word_base() * word_base()
}

/// Adds two words and an incoming carry; returns the low word and the carry out.
fn add_word(a: u64, b: u64, carry: u64) -> (r: (u64, u64))
    requires
        carry <= 1,
    ensures
        r.0 + r.1 * word_base() == a + b + carry,
        r.1 <= 1,
{
    let sum = a.wrapping_add(b).wrapping_add(carry);
    let carry_out: u64 = if sum < a || (sum == a && carry > 0) {
        1
    } else {
        0
    };
    (sum, carry_out)
}

impl core::ops::Add for Uint256 {
    type Output = Uint256;

    fn add(self, rhs: Uint256) -> (r: Uint256) {
        let (s0, c1) = add_word(self.0[0], rhs.0[0], 0);
        let (s1, c2) = add_word(self.0[1], rhs.0[1], c1);
        let (s2, c3) = add_word(self.0[2], rhs.0[2], c2);
        let (s3, c4) = add_word(self.0[3], rhs.0[3], c3);
        let r = Uint256([s0, s1, s2, s3]);
        proof {
            let b = word_base();
            let (a0, a1, a2, a3) = (self.word(0), self.word(1), self.word(2), self.word(3));
            let (b0, b1, b2, b3) = (rhs.word(0), rhs.word(1), rhs.word(2), rhs.word(3));
            assert(r.value() + c4 * modulus() == self.value() + rhs.value()) by (nonlinear_arith)
                requires
                    b == word_base(),
                    r.value() == s0 + b * (s1 + b * (s2 + b * s3)),
                    self.value() == a0 + b * (a1 + b * (a2 + b * a3)),
                    rhs.value() == b0 + b * (b1 + b * (b2 + b * b3)),
                    modulus() == b * b * b * b,
                    s0 + c1 * b == a0 + b0,
                    s1 + c2 * b == a1 + b1 + c1,
                    s2 + c3 * b == a2 + b2 + c2,
                    s3 + c4 * b == a3 + b3 + c3,
            ;
            lemma_value_bound(r);
            vstd::arithmetic::div_mod::lemma_fundamental_div_mod_converse(
                (self.value() + rhs.value()) as int,
                modulus() as int,
                c4 as int,
                r.value() as int,
            );
            lemma_from_value_of_value(r);
        }
        r
    }
}

impl vstd::std_specs::ops::AddSpecImpl for Uint256 {
    open spec fn obeys_add_spec() -> bool {
        true
    }

    open spec fn add_req(self, rhs: Uint256) -> bool {
        true
    }

    open spec fn add_spec(self, rhs: Uint256) -> Uint256 {
        from_value((self.value() + rhs.value()) % modulus())
    }
}

/// Every value is below 2^256.
pub proof fn lemma_value_bound(x: Uint256)
    ensures
        x.value() < modulus(),
{
    let b = word_base();
    let (a0, a1, a2, a3) = (x.word(0), x.word(1), x.word(2), x.word(3));
    assert(x.value() < modulus()) by (nonlinear_arith)
        requires
            b == word_base(),
            x.value() == a0 + b * (a1 + b * (a2 + b * a3)),
            modulus() == b * b * b * b,
            a0 < b,
            a1 < b,
            a2 < b,
            a3 < b,
    ;
}


/// The number below 2^256 whose value is `n`.
pub open spec fn from_value(n: nat) -> Uint256 {
    let b = word_base();
    Uint256(
        [
            (n % b) as u64,
            (n / b % b) as u64,
            (n / b / b % b) as u64,
            (n / b / b / b % b) as u64,
        ],
    )
}

/// A number is the one that its value stands for.
pub proof fn lemma_from_value_of_value(x: Uint256)
    ensures
        from_value(x.value()) == x,
{
    let b = word_base() as int;
    let (a0, a1, a2, a3) = (x.word(0) as int, x.word(1) as int, x.word(2) as int, x.word(3) as int);
    let v = x.value() as int;
    let v1 = a1 + b * (a2 + b * a3);
    let v2 = a2 + b * a3;
    vstd::arithmetic::div_mod::lemma_fundamental_div_mod_converse(v, b, v1, a0);
    vstd::arithmetic::div_mod::lemma_fundamental_div_mod_converse(v1, b, v2, a1);
    vstd::arithmetic::div_mod::lemma_fundamental_div_mod_converse(v2, b, a3, a2);
    vstd::arithmetic::div_mod::lemma_fundamental_div_mod_converse(a3, b, 0, a3);
    assert(from_value(x.value()).0 =~= x.0);
}


/// Mantissa of a compact target: the low 24 bits, shifted right when the
/// exponent (the high 8 bits) is 3 or less.
pub open spec fn compact_mantissa(bits: u32) -> u32 {
    let exponent = bits >> 24u32;
    if exponent <= 3 {
        (bits & 0xFFFFFFu32) >> (8 * (3 - exponent)) as u32
    } else {
        bits & 0xFFFFFFu32
    }
}

/// Left shift of a compact target, in bits: `8 * (exponent - 3)` above 3, else none.
pub open spec fn compact_shift(bits: u32) -> nat {
    let exponent = bits >> 24u32;
    if exponent <= 3 {
        0
    } else {
        (8 * (exponent - 3)) as nat
    }
}

/// The target that a compact encoding stands for; a mantissa with its sign bit
/// set stands for zero.
pub open spec fn compact_target(bits: u32) -> Uint256 {
    let mantissa = compact_mantissa(bits);
    if mantissa > 0x7FFFFF {
        Uint256([0, 0, 0, 0])
    } else {
        spec_shl(Uint256::spec_from_u64(mantissa as u64), compact_shift(bits))
    }
}

pub fn u256_from_compact_target(bits: u32) -> (r: Uint256)
    ensures
        r == compact_target(bits),
        compact_mantissa(bits) > 0x7FFFFF ==> r.value() == 0,
        compact_mantissa(bits) <= 0x7FFFFF ==> r.value() == (compact_mantissa(bits) as nat * pow2(
            compact_shift(bits),
        )) % modulus(),
{
    // The exponent sits in the high byte and is biased by 3; a mantissa
    // with its sign bit set stands for zero.
    let unshifted_expt = bits >> 24;
    assert(bits >> 24u32 <= 255) by (bit_vector);
    let (mant, expt) = if unshifted_expt <= 3 {
        ((bits & 0xFFFFFF) >> (8 * (3 - unshifted_expt as usize)), 0usize)
    } else {
        (bits & 0xFFFFFF, 8 * ((bits >> 24) - 3) as usize)
    };
    if mant > 0x7FFFFF {
        let r = Uint256::default();
        assert(r.word(0) == 0 && r.word(1) == 0 && r.word(2) == 0 && r.word(3) == 0);
        assert(r.0 =~= compact_target(bits).0);
        r
    } else {
        let base = Uint256::from_u64(mant as u64);
        proof {
            lemma_shl_value(base, expt as nat);
        }
        base << expt
    }
}


proof fn lemma_digit_order(x0: int, y0: int, xr: int, yr: int)
    requires
        0 <= x0 < word_base(),
        0 <= y0 < word_base(),
        xr < yr,
    ensures
        x0 + word_base() * xr < y0 + word_base() * yr,
{
    let b = word_base() as int;
    assert(x0 + b * xr < y0 + b * yr) by (nonlinear_arith)
        requires
            0 <= x0 < b,
            0 <= y0 < b,
            xr + 1 <= yr,
    ;
}

/// The word-by-word order, most significant word first, is the order of the
/// numbers: `a <= b` exactly when no word of `a` exceeds the word of `b` at the
/// same place before a higher pair of words has differed.
pub proof fn lemma_cmp_is_numeric_order(a: Uint256, b: Uint256)
    ensures
        (a.spec_cmp(b) == Ordering::Less) <==> a.value() < b.value(),
        (a.spec_cmp(b) == Ordering::Equal) <==> a.value() == b.value(),
        (a.spec_cmp(b) == Ordering::Greater) <==> a.value() > b.value(),
        (a.spec_cmp(b) != Ordering::Greater) <==> a.value() <= b.value(),
{
    let w = word_base() as int;
    let (a0, a1, a2, a3) = (a.word(0) as int, a.word(1) as int, a.word(2) as int, a.word(3) as int);
    let (b0, b1, b2, b3) = (b.word(0) as int, b.word(1) as int, b.word(2) as int, b.word(3) as int);
    let (xa2, xb2) = (a2 + w * a3, b2 + w * b3);
    let (xa1, xb1) = (a1 + w * xa2, b1 + w * xb2);
    if a3 != b3 {
        if a3 < b3 {
            lemma_digit_order(a2, b2, a3, b3);
            lemma_digit_order(a1, b1, xa2, xb2);
            lemma_digit_order(a0, b0, xa1, xb1);
        } else {
            lemma_digit_order(b2, a2, b3, a3);
            lemma_digit_order(b1, a1, xb2, xa2);
            lemma_digit_order(b0, a0, xb1, xa1);
        }
    } else if a2 != b2 {
        if a2 < b2 {
            lemma_digit_order(a1, b1, xa2, xb2);
            lemma_digit_order(a0, b0, xa1, xb1);
        } else {
            lemma_digit_order(b1, a1, xb2, xa2);
            lemma_digit_order(b0, a0, xb1, xa1);
        }
    } else if a1 != b1 {
        if a1 < b1 {
            lemma_digit_order(a0, b0, xa1, xb1);
        } else {
            lemma_digit_order(b0, a0, xb1, xa1);
        }
    }
}


/// The number whose four little-endian words are read from 32 bytes.
pub open spec fn words_of(b: Seq<u8>) -> Uint256 {
    Uint256(
        [
            le_value(b.subrange(0, 8)) as u64,
            le_value(b.subrange(8, 16)) as u64,
            le_value(b.subrange(16, 24)) as u64,
            le_value(b.subrange(24, 32)) as u64,
        ],
    )
}


/// The boundaries of the compact encoding: zero bits give zero; an exponent of
/// 3 or less only shifts the mantissa right; a larger one shifts it left by
/// `8 * (exponent - 3)` bits; with an exponent of 3 or more, a mantissa whose
/// sign bit is set gives zero.
pub proof fn lemma_compact_target_cases(bits: u32)
    ensures
        bits == 0 ==> compact_target(bits).value() == 0,
        bits >> 24u32 <= 3 ==> compact_shift(bits) == 0 && compact_mantissa(bits) == (bits
            & 0xFFFFFFu32) >> (8 * (3 - (bits >> 24u32))) as u32,
        bits >> 24u32 > 3 ==> compact_shift(bits) == 8 * ((bits >> 24u32) - 3) && compact_mantissa(
            bits,
        ) == bits & 0xFFFFFFu32,
        bits >> 24u32 >= 3 && bits & 0x800000u32 != 0 ==> compact_target(bits).value() == 0,
        compact_mantissa(bits) <= 0x7FFFFF ==> compact_target(bits) == spec_shl(
            Uint256::spec_from_u64(compact_mantissa(bits) as u64),
            compact_shift(bits),
        ),
        compact_mantissa(bits) <= 0x7FFFFF ==> compact_target(bits).value() == (compact_mantissa(
            bits,
        ) as nat * pow2(compact_shift(bits))) % modulus(),
{
    lemma_shl_value(Uint256::spec_from_u64(compact_mantissa(bits) as u64), compact_shift(bits));
    if bits == 0 {
        assert(bits >> 24u32 == 0 && (bits & 0xFFFFFFu32) >> 24u32 == 0) by (bit_vector)
            requires
                bits == 0,
        ;
        assert((0u64 << 0u64) | 0u64 == 0) by (bit_vector);
    }
    if bits >> 24u32 >= 3 && bits & 0x800000u32 != 0 {
        assert(((bits & 0xFFFFFFu32) >> 0u32) > 0x7FFFFF && (bits & 0xFFFFFFu32) > 0x7FFFFF)
            by (bit_vector)
            requires
                bits & 0x800000u32 != 0,
        ;
    }
}


/// One word shifted left by `bs` bits: the word keeps the low 64 bits of
/// `w * 2^bs`, and the high bits are what carries into the next word.
proof fn lemma_word_shl(w: u64, bs: u64)
    requires
        bs < 64,
    ensures
        (w << bs) as nat == (w as nat * pow2(bs as nat)) % word_base(),
        bs > 0 ==> (w >> (64 - bs) as u64) as nat == (w as nat * pow2(bs as nat)) / word_base(),
        bs == 0 ==> (w as nat * pow2(bs as nat)) / word_base() == 0,
{
    lemma2_to64();
    let p = pow2(bs as nat);
    if bs == 0 {
        assert(w << 0u64 == w) by (bit_vector);
        vstd::arithmetic::div_mod::lemma_fundamental_div_mod_converse(
            w as int,
            word_base() as int,
            0,
            w as int,
        );
    } else {
        let m = (64 - bs) as u64;
        let pm = pow2(m as nat);
        lemma_pow2_adds(m as nat, bs as nat);
        lemma_pow2_pos(m as nat);
        lemma_pow2_pos(bs as nat);
        lemma_pow2_strictly_increases(m as nat, 64);
        lemma_u64_shl_is_mul(1u64, m);
        let mask = ((1u64 << m) - 1) as u64;
        let lo = w & mask;
        assert(w << bs == (w & (((1u64 << m) - 1) as u64)) << bs) by (bit_vector)
            requires
                m == 64 - bs,
                0 < bs < 64,
        ;
        lemma_u64_low_bits_mask_is_mod(w, m as nat);
        assert(lo as nat == w as nat % pm);
        let q = w as int / pm as int;
        vstd::arithmetic::div_mod::lemma_fundamental_div_mod(w as int, pm as int);
        assert(w == pm * q + lo);
        assert(w == q * pm + lo) by (nonlinear_arith)
            requires
                w == pm * q + lo,
        ;
        assert(lo < pm);
        assert(lo * p < word_base()) by (nonlinear_arith)
            requires
                lo < pm,
                pm * p == word_base(),
                p > 0,
        ;
        lemma_u64_shl_is_mul(lo, bs);
        assert(w as int * p == q * word_base() + lo * p) by (nonlinear_arith)
            requires
                w == q * pm + lo,
                pm * p == word_base(),
        ;
        vstd::arithmetic::div_mod::lemma_fundamental_div_mod_converse(
            w as int * p,
            word_base() as int,
            q,
            lo * p,
        );
        lemma_u64_shr_is_div(w, m);
    }
}


proof fn lemma_or_is_add(a: u64, b: u64, bs: u64)
    requires
        0 < bs < 64,
    ensures
        ((a << bs) | (b >> (64 - bs) as u64)) as nat == (a << bs) as nat + (b >> (64
            - bs) as u64) as nat,
{
    assert(((a << bs) | (b >> (64 - bs) as u64)) == (a << bs) + (b >> (64 - bs) as u64))
        by (bit_vector)
        requires
            0 < bs < 64,
    ;
}

/// Shifting left by `shift` bits multiplies by 2^shift, modulo 2^256.
pub proof fn lemma_shl_value(x: Uint256, shift: nat)
    ensures
        spec_shl(x, shift).value() == (x.value() * pow2(shift)) % modulus(),
{
    let b = word_base() as int;
    let ws = (shift / 64) as int;
    let bs = (shift % 64) as u64;
    let p = pow2(bs as nat) as int;
    lemma2_to64();
    lemma_pow2_pos(bs as nat);
    let r = spec_shl(x, shift);
    let (x0, x1, x2, x3) = (x.word(0) as int, x.word(1) as int, x.word(2) as int, x.word(3) as int);
    lemma_word_shl(x.word(0), bs);
    lemma_word_shl(x.word(1), bs);
    lemma_word_shl(x.word(2), bs);
    lemma_word_shl(x.word(3), bs);
    let (l0, l1, l2, l3) = ((x0 * p) % b, (x1 * p) % b, (x2 * p) % b, (x3 * p) % b);
    let (c0, c1, c2, c3) = ((x0 * p) / b, (x1 * p) / b, (x2 * p) / b, (x3 * p) / b);
    vstd::arithmetic::div_mod::lemma_fundamental_div_mod(x0 * p, b);
    vstd::arithmetic::div_mod::lemma_fundamental_div_mod(x1 * p, b);
    vstd::arithmetic::div_mod::lemma_fundamental_div_mod(x2 * p, b);
    vstd::arithmetic::div_mod::lemma_fundamental_div_mod(x3 * p, b);
    let xp = x.value() as int * p;
    assert(xp == l0 + b * (l1 + c0 + b * (l2 + c1 + b * (l3 + c2 + b * c3)))) by (nonlinear_arith)
        requires
            xp == (x0 + b * (x1 + b * (x2 + b * x3))) * p,
            x0 * p == b * c0 + l0,
            x1 * p == b * c1 + l1,
            x2 * p == b * c2 + l2,
            x3 * p == b * c3 + l3,
    ;
    // each word of the result: the part kept from one word plus the carry from the one below
    let lw = |i: int|
        if i == 0 {
            l0
        } else if i == 1 {
            l1
        } else if i == 2 {
            l2
        } else if i == 3 {
            l3
        } else {
            0
        };
    let cw = |i: int|
        if i == 0 {
            c0
        } else if i == 1 {
            c1
        } else if i == 2 {
            c2
        } else if i == 3 {
            c3
        } else {
            0
        };
    assert forall|j: int| 0 <= j < 4 implies #[trigger] r.word(j) as int == lw(j - ws) + cw(
        j - ws - 1,
    ) by {
        let lo: u64 = if 0 <= j - ws < 4 {
            x.word(j - ws) << bs
        } else {
            0
        };
        let hi: u64 = if bs > 0 && 0 <= j - ws - 1 < 4 {
            x.word(j - ws - 1) >> (64 - bs) as u64
        } else {
            0
        };
        assert(r.word(j) == shifted_word(x, shift, j));
        if bs > 0 {
            lemma_or_is_add(
                if 0 <= j - ws < 4 {
                    x.word(j - ws)
                } else {
                    0
                },
                if 0 <= j - ws - 1 < 4 {
                    x.word(j - ws - 1)
                } else {
                    0
                },
                bs,
            );
            assert(0u64 << bs == 0 && 0u64 >> (64 - bs) as u64 == 0) by (bit_vector)
                requires
                    0 < bs < 64,
            ;
        } else {
            assert(lo | 0u64 == lo) by (bit_vector);
        }
    }
    let vr = r.value() as int;
    let m = modulus() as int;
    lemma_value_bound(r);
    assert(m == b * b * b * b);
    lemma_pow2_adds(bs as nat, (64 * ws) as nat);
    assert(shift == bs + 64 * ws);
    let k: int;
    if ws == 0 {
        assert(pow2(0) == 1);
        k = c3;
        assert(xp == vr + m * k) by (nonlinear_arith)
            requires
                xp == l0 + b * (l1 + c0 + b * (l2 + c1 + b * (l3 + c2 + b * c3))),
                vr == r.word(0) + b * (r.word(1) + b * (r.word(2) + b * r.word(3))),
                r.word(0) == l0,
                r.word(1) == l1 + c0,
                r.word(2) == l2 + c1,
                r.word(3) == l3 + c2,
                m == b * b * b * b,
                k == c3,
        ;
        assert(x.value() * pow2(shift) == xp);
    } else if ws == 1 {
        k = l3 + c2 + b * c3;
        assert(xp * b == vr + m * k) by (nonlinear_arith)
            requires
                xp == l0 + b * (l1 + c0 + b * (l2 + c1 + b * (l3 + c2 + b * c3))),
                vr == r.word(0) + b * (r.word(1) + b * (r.word(2) + b * r.word(3))),
                r.word(0) == 0,
                r.word(1) == l0,
                r.word(2) == l1 + c0,
                r.word(3) == l2 + c1,
                m == b * b * b * b,
                k == l3 + c2 + b * c3,
        ;
        assert(x.value() * pow2(shift) == xp * b) by (nonlinear_arith)
            requires
                pow2(shift) == p * b,
                xp == x.value() * p,
        ;
    } else if ws == 2 {
        k = l2 + c1 + b * (l3 + c2 + b * c3);
        lemma_pow2_adds(64, 64);
        assert(xp * b * b == vr + m * k) by (nonlinear_arith)
            requires
                xp == l0 + b * (l1 + c0 + b * (l2 + c1 + b * (l3 + c2 + b * c3))),
                vr == r.word(0) + b * (r.word(1) + b * (r.word(2) + b * r.word(3))),
                r.word(0) == 0,
                r.word(1) == 0,
                r.word(2) == l0,
                r.word(3) == l1 + c0,
                m == b * b * b * b,
                k == l2 + c1 + b * (l3 + c2 + b * c3),
        ;
        assert(x.value() * pow2(shift) == xp * b * b) by (nonlinear_arith)
            requires
                pow2(shift) == p * (b * b),
                xp == x.value() * p,
        ;
    } else if ws == 3 {
        k = l1 + c0 + b * (l2 + c1 + b * (l3 + c2 + b * c3));
        lemma_pow2_adds(64, 64);
        lemma_pow2_adds(128, 64);
        assert(xp * b * b * b == vr + m * k) by (nonlinear_arith)
            requires
                xp == l0 + b * (l1 + c0 + b * (l2 + c1 + b * (l3 + c2 + b * c3))),
                vr == r.word(0) + b * (r.word(1) + b * (r.word(2) + b * r.word(3))),
                r.word(0) == 0,
                r.word(1) == 0,
                r.word(2) == 0,
                r.word(3) == l0,
                m == b * b * b * b,
                k == l1 + c0 + b * (l2 + c1 + b * (l3 + c2 + b * c3)),
        ;
        assert(x.value() * pow2(shift) == xp * b * b * b) by (nonlinear_arith)
            requires
                pow2(shift) == p * (b * b * b),
                xp == x.value() * p,
        ;
    } else {
        lemma_pow2_adds(64, 64);
        lemma_pow2_adds(128, 64);
        lemma_pow2_adds(192, 64);
        lemma_pow2_adds(256, (64 * ws - 256) as nat);
        lemma_pow2_pos((64 * ws - 256) as nat);
        let rest = pow2((64 * ws - 256) as nat) as int;
        k = xp * rest;
        assert(vr == 0);
        assert(x.value() * pow2(shift) == vr + m * k) by (nonlinear_arith)
            requires
                pow2(shift) == p * (m * rest),
                xp == x.value() * p,
                vr == 0,
                k == xp * rest,
        ;
    }
    assert(x.value() * pow2(shift) == vr + m * k);
    assert(x.value() * pow2(shift) == k * m + vr) by (nonlinear_arith)
        requires
            x.value() * pow2(shift) == vr + m * k,
    ;
    vstd::arithmetic::div_mod::lemma_fundamental_div_mod_converse(
        (x.value() * pow2(shift)) as int,
        m,
        k,
        vr,
    );
}


/// Reading a number back from its 32 little-endian bytes gives the number.
pub proof fn lemma_le_bytes_round_trip(x: Uint256)
    ensures
        words_of(x.le_bytes_spec()) == x,
        x.le_bytes_spec().len() == 32,
{
    crate::le::lemma_le_word_round_trip(x.word(0));
    crate::le::lemma_le_word_round_trip(x.word(1));
    crate::le::lemma_le_word_round_trip(x.word(2));
    crate::le::lemma_le_word_round_trip(x.word(3));
    let b = x.le_bytes_spec();
    assert(b.subrange(0, 8) =~= le_bytes(x.word(0) as nat, 8));
    assert(b.subrange(8, 16) =~= le_bytes(x.word(1) as nat, 8));
    assert(b.subrange(16, 24) =~= le_bytes(x.word(2) as nat, 8));
    assert(b.subrange(24, 32) =~= le_bytes(x.word(3) as nat, 8));
    assert(words_of(b).0 =~= x.0);
}


/// The number read from 32 bytes has the little-endian value of those bytes.
pub proof fn lemma_words_of_value(b: Seq<u8>)
    requires
        b.len() == 32,
    ensures
        words_of(b).value() == le_value(b),
{
    let (s0, s1, s2, s3) = (b.subrange(0, 8), b.subrange(8, 16), b.subrange(16, 24), b.subrange(24, 32));
    crate::le::lemma_le_value_bound(s0);
    crate::le::lemma_le_value_bound(s1);
    crate::le::lemma_le_value_bound(s2);
    crate::le::lemma_le_value_bound(s3);
    crate::le::lemma_pow256_8();
    assert(b =~= s0 + (s1 + (s2 + s3)));
    crate::le::lemma_le_value_concat(s2, s3);
    crate::le::lemma_le_value_concat(s1, s2 + s3);
    crate::le::lemma_le_value_concat(s0, s1 + (s2 + s3));
    let x = words_of(b);
    assert(x.word(0) as nat == le_value(s0));
    assert(x.word(1) as nat == le_value(s1));
    assert(x.word(2) as nat == le_value(s2));
    assert(x.word(3) as nat == le_value(s3));
}


/// A non-zero word lies between the powers of two that its bit count names.
proof fn lemma_word_bits(w: u64)
    requires
        w != 0,
    ensures
        1 <= word_bits(w) <= 64,
        pow2((word_bits(w) - 1) as nat) <= w,
        w < pow2(word_bits(w) as nat),
    decreases w,
{
    reveal(vstd::std_specs::bits::u64_leading_zeros);
    if w == 1 {
        assert(vstd::std_specs::bits::u64_leading_zeros(0) == 64);
        vstd::arithmetic::power2::lemma2_to64();
    } else {
        let h = w / 2;
        lemma_word_bits(h);
        let k = word_bits(h);
        assert(word_bits(w) == k + 1);
        vstd::arithmetic::power2::lemma_pow2_unfold(k as nat);
        vstd::arithmetic::power2::lemma_pow2_unfold((k + 1) as nat);
        assert(k < 64) by {
            if k == 64 {
                vstd::arithmetic::power2::lemma2_to64();
            }
        }
    }
}


proof fn lemma_top_word(w: int, low: int, unit: int, lo: int, hi: int)
    requires
        lo <= w < hi,
        hi == 2 * lo,
        0 <= low < unit,
        lo >= 1,
    ensures
        lo * unit <= w * unit + low < hi * unit,
{
    assert(lo * unit <= w * unit + low < hi * unit) by (nonlinear_arith)
        requires
            lo <= w,
            w + 1 <= hi,
            0 <= low < unit,
    ;
}

/// The bit count is the length of the number in binary: zero for zero, and
/// otherwise `2^(bits - 1) <= value < 2^bits`.
pub proof fn lemma_bits_value(x: Uint256)
    ensures
        x.spec_bits() == 0 <==> x.value() == 0,
        x.value() > 0 ==> pow2((x.spec_bits() - 1) as nat) <= x.value() < pow2(
            x.spec_bits() as nat,
        ),
{
    let b = word_base() as int;
    let (a0, a1, a2, a3) = (x.word(0) as int, x.word(1) as int, x.word(2) as int, x.word(3) as int);
    lemma2_to64();
    lemma_pow2_adds(64, 64);
    lemma_pow2_adds(128, 64);
    let (b2, b3) = (b * b, b * b * b);
    assert(pow2(128) == b2 && pow2(192) == b3);
    let v = x.value() as int;
    let i: int = if a3 != 0 { 3 } else if a2 != 0 { 2 } else if a1 != 0 { 1 } else { 0 };
    let w = x.word(i);
    if w == 0 {
        assert(v == 0);
        return;
    }
    lemma_word_bits(w);
    let k = word_bits(w);
    vstd::arithmetic::power2::lemma_pow2_unfold(k as nat);
    lemma_pow2_pos((k - 1) as nat);
    let (lo, hi) = (pow2((k - 1) as nat) as int, pow2(k as nat) as int);
    if i == 3 {
        let low = a0 + b * a1 + b2 * a2;
        assert(0 <= low < b3 && v == a3 * b3 + low) by (nonlinear_arith)
            requires
                0 <= a0 < b,
                0 <= a1 < b,
                0 <= a2 < b,
                b2 == b * b,
                b3 == b * b * b,
                v == a0 + b * (a1 + b * (a2 + b * a3)),
                low == a0 + b * a1 + b2 * a2,
        ;
        lemma_top_word(a3, low, b3, lo, hi);
        lemma_pow2_adds((k - 1) as nat, 192);
        lemma_pow2_adds(k as nat, 192);
        assert(x.spec_bits() == 192 + k);
    } else if i == 2 {
        let low = a0 + b * a1;
        assert(0 <= low < b2 && v == a2 * b2 + low) by (nonlinear_arith)
            requires
                0 <= a0 < b,
                0 <= a1 < b,
                a3 == 0,
                b2 == b * b,
                v == a0 + b * (a1 + b * (a2 + b * a3)),
                low == a0 + b * a1,
        ;
        lemma_top_word(a2, low, b2, lo, hi);
        lemma_pow2_adds((k - 1) as nat, 128);
        lemma_pow2_adds(k as nat, 128);
        assert(x.spec_bits() == 128 + k);
    } else if i == 1 {
        assert(v == a1 * b + a0) by (nonlinear_arith)
            requires
                a3 == 0,
                a2 == 0,
                v == a0 + b * (a1 + b * (a2 + b * a3)),
        ;
        lemma_top_word(a1, a0, b, lo, hi);
        lemma_pow2_adds((k - 1) as nat, 64);
        lemma_pow2_adds(k as nat, 64);
        assert(x.spec_bits() == 64 + k);
    } else {
        assert(v == a0);
        assert(x.spec_bits() == k);
    }
}

} // verus!
