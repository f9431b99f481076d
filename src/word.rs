use primitive_types::U256;
use vstd::arithmetic::div_mod::*;
use vstd::arithmetic::mul::*;
use vstd::arithmetic::power::*;
use vstd::prelude::*;

verus! {

/// The base of one 64-bit limb, 2^64.
pub open spec fn limb_base() -> nat {
    0x1_0000_0000_0000_0000
}

/// 2^256: every word lies below it, and word arithmetic wraps modulo it.
pub open spec fn word_modulus() -> nat {
    limb_base() * limb_base() * limb_base() * limb_base()
}

/// The unsigned integer that a big-endian byte string stands for.
pub open spec fn be_value(s: Seq<u8>) -> nat
    decreases s.len(),
{
    if s.len() == 0 {
        0
    } else {
        be_value(s.drop_last()) * 256 + s.last() as nat
    }
}

/// The `n` low-order bytes of `v`, most significant first.
pub open spec fn be_bytes(v: nat, n: nat) -> Seq<u8>
    decreases n,
{
    if n == 0 {
        Seq::empty()
    } else {
        be_bytes(v / 256, (n - 1) as nat).push((v % 256) as u8)
    }
}

/// `be_bytes(v, n)` has `n` bytes.
pub proof fn lemma_be_bytes_len(v: nat, n: nat)
    ensures
        be_bytes(v, n).len() == n,
    decreases n,
{
    if n > 0 {
        lemma_be_bytes_len(v / 256, (n - 1) as nat);
    }
}

/// `n` bytes of `src` from `offset` on, with zero for every index past its end.
pub open spec fn padded(src: Seq<u8>, offset: nat, n: nat) -> Seq<u8> {
    Seq::new(n, |i: int| if offset + i < src.len() { src[offset + i] } else { 0u8 })
}

/// Reads `n` bytes of `src` from `offset` on, zero past its end.
pub fn read_padded(src: &[u8], offset: usize, n: usize) -> (r: Vec<u8>)
    ensures
        r@ == padded(src@, offset as nat, n as nat),
{
    let mut r: Vec<u8> = Vec::new();
    let mut i: usize = 0;
    while i < n
        invariant
            i <= n,
            r@ == padded(src@, offset as nat, i as nat),
        decreases n - i,
    {
        let b = if offset < src.len() && i < src.len() - offset {
            src[offset + i]
        } else {
            0u8
        };
        r.push(b);
        i = i + 1;
        assert(r@ =~= padded(src@, offset as nat, i as nat));
    }
    assert(r@ =~= padded(src@, offset as nat, n as nat));
    r
}

/// A 256-bit unsigned integer, held as four 64-bit limbs, least significant first.
#[derive(Clone, Copy, Debug, PartialEq, Eq, Structural)]
pub struct Word {
    pub w0: u64,
    pub w1: u64,
    pub w2: u64,
    pub w3: u64,
}

/// The limbs of `v`, least significant first.
pub open spec fn limbs_of(v: nat) -> Word {
    Word {
        w0: (v % limb_base()) as u64,
        w1: ((v / limb_base()) % limb_base()) as u64,
        w2: ((v / (limb_base() * limb_base())) % limb_base()) as u64,
        w3: ((v / (limb_base() * limb_base() * limb_base())) % limb_base()) as u64,
    }
}

/// Bitwise AND of two words, limb by limb.
pub open spec fn and_value(a: nat, b: nat) -> nat {
    let (x, y) = (limbs_of(a), limbs_of(b));
    (Word { w0: x.w0 & y.w0, w1: x.w1 & y.w1, w2: x.w2 & y.w2, w3: x.w3 & y.w3 }).value()
}

/// Bitwise OR of two words, limb by limb.
pub open spec fn or_value(a: nat, b: nat) -> nat {
    let (x, y) = (limbs_of(a), limbs_of(b));
    (Word { w0: x.w0 | y.w0, w1: x.w1 | y.w1, w2: x.w2 | y.w2, w3: x.w3 | y.w3 }).value()
}

/// Bitwise XOR of two words, limb by limb.
pub open spec fn xor_value(a: nat, b: nat) -> nat {
    let (x, y) = (limbs_of(a), limbs_of(b));
    (Word { w0: x.w0 ^ y.w0, w1: x.w1 ^ y.w1, w2: x.w2 ^ y.w2, w3: x.w3 ^ y.w3 }).value()
}

/// Bitwise complement of a word, limb by limb.
pub open spec fn not_value(a: nat) -> nat {
    let x = limbs_of(a);
    (Word { w0: !x.w0, w1: !x.w1, w2: !x.w2, w3: !x.w3 }).value()
}

/// `a` raised to `e`, modulo 2^256.
pub open spec fn pow_value(a: nat, e: nat) -> nat {
    (pow(a as int, e) % (word_modulus() as int)) as nat
}

impl Word {
    /// The integer this word stands for.
    pub open spec fn value(self) -> nat {
        self.w0 as nat + self.w1 as nat * limb_base() + self.w2 as nat * (limb_base()
            * limb_base()) + self.w3 as nat * (limb_base() * limb_base() * limb_base())
    }

    pub fn zero() -> (r: Word)
        ensures
            r.value() == 0,
    {
        Word { w0: 0, w1: 0, w2: 0, w3: 0 }
    }

    pub fn from_u64(x: u64) -> (r: Word)
        ensures
            r.value() == x,
    {
        Word { w0: x, w1: 0, w2: 0, w3: 0 }
    }

    /// The word of a truth value: 1 or 0.
    pub fn from_bool(b: bool) -> (r: Word)
        ensures
            r.value() == (if b { 1nat } else { 0nat }),
    {
        Word::from_u64(if b { 1 } else { 0 })
    }

    pub fn from_usize(x: usize) -> (r: Word)
        ensures
            r.value() == x,
    {
        Word::from_u64(x as u64)
    }

    /// The word as a byte offset or length, or `None` where it does not fit in `usize`.
    pub fn to_usize(self) -> (r: Option<usize>)
        ensures
            self.value() <= usize::MAX ==> r == Some(self.value() as usize),
            self.value() > usize::MAX ==> r is None,
    {
        if self.w1 == 0 && self.w2 == 0 && self.w3 == 0 && self.w0 <= usize::MAX as u64 {
            Some(self.w0 as usize)
        } else {
            proof {
                let b = limb_base();
                if self.w1 != 0 || self.w2 != 0 || self.w3 != 0 {
                    assert(self.w1 as nat * b + self.w2 as nat * (b * b) + self.w3 as nat * (b
                        * b * b) >= b) by (nonlinear_arith)
                        requires
                            b == 0x1_0000_0000_0000_0000nat,
                            self.w1 != 0 || self.w2 != 0 || self.w3 != 0,
                    ;
                }
            }
            None
        }
    }

    /// Decodes up to 32 big-endian bytes, as if zero-padded on the left.
    pub fn from_be_bytes(bytes: &[u8]) -> (r: Word)
        requires
            bytes@.len() <= 32,
        ensures
            r.value() == be_value(bytes@),
    {
        u256_from_big_endian(bytes)
    }

    /// The 32 big-endian bytes of the word.
    pub fn to_be_bytes(self) -> (r: Vec<u8>)
        ensures
            r@ == be_bytes(self.value(), 32),
            r@.len() == 32,
    {
        proof {
            lemma_be_bytes_len(self.value(), 32);
        }
        u256_to_big_endian(self)
    }

    pub fn wrapping_add(self, other: Word) -> (r: Word)
        ensures
            r.value() == (self.value() + other.value()) % word_modulus(),
    {
        u256_overflowing_add(self, other)
    }

    pub fn wrapping_sub(self, other: Word) -> (r: Word)
        ensures
            r.value() == (self.value() - other.value()) % (word_modulus() as int),
    {
        u256_overflowing_sub(self, other)
    }

    pub fn wrapping_mul(self, other: Word) -> (r: Word)
        ensures
            r.value() == (self.value() * other.value()) % word_modulus(),
    {
        u256_overflowing_mul(self, other)
    }

    /// Quotient, with division by zero giving zero.
    pub fn div_or_zero(self, other: Word) -> (r: Word)
        ensures
            other.value() == 0 ==> r.value() == 0,
            other.value() != 0 ==> r.value() == self.value() / other.value(),
    {
        if u256_is_zero(other) {
            Word::zero()
        } else {
            u256_div(self, other)
        }
    }

    /// Remainder, with division by zero giving zero.
    pub fn rem_or_zero(self, other: Word) -> (r: Word)
        ensures
            other.value() == 0 ==> r.value() == 0,
            other.value() != 0 ==> r.value() == self.value() % other.value(),
    {
        if u256_is_zero(other) {
            Word::zero()
        } else {
            u256_rem(self, other)
        }
    }

    /// `self` raised to `exponent` modulo 2^256, by square and multiply.
    pub fn wrapping_pow(self, exponent: Word) -> (r: Word)
        ensures
            r.value() == pow_value(self.value(), exponent.value()),
    {
        let ghost m = word_modulus() as int;
        if u256_is_zero(exponent) {
            proof {
                lemma_pow0(self.value() as int);
                lemma_small_mod(1, word_modulus());
            }
            return Word::from_u64(1);
        }
        if u256_is_zero(self) {
            proof {
                lemma0_pow(exponent.value());
                assert(pow(self.value() as int, exponent.value()) == 0);
            }
            return Word::zero();
        }
        let mut result = Word::from_u64(1);
        let mut exp = exponent;
        let mut base_pow = self;
        proof {
            lemma_mul_basics(pow(base_pow.value() as int, exp.value()));
        }
        while !u256_is_zero(exp)
            invariant
                result.value() < word_modulus(),
                (result.value() * pow(base_pow.value() as int, exp.value())) % m == pow(
                    self.value() as int,
                    exponent.value(),
                ) % m,
                m == word_modulus(),
            decreases exp.value(),
        {
            let odd = u256_low_bit(exp);
            let ghost (r0, p0, e0) = (result.value() as int, base_pow.value() as int, exp.value());
            if odd {
                result = u256_overflowing_mul(result, base_pow);
            }
            base_pow = u256_overflowing_mul(base_pow, base_pow);
            exp = u256_shr_one(exp);
            proof {
                lemma_square_step(r0, p0, e0, m);
            }
        }
        proof {
            reveal(pow);
            lemma_small_mod(result.value(), word_modulus());
        }
        result
    }
}

/// One round of square and multiply keeps `r * p^e` fixed modulo `m`.
proof fn lemma_square_step(r: int, p: int, e: nat, m: int)
    requires
        m > 0,
    ensures
        e % 2 == 1 ==> ((r * p) % m * pow((p * p) % m, e / 2)) % m == (r * pow(p, e)) % m,
        e % 2 == 0 ==> (r * pow((p * p) % m, e / 2)) % m == (r * pow(p, e)) % m,
{
    let k = e / 2;
    let q = p * p;
    lemma_pow_adds(p, 2 * k, e % 2);
    lemma_pow_multiplies(p, 2, k);
    lemma_square_is_pow2(p);
    lemma_pow_mod_noop(q, k, m);
    assert(pow(p, e) == pow(q, k) * pow(p, e % 2));
    if e % 2 == 1 {
        lemma_pow1(p);
        lemma_mul_mod_noop_left(r * p, pow(q % m, k), m);
        lemma_mul_mod_noop_right(r * p, pow(q % m, k), m);
        lemma_mul_mod_noop_right(r * p, pow(q, k), m);
        assert((r * p) * pow(q, k) == r * pow(p, e)) by (nonlinear_arith)
            requires
                pow(p, e) == pow(q, k) * pow(p, e % 2),
                pow(p, e % 2) == p,
        ;
    } else {
        lemma_pow0(p);
        lemma_mul_mod_noop_right(r, pow(q % m, k), m);
        lemma_mul_mod_noop_right(r, pow(q, k), m);
    }
}

/// Relies on U256::overflowing_add: the sum, wrapped modulo 2^256.
#[verifier::external_body]
fn u256_overflowing_add(a: Word, b: Word) -> (r: Word)
    ensures
        r.value() == (a.value() + b.value()) % word_modulus(),
{
    let x = U256([a.w0, a.w1, a.w2, a.w3]).overflowing_add(U256([b.w0, b.w1, b.w2, b.w3])).0;
    Word { w0: x.0[0], w1: x.0[1], w2: x.0[2], w3: x.0[3] }
}

/// Relies on U256::overflowing_sub: the difference, wrapped modulo 2^256.
#[verifier::external_body]
fn u256_overflowing_sub(a: Word, b: Word) -> (r: Word)
    ensures
        r.value() == (a.value() - b.value()) % (word_modulus() as int),
{
    let x = U256([a.w0, a.w1, a.w2, a.w3]).overflowing_sub(U256([b.w0, b.w1, b.w2, b.w3])).0;
    Word { w0: x.0[0], w1: x.0[1], w2: x.0[2], w3: x.0[3] }
}

/// Relies on U256::overflowing_mul: the product, wrapped modulo 2^256.
#[verifier::external_body]
fn u256_overflowing_mul(a: Word, b: Word) -> (r: Word)
    ensures
        r.value() == (a.value() * b.value()) % word_modulus(),
{
    let x = U256([a.w0, a.w1, a.w2, a.w3]).overflowing_mul(U256([b.w0, b.w1, b.w2, b.w3])).0;
    Word { w0: x.0[0], w1: x.0[1], w2: x.0[2], w3: x.0[3] }
}

/// Relies on U256's `Div`: the quotient, rounded down; it panics on a zero divisor.
#[verifier::external_body]
fn u256_div(a: Word, b: Word) -> (r: Word)
    requires
        b.value() != 0,
    ensures
        r.value() == a.value() / b.value(),
{
    let x = U256([a.w0, a.w1, a.w2, a.w3]) / U256([b.w0, b.w1, b.w2, b.w3]);
    Word { w0: x.0[0], w1: x.0[1], w2: x.0[2], w3: x.0[3] }
}

/// Relies on U256's `Rem`: the remainder; it panics on a zero divisor.
#[verifier::external_body]
fn u256_rem(a: Word, b: Word) -> (r: Word)
    requires
        b.value() != 0,
    ensures
        r.value() == a.value() % b.value(),
{
    let x = U256([a.w0, a.w1, a.w2, a.w3]) % U256([b.w0, b.w1, b.w2, b.w3]);
    Word { w0: x.0[0], w1: x.0[1], w2: x.0[2], w3: x.0[3] }
}

/// Relies on U256::is_zero.
#[verifier::external_body]
pub(crate) fn u256_is_zero(a: Word) -> (r: bool)
    ensures
        r == (a.value() == 0),
{
    U256([a.w0, a.w1, a.w2, a.w3]).is_zero()
}

/// Relies on U256's `PartialEq`: equal integers.
#[verifier::external_body]
pub(crate) fn u256_eq(a: Word, b: Word) -> (r: bool)
    ensures
        r == (a.value() == b.value()),
{
    U256([a.w0, a.w1, a.w2, a.w3]) == U256([b.w0, b.w1, b.w2, b.w3])
}

/// Relies on U256's `PartialOrd`: unsigned comparison.
#[verifier::external_body]
pub(crate) fn u256_lt(a: Word, b: Word) -> (r: bool)
    ensures
        r == (a.value() < b.value()),
{
    U256([a.w0, a.w1, a.w2, a.w3]) < U256([b.w0, b.w1, b.w2, b.w3])
}

/// Relies on U256's `BitAnd`, which works limb by limb.
#[verifier::external_body]
pub(crate) fn u256_and(a: Word, b: Word) -> (r: Word)
    ensures
        r.value() == and_value(a.value(), b.value()),
{
    let x = U256([a.w0, a.w1, a.w2, a.w3]) & U256([b.w0, b.w1, b.w2, b.w3]);
    Word { w0: x.0[0], w1: x.0[1], w2: x.0[2], w3: x.0[3] }
}

/// Relies on U256's `BitOr`, which works limb by limb.
#[verifier::external_body]
pub(crate) fn u256_or(a: Word, b: Word) -> (r: Word)
    ensures
        r.value() == or_value(a.value(), b.value()),
{
    let x = U256([a.w0, a.w1, a.w2, a.w3]) | U256([b.w0, b.w1, b.w2, b.w3]);
    Word { w0: x.0[0], w1: x.0[1], w2: x.0[2], w3: x.0[3] }
}

/// Relies on U256's `BitXor`, which works limb by limb.
#[verifier::external_body]
pub(crate) fn u256_xor(a: Word, b: Word) -> (r: Word)
    ensures
        r.value() == xor_value(a.value(), b.value()),
{
    let x = U256([a.w0, a.w1, a.w2, a.w3]) ^ U256([b.w0, b.w1, b.w2, b.w3]);
    Word { w0: x.0[0], w1: x.0[1], w2: x.0[2], w3: x.0[3] }
}

/// Relies on U256's `Not`, which complements limb by limb.
#[verifier::external_body]
pub(crate) fn u256_not(a: Word) -> (r: Word)
    ensures
        r.value() == not_value(a.value()),
{
    let x = !U256([a.w0, a.w1, a.w2, a.w3]);
    Word { w0: x.0[0], w1: x.0[1], w2: x.0[2], w3: x.0[3] }
}

/// Relies on U256's `Shr` by one bit: halving, rounded down.
#[verifier::external_body]
fn u256_shr_one(a: Word) -> (r: Word)
    ensures
        r.value() == a.value() / 2,
{
    let x = U256([a.w0, a.w1, a.w2, a.w3]) >> 1usize;
    Word { w0: x.0[0], w1: x.0[1], w2: x.0[2], w3: x.0[3] }
}

/// Relies on U256::bit at index 0: whether the integer is odd.
#[verifier::external_body]
fn u256_low_bit(a: Word) -> (r: bool)
    ensures
        r == (a.value() % 2 == 1),
{
    U256([a.w0, a.w1, a.w2, a.w3]).bit(0)
}

/// Relies on U256::byte at index 0: the least significant byte.
#[verifier::external_body]
pub(crate) fn u256_low_byte(a: Word) -> (r: u8)
    ensures
        r as nat == a.value() % 256,
{
    U256([a.w0, a.w1, a.w2, a.w3]).byte(0)
}

/// Relies on U256::from_big_endian, which left-pads up to 32 bytes and panics on more.
#[verifier::external_body]
fn u256_from_big_endian(bytes: &[u8]) -> (r: Word)
    requires
        bytes@.len() <= 32,
    ensures
        r.value() == be_value(bytes@),
{
    let x = U256::from_big_endian(bytes);
    Word { w0: x.0[0], w1: x.0[1], w2: x.0[2], w3: x.0[3] }
}

/// Relies on U256::to_big_endian into a 32-byte buffer.
#[verifier::external_body]
fn u256_to_big_endian(a: Word) -> (r: Vec<u8>)
    ensures
        r@ == be_bytes(a.value(), 32),
{
    let mut bytes = [0u8; 32];
    U256([a.w0, a.w1, a.w2, a.w3]).to_big_endian(&mut bytes);
    bytes.to_vec()
}

} // verus!
