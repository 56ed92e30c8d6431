//! Fixed-width unsigned integers (256 and 512 bits) as little limb records with a
//! natural-number view. The arithmetic itself is done by `alloy_primitives`; this module states
//! what each operation returns.
use vstd::arithmetic::power2::{lemma2_to64, lemma2_to64_rest, lemma_pow2_adds, pow2};
use vstd::prelude::*;

verus! {

/// `2^64`.
pub open spec fn p64() -> nat {
    18446744073709551616nat
}

/// `2^128`.
pub open spec fn p128() -> nat {
    340282366920938463463374607431768211456nat
}

/// `2^192`.
pub open spec fn p192() -> nat {
    6277101735386680763835789423207666416102355444464034512896nat
}

/// `2^256`, the exclusive bound of a [`U256`].
pub open spec fn p256() -> nat {
    115792089237316195423570985008687907853269984665640564039457584007913129639936nat
}

/// `2^320`.
pub open spec fn p320() -> nat {
    2135987035920910082395021706169552114602704522356652769947041607822219725780640550022962086936576nat
}

/// `2^384`.
pub open spec fn p384() -> nat {
    39402006196394479212279040100143613805079739270465446667948293404245721771497210611414266254884915640806627990306816nat
}

/// `2^448`.
pub open spec fn p448() -> nat {
    726838724295606890549323807888004534353641360687318060281490199180639288113397923326191050713763565560762521606266177933534601628614656nat
}

/// `2^512`, the exclusive bound of a [`U512`].
pub open spec fn p512() -> nat {
    13407807929942597099574024998205846127479365820592393377723561443721764030073546976801874298166903427690031858186486050853753882811946569946433649006084096nat
}

/// A 256-bit unsigned integer, stored as four 64-bit words (most significant first, so the
/// derived ordering is the numeric one). Its view is the number it denotes.
#[derive(Clone, Copy, PartialEq, Eq, PartialOrd, Ord, Hash, Debug, Structural)]
pub struct U256 {
    w3: u64,
    w2: u64,
    w1: u64,
    w0: u64,
}

impl View for U256 {
    type V = nat;

    closed spec fn view(&self) -> nat {
        self.w0 as nat + self.w1 as nat * p64() + self.w2 as nat * p128() + self.w3 as nat * p192()
    }
}

/// Every [`U256`] denotes a number below `2^256`.
pub broadcast proof fn lemma_u256_bound(x: U256)
    ensures
        #[trigger] x@ < p256(),
{
}

/// Two [`U256`] values with the same view are the same value.
pub proof fn lemma_u256_view_injective(a: U256, b: U256)
    requires
        a@ == b@,
    ensures
        a == b,
{
    assert(a.w3 == b.w3);
    assert(a.w2 == b.w2);
    assert(a.w1 == b.w1);
}

impl U256 {
    /// Builds a value from little-endian 64-bit limbs.
    pub fn from_limbs(limbs: [u64; 4]) -> (r: U256)
        ensures
            r@ == limbs[0] as nat + limbs[1] as nat * p64() + limbs[2] as nat * p128()
                + limbs[3] as nat * p192(),
    {
        U256 { w3: limbs[3], w2: limbs[2], w1: limbs[1], w0: limbs[0] }
    }

    /// The little-endian 64-bit limbs of this value.
    pub fn into_limbs(self) -> (r: [u64; 4])
        ensures
            self@ == r[0] as nat + r[1] as nat * p64() + r[2] as nat * p128() + r[3] as nat
                * p192(),
    {
        [self.w0, self.w1, self.w2, self.w3]
    }

    /// Zero.
    pub fn zero() -> (r: U256)
        ensures
            r@ == 0,
    {
        U256 { w3: 0, w2: 0, w1: 0, w0: 0 }
    }

    /// One.
    pub fn one() -> (r: U256)
        ensures
            r@ == 1,
    {
        U256 { w3: 0, w2: 0, w1: 0, w0: 1 }
    }

    /// `2^256 - 1`, the largest value.
    pub fn max_value() -> (r: U256)
        ensures
            r@ == p256() - 1,
    {
        U256 { w3: u64::MAX, w2: u64::MAX, w1: u64::MAX, w0: u64::MAX }
    }

    /// Widens a `u64`.
    pub fn from_u64(v: u64) -> (r: U256)
        ensures
            r@ == v,
    {
        U256 { w3: 0, w2: 0, w1: 0, w0: v }
    }

    /// Widens a `u128`.
    pub fn from_u128(v: u128) -> (r: U256)
        ensures
            r@ == v,
    {
        let lo = v as u64;
        let hi = (v >> 64u32) as u64;
        assert(v == lo + hi * 0x1_0000_0000_0000_0000u128) by (bit_vector)
            requires
                lo == v as u64,
                hi == (v >> 64u32) as u64,
        ;
        U256 { w3: 0, w2: 0, w1: hi, w0: lo }
    }

    /// Whether the value is zero.
    pub fn is_zero(&self) -> (r: bool)
        ensures
            r == (self@ == 0),
    {
        self.w0 == 0 && self.w1 == 0 && self.w2 == 0 && self.w3 == 0
    }

    /// Numeric equality.
    pub fn eq_value(&self, other: &U256) -> (r: bool)
        ensures
            r == (self@ == other@),
    {
        proof {
            if self@ == other@ {
                lemma_u256_view_injective(*self, *other);
            }
        }
        self.w3 == other.w3 && self.w2 == other.w2 && self.w1 == other.w1 && self.w0 == other.w0
    }

    /// Numeric `<`.
    pub fn lt_value(&self, other: &U256) -> (r: bool)
        ensures
            r == (self@ < other@),
    {
        if self.w3 != other.w3 {
            self.w3 < other.w3
        } else if self.w2 != other.w2 {
            self.w2 < other.w2
        } else if self.w1 != other.w1 {
            self.w1 < other.w1
        } else {
            self.w0 < other.w0
        }
    }

    /// Numeric `<=`.
    pub fn le_value(&self, other: &U256) -> (r: bool)
        ensures
            r == (self@ <= other@),
    {
        !other.lt_value(self)
    }

    /// `self + rhs`, or `None` when the sum does not fit in 256 bits.
    pub fn checked_add(self, rhs: U256) -> (r: Option<U256>)
        ensures
            r is None <==> self@ + rhs@ >= p256(),
            r matches Some(v) ==> v@ == self@ + rhs@,
    {
        checked_add_raw(self, rhs)
    }

    /// `self - rhs`, or `None` when `rhs` exceeds `self`.
    pub fn checked_sub(self, rhs: U256) -> (r: Option<U256>)
        ensures
            r is None <==> self@ < rhs@,
            r matches Some(v) ==> v@ == self@ - rhs@,
    {
        checked_sub_raw(self, rhs)
    }

    /// `self * rhs`, or `None` when the product does not fit in 256 bits.
    pub fn checked_mul(self, rhs: U256) -> (r: Option<U256>)
        ensures
            r is None <==> self@ * rhs@ >= p256(),
            r matches Some(v) ==> v@ == self@ * rhs@,
    {
        checked_mul_raw(self, rhs)
    }
}

/// `ruint::Uint::checked_add` on 256-bit values: the sum, or `None` exactly when it does not
/// fit in 256 bits.
#[verifier::external_body]
fn checked_add_raw(a: U256, b: U256) -> (r: Option<U256>)
    ensures
        r is None <==> a@ + b@ >= p256(),
        r matches Some(v) ==> v@ == a@ + b@,
{
    let x = alloy_primitives::U256::from_limbs([a.w0, a.w1, a.w2, a.w3]);
    let y = alloy_primitives::U256::from_limbs([b.w0, b.w1, b.w2, b.w3]);
    match x.checked_add(y) {
        Some(s) => {
            let l = s.into_limbs();
            Some(U256 { w3: l[3], w2: l[2], w1: l[1], w0: l[0] })
        },
        None => None,
    }
}

/// `ruint::Uint::checked_sub` on 256-bit values: the difference, or `None` exactly when `b`
/// exceeds `a`.
#[verifier::external_body]
fn checked_sub_raw(a: U256, b: U256) -> (r: Option<U256>)
    ensures
        r is None <==> a@ < b@,
        r matches Some(v) ==> v@ == a@ - b@,
{
    let x = alloy_primitives::U256::from_limbs([a.w0, a.w1, a.w2, a.w3]);
    let y = alloy_primitives::U256::from_limbs([b.w0, b.w1, b.w2, b.w3]);
    match x.checked_sub(y) {
        Some(s) => {
            let l = s.into_limbs();
            Some(U256 { w3: l[3], w2: l[2], w1: l[1], w0: l[0] })
        },
        None => None,
    }
}

/// `ruint::Uint::checked_mul` on 256-bit values: the product, or `None` exactly when it does
/// not fit in 256 bits.
#[verifier::external_body]
fn checked_mul_raw(a: U256, b: U256) -> (r: Option<U256>)
    ensures
        r is None <==> a@ * b@ >= p256(),
        r matches Some(v) ==> v@ == a@ * b@,
{
    let x = alloy_primitives::U256::from_limbs([a.w0, a.w1, a.w2, a.w3]);
    let y = alloy_primitives::U256::from_limbs([b.w0, b.w1, b.w2, b.w3]);
    match x.checked_mul(y) {
        Some(s) => {
            let l = s.into_limbs();
            Some(U256 { w3: l[3], w2: l[2], w1: l[1], w0: l[0] })
        },
        None => None,
    }
}

/// A 512-bit unsigned integer, stored as eight 64-bit words (most significant first). Its view
/// is the number it denotes.
#[derive(Clone, Copy, PartialEq, Eq, Debug, Structural)]
pub struct U512 {
    x7: u64,
    x6: u64,
    x5: u64,
    x4: u64,
    x3: u64,
    x2: u64,
    x1: u64,
    x0: u64,
}

/// The number denoted by eight little-endian 64-bit limbs.
pub open spec fn limbs8_value(l: [u64; 8]) -> nat {
    l[0] as nat + l[1] as nat * p64() + l[2] as nat * p128() + l[3] as nat * p192() + l[4] as nat
        * p256() + l[5] as nat * p320() + l[6] as nat * p384() + l[7] as nat * p448()
}

impl View for U512 {
    type V = nat;

    closed spec fn view(&self) -> nat {
        self.x0 as nat + self.x1 as nat * p64() + self.x2 as nat * p128() + self.x3 as nat * p192()
            + self.x4 as nat * p256() + self.x5 as nat * p320() + self.x6 as nat * p384()
            + self.x7 as nat * p448()
    }
}

/// Every [`U512`] denotes a number below `2^512`.
pub broadcast proof fn lemma_u512_bound(x: U512)
    ensures
        #[trigger] x@ < p512(),
{
}

impl U512 {
    /// Builds a value from little-endian 64-bit limbs.
    pub fn from_limbs(l: [u64; 8]) -> (r: U512)
        ensures
            r@ == limbs8_value(l),
    {
        U512 { x7: l[7], x6: l[6], x5: l[5], x4: l[4], x3: l[3], x2: l[2], x1: l[1], x0: l[0] }
    }

    /// The little-endian 64-bit limbs of this value.
    pub fn into_limbs(self) -> (r: [u64; 8])
        ensures
            self@ == limbs8_value(r),
    {
        [self.x0, self.x1, self.x2, self.x3, self.x4, self.x5, self.x6, self.x7]
    }

    /// Whether the value is zero.
    pub fn is_zero(&self) -> (r: bool)
        ensures
            r == (self@ == 0),
    {
        self.x0 == 0 && self.x1 == 0 && self.x2 == 0 && self.x3 == 0 && self.x4 == 0 && self.x5
            == 0 && self.x6 == 0 && self.x7 == 0
    }
}

/// `ruint::Uint::wrapping_mul` (the `*` operator) on 512-bit values. Where the exact product is
/// below `2^512` no wrapping happens and the result is the product.
#[verifier::external_body]
pub(crate) fn u512_mul(a: U512, b: U512) -> (r: U512)
    requires
        a@ * b@ < p512(),
    ensures
        r@ == a@ * b@,
{
    let x = alloy_primitives::U512::from_limbs([a.x0, a.x1, a.x2, a.x3, a.x4, a.x5, a.x6, a.x7]);
    let y = alloy_primitives::U512::from_limbs([b.x0, b.x1, b.x2, b.x3, b.x4, b.x5, b.x6, b.x7]);
    let l = (x * y).into_limbs();
    U512 { x7: l[7], x6: l[6], x5: l[5], x4: l[4], x3: l[3], x2: l[2], x1: l[1], x0: l[0] }
}

/// `ruint::Uint::wrapping_div` (the `/` operator) on 512-bit values: the floor quotient. It
/// panics on a zero divisor, which `requires` excludes.
#[verifier::external_body]
pub(crate) fn u512_div(a: U512, b: U512) -> (r: U512)
    requires
        b@ > 0,
    ensures
        r@ == a@ / b@,
{
    let x = alloy_primitives::U512::from_limbs([a.x0, a.x1, a.x2, a.x3, a.x4, a.x5, a.x6, a.x7]);
    let y = alloy_primitives::U512::from_limbs([b.x0, b.x1, b.x2, b.x3, b.x4, b.x5, b.x6, b.x7]);
    let l = (x / y).into_limbs();
    U512 { x7: l[7], x6: l[6], x5: l[5], x4: l[4], x3: l[3], x2: l[2], x1: l[1], x0: l[0] }
}

/// `ruint::Uint::wrapping_rem` (the `%` operator) on 512-bit values: the remainder of the
/// floor division. It panics on a zero divisor, which `requires` excludes.
#[verifier::external_body]
pub(crate) fn u512_rem(a: U512, b: U512) -> (r: U512)
    requires
        b@ > 0,
    ensures
        r@ == a@ % b@,
{
    let x = alloy_primitives::U512::from_limbs([a.x0, a.x1, a.x2, a.x3, a.x4, a.x5, a.x6, a.x7]);
    let y = alloy_primitives::U512::from_limbs([b.x0, b.x1, b.x2, b.x3, b.x4, b.x5, b.x6, b.x7]);
    let l = (x % y).into_limbs();
    U512 { x7: l[7], x6: l[6], x5: l[5], x4: l[4], x3: l[3], x2: l[2], x1: l[1], x0: l[0] }
}

/// The powers of two that the fixed-point code shifts by.
pub proof fn lemma_pow2_values()
    ensures
        pow2(1) == 2,
        pow2(32) == 4294967296,
        pow2(64) == p64(),
        pow2(96) == 79228162514264337593543950336,
        pow2(127) == 170141183460469231731687303715884105728,
        pow2(128) == p128(),
        pow2(192) == p192(),
        pow2(256) == p256(),
{
    lemma2_to64();
    lemma2_to64_rest();
    lemma_pow2_adds(64, 32);
    lemma_pow2_adds(64, 63);
    lemma_pow2_adds(64, 64);
    lemma_pow2_adds(128, 64);
    assert(pow2(128) == p128());
    lemma_pow2_adds(128, 128);
    assert(pow2(256) == p128() * p128());
}

/// `ruint::Uint::wrapping_add` (the `+` operator) on 256-bit values. Where the exact sum is
/// below `2^256` no wrapping happens and the result is the sum.
#[verifier::external_body]
pub(crate) fn u256_add(a: U256, b: U256) -> (r: U256)
    requires
        a@ + b@ < p256(),
    ensures
        r@ == a@ + b@,
{
    let x = alloy_primitives::U256::from_limbs([a.w0, a.w1, a.w2, a.w3]);
    let y = alloy_primitives::U256::from_limbs([b.w0, b.w1, b.w2, b.w3]);
    let l = (x + y).into_limbs();
    U256 { w3: l[3], w2: l[2], w1: l[1], w0: l[0] }
}

/// `ruint::Uint::wrapping_sub` (the `-` operator) on 256-bit values. Where `b <= a` no
/// wrapping happens and the result is the difference.
#[verifier::external_body]
pub(crate) fn u256_sub(a: U256, b: U256) -> (r: U256)
    requires
        b@ <= a@,
    ensures
        r@ == a@ - b@,
{
    let x = alloy_primitives::U256::from_limbs([a.w0, a.w1, a.w2, a.w3]);
    let y = alloy_primitives::U256::from_limbs([b.w0, b.w1, b.w2, b.w3]);
    let l = (x - y).into_limbs();
    U256 { w3: l[3], w2: l[2], w1: l[1], w0: l[0] }
}

/// `ruint::Uint::wrapping_mul` (the `*` operator) on 256-bit values. Where the exact product
/// is below `2^256` no wrapping happens and the result is the product.
#[verifier::external_body]
pub(crate) fn u256_mul(a: U256, b: U256) -> (r: U256)
    requires
        a@ * b@ < p256(),
    ensures
        r@ == a@ * b@,
{
    let x = alloy_primitives::U256::from_limbs([a.w0, a.w1, a.w2, a.w3]);
    let y = alloy_primitives::U256::from_limbs([b.w0, b.w1, b.w2, b.w3]);
    let l = (x * y).into_limbs();
    U256 { w3: l[3], w2: l[2], w1: l[1], w0: l[0] }
}

/// `ruint::Uint::wrapping_div` (the `/` operator) on 256-bit values: the floor quotient. It
/// panics on a zero divisor, which `requires` excludes.
#[verifier::external_body]
pub(crate) fn u256_div(a: U256, b: U256) -> (r: U256)
    requires
        b@ > 0,
    ensures
        r@ == a@ / b@,
{
    let x = alloy_primitives::U256::from_limbs([a.w0, a.w1, a.w2, a.w3]);
    let y = alloy_primitives::U256::from_limbs([b.w0, b.w1, b.w2, b.w3]);
    let l = (x / y).into_limbs();
    U256 { w3: l[3], w2: l[2], w1: l[1], w0: l[0] }
}

/// The `<<` operator of `ruint::Uint` on 256-bit values (`wrapping_shl`): `a * 2^n` reduced
/// modulo `2^256`.
#[verifier::external_body]
pub(crate) fn u256_shl(a: U256, n: usize) -> (r: U256)
    requires
        n < 256,
    ensures
        r@ == (a@ * pow2(n as nat)) % p256(),
{
    let x = alloy_primitives::U256::from_limbs([a.w0, a.w1, a.w2, a.w3]);
    let l = (x << n).into_limbs();
    U256 { w3: l[3], w2: l[2], w1: l[1], w0: l[0] }
}

/// The `>>` operator of `ruint::Uint` on 256-bit values (`wrapping_shr`): `floor(a / 2^n)`.
#[verifier::external_body]
pub(crate) fn u256_shr(a: U256, n: usize) -> (r: U256)
    requires
        n < 256,
    ensures
        r@ == a@ / pow2(n as nat),
{
    let x = alloy_primitives::U256::from_limbs([a.w0, a.w1, a.w2, a.w3]);
    let l = (x >> n).into_limbs();
    U256 { w3: l[3], w2: l[2], w1: l[1], w0: l[0] }
}

/// `ruint::Uint::leading_zeros` on 256-bit values: for a non-zero value the count `z` with
/// `2^(255 - z) <= a < 2^(256 - z)`; for zero it is 256.
#[verifier::external_body]
pub(crate) fn u256_leading_zeros(a: U256) -> (r: usize)
    ensures
        r <= 256,
        a@ == 0 ==> r == 256,
        a@ > 0 ==> r < 256 && pow2((255 - r) as nat) <= a@ < pow2((256 - r) as nat),
{
    alloy_primitives::U256::from_limbs([a.w0, a.w1, a.w2, a.w3]).leading_zeros()
}

/// `2^255`, the bound of the magnitude of an [`I256`].
pub open spec fn p255() -> nat {
    57896044618658097711785492504343953926634992332820282019728792003956564819968nat
}

/// A 256-bit two's-complement signed integer, held as its raw bit pattern. Its view is the
/// signed number it denotes.
#[derive(Clone, Copy, PartialEq, Eq, Debug, Structural)]
pub struct I256 {
    raw: U256,
}

impl View for I256 {
    type V = int;

    closed spec fn view(&self) -> int {
        if self.raw@ < p255() {
            self.raw@ as int
        } else {
            self.raw@ - p256()
        }
    }
}

impl I256 {
    /// The raw bit pattern, as a number.
    pub closed spec fn raw_view(self) -> nat {
        self.raw@
    }

    /// The signed value and the raw bit pattern determine each other: the raw pattern is the
    /// value modulo `2^256`, and the value lies in `[-2^255, 2^255)`.
    pub proof fn lemma_raw(self)
        ensures
            -p255() <= self@ < p255(),
            self.raw_view() < p256(),
            self@ >= 0 ==> self.raw_view() == self@,
            self@ < 0 ==> self.raw_view() == self@ + p256(),
    {
    }

    /// Reinterprets a raw 256-bit pattern as a signed number.
    pub fn from_raw(raw: U256) -> (r: I256)
        ensures
            r.raw_view() == raw@,
            r@ == (if raw@ < p255() {
                raw@ as int
            } else {
                raw@ - p256()
            }),
    {
        I256 { raw }
    }

    /// The raw 256-bit pattern.
    pub fn into_raw(self) -> (r: U256)
        ensures
            r@ == self.raw_view(),
    {
        self.raw
    }
}

/// The `-` operator of `alloy_primitives::I256`. Where the exact difference lies in
/// `[-2^255, 2^255)` it does not overflow and the result is the difference.
#[verifier::external_body]
pub(crate) fn i256_sub(a: I256, b: I256) -> (r: I256)
    requires
        -p255() <= a@ - b@ < p255(),
    ensures
        r@ == a@ - b@,
{
    let x = alloy_primitives::I256::from_raw(alloy_primitives::U256::from_limbs([a.raw.w0, a.raw.w1, a.raw.w2, a.raw.w3]));
    let y = alloy_primitives::I256::from_raw(alloy_primitives::U256::from_limbs([b.raw.w0, b.raw.w1, b.raw.w2, b.raw.w3]));
    let l = (x - y).into_raw().into_limbs();
    I256 { raw: U256 { w3: l[3], w2: l[2], w1: l[1], w0: l[0] } }
}

/// The `+` operator of `alloy_primitives::I256`. Where the exact sum lies in `[-2^255, 2^255)`
/// it does not overflow and the result is the sum.
#[verifier::external_body]
pub(crate) fn i256_add(a: I256, b: I256) -> (r: I256)
    requires
        -p255() <= a@ + b@ < p255(),
    ensures
        r@ == a@ + b@,
{
    let x = alloy_primitives::I256::from_raw(alloy_primitives::U256::from_limbs([a.raw.w0, a.raw.w1, a.raw.w2, a.raw.w3]));
    let y = alloy_primitives::I256::from_raw(alloy_primitives::U256::from_limbs([b.raw.w0, b.raw.w1, b.raw.w2, b.raw.w3]));
    let l = (x + y).into_raw().into_limbs();
    I256 { raw: U256 { w3: l[3], w2: l[2], w1: l[1], w0: l[0] } }
}

/// The `*` operator of `alloy_primitives::I256`. Where the exact product lies in
/// `[-2^255, 2^255)` it does not overflow and the result is the product.
#[verifier::external_body]
pub(crate) fn i256_mul(a: I256, b: I256) -> (r: I256)
    requires
        -p255() <= a@ * b@ < p255(),
    ensures
        r@ == a@ * b@,
{
    let x = alloy_primitives::I256::from_raw(alloy_primitives::U256::from_limbs([a.raw.w0, a.raw.w1, a.raw.w2, a.raw.w3]));
    let y = alloy_primitives::I256::from_raw(alloy_primitives::U256::from_limbs([b.raw.w0, b.raw.w1, b.raw.w2, b.raw.w3]));
    let l = (x * y).into_raw().into_limbs();
    I256 { raw: U256 { w3: l[3], w2: l[2], w1: l[1], w0: l[0] } }
}

/// The `>>` operator of `alloy_primitives::I256` (`wrapping_shr`), which shifts the raw bit
/// pattern logically: the raw result is `floor(raw / 2^n)`.
#[verifier::external_body]
pub(crate) fn i256_shr(a: I256, n: usize) -> (r: I256)
    requires
        n < 256,
    ensures
        r.raw_view() == a.raw_view() / pow2(n as nat),
{
    let x = alloy_primitives::I256::from_raw(alloy_primitives::U256::from_limbs([a.raw.w0, a.raw.w1, a.raw.w2, a.raw.w3]));
    let l = (x >> n).into_raw().into_limbs();
    I256 { raw: U256 { w3: l[3], w2: l[2], w1: l[1], w0: l[0] } }
}

} // verus!
