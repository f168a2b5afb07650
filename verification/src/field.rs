//! The Pallas scalar field, modelled as canonical integers below the field
//! order. Arithmetic on the 256-bit representatives is delegated to ark-ff;
//! every operation carries an exact contract over the integer model.

use vstd::prelude::*;

verus! {

/// The order of the Pallas scalar field.
pub open spec fn field_order() -> int {
    0x40000000000000000000000000000000224698fc0994a8dd8c46eb2100000001int
}

/// A field element, held as its canonical value in four little-endian 64-bit limbs.
#[derive(Clone, Copy, Debug, PartialEq, Eq, Structural)]
pub struct Fe {
    l0: u64,
    l1: u64,
    l2: u64,
    l3: u64,
}

impl View for Fe {
    type V = int;

    closed spec fn view(&self) -> int {
        self.l0 as int
            + self.l1 as int * 0x10000000000000000int
            + self.l2 as int * 0x100000000000000000000000000000000int
            + self.l3 as int * 0x1000000000000000000000000000000000000000000000000int
    }
}

impl Fe {
    /// The canonical-representative invariant: the limbs encode a value below the field order.
    #[verifier::type_invariant]
    pub open spec fn inv(self) -> bool {
        0 <= self@ < field_order()
    }
}

/// Addition in the integer model.
pub open spec fn f_add(a: int, b: int) -> int {
    (a + b) % field_order()
}

/// Subtraction in the integer model.
pub open spec fn f_sub(a: int, b: int) -> int {
    (a - b) % field_order()
}

/// Multiplication in the integer model.
pub open spec fn f_mul(a: int, b: int) -> int {
    (a * b) % field_order()
}

/// Exponentiation in the integer model.
pub open spec fn f_pow(a: int, e: nat) -> int
    decreases e,
{
    if e == 0 {
        1
    } else {
        f_mul(a, f_pow(a, (e - 1) as nat))
    }
}

/// The multiplicative inverse in the integer model, as the canonical value
/// that multiplies to 1; meaningful whenever such a value exists.
pub open spec fn f_inv(a: int) -> int {
    choose|x: int| 0 <= x < field_order() && f_mul(a, x) == 1
}

impl Fe {
    /// The zero element.
    pub fn zero() -> (r: Fe)
        ensures
            r@ == 0,
    {
        Fe { l0: 0, l1: 0, l2: 0, l3: 0 }
    }

    /// The unit element.
    pub fn one() -> (r: Fe)
        ensures
            r@ == 1,
    {
        Fe { l0: 1, l1: 0, l2: 0, l3: 0 }
    }

    /// Embed a machine word; every 64-bit value is already canonical.
    pub fn from_u64(x: u64) -> (r: Fe)
        ensures
            r@ == x as int,
    {
        Fe { l0: x, l1: 0, l2: 0, l3: 0 }
    }

    pub fn is_zero(&self) -> (r: bool)
        ensures
            r == (self@ == 0),
    {
        proof {
            use_type_invariant(*self);
        }
        self.l0 == 0 && self.l1 == 0 && self.l2 == 0 && self.l3 == 0
    }
}

/// Equal canonical values have equal limbs: the view is injective on canonical
/// elements, so the derived `==` decides equality of values.
pub proof fn lemma_view_injective(a: Fe, b: Fe)
    requires
        a.inv(),
        b.inv(),
        a@ == b@,
    ensures
        a == b,
{
    let d = 0x10000000000000000int;
    assert(a.l0 == b.l0 && a.l1 == b.l1 && a.l2 == b.l2 && a.l3 == b.l3) by {
        let va = a@;
        vstd::arithmetic::div_mod::lemma_fundamental_div_mod_converse(
            va,
            d,
            a.l1 as int + a.l2 as int * d + a.l3 as int * d * d,
            a.l0 as int,
        );
        vstd::arithmetic::div_mod::lemma_fundamental_div_mod_converse(
            va,
            d,
            b.l1 as int + b.l2 as int * d + b.l3 as int * d * d,
            b.l0 as int,
        );
        let ha = a.l1 as int + a.l2 as int * d + a.l3 as int * d * d;
        let hb = b.l1 as int + b.l2 as int * d + b.l3 as int * d * d;
        assert(ha == hb);
        vstd::arithmetic::div_mod::lemma_fundamental_div_mod_converse(
            ha,
            d,
            a.l2 as int + a.l3 as int * d,
            a.l1 as int,
        );
        vstd::arithmetic::div_mod::lemma_fundamental_div_mod_converse(
            ha,
            d,
            b.l2 as int + b.l3 as int * d,
            b.l1 as int,
        );
        let ga = a.l2 as int + a.l3 as int * d;
        let gb = b.l2 as int + b.l3 as int * d;
        assert(ga == gb);
        vstd::arithmetic::div_mod::lemma_fundamental_div_mod_converse(ga, d, a.l3 as int, a.l2 as int);
        vstd::arithmetic::div_mod::lemma_fundamental_div_mod_converse(gb, d, b.l3 as int, b.l2 as int);
    }
}

/// Relies on ark-ff's `Add` for `ark_pallas::Fr`: addition of canonical
/// representatives modulo the Pallas scalar-field order.
#[verifier::external_body]
pub fn fe_add(a: &Fe, b: &Fe) -> (r: Fe)
    ensures
        r@ == f_add(a@, b@),
{
    let x = ark_pallas::Fr::from(ark_ff::BigInt([a.l0, a.l1, a.l2, a.l3]))
        + ark_pallas::Fr::from(ark_ff::BigInt([b.l0, b.l1, b.l2, b.l3]));
    let w = ark_ff::PrimeField::into_bigint(x).0;
    Fe { l0: w[0], l1: w[1], l2: w[2], l3: w[3] }
}

/// Relies on ark-ff's `Sub` for `ark_pallas::Fr`: subtraction of canonical
/// representatives modulo the Pallas scalar-field order.
#[verifier::external_body]
pub fn fe_sub(a: &Fe, b: &Fe) -> (r: Fe)
    ensures
        r@ == f_sub(a@, b@),
{
    let x = ark_pallas::Fr::from(ark_ff::BigInt([a.l0, a.l1, a.l2, a.l3]))
        - ark_pallas::Fr::from(ark_ff::BigInt([b.l0, b.l1, b.l2, b.l3]));
    let w = ark_ff::PrimeField::into_bigint(x).0;
    Fe { l0: w[0], l1: w[1], l2: w[2], l3: w[3] }
}

/// Relies on ark-ff's `Mul` for `ark_pallas::Fr`: multiplication of canonical
/// representatives modulo the Pallas scalar-field order.
#[verifier::external_body]
pub fn fe_mul(a: &Fe, b: &Fe) -> (r: Fe)
    ensures
        r@ == f_mul(a@, b@),
{
    let x = ark_pallas::Fr::from(ark_ff::BigInt([a.l0, a.l1, a.l2, a.l3]))
        * ark_pallas::Fr::from(ark_ff::BigInt([b.l0, b.l1, b.l2, b.l3]));
    let w = ark_ff::PrimeField::into_bigint(x).0;
    Fe { l0: w[0], l1: w[1], l2: w[2], l3: w[3] }
}

/// Relies on ark-ff's `Field::inverse` for `ark_pallas::Fr`: `None` exactly on
/// zero, otherwise the multiplicative inverse.
#[verifier::external_body]
pub fn fe_invert(a: &Fe) -> (r: Option<Fe>)
    ensures
        r is Some <==> a@ != 0,
        r is Some ==> f_mul(a@, r->Some_0@) == 1,
{
    let x = ark_pallas::Fr::from(ark_ff::BigInt([a.l0, a.l1, a.l2, a.l3]));
    match ark_ff::Field::inverse(&x) {
        Some(y) => {
            let w = ark_ff::PrimeField::into_bigint(y).0;
            Some(Fe { l0: w[0], l1: w[1], l2: w[2], l3: w[3] })
        },
        None => None,
    }
}

/// The value named by `omega_of(n)`: what ark-ff's `get_root_of_unity` returns
/// for the Pallas scalar field on input `n`.
pub uninterp spec fn omega_of(n: nat) -> int;

pub open spec fn is_pow2(n: nat) -> bool
    decreases n,
{
    if n == 0 {
        false
    } else if n == 1 {
        true
    } else {
        n % 2 == 0 && is_pow2(n / 2)
    }
}

/// Relies on ark-ff's `FftField::get_root_of_unity` for `ark_pallas::Fr`: a
/// deterministic function of `n` that succeeds exactly on powers of two within
/// the field's two-adicity of 32 and then returns an element of exact order `n`.
/// Inputs beyond 2^32 are kept out: arkworks rounds `n` up to a power of two
/// first, which has no defined result near the top of the `u64` range.
#[verifier::external_body]
pub fn fe_root_of_unity(n: u64) -> (r: Option<Fe>)
    requires
        n <= 0x100000000,
    ensures
        (r is Some) == (is_pow2(n as nat) && n <= 0x100000000),
        r is Some ==> r->Some_0@ == omega_of(n as nat),
        r is Some ==> f_pow(r->Some_0@, n as nat) == 1,
        r is Some ==> r->Some_0@ != 0,
        r is Some && n > 1 ==> f_pow(r->Some_0@, (n / 2) as nat) != 1,
{
    match <ark_pallas::Fr as ark_ff::FftField>::get_root_of_unity(n) {
        Some(x) => {
            let w = ark_ff::PrimeField::into_bigint(x).0;
            Some(Fe { l0: w[0], l1: w[1], l2: w[2], l3: w[3] })
        },
        None => None,
    }
}

pub proof fn lemma_f_mul_comm(a: int, b: int)
    ensures
        f_mul(a, b) == f_mul(b, a),
{
    vstd::arithmetic::mul::lemma_mul_is_commutative(a, b);
}

pub proof fn lemma_f_mul_assoc(a: int, b: int, c: int)
    ensures
        f_mul(f_mul(a, b), c) == f_mul(a, f_mul(b, c)),
{
    let p = field_order();
    vstd::arithmetic::div_mod::lemma_mul_mod_noop_left(a * b, c, p);
    vstd::arithmetic::div_mod::lemma_mul_mod_noop_right(a, b * c, p);
    vstd::arithmetic::mul::lemma_mul_is_associative(a, b, c);
}

pub proof fn lemma_f_mul_one(a: int)
    requires
        0 <= a < field_order(),
    ensures
        f_mul(a, 1) == a,
        f_mul(1, a) == a,
{
    vstd::arithmetic::div_mod::lemma_small_mod(a as nat, field_order() as nat);
}

/// The result of every model operation is canonical.
pub proof fn lemma_f_pow_range(a: int, e: nat)
    ensures
        0 <= f_pow(a, e) < field_order(),
{
    if e == 0 {
    } else {
        vstd::arithmetic::div_mod::lemma_mod_bound(
            a * f_pow(a, (e - 1) as nat),
            field_order(),
        );
    }
}

pub proof fn lemma_f_pow_succ(a: int, e: nat)
    ensures
        f_pow(a, e + 1) == f_mul(f_pow(a, e), a),
    decreases e,
{
    if e == 0 {
        lemma_f_mul_comm(a, 1);
    } else {
        lemma_f_pow_succ(a, (e - 1) as nat);
        lemma_f_mul_assoc(a, f_pow(a, (e - 1) as nat), a);
    }
}

pub proof fn lemma_f_pow_add(a: int, e1: nat, e2: nat)
    ensures
        f_pow(a, e1 + e2) == f_mul(f_pow(a, e1), f_pow(a, e2)),
    decreases e2,
{
    if e2 == 0 {
        lemma_f_pow_range(a, e1);
        lemma_f_mul_one(f_pow(a, e1));
    } else {
        lemma_f_pow_add(a, e1, (e2 - 1) as nat);
        let x = f_pow(a, e1);
        let y = f_pow(a, (e2 - 1) as nat);
        assert(f_pow(a, (e1 + e2 - 1) as nat) == f_mul(x, y));
        assert(f_pow(a, e1 + e2) == f_mul(a, f_mul(x, y)));
        lemma_f_mul_assoc(a, x, y);
        lemma_f_mul_comm(a, x);
        lemma_f_mul_assoc(x, a, y);
        assert(f_mul(a, f_mul(x, y)) == f_mul(x, f_mul(a, y)));
    }
}

pub proof fn lemma_f_pow_pow(a: int, e1: nat, e2: nat)
    ensures
        f_pow(f_pow(a, e1), e2) == f_pow(a, e1 * e2),
    decreases e2,
{
    if e2 == 0 {
    } else {
        lemma_f_pow_pow(a, e1, (e2 - 1) as nat);
        assert(e1 * e2 == e1 + e1 * (e2 - 1)) by {
            vstd::arithmetic::mul::lemma_mul_is_distributive_sub(e1 as int, e2 as int, 1);
        }
        lemma_f_pow_add(a, e1, (e1 * (e2 - 1)) as nat);
        lemma_f_pow_succ(f_pow(a, e1), (e2 - 1) as nat);
        lemma_f_mul_comm(f_pow(f_pow(a, e1), (e2 - 1) as nat), f_pow(a, e1));
    }
}

pub proof fn lemma_f_pow_one_base(e: nat)
    ensures
        f_pow(1, e) == 1,
    decreases e,
{
    if e == 0 {
    } else {
        lemma_f_pow_one_base((e - 1) as nat);
        lemma_f_mul_one(1);
    }
}

/// Inverses are unique, so any witness pins `f_inv` down.
pub proof fn lemma_f_inv_unique(a: int, x: int)
    requires
        0 <= x < field_order(),
        f_mul(a, x) == 1,
    ensures
        f_inv(a) == x,
        f_mul(a, f_inv(a)) == 1,
{
    let y = f_inv(a);
    assert(0 <= y < field_order() && f_mul(a, y) == 1) by {
        assert(0 <= x < field_order() && f_mul(a, x) == 1);
    }
    lemma_f_mul_one(x);
    lemma_f_mul_assoc(x, a, y);
    lemma_f_mul_comm(x, a);
    lemma_f_mul_one(y);
    lemma_f_mul_comm(x, y);
    assert(x == f_mul(x, f_mul(a, y)));
    assert(f_mul(f_mul(x, a), y) == f_mul(f_mul(a, x), y));
}

/// A difference of canonical values vanishes in the model only when they are equal.
pub proof fn lemma_f_sub_zero(a: int, b: int)
    requires
        0 <= a < field_order(),
        0 <= b < field_order(),
        f_sub(a, b) == 0,
    ensures
        a == b,
{
    let p = field_order();
    if a >= b {
        vstd::arithmetic::div_mod::lemma_small_mod((a - b) as nat, p as nat);
    } else {
        vstd::arithmetic::div_mod::lemma_mod_add_multiples_vanish(a - b, p);
        vstd::arithmetic::div_mod::lemma_small_mod((a - b + p) as nat, p as nat);
    }
}

impl Fe {
    /// Exponentiation by repeated multiplication against the model's power function.
    pub fn pow_u64(&self, e: u64) -> (r: Fe)
        ensures
            r@ == f_pow(self@, e as nat),
    {
        let mut acc = Fe::one();
        let mut i: u64 = 0;
        while i < e
            invariant
                i <= e,
                acc@ == f_pow(self@, i as nat),
            decreases e - i,
        {
            proof {
                lemma_f_pow_succ(self@, i as nat);
            }
            acc = fe_mul(&acc, self);
            i = i + 1;
        }
        acc
    }
}

/// The integer model of a sequence of field elements.
pub open spec fn fe_seq_v(s: Seq<Fe>) -> Seq<int> {
    Seq::new(s.len(), |i: int| s[i]@)
}

/// A power of two within the field's two-adicity stays within 2^32.
pub proof fn lemma_is_pow2_le(n: nat)
    requires
        is_pow2(n),
        n <= 0x100000000,
    ensures
        n >= 1,
    decreases n,
{
    if n > 1 {
        lemma_is_pow2_le(n / 2);
    }
}

/// The little-endian value of a byte string.
pub open spec fn le_bytes_value(bytes: Seq<u8>) -> int
    decreases bytes.len(),
{
    if bytes.len() == 0 {
        0
    } else {
        bytes[0] as int + 256 * le_bytes_value(bytes.drop_first())
    }
}

/// The 32-byte little-endian encoding of a canonical value.
pub open spec fn le32_of(v: int) -> Seq<u8> {
    Seq::new(32, |i: int| ((v / vstd::arithmetic::power::pow(256, i as nat)) % 256) as u8)
}

/// Relies on ark-serialize's `CanonicalSerialize::serialize_uncompressed` for
/// `ark_pallas::Fr`: the canonical value written as 32 little-endian bytes.
#[verifier::external_body]
pub fn fe_to_bytes32(x: &Fe) -> (r: [u8; 32])
    ensures
        r@ == le32_of(x@),
{
    let f = ark_pallas::Fr::from(ark_ff::BigInt([x.l0, x.l1, x.l2, x.l3]));
    let mut out = [0u8; 32];
    ark_serialize::CanonicalSerialize::serialize_uncompressed(&f, &mut out[..]).expect("32-byte sink");
    out
}

/// Relies on ark-serialize's `CanonicalDeserialize::deserialize_compressed` for
/// `ark_pallas::Fr`: reads 32 little-endian bytes and accepts exactly the
/// canonical values below the field order.
#[verifier::external_body]
pub fn fe_from_bytes32(bytes: &[u8]) -> (r: Option<Fe>)
    requires
        bytes@.len() == 32,
    ensures
        (r is Some) == (0 <= le_bytes_value(bytes@) < field_order()),
        r is Some ==> r->Some_0@ == le_bytes_value(bytes@),
{
    match <ark_pallas::Fr as ark_serialize::CanonicalDeserialize>::deserialize_compressed(bytes) {
        Ok(x) => {
            let w = ark_ff::PrimeField::into_bigint(x).0;
            Some(Fe { l0: w[0], l1: w[1], l2: w[2], l3: w[3] })
        },
        Err(_) => None,
    }
}

/// Relies on ark-ff's `PrimeField::from_le_bytes_mod_order` for
/// `ark_pallas::Fr`: the little-endian value of the bytes, reduced by the
/// field order.
#[verifier::external_body]
pub fn fe_from_le_bytes_mod_order(bytes: &[u8]) -> (r: Fe)
    ensures
        r@ == le_bytes_value(bytes@) % field_order(),
{
    let x = <ark_pallas::Fr as ark_ff::PrimeField>::from_le_bytes_mod_order(bytes);
    let w = ark_ff::PrimeField::into_bigint(x).0;
    Fe { l0: w[0], l1: w[1], l2: w[2], l3: w[3] }
}

} // verus!
