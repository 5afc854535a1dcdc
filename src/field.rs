//! Elements of the BN254 scalar field, kept in canonical little-endian form.
use halo2curves::bn256::Fr;
use halo2curves::ff::{Field, FromUniformBytes, PrimeField};
use vstd::arithmetic::power::pow;
use vstd::prelude::*;

verus! {

/// The order of the BN254 scalar field.
pub open spec fn field_modulus() -> nat {
    21888242871839275222246405745257275088548364400416034343698204186575808495617nat
}

/// The integer that a little-endian byte string denotes.
pub open spec fn le_value(b: Seq<u8>) -> nat
    decreases b.len(),
{
    if b.len() == 0 {
        0
    } else {
        b[0] as nat + 256 * le_value(b.subrange(1, b.len() as int))
    }
}

/// Relies on `Fr::from_repr` and `Fr::to_repr` (canonical little-endian
/// encoding) and on `Add for Fr`, which adds modulo the field order.
#[verifier::external_body]
fn repr_add(a: [u8; 32], b: [u8; 32]) -> (r: [u8; 32])
    requires
        le_value(a@) < field_modulus(),
        le_value(b@) < field_modulus(),
    ensures
        le_value(r@) == (le_value(a@) + le_value(b@)) % field_modulus(),
{
    (Fr::from_repr(a).unwrap() + Fr::from_repr(b).unwrap()).to_repr()
}

/// Relies on `Field::pow_vartime` of `Fr`: the base raised to a 64-bit
/// exponent, in the field.
#[verifier::external_body]
fn repr_pow(a: [u8; 32], e: u64) -> (r: [u8; 32])
    requires
        le_value(a@) < field_modulus(),
    ensures
        le_value(r@) == pow(le_value(a@) as int, e as nat) % (field_modulus() as int),
{
    Fr::from_repr(a).unwrap().pow_vartime([e]).to_repr()
}

/// Relies on `Fr::from_uniform_bytes`, which reduces a 512-bit little-endian
/// integer modulo the field order.
#[verifier::external_body]
fn repr_reduce_wide(b: [u8; 64]) -> (r: [u8; 32])
    ensures
        le_value(r@) == le_value(b@) % field_modulus(),
{
    Fr::from_uniform_bytes(&b).to_repr()
}

/// The 2^28-th root of unity of the field that every evaluation domain's
/// generator is a power of.
pub open spec fn root_of_unity_value() -> nat {
    1748695177688661943023146337482803886740723238769601073607632802312037301404nat
}

/// Relies on the constant `PrimeField::ROOT_OF_UNITY` of `Fr`, as the crate
/// defines it.
#[verifier::external_body]
fn repr_root_of_unity() -> (r: [u8; 32])
    ensures
        le_value(r@) == root_of_unity_value(),
{
    Fr::ROOT_OF_UNITY.to_repr()
}

/// An element of the BN254 scalar field, held as its canonical 32-byte
/// little-endian encoding.
#[derive(Clone, Copy, Debug)]
pub struct Fp {
    bytes: [u8; 32],
}

/// The value `n` modulo the field order, as a field element: ties the
/// contracts below to plain integers.
pub open spec fn reduce(n: int) -> nat {
    (n % (field_modulus() as int)) as nat
}

impl Fp {
    #[verifier::type_invariant]
    spec fn canonical(self) -> bool {
        le_value(self.bytes@) < field_modulus()
    }

    /// The 32 little-endian bytes of the element.
    pub closed spec fn le_bytes(self) -> Seq<u8> {
        self.bytes@
    }

    /// The element as an integer in `0 .. field_modulus()`.
    pub open spec fn value(self) -> nat {
        le_value(self.le_bytes())
    }

    /// The zero element.
    pub fn zero() -> (r: Fp)
        ensures
            r.value() == 0,
    {
        let bytes: [u8; 32] = [0u8; 32];
        proof {
            lemma_le_value_zeros(bytes@);
        }
        Fp { bytes }
    }

    /// The unit element.
    pub fn one() -> (r: Fp)
        ensures
            r.value() == 1,
    {
        let v: Vec<u8> = vec![1u8];
        proof {
            assert(v@.subrange(1, 1) =~= Seq::<u8>::empty());
            reveal_with_fuel(le_value, 2);
        }
        encode(&v)
    }

    /// The field's 2^28-th root of unity.
    pub fn root_of_unity() -> (r: Fp)
        ensures
            r.value() == root_of_unity_value(),
    {
        let bytes = repr_root_of_unity();
        proof {
            assert(root_of_unity_value() < field_modulus());
        }
        Fp { bytes }
    }

    /// Field addition.
    pub fn add(&self, other: &Fp) -> (r: Fp)
        ensures
            r.value() == reduce(self.value() + other.value() as int),
    {
        proof {
            use_type_invariant(self);
            use_type_invariant(other);
        }
        let bytes = repr_add(self.bytes, other.bytes);
        proof {
            vstd::arithmetic::div_mod::lemma_mod_bound(
                (le_value(self.bytes@) + le_value(other.bytes@)) as int,
                field_modulus() as int,
            );
        }
        Fp { bytes }
    }

    /// The element raised to the power `e`.
    pub fn pow(&self, e: u64) -> (r: Fp)
        ensures
            r.value() == reduce(pow(self.value() as int, e as nat)),
    {
        proof {
            use_type_invariant(self);
        }
        let bytes = repr_pow(self.bytes, e);
        proof {
            vstd::arithmetic::div_mod::lemma_mod_bound(
                pow(le_value(self.bytes@) as int, e as nat),
                field_modulus() as int,
            );
        }
        Fp { bytes }
    }

    /// Whether two elements are the same.
    pub fn equals(&self, other: &Fp) -> (r: bool)
        ensures
            r == (self.value() == other.value()),
    {
        let mut i: usize = 0;
        while i < 32
            invariant
                i <= 32,
                forall|j: int| 0 <= j < i ==> self.bytes@[j] == other.bytes@[j],
            decreases 32 - i,
        {
            if self.bytes[i] != other.bytes[i] {
                proof {
                    if le_value(self.bytes@) == le_value(other.bytes@) {
                        lemma_le_value_injective(self.bytes@, other.bytes@);
                    }
                }
                return false;
            }
            i = i + 1;
        }
        proof {
            assert(self.bytes@ =~= other.bytes@);
        }
        true
    }

    /// The 32-byte big-endian encoding of the element.
    pub fn to_be_bytes(&self) -> (r: Vec<u8>)
        ensures
            r@ == self.le_bytes().reverse(),
            r@.len() == 32,
    {
        let mut r: Vec<u8> = Vec::new();
        let mut i: usize = 0;
        while i < 32
            invariant
                i <= 32,
                r@ =~= Seq::new(i as nat, |j: int| self.bytes@[31 - j]),
            decreases 32 - i,
        {
            r.push(self.bytes[31 - i]);
            i = i + 1;
        }
        r
    }
}

/// The field element congruent to the integer whose little-endian bytes are
/// `magnitude`.
pub fn encode(magnitude: &Vec<u8>) -> (r: Fp)
    requires
        magnitude@.len() <= 64,
    ensures
        r.value() == reduce(le_value(magnitude@) as int),
{
    let mut wide: [u8; 64] = [0u8; 64];
    let mut i: usize = 0;
    while i < magnitude.len()
        invariant
            magnitude@.len() <= 64,
            i <= magnitude@.len(),
            forall|j: int| 0 <= j < i ==> wide@[j] == magnitude@[j],
            forall|j: int| i <= j < 64 ==> wide@[j] == 0,
        decreases magnitude@.len() - i,
    {
        wide[i] = magnitude[i];
        i = i + 1;
    }
    proof {
        lemma_le_value_zero_extend(wide@, magnitude@);
    }
    let bytes = repr_reduce_wide(wide);
    proof {
        vstd::arithmetic::div_mod::lemma_mod_bound(le_value(wide@) as int, field_modulus() as int);
    }
    Fp { bytes }
}

/// A string of zero bytes denotes zero.
pub proof fn lemma_le_value_zeros(b: Seq<u8>)
    requires
        forall|j: int| 0 <= j < b.len() ==> b[j] == 0,
    ensures
        le_value(b) == 0,
    decreases b.len(),
{
    if b.len() > 0 {
        lemma_le_value_zeros(b.subrange(1, b.len() as int));
    }
}

/// Trailing zero bytes do not change the value.
pub proof fn lemma_le_value_zero_extend(a: Seq<u8>, b: Seq<u8>)
    requires
        b.len() <= a.len(),
        forall|j: int| 0 <= j < b.len() ==> a[j] == b[j],
        forall|j: int| b.len() <= j < a.len() ==> a[j] == 0,
    ensures
        le_value(a) == le_value(b),
    decreases b.len(),
{
    if b.len() == 0 {
        lemma_le_value_zeros(a);
    } else {
        lemma_le_value_zero_extend(a.subrange(1, a.len() as int), b.subrange(1, b.len() as int));
    }
}

/// Byte strings of one length with one value are the same string.
pub proof fn lemma_le_value_injective(a: Seq<u8>, b: Seq<u8>)
    requires
        a.len() == b.len(),
        le_value(a) == le_value(b),
    ensures
        a == b,
    decreases a.len(),
{
    if a.len() > 0 {
        let ta = a.subrange(1, a.len() as int);
        let tb = b.subrange(1, b.len() as int);
        let x = le_value(ta);
        let y = le_value(tb);
        let a0 = a[0] as int;
        let b0 = b[0] as int;
        assert(a0 == b0 && x == y) by (nonlinear_arith)
            requires
                0 <= a0 < 256,
                0 <= b0 < 256,
                a0 + 256 * x == b0 + 256 * y,
                x >= 0,
                y >= 0,
        ;
        lemma_le_value_injective(ta, tb);
        assert(a =~= b) by {
            assert forall|j: int| 0 <= j < a.len() implies a[j] == b[j] by {
                if j > 0 {
                    assert(a[j] == ta[j - 1]);
                    assert(b[j] == tb[j - 1]);
                }
            }
        }
    }
}

} // verus!
