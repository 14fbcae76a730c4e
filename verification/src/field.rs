//! Elements of the Pallas base field, held as canonical little-endian bytes.

use ff::PrimeField;
use halo2_proofs::pasta::Fp;
use vstd::prelude::*;

verus! {

/// The prime `p` of the field.
pub open spec fn modulus() -> nat {
    0x40000000000000000000000000000000224698fc094cf91b992d30ed00000001nat
}

/// The number that a little-endian byte string denotes.
pub open spec fn le_value(bytes: Seq<u8>) -> nat
    decreases bytes.len(),
{
    if bytes.len() == 0 {
        0
    } else {
        bytes[0] as nat + 256 * le_value(bytes.skip(1))
    }
}

/// Product in the field.
pub open spec fn mul_mod(a: nat, b: nat) -> nat {
    (a * b) % modulus()
}

/// Sum in the field.
pub open spec fn add_mod(a: nat, b: nat) -> nat {
    (a + b) % modulus()
}

/// Additive inverse in the field.
pub open spec fn neg_mod(a: nat) -> nat {
    ((modulus() - a) % (modulus() as int)) as nat
}

/// A field element. Its bytes are always the canonical encoding of a number
/// below the modulus.
#[derive(Clone, Copy, Debug)]
pub struct FieldElement {
    repr: [u8; 32],
}

impl FieldElement {
    /// The number in `0..p` that this element stands for.
    pub closed spec fn value(&self) -> nat {
        le_value(self.repr@)
    }

    /// The encoding is canonical.
    pub open spec fn wf(&self) -> bool {
        self.value() < modulus()
    }

    /// The element that a small integer stands for.
    pub fn from_u64(v: u64) -> (r: Self)
        ensures
            r.wf(),
            r.value() == v,
    {
        fp_from_u64(v)
    }

    /// The multiplicative identity.
    pub fn one() -> (r: Self)
        ensures
            r.wf(),
            r.value() == 1,
    {
        fp_from_u64(1)
    }

    /// The additive identity.
    pub fn zero() -> (r: Self)
        ensures
            r.wf(),
            r.value() == 0,
    {
        fp_from_u64(0)
    }

    /// Decodes canonical bytes; anything at or above the modulus is refused.
    pub fn from_repr(bytes: [u8; 32]) -> (r: Option<Self>)
        ensures
            r.is_some() <==> le_value(bytes@) < modulus(),
            r matches Some(f) ==> f.wf() && f.value() == le_value(bytes@),
    {
        fp_from_repr(bytes)
    }

    /// The canonical little-endian bytes.
    pub fn to_repr(&self) -> (bytes: [u8; 32])
        ensures
            le_value(bytes@) == self.value(),
    {
        self.repr
    }

    /// Field product.
    pub fn mul(&self, rhs: &Self) -> (r: Self)
        requires
            self.wf(),
            rhs.wf(),
        ensures
            r.wf(),
            r.value() == mul_mod(self.value(), rhs.value()),
    {
        fp_mul(self, rhs)
    }

    /// Field sum.
    pub fn add(&self, rhs: &Self) -> (r: Self)
        requires
            self.wf(),
            rhs.wf(),
        ensures
            r.wf(),
            r.value() == add_mod(self.value(), rhs.value()),
    {
        fp_add(self, rhs)
    }

    /// Additive inverse.
    pub fn neg(&self) -> (r: Self)
        requires
            self.wf(),
        ensures
            r.wf(),
            r.value() == neg_mod(self.value()),
    {
        fp_neg(self)
    }

    /// Whether two elements stand for the same number.
    pub fn equals(&self, other: &Self) -> (same: bool)
        ensures
            same == (self.value() == other.value()),
    {
        let mut i: usize = 0;
        while i < 32
            invariant
                i <= 32,
                self.repr@.take(i as int) == other.repr@.take(i as int),
            decreases 32 - i,
        {
            if self.repr[i] != other.repr[i] {
                proof {
                    if self.value() == other.value() {
                        lemma_le_value_injective(self.repr@, other.repr@);
                    }
                }
                return false;
            }
            proof {
                assert(self.repr@.take(i + 1) == self.repr@.take(i as int).push(self.repr@[i as int]));
                assert(other.repr@.take(i + 1) == other.repr@.take(i as int).push(other.repr@[i as int]));
            }
            i += 1;
        }
        proof {
            assert(self.repr@.take(32) == self.repr@);
            assert(other.repr@.take(32) == other.repr@);
        }
        true
    }
}

/// Byte strings of one length that denote the same number are the same.
pub proof fn lemma_le_value_injective(a: Seq<u8>, b: Seq<u8>)
    requires
        a.len() == b.len(),
        le_value(a) == le_value(b),
    ensures
        a == b,
    decreases a.len(),
{
    if a.len() > 0 {
        let x = le_value(a.skip(1));
        let y = le_value(b.skip(1));
        assert(a[0] as nat + 256 * x == b[0] as nat + 256 * y);
        assert(a[0] == b[0] && x == y) by {
            assert((a[0] as nat + 256 * x) % 256 == a[0] as nat) by {
                vstd::arithmetic::div_mod::lemma_mod_multiples_vanish(x as int, a[0] as int, 256);
            }
            assert((b[0] as nat + 256 * y) % 256 == b[0] as nat) by {
                vstd::arithmetic::div_mod::lemma_mod_multiples_vanish(y as int, b[0] as int, 256);
            }
        }
        lemma_le_value_injective(a.skip(1), b.skip(1));
        assert(a =~= seq![a[0]] + a.skip(1));
        assert(b =~= seq![b[0]] + b.skip(1));
    } else {
        assert(a =~= b);
    }
}

/// `Fp::from(u64)`, encoded by `PrimeField::to_repr`: the element whose
/// number is `v`, in canonical little-endian bytes. Every `u64` is below
/// the modulus.
#[verifier::external_body]
fn fp_from_u64(v: u64) -> (r: FieldElement)
    ensures
        r.wf(),
        r.value() == v,
{
    FieldElement { repr: Fp::from(v).to_repr() }
}

/// `PrimeField::from_repr` of `Fp`: succeeds exactly on the little-endian
/// encodings of numbers below the modulus, and on those keeps the number.
#[verifier::external_body]
fn fp_from_repr(bytes: [u8; 32]) -> (r: Option<FieldElement>)
    ensures
        r.is_some() <==> le_value(bytes@) < modulus(),
        r matches Some(f) ==> f.wf() && f.value() == le_value(bytes@),
{
    let decoded: Option<Fp> = Fp::from_repr(bytes).into();
    match decoded {
        Some(f) => Some(FieldElement { repr: f.to_repr() }),
        None => None,
    }
}

/// `Fp`'s `*`, between `PrimeField::from_repr` and `to_repr`: the product
/// of the two numbers, reduced modulo `p`. The arguments are canonical, so
/// decoding them succeeds.
#[verifier::external_body]
fn fp_mul(a: &FieldElement, b: &FieldElement) -> (r: FieldElement)
    requires
        a.wf(),
        b.wf(),
    ensures
        r.wf(),
        r.value() == mul_mod(a.value(), b.value()),
{
    let x: Fp = Fp::from_repr(a.repr).unwrap();
    let y: Fp = Fp::from_repr(b.repr).unwrap();
    FieldElement { repr: (x * y).to_repr() }
}

/// `Fp`'s `+`, between `PrimeField::from_repr` and `to_repr`: the sum of
/// the two numbers, reduced modulo `p`.
#[verifier::external_body]
fn fp_add(a: &FieldElement, b: &FieldElement) -> (r: FieldElement)
    requires
        a.wf(),
        b.wf(),
    ensures
        r.wf(),
        r.value() == add_mod(a.value(), b.value()),
{
    let x: Fp = Fp::from_repr(a.repr).unwrap();
    let y: Fp = Fp::from_repr(b.repr).unwrap();
    FieldElement { repr: (x + y).to_repr() }
}

/// `Fp`'s unary `-`, between `PrimeField::from_repr` and `to_repr`: the
/// number that sums with the argument to 0 modulo `p`.
#[verifier::external_body]
fn fp_neg(a: &FieldElement) -> (r: FieldElement)
    requires
        a.wf(),
    ensures
        r.wf(),
        r.value() == neg_mod(a.value()),
{
    let x: Fp = Fp::from_repr(a.repr).unwrap();
    FieldElement { repr: (-x).to_repr() }
}

} // verus!
