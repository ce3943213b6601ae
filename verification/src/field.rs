//! Field elements of the pallas base field, carried as their canonical
//! 32-byte little-endian representation.
//!
//! The contract's slot addresses, keys and values are elements of the scalar
//! field of the proof system.  This module holds such an element as the exact
//! byte string that the wire format and the storage keys use, so that all
//! encoding logic is plain byte logic; only field addition, hashing and the
//! canonicality test go through the outside field implementation.

use vstd::prelude::*;

use pasta_curves::group::ff::PrimeField;

verus! {

/// Little-endian value of a byte sequence: the first byte is the least
/// significant base-256 digit.
pub open spec fn le_nat(s: Seq<u8>) -> nat
    decreases s.len(),
{
    if s.len() == 0 {
        0
    } else {
        (s[0] as nat) + 256 * le_nat(s.drop_first())
    }
}

/// 256 raised to the power k.
pub open spec fn pow256(k: nat) -> nat
    decreases k,
{
    if k == 0 {
        1
    } else {
        256 * pow256((k - 1) as nat)
    }
}

/// The k-byte little-endian encoding of n (mod 256^k).
pub open spec fn le_bytes(n: nat, k: nat) -> Seq<u8>
    decreases k,
{
    if k == 0 {
        Seq::empty()
    } else {
        seq![(n % 256) as u8] + le_bytes(n / 256, (k - 1) as nat)
    }
}

/// The modulus of the pallas base field.
pub open spec fn field_modulus() -> nat {
    0x40000000000000000000000000000000224698fc094cf91b992d30ed00000001nat
}

pub proof fn lemma_le_nat_bound(s: Seq<u8>)
    ensures
        le_nat(s) < pow256(s.len()),
    decreases s.len(),
{
    if s.len() > 0 {
        lemma_le_nat_bound(s.drop_first());
        assert(le_nat(s.drop_first()) <= pow256((s.len() - 1) as nat) - 1);
        assert(256 * le_nat(s.drop_first()) <= 256 * (pow256((s.len() - 1) as nat) - 1))
            by (nonlinear_arith)
            requires
                le_nat(s.drop_first()) <= pow256((s.len() - 1) as nat) - 1,
        ;
    }
}

pub proof fn lemma_le_bytes_len(n: nat, k: nat)
    ensures
        le_bytes(n, k).len() == k,
    decreases k,
{
    if k > 0 {
        lemma_le_bytes_len(n / 256, (k - 1) as nat);
    }
}

pub proof fn lemma_pow256_monotone(j: nat, k: nat)
    requires
        j <= k,
    ensures
        pow256(j) <= pow256(k),
    decreases k,
{
    if j < k {
        lemma_pow256_monotone(j, (k - 1) as nat);
    }
}

/// A byte sequence is recovered from its value and its length.
pub proof fn lemma_le_bytes_of_le_nat(s: Seq<u8>)
    ensures
        le_bytes(le_nat(s), s.len()) =~= s,
    decreases s.len(),
{
    if s.len() > 0 {
        let rest = s.drop_first();
        lemma_le_bytes_of_le_nat(rest);
        let n = le_nat(s);
        assert(n == s[0] + 256 * le_nat(rest));
        assert(n % 256 == s[0] && n / 256 == le_nat(rest)) by (nonlinear_arith)
            requires
                n == s[0] + 256 * le_nat(rest),
                0 <= s[0] < 256,
        ;
    }
}

/// A value below 256^k is recovered from its k-byte encoding.
pub proof fn lemma_le_nat_of_le_bytes(n: nat, k: nat)
    requires
        n < pow256(k),
    ensures
        le_nat(le_bytes(n, k)) == n,
    decreases k,
{
    if k > 0 {
        assert(n / 256 < pow256((k - 1) as nat)) by (nonlinear_arith)
            requires
                n < 256 * pow256((k - 1) as nat),
        ;
        lemma_le_nat_of_le_bytes(n / 256, (k - 1) as nat);
        let s = le_bytes(n, k);
        assert(s.drop_first() =~= le_bytes(n / 256, (k - 1) as nat));
        assert((n % 256) + 256 * (n / 256) == n) by (nonlinear_arith);
    }
}

/// Two equal-length byte sequences with the same value are the same bytes.
pub proof fn lemma_le_nat_injective(s1: Seq<u8>, s2: Seq<u8>)
    requires
        s1.len() == s2.len(),
        le_nat(s1) == le_nat(s2),
    ensures
        s1 =~= s2,
{
    lemma_le_bytes_of_le_nat(s1);
    lemma_le_bytes_of_le_nat(s2);
}

/// Splitting a concatenation: the tail contributes at weight 256^|s1|.
pub proof fn lemma_le_nat_append(s1: Seq<u8>, s2: Seq<u8>)
    ensures
        le_nat(s1 + s2) == le_nat(s1) + pow256(s1.len()) * le_nat(s2),
    decreases s1.len(),
{
    if s1.len() == 0 {
        assert(s1 + s2 =~= s2);
        assert(le_nat(s1) == 0);
        assert(pow256(s1.len()) == 1);
        assert(1 * le_nat(s2) == le_nat(s2)) by (nonlinear_arith);
    } else {
        assert((s1 + s2).drop_first() =~= s1.drop_first() + s2);
        lemma_le_nat_append(s1.drop_first(), s2);
        let a = le_nat(s1.drop_first());
        let p = pow256((s1.len() - 1) as nat);
        let b = le_nat(s2);
        assert(le_nat(s1 + s2) == (s1[0] as nat) + 256 * (a + p * b));
        assert(le_nat(s1) == (s1[0] as nat) + 256 * a);
        assert(pow256(s1.len()) == 256 * p);
        assert(256 * (a + p * b) == 256 * a + (256 * p) * b) by (nonlinear_arith);
    }
}

/// Compare two byte vectors for equality of contents.
pub fn bytes_eq(a: &Vec<u8>, b: &Vec<u8>) -> (r: bool)
    ensures
        r == (a@ == b@),
{
    if a.len() != b.len() {
        return false;
    }
    let mut i: usize = 0;
    while i < a.len()
        invariant
            i <= a.len(),
            a.len() == b.len(),
            forall|j: int| 0 <= j < i ==> a@[j] == b@[j],
        decreases a.len() - i,
    {
        if a[i] != b[i] {
            return false;
        }
        i = i + 1;
    }
    proof {
        assert(a@ =~= b@);
    }
    true
}

/// Copy the bytes of `d` between `from` and `to` into a fresh vector.
pub fn copy_range(d: &Vec<u8>, from: usize, to: usize) -> (r: Vec<u8>)
    requires
        from <= to <= d.len(),
    ensures
        r@ == d@.subrange(from as int, to as int),
{
    let mut r: Vec<u8> = Vec::new();
    let mut i: usize = from;
    while i < to
        invariant
            from <= i <= to <= d.len(),
            r@ == d@.subrange(from as int, i as int),
        decreases to - i,
    {
        r.push(d[i]);
        proof {
            assert(r@ =~= d@.subrange(from as int, i + 1 as int));
        }
        i = i + 1;
    }
    r
}

/// Build the k-byte little-endian encoding of n.
pub fn le_bytes_exec(n: u64, k: usize) -> (r: Vec<u8>)
    ensures
        r@ == le_bytes(n as nat, k as nat),
        r.len() == k,
    decreases k,
{
    if k == 0 {
        let r: Vec<u8> = Vec::new();
        proof {
            assert(r@ =~= le_bytes(n as nat, 0));
        }
        r
    } else {
        let mut r = le_bytes_exec(n / 256, k - 1);
        r.insert(0, (n % 256) as u8);
        proof {
            assert(r@ =~= le_bytes(n as nat, k as nat));
        }
        r
    }
}

/// A field element of the pallas base field, held as its canonical 32-byte
/// little-endian representation.
#[derive(Debug, Clone, PartialEq, Eq)]
pub struct Fp {
    bytes: Vec<u8>,
}

impl View for Fp {
    type V = nat;

    open spec fn view(&self) -> nat {
        le_nat(self.repr())
    }
}

impl Fp {
    /// The canonical byte representation, which the wire format and the
    /// storage keys carry verbatim.
    pub closed spec fn repr(&self) -> Seq<u8> {
        self.bytes@
    }

    /// A well-formed element: 32 bytes holding a value below the modulus.
    pub open spec fn wf(&self) -> bool {
        self.repr().len() == 32 && self@ < field_modulus()
    }

    /// Accept exactly the canonical 32-byte encodings of field values.
    pub fn from_bytes(bytes: Vec<u8>) -> (r: Option<Fp>)
        ensures
            r is Some <==> bytes@.len() == 32 && le_nat(bytes@) < field_modulus(),
            r is Some ==> r->0.wf() && r->0.repr() == bytes@,
    {
        if bytes.len() != 32 {
            return None;
        }
        if fp_bytes_canonical(&bytes) {
            Some(Fp { bytes })
        } else {
            None
        }
    }

    /// A copy of the canonical byte representation.
    pub fn to_bytes(&self) -> (r: Vec<u8>)
        ensures
            r@ == self.repr(),
    {
        let r = copy_range(&self.bytes, 0, self.bytes.len());
        proof {
            assert(self.bytes@.subrange(0, self.bytes@.len() as int) =~= self.bytes@);
        }
        r
    }

    /// Embed a machine integer into the field.
    pub fn from_u64(x: u64) -> (r: Fp)
        ensures
            r.wf(),
            r@ == x as nat,
    {
        let bytes = le_bytes_exec(x, 32);
        proof {
            lemma_pow256_monotone(8, 32);
            assert(pow256(8) == 0x10000000000000000) by {
                reveal_with_fuel(pow256, 9);
            }
            lemma_le_nat_of_le_bytes(x as nat, 32);
        }
        Fp { bytes }
    }

    /// The field identity "one".
    pub fn one() -> (r: Fp)
        ensures
            r.wf(),
            r@ == 1,
    {
        Fp::from_u64(1)
    }

    /// The field zero.
    pub fn zero() -> (r: Fp)
        ensures
            r.wf(),
            r@ == 0,
    {
        Fp::from_u64(0)
    }

    /// Value equality, decided on the canonical representations.
    pub fn equals(&self, other: &Fp) -> (r: bool)
        requires
            self.wf(),
            other.wf(),
        ensures
            r == (self@ == other@),
    {
        let r = bytes_eq(&self.bytes, &other.bytes);
        proof {
            if self.bytes@ == other.bytes@ {
                assert(self@ == other@);
            } else {
                lemma_le_nat_injective_contrapositive(self.bytes@, other.bytes@);
            }
        }
        r
    }

    /// Field addition, reduced modulo the field modulus.
    pub fn add_mod(&self, other: &Fp) -> (r: Fp)
        requires
            self.wf(),
            other.wf(),
        ensures
            r.wf(),
            r@ == (self@ + other@) % field_modulus(),
    {
        fp_add(self, other)
    }
}

proof fn lemma_le_nat_injective_contrapositive(s1: Seq<u8>, s2: Seq<u8>)
    requires
        s1.len() == s2.len(),
        s1 != s2,
    ensures
        le_nat(s1) != le_nat(s2),
{
    if le_nat(s1) == le_nat(s2) {
        lemma_le_nat_injective(s1, s2);
        assert(s1 == s2);
    }
}

/// The result of hashing two field elements with the contract's hash
/// primitive; a function of the two input values alone.
pub uninterp spec fn poseidon2(a: nat, b: nat) -> nat;

/// Relies on pasta_curves: `Fp::from_repr` accepts exactly the little-endian
/// encodings of values below the pallas base-field modulus.
#[verifier::external_body]
fn fp_bytes_canonical(b: &Vec<u8>) -> (r: bool)
    requires
        b@.len() == 32,
    ensures
        r == (le_nat(b@) < field_modulus()),
{
    let mut arr = [0u8; 32];
    arr.copy_from_slice(b.as_slice());
    bool::from(pasta_curves::Fp::from_repr(arr).is_some())
}

/// Relies on pasta_curves: pallas base-field addition is addition of the
/// represented values modulo the field modulus, and `from_repr` / `to_repr`
/// convert to and from the canonical little-endian representation.
#[verifier::external_body]
fn fp_add(a: &Fp, b: &Fp) -> (r: Fp)
    requires
        a.wf(),
        b.wf(),
    ensures
        r.wf(),
        r@ == (a@ + b@) % field_modulus(),
{
    let mut ra = [0u8; 32];
    ra.copy_from_slice(a.bytes.as_slice());
    let mut rb = [0u8; 32];
    rb.copy_from_slice(b.bytes.as_slice());
    let fa = pasta_curves::Fp::from_repr(ra).unwrap();
    let fb = pasta_curves::Fp::from_repr(rb).unwrap();
    Fp { bytes: (fa + fb).to_repr().to_vec() }
}

/// Relies on halo2's Poseidon primitive (specification `P128Pow5T3` over the
/// pallas base field, width 3, rate 2, constant input length 2): the digest
/// is a field element determined by the two input values alone.
#[verifier::external_body]
pub(crate) fn poseidon_hash2(a: &Fp, b: &Fp) -> (r: Fp)
    requires
        a.wf(),
        b.wf(),
    ensures
        r.wf(),
        r@ == poseidon2(a@, b@),
{
    let mut ra = [0u8; 32];
    ra.copy_from_slice(a.bytes.as_slice());
    let mut rb = [0u8; 32];
    rb.copy_from_slice(b.bytes.as_slice());
    let fa = pasta_curves::Fp::from_repr(ra).unwrap();
    let fb = pasta_curves::Fp::from_repr(rb).unwrap();
    let h = halo2_gadgets::poseidon::primitives::Hash::<
        pasta_curves::Fp,
        halo2_gadgets::poseidon::primitives::P128Pow5T3,
        halo2_gadgets::poseidon::primitives::ConstantLength<2>,
        3,
        2,
    >::init().hash([fa, fb]);
    Fp { bytes: h.to_repr().to_vec() }
}

} // verus!
