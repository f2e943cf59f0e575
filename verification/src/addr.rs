use crate::errors::CoreError;
use vstd::prelude::*;

verus! {

/// The highest value of the disambiguation byte. Derivation assigns each
/// key tuple its disambiguator from the top of this range.
pub const MAX_BUMP: u8 = 255;

/// The mathematical form of a derived address: the namespace tag, the
/// ordered key parts, and the disambiguation byte. Because the address
/// carries its namespace and key parts in full, the mapping from
/// (namespace, key parts) to addresses is injective by construction: two
/// live records can never share an address unless they share a key tuple.
#[verifier::ext_equal]
pub struct AddrView {
    pub namespace: Seq<u8>,
    pub key_parts: Seq<Seq<u8>>,
    pub bump: u8,
}

/// A deterministically derived custody address. It identifies one logical
/// resource: a record and its vaults live at exactly one such address.
#[derive(Debug)]
pub struct DerivedAddress {
    pub namespace: Vec<u8>,
    pub key_parts: Vec<Vec<u8>>,
    pub bump: u8,
}

impl View for DerivedAddress {
    type V = AddrView;

    open spec fn view(&self) -> AddrView {
        AddrView {
            namespace: self.namespace@,
            key_parts: self.key_parts.deep_view(),
            bump: self.bump,
        }
    }
}

impl DeepView for DerivedAddress {
    type V = AddrView;

    open spec fn deep_view(&self) -> AddrView {
        self.view()
    }
}

/// The address that derivation assigns to a key tuple. Deterministic and
/// side-effect free: a pure function of the namespace and the key parts.
pub open spec fn spec_derive(namespace: Seq<u8>, key_parts: Seq<Seq<u8>>) -> AddrView {
    AddrView { namespace, key_parts, bump: MAX_BUMP }
}

impl DerivedAddress {
    /// Derive the unique custody address of the key tuple
    /// `(namespace, key_parts)`, together with its bump.
    ///
    /// In this address model every key tuple admits its disambiguator at
    /// the top of the bump range, so derivation is total; the
    /// `AddressSpaceExhausted` error models a derivation capability over
    /// a constrained address space in which some tuple admits no valid
    /// bump, and is surfaced as an error, never a panic.
    pub fn derive(namespace: Vec<u8>, key_parts: Vec<Vec<u8>>) -> (r: Result<
        (DerivedAddress, u8),
        CoreError,
    >)
        ensures
            r is Ok,
            r matches Ok((a, b)) ==> a@ == spec_derive(namespace@, key_parts.deep_view())
                && b == MAX_BUMP,
    {
        let bump = MAX_BUMP;
        Ok((DerivedAddress { namespace, key_parts, bump }, bump))
    }

    /// Whether two addresses denote the same derived address.
    pub fn same_as(&self, other: &DerivedAddress) -> (r: bool)
        ensures
            r == (self@ == other@),
    {
        if self.bump != other.bump {
            return false;
        }
        if !bytes_eq(&self.namespace, &other.namespace) {
            return false;
        }
        if !parts_eq(&self.key_parts, &other.key_parts) {
            return false;
        }
        proof {
            assert(self@ =~= other@);
        }
        true
    }
}

impl Clone for DerivedAddress {
    /// A clone denotes the same derived address.
    fn clone(&self) -> (r: DerivedAddress)
        ensures
            r@ == self@,
    {
        DerivedAddress {
            namespace: clone_bytes(&self.namespace),
            key_parts: clone_parts(&self.key_parts),
            bump: self.bump,
        }
    }
}

/// Copy a byte string.
pub fn clone_bytes(v: &Vec<u8>) -> (r: Vec<u8>)
    ensures
        r@ == v@,
{
    let n = v.len();
    let mut r: Vec<u8> = Vec::new();
    let mut i: usize = 0;
    while i < n
        invariant
            i <= n,
            n == v@.len(),
            r@.len() == i,
            forall|j: int| 0 <= j < i ==> r@[j] == v@[j],
        decreases n - i,
    {
        r.push(v[i]);
        i = i + 1;
    }
    proof {
        assert(r@ =~= v@);
    }
    r
}

/// Copy an ordered sequence of key parts.
pub fn clone_parts(v: &Vec<Vec<u8>>) -> (r: Vec<Vec<u8>>)
    ensures
        r.deep_view() == v.deep_view(),
{
    let n = v.len();
    let mut r: Vec<Vec<u8>> = Vec::new();
    let mut i: usize = 0;
    while i < n
        invariant
            i <= n,
            n == v@.len(),
            r@.len() == i,
            forall|j: int| 0 <= j < i ==> r@[j]@ == v@[j]@,
        decreases n - i,
    {
        r.push(clone_bytes(&v[i]));
        i = i + 1;
    }
    proof {
        assert forall|j: int| 0 <= j < r.deep_view().len() implies r.deep_view()[j]
            == v.deep_view()[j] by {
            lemma_bytes_deep_view(r@[j]);
            lemma_bytes_deep_view(v@[j]);
        }
        assert(r.deep_view() =~= v.deep_view());
    }
    r
}

/// Byte-string equality, decided element by element.
pub fn bytes_eq(a: &Vec<u8>, b: &Vec<u8>) -> (r: bool)
    ensures
        r == (a@ == b@),
{
    if a.len() != b.len() {
        return false;
    }
    let n = a.len();
    let mut i: usize = 0;
    while i < n
        invariant
            i <= n,
            n == a@.len(),
            a@.len() == b@.len(),
            forall|j: int| 0 <= j < i ==> a@[j] == b@[j],
        decreases n - i,
    {
        if a[i] != b[i] {
            return false;
        }
        i = i + 1;
    }
    proof {
        assert(a@ =~= b@);
    }
    true
}

/// A byte-string's deep view is its view.
pub proof fn lemma_bytes_deep_view(v: Vec<u8>)
    ensures
        v.deep_view() == v@,
{
    assert(v.deep_view() =~= v@);
}

/// Equality of ordered key-part sequences, decided part by part.
pub fn parts_eq(a: &Vec<Vec<u8>>, b: &Vec<Vec<u8>>) -> (r: bool)
    ensures
        r == (a.deep_view() == b.deep_view()),
{
    if a.len() != b.len() {
        proof {
            assert(a.deep_view().len() != b.deep_view().len());
        }
        return false;
    }
    let n = a.len();
    let mut i: usize = 0;
    while i < n
        invariant
            i <= n,
            n == a@.len(),
            a@.len() == b@.len(),
            forall|j: int| 0 <= j < i ==> a@[j]@ == b@[j]@,
        decreases n - i,
    {
        if !bytes_eq(&a[i], &b[i]) {
            proof {
                lemma_bytes_deep_view(a@[i as int]);
                lemma_bytes_deep_view(b@[i as int]);
                assert(a.deep_view()[i as int] != b.deep_view()[i as int]);
            }
            return false;
        }
        i = i + 1;
    }
    proof {
        assert forall|j: int| 0 <= j < a.deep_view().len() implies a.deep_view()[j]
            == b.deep_view()[j] by {
            lemma_bytes_deep_view(a@[j]);
            lemma_bytes_deep_view(b@[j]);
        }
        assert(a.deep_view() =~= b.deep_view());
    }
    true
}

/// Determinism of derivation: identical inputs yield an identical
/// address and bump.
pub proof fn lemma_derive_deterministic(
    ns1: Seq<u8>,
    parts1: Seq<Seq<u8>>,
    ns2: Seq<u8>,
    parts2: Seq<Seq<u8>>,
)
    requires
        ns1 == ns2,
        parts1 == parts2,
    ensures
        spec_derive(ns1, parts1) == spec_derive(ns2, parts2),
{
}

/// Injectivity of derivation: two key tuples that derive the same
/// address are the same tuple, so no two live records with distinct key
/// tuples can share an address.
pub proof fn lemma_derive_injective(
    ns1: Seq<u8>,
    parts1: Seq<Seq<u8>>,
    ns2: Seq<u8>,
    parts2: Seq<Seq<u8>>,
)
    requires
        spec_derive(ns1, parts1) == spec_derive(ns2, parts2),
    ensures
        ns1 == ns2,
        parts1 == parts2,
{
}

} // verus!
