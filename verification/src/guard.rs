use crate::addr::{AddrView, DerivedAddress};
use crate::errors::CoreError;
use vstd::prelude::*;

verus! {

/// The initialization guard: per derived address a one-way state
/// machine from uninitialized to initialized, with no transition back.
/// Creation of a record at an address claims the address here; a second
/// claim of the same address is rejected with `AlreadyInitialized`,
/// never treated as a no-op or an overwrite.
pub struct InitGuard {
    claimed: Vec<DerivedAddress>,
}

impl InitGuard {
    /// The addresses that have been initialized, in claim order.
    pub closed spec fn addrs(&self) -> Seq<AddrView> {
        self.claimed.deep_view()
    }

    /// Whether an address has been initialized.
    pub open spec fn spec_contains(&self, a: AddrView) -> bool {
        exists|i: int| 0 <= i < self.addrs().len() && self.addrs()[i] == a
    }

    /// Well-formedness: no address is recorded twice.
    pub open spec fn wf(&self) -> bool {
        forall|i: int, j: int|
            0 <= i < j < self.addrs().len() ==> self.addrs()[i] != self.addrs()[j]
    }

    /// A fresh guard: every address is uninitialized.
    pub fn new() -> (r: InitGuard)
        ensures
            r.addrs().len() == 0,
            r.wf(),
    {
        InitGuard { claimed: Vec::new() }
    }

    /// Whether `a` has been initialized.
    pub fn is_initialized(&self, a: &DerivedAddress) -> (r: bool)
        ensures
            r == self.spec_contains(a@),
    {
        let n = self.claimed.len();
        let mut i: usize = 0;
        while i < n
            invariant
                i <= n,
                n == self.claimed@.len(),
                forall|j: int| 0 <= j < i ==> self.addrs()[j] != a@,
            decreases n - i,
        {
            if self.claimed[i].same_as(a) {
                assert(self.addrs()[i as int] == a@);
                return true;
            }
            i = i + 1;
        }
        false
    }

    /// Claim `a` for one-time initialization. Succeeds exactly when `a`
    /// is uninitialized, and then records it; a repeated claim fails
    /// with `AlreadyInitialized` and changes nothing. Either way, `a` is
    /// initialized after the call, so no third outcome exists.
    pub fn claim(&mut self, a: DerivedAddress) -> (r: Result<(), CoreError>)
        requires
            old(self).wf(),
        ensures
            final(self).wf(),
            r is Ok <==> !old(self).spec_contains(a@),
            r is Ok ==> final(self).addrs() == old(self).addrs().push(a@),
            r is Err ==> *final(self) == *old(self),
            r matches Err(e) ==> e == CoreError::AlreadyInitialized,
            final(self).spec_contains(a@),
    {
        if self.is_initialized(&a) {
            return Err(CoreError::AlreadyInitialized);
        }
        let ghost pre = self.addrs();
        self.claimed.push(a);
        proof {
            assert(self.addrs() =~= pre.push(a@));
            assert(self.addrs()[pre.len() as int] == a@);
        }
        Ok(())
    }
}

/// One-time initialization: after a successful claim of an address, the
/// guard reports the address initialized, so by `claim`'s contract any
/// further claim of that address must fail with `AlreadyInitialized` and
/// leave the guard unchanged.
pub proof fn lemma_no_double_init(pre: InitGuard, post: InitGuard, a: AddrView)
    requires
        pre.wf(),
        !pre.spec_contains(a),
        post.addrs() == pre.addrs().push(a),
    ensures
        post.spec_contains(a),
        post.wf(),
{
    assert(post.addrs()[pre.addrs().len() as int] == a);
    assert forall|i: int, j: int| 0 <= i < j < post.addrs().len() implies post.addrs()[i]
        != post.addrs()[j] by {
        if j == pre.addrs().len() {
            assert(post.addrs()[i] == pre.addrs()[i]);
        }
    }
}

} // verus!
