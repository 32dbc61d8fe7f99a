//! The ledger as an engine keeps it.

use crate::ledger::Ledger;
use crate::ledger_model::LedgerV;
use vstd::prelude::*;

verus! {

/// A ledger whose tokens have ids and names of their own.
pub struct Books {
    ledger: Ledger,
}

impl View for Books {
    type V = LedgerV;

    closed spec fn view(&self) -> LedgerV {
        self.ledger@
    }
}

impl Books {
    #[verifier::type_invariant]
    spec fn in_order(self) -> bool {
        self.ledger@.tokens_wf()
    }

    /// There are never more nodes than ids.
    pub proof fn lemma_ids_suffice(&self)
        ensures
            self@.nodes.len() <= usize::MAX,
    {
        self.ledger.lemma_ids_suffice();
    }

    /// Keeps a ledger.
    pub fn new(ledger: Ledger) -> (r: Books)
        requires
            ledger@.tokens_wf(),
        ensures
            r@ == ledger@,
    {
        Books { ledger }
    }

    /// The ledger.
    pub fn read(&self) -> (r: &Ledger)
        ensures
            r@ == self@,
            self@.tokens_wf(),
    {
        proof {
            use_type_invariant(self);
        }
        &self.ledger
    }

    /// Takes the ledger out to change it, and leaves one without nodes.
    pub fn take(&mut self) -> (r: Ledger)
        ensures
            r@ == old(self)@,
            r@.tokens_wf(),
            final(self)@ == LedgerV::empty(0, 0),
    {
        proof {
            use_type_invariant(&*self);
        }
        let mut ledger = Ledger::new(0, 0);
        std::mem::swap(&mut ledger, &mut self.ledger);
        ledger
    }

    /// Puts a ledger in.
    pub fn put(&mut self, ledger: Ledger)
        requires
            ledger@.tokens_wf(),
        ensures
            final(self)@ == ledger@,
    {
        self.ledger = ledger;
    }
}

} // verus!
