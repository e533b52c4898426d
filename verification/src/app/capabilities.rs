//! What peers say that they can do, as bits.
use crate::app::{AppHandle, AppView};
use crate::text;
use vstd::prelude::*;

verus! {

impl AppView {
    /// What a peer has said that it can do, so far; nothing for one that was not heard of.
    pub open spec fn capabilities_of(self, fingerprint: Seq<char>) -> u64 {
        if self.capabilities.dom().contains(fingerprint) {
            self.capabilities[fingerprint]
        } else {
            0
        }
    }

    /// A peer says what it can do. What was said before is not taken back.
    pub open spec fn with_capabilities(self, fingerprint: Seq<char>, bits: u64) -> Self {
        AppView {
            capabilities: self.capabilities.insert(
                fingerprint,
                self.capabilities_of(fingerprint) | bits,
            ),
            ..self
        }
    }
}

impl AppHandle {
    /// What a peer has said that it can do.
    pub fn peer_capabilities(&self, fingerprint: &str) -> (r: u64)
        ensures
            r == self@.capabilities_of(fingerprint@),
    {
        match self.peer_capabilities.get(fingerprint) {
            Some(bits) => *bits,
            None => 0,
        }
    }

    /// What we can do, as we tell others.
    pub fn our_capabilities(&self) -> (r: u64)
        ensures
            r == self@.our_capabilities,
    {
        self.our_capabilities
    }

    /// Notes what a peer says that it can do, beside what it said before.
    pub(crate) fn record_peer_capabilities(&mut self, fingerprint: &str, bits: u64)
        ensures
            old(self)@.wf() ==> final(self)@.wf(),
            final(self)@ == old(self)@.with_capabilities(fingerprint@, bits),
    {
        let ghost before = self@;
        let known: u64 = self.peer_capabilities(fingerprint);
        self.peer_capabilities.insert(text::owned(fingerprint), known | bits);
        proof {
            assert(self@.capabilities =~= before.with_capabilities(fingerprint@, bits).capabilities);
            assert(self@ =~= before.with_capabilities(fingerprint@, bits));
        }
    }
}

/// A bit that a peer once said is never taken back, whatever is said later and about whom.
pub proof fn law_capabilities_are_never_taken_back(
    app: AppView,
    fingerprint: Seq<char>,
    other: Seq<char>,
    bits: u64,
    bit: u64,
)
    requires
        app.capabilities_of(fingerprint) & bit == bit,
    ensures
        app.with_capabilities(other, bits).capabilities_of(fingerprint) & bit == bit,
        app.with_capabilities(fingerprint, bits).capabilities_of(fingerprint) & bits == bits,
{
    let known = app.capabilities_of(fingerprint);
    assert((known | bits) & bit == bit) by (bit_vector)
        requires
            known & bit == bit,
    ;
    assert((known | bits) & bits == bits) by (bit_vector);
}

} // verus!
