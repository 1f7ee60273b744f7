//! Bookkeeping of the x86 io port space: which ports have been handed out.

use vstd::prelude::*;
use crate::bits::{word_bit, lemma_word_set_bit, lemma_word_clear_bit, lemma_zero_word, lemma_word_test_bit};

verus! {

/// The number of ports tracked by one word of the port bitmap (the size of a word in bytes on
/// the 64-bit target).
pub const PORTS_PER_WORD: u16 = 8;

/// The number of words in the port bitmap.
pub const PORT_WORDS: usize = 8192;

/// A reference to a single io port
#[derive(Debug, PartialEq, Eq)]
pub struct IoPortRef {
    /// The address of the io port
    r: u16,
}

impl IoPortRef {
    /// The port address.
    pub closed spec fn port_address(&self) -> u16 {
        self.r
    }

    /// The address of the io port.
    pub fn address(&self) -> (r: u16)
        ensures
            r == self.port_address(),
    {
        self.r
    }
}

/// An array of io ports.
#[derive(Debug)]
pub struct IoPortArray {
    /// The first port address of the array.
    base: u16,
    /// The quantity of ports in the array.
    quantity: u16,
}

impl IoPortArray {
    /// The first port of the array.
    pub closed spec fn first(&self) -> u16 {
        self.base
    }

    /// The number of ports in the array.
    pub closed spec fn count(&self) -> u16 {
        self.quantity
    }

    /// The array lies inside the port space.
    pub closed spec fn wf(&self) -> bool {
        self.base + self.quantity <= u16::MAX
    }

    /// Get a port reference for the port at `index` within the array.
    pub fn port(&self, index: u16) -> (r: IoPortRef)
        requires
            self.wf(),
            index < self.count(),
        ensures
            r.port_address() == self.first() + index,
    {
        IoPortRef { r: self.base + index }
    }

    /// Get the base address of the io address array
    pub fn get_base(&self) -> (r: u16)
        ensures
            r == self.first(),
    {
        self.base
    }
}

/// Keeps track of all io ports on the system.
pub struct IoPortManager {
    /// A bitmap to track usage of all the ports for an x86 system
    ports: Vec<usize>,
}

/// The word of the bitmap that holds port `p`.
pub open spec fn port_word(p: u16) -> int {
    p as int / PORTS_PER_WORD as int
}

/// The bit within its word that holds port `p`.
pub open spec fn port_bit(p: u16) -> int {
    p as int % PORTS_PER_WORD as int
}

/// Distinct ports have distinct places in the bitmap.
proof fn lemma_port_places(p: u16, q: u16)
    requires
        p != q,
    ensures
        port_word(p) != port_word(q) || port_bit(p) != port_bit(q),
        0 <= port_word(p) < PORT_WORDS,
        0 <= port_bit(p) < PORTS_PER_WORD,
{
}

impl IoPortManager {
    /// Port `p` has been handed out.
    pub closed spec fn used(&self, p: u16) -> bool {
        word_bit(self.ports@[port_word(p)], port_bit(p))
    }

    /// The bitmap has a word for every group of ports.
    pub closed spec fn wf(&self) -> bool {
        self.ports@.len() == PORT_WORDS
    }

    /// Create a new io port manager. All ports are assumed to be unused initially.
    pub fn new() -> (r: Self)
        ensures
            r.wf(),
            forall|p: u16| !r.used(p),
    {
        let mut ports: Vec<usize> = Vec::with_capacity(PORT_WORDS);
        let mut i: usize = 0;
        while i < PORT_WORDS
            invariant
                i <= PORT_WORDS,
                ports@.len() == i,
                forall|k: int| 0 <= k < i ==> ports@[k] == 0,
            decreases PORT_WORDS - i,
        {
            ports.push(0);
            i = i + 1;
        }
        proof {
            lemma_zero_word();
        }
        Self { ports }
    }

    /// Is port `p` handed out?
    fn is_used(&self, p: u16) -> (r: bool)
        requires
            self.wf(),
        ensures
            r == self.used(p),
    {
        let index = p / PORTS_PER_WORD;
        let shift = p % PORTS_PER_WORD;
        proof {
            lemma_word_test_bit(self.ports@[index as int], shift as usize);
        }
        self.ports[index as usize] & (1usize << shift) != 0
    }

    /// Mark port `p` as handed out (`v`) or free.
    fn set_used(&mut self, p: u16, v: bool)
        requires
            old(self).wf(),
        ensures
            final(self).wf(),
            final(self).used(p) == v,
            forall|q: u16| q != p ==> final(self).used(q) == old(self).used(q),
    {
        let index = p / PORTS_PER_WORD;
        let shift = p % PORTS_PER_WORD;
        let w = self.ports[index as usize];
        let nw = if v {
            proof {
                lemma_word_set_bit(w, shift as usize);
            }
            w | (1usize << shift)
        } else {
            proof {
                lemma_word_clear_bit(w, shift as usize);
            }
            w & !(1usize << shift)
        };
        self.ports.set(index as usize, nw);
        proof {
            assert forall|q: u16| q != p implies self.used(q) == old(self).used(q) by {
                lemma_port_places(q, p);
                if port_word(q) == port_word(p) {
                    assert(self.ports@[port_word(q)] == nw);
                } else {
                    assert(self.ports@[port_word(q)] == old(self).ports@[port_word(q)]);
                }
            }
        }
    }

    /// Try to get a single port from the system
    pub fn get_port(&mut self, base: u16) -> (r: Option<IoPortRef>)
        requires
            old(self).wf(),
        ensures
            final(self).wf(),
            old(self).used(base) ==> r is None && forall|q: u16| final(self).used(q) == old(self).used(q),
            !old(self).used(base) ==> (r matches Some(pr) && pr.port_address() == base
                && final(self).used(base)
                && forall|q: u16| q != base ==> final(self).used(q) == old(self).used(q)),
    {
        if self.is_used(base) {
            None
        } else {
            self.set_used(base, true);
            Some(IoPortRef { r: base })
        }
    }

    /// Try to get some io ports from the system: all of `quantity` ports from `base` on, or
    /// none when any of them is already handed out.
    pub fn get_ports(&mut self, base: u16, quantity: u16) -> (r: Option<IoPortArray>)
        requires
            old(self).wf(),
            base + quantity <= u16::MAX,
        ensures
            final(self).wf(),
            (exists|p: u16| base <= p < base + quantity && old(self).used(p)) ==> r is None
                && forall|q: u16| final(self).used(q) == old(self).used(q),
            (forall|p: u16| base <= p < base + quantity ==> !old(self).used(p)) ==> (r matches Some(a)
                && a.wf() && a.first() == base && a.count() == quantity
                && forall|q: u16| final(self).used(q) == (old(self).used(q) || (base <= q < base + quantity))),
    {
        let end = base + quantity;
        let mut possible = true;
        let mut p = base;
        while p < end
            invariant
                self.wf(),
                base <= p <= end,
                end == base + quantity,
                possible == (forall|q: u16| base <= q < p ==> !self.used(q)),
            decreases end - p,
        {
            if self.is_used(p) {
                possible = false;
            }
            p = p + 1;
        }
        if possible {
            let mut p = base;
            while p < end
                invariant
                    self.wf(),
                    base <= p <= end,
                    end == base + quantity,
                    forall|q: u16| base <= q < end ==> !old(self).used(q),
                    forall|q: u16| self.used(q) == (old(self).used(q) || (base <= q < p)),
                decreases end - p,
            {
                self.set_used(p, true);
                p = p + 1;
            }
            Some(IoPortArray { base, quantity })
        } else {
            None
        }
    }

    /// Returns a list of port previously obtained from the manager
    pub fn return_ports(&mut self, ports: &IoPortArray)
        requires
            old(self).wf(),
            ports.wf(),
        ensures
            final(self).wf(),
            forall|q: u16| final(self).used(q) == (old(self).used(q) && !(ports.first() <= q < ports.first() + ports.count())),
    {
        let end = ports.base + ports.quantity;
        let mut p = ports.base;
        while p < end
            invariant
                self.wf(),
                ports.wf(),
                ports.base <= p <= end,
                end == ports.base + ports.quantity,
                forall|q: u16| self.used(q) == (old(self).used(q) && !(ports.base <= q < p)),
            decreases end - p,
        {
            self.set_used(p, false);
            p = p + 1;
        }
    }
}

/// Giving back ports taken together restores which ports are handed out.
pub proof fn lemma_return_restores(
    before: IoPortManager,
    taken: IoPortManager,
    back: IoPortManager,
    a: IoPortArray,
)
    requires
        forall|p: u16| a.first() <= p < a.first() + a.count() ==> !before.used(p),
        forall|q: u16| taken.used(q) == (before.used(q) || (a.first() <= q < a.first() + a.count())),
        forall|q: u16| back.used(q) == (taken.used(q) && !(a.first() <= q < a.first() + a.count())),
    ensures
        forall|q: u16| back.used(q) == before.used(q),
{
}

} // verus!
