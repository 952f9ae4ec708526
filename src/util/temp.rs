//! Temporaries: numbered virtual registers.
use vstd::prelude::*;
use vstd::string::StringExecFns;
use crate::util::text::{decimal, usize_text};

verus! {

/// A temporary: one numbered virtual register.
#[derive(Clone, Copy, PartialEq, Eq, Structural, PartialOrd, Ord, Hash, Debug)]
pub struct Temp(pub usize);

impl Temp {
    /// The name of the temporary: `%t` and its number.
    pub open spec fn text(self) -> Seq<char> {
        "%t"@ + decimal(self.0 as nat)
    }

    /// Renders the name of the temporary, such as `%t7`.
    pub fn to_string(&self) -> (r: String)
        ensures
            r@ == self.text(),
    {
        let mut r = String::from_str("%t");
        r.append(usize_text(self.0).as_str());
        r
    }
}

/// Hands out temporaries, each one distinct from every earlier one.
pub struct TempAllocator {
    next: usize,
}

impl TempAllocator {
    /// The number of temporaries handed out so far.
    pub closed spec fn spec_count(&self) -> nat {
        self.next as nat
    }

    /// Every temporary handed out so far.
    pub open spec fn issued(&self) -> Set<Temp> {
        Set::new(|t: Temp| (t.0 as nat) < self.spec_count())
    }

    /// Prepares a new allocator ready to create new temporaries.
    pub fn new() -> (r: TempAllocator)
        ensures
            r.spec_count() == 0,
    {
        TempAllocator { next: 0 }
    }

    /// Returns the number of temporaries allocated so far.
    pub fn count(&self) -> (r: usize)
        ensures
            r as nat == self.spec_count(),
    {
        self.next
    }

    /// Resets the allocator back to 0.
    pub fn reset(&mut self)
        ensures
            final(self).spec_count() == 0,
    {
        self.next = 0;
    }

    /// Generates a new temporary, distinct from every one handed out before.
    pub fn gen(&mut self) -> (r: Temp)
        requires
            old(self).spec_count() < usize::MAX,
        ensures
            r.0 as nat == old(self).spec_count(),
            final(self).spec_count() == old(self).spec_count() + 1,
            !old(self).issued().contains(r),
            final(self).issued() == old(self).issued().insert(r),
    {
        let ret = self.next;
        self.next = ret + 1;
        let r = Temp(ret);
        proof {
            assert(final(self).issued() =~= old(self).issued().insert(r));
        }
        r
    }
}

} // verus!
