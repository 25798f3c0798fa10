//! Epochs: the discrete time unit that every other part of the ledger is
//! indexed by.

use crate::text::{decimal_digits, decimal_string};
use vstd::prelude::*;

verus! {

/// Epoch identifier. Epochs are identified by consecutive natural numbers.
#[derive(Debug, Clone, Copy, PartialEq, Eq, PartialOrd, Ord, Hash, Structural)]
pub struct Epoch(pub u64);

/// A finite run of consecutive epochs. It is `Copy`, so a copy taken before
/// walking it starts the walk again.
#[derive(Debug, Clone, Copy)]
pub struct EpochRange {
    next: u64,
    end: u64,
}

impl Epoch {
    /// The run of `len` consecutive epochs that starts at `self`.
    pub fn iter_range(self, len: u64) -> (range: EpochRange)
        requires
            self.0 + len <= u64::MAX,
        ensures
            range@ == Seq::new(len as nat, |i: int| Epoch((self.0 + i) as u64)),
    {
        EpochRange { next: self.0, end: self.0 + len }
    }

    /// Checked epoch subtraction: `self - rhs`, or `None` where `rhs` is the
    /// later epoch.
    #[must_use]
    pub fn checked_sub(self, rhs: Epoch) -> (diff: Option<Epoch>)
        ensures
            rhs.0 > self.0 ==> diff is None,
            rhs.0 <= self.0 ==> diff == Some(Epoch((self.0 - rhs.0) as u64)),
    {
        if rhs.0 > self.0 {
            None
        } else {
            Some(Epoch(self.0 - rhs.0))
        }
    }

    /// Epoch subtraction that clamps to the zero epoch: `self - rhs`, or
    /// `Epoch(0)` where `rhs` is the later epoch.
    #[must_use]
    pub fn sub_or_default(self, rhs: Epoch) -> (diff: Epoch)
        ensures
            diff.0 == if rhs.0 > self.0 { 0 } else { self.0 - rhs.0 },
    {
        match self.checked_sub(rhs) {
            Some(diff) => diff,
            None => Epoch(0),
        }
    }
}

impl View for EpochRange {
    type V = Seq<Epoch>;

    /// The epochs that are still to come, in order.
    closed spec fn view(&self) -> Seq<Epoch> {
        if self.next <= self.end {
            Seq::new((self.end - self.next) as nat, |i: int| Epoch((self.next + i) as u64))
        } else {
            Seq::empty()
        }
    }
}

impl EpochRange {
    /// How many epochs are still to come.
    pub fn len(&self) -> (n: u64)
        ensures
            n == self@.len(),
    {
        if self.next <= self.end {
            self.end - self.next
        } else {
            0
        }
    }

    /// Takes the first of the remaining epochs, if any is left.
    pub fn next(&mut self) -> (first: Option<Epoch>)
        ensures
            old(self)@.len() == 0 ==> first is None && final(self)@ == old(self)@,
            old(self)@.len() > 0 ==> first == Some(old(self)@[0]) && final(self)@ == old(
                self,
            )@.subrange(1, old(self)@.len() as int),
    {
        if self.next < self.end {
            let first = Epoch(self.next);
            self.next = self.next + 1;
            assert(self@ =~= old(self)@.subrange(1, old(self)@.len() as int));
            Some(first)
        } else {
            None
        }
    }
}

impl Epoch {
    /// The epoch's number, in decimal.
    pub fn to_string(&self) -> (text: String)
        ensures
            text@ == decimal_digits(self.0 as nat),
    {
        decimal_string(self.0)
    }
}

impl core::convert::From<u64> for Epoch {
    fn from(epoch: u64) -> (made: Epoch) {
        Epoch(epoch)
    }
}

impl vstd::std_specs::convert::FromSpecImpl<u64> for Epoch {
    open spec fn obeys_from_spec() -> bool {
        true
    }

    open spec fn from_spec(epoch: u64) -> Epoch {
        Epoch(epoch)
    }
}

impl core::convert::From<Epoch> for u64 {
    fn from(epoch: Epoch) -> (number: u64) {
        epoch.0
    }
}

impl vstd::std_specs::convert::FromSpecImpl<Epoch> for u64 {
    open spec fn obeys_from_spec() -> bool {
        true
    }

    open spec fn from_spec(epoch: Epoch) -> u64 {
        epoch.0
    }
}

impl core::convert::From<Epoch> for usize {
    /// On a machine whose `usize` is narrower than 64 bits the number is cut
    /// to its low bits, as a cast does.
    fn from(epoch: Epoch) -> (number: usize) {
        #[verifier::truncate]
        (epoch.0 as usize)
    }
}

impl vstd::std_specs::convert::FromSpecImpl<Epoch> for usize {
    open spec fn obeys_from_spec() -> bool {
        true
    }

    open spec fn from_spec(epoch: Epoch) -> usize {
        #[verifier::truncate]
        (epoch.0 as usize)
    }
}

impl core::ops::Add<u64> for Epoch {
    type Output = Epoch;

    fn add(self, rhs: u64) -> (sum: Epoch) {
        Epoch(self.0 + rhs)
    }
}

impl vstd::std_specs::ops::AddSpecImpl<u64> for Epoch {
    open spec fn obeys_add_spec() -> bool {
        true
    }

    /// Epochs do not wrap around: the sum has to fit.
    open spec fn add_req(self, rhs: u64) -> bool {
        self.0 + rhs <= u64::MAX
    }

    open spec fn add_spec(self, rhs: u64) -> Epoch {
        Epoch((self.0 + rhs) as u64)
    }
}

impl core::ops::Add<usize> for Epoch {
    type Output = Epoch;

    fn add(self, rhs: usize) -> (sum: Epoch) {
        Epoch(self.0 + rhs as u64)
    }
}

impl vstd::std_specs::ops::AddSpecImpl<usize> for Epoch {
    open spec fn obeys_add_spec() -> bool {
        true
    }

    /// Epochs do not wrap around: the sum has to fit.
    open spec fn add_req(self, rhs: usize) -> bool {
        self.0 + rhs <= u64::MAX
    }

    open spec fn add_spec(self, rhs: usize) -> Epoch {
        Epoch((self.0 + rhs) as u64)
    }
}

impl core::ops::Sub<u64> for Epoch {
    type Output = Epoch;

    fn sub(self, rhs: u64) -> (diff: Epoch) {
        Epoch(self.0 - rhs)
    }
}

impl vstd::std_specs::ops::SubSpecImpl<u64> for Epoch {
    open spec fn obeys_sub_spec() -> bool {
        true
    }

    /// No epoch lies before the zero epoch.
    open spec fn sub_req(self, rhs: u64) -> bool {
        rhs <= self.0
    }

    open spec fn sub_spec(self, rhs: u64) -> Epoch {
        Epoch((self.0 - rhs) as u64)
    }
}

impl core::ops::Sub<Epoch> for Epoch {
    type Output = Epoch;

    fn sub(self, rhs: Epoch) -> (diff: Epoch) {
        Epoch(self.0 - rhs.0)
    }
}

impl vstd::std_specs::ops::SubSpecImpl<Epoch> for Epoch {
    open spec fn obeys_sub_spec() -> bool {
        true
    }

    /// No epoch lies before the zero epoch.
    open spec fn sub_req(self, rhs: Epoch) -> bool {
        rhs.0 <= self.0
    }

    open spec fn sub_spec(self, rhs: Epoch) -> Epoch {
        Epoch((self.0 - rhs.0) as u64)
    }
}

impl core::default::Default for Epoch {
    /// The zero epoch.
    fn default() -> (zero: Epoch)
        ensures
            zero == Epoch(0),
    {
        Epoch(0)
    }
}

} // verus!
