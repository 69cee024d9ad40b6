//! Numbers that are never zero.
use vstd::prelude::*;

verus! {

/// A count of at least one.
#[derive(Clone, Copy, Debug, PartialEq, Eq)]
pub struct NonZeroCount {
    value: u64,
}

impl NonZeroCount {
    #[verifier::type_invariant]
    closed spec fn at_least_one(self) -> bool {
        self.value >= 1
    }

    /// The count as a number.
    pub closed spec fn number(self) -> u64 {
        self.value
    }

    /// The count of a number, where it is not zero.
    pub fn new(value: u64) -> (count: Option<NonZeroCount>)
        ensures
            match count {
                Some(count) => value != 0 && count.number() == value,
                None => value == 0,
            },
    {
        if value == 0 {
            None
        } else {
            Some(NonZeroCount { value })
        }
    }

    /// The count of one.
    pub fn one() -> (count: NonZeroCount)
        ensures
            count.number() == 1,
    {
        NonZeroCount { value: 1 }
    }

    /// The count as a number.
    pub fn get(&self) -> (value: u64)
        ensures
            value == self.number(),
            value >= 1,
    {
        proof {
            use_type_invariant(self);
        }
        self.value
    }

    /// The smaller of two counts.
    pub fn at_most(self, limit: NonZeroCount) -> (count: NonZeroCount)
        ensures
            count == if self.number() <= limit.number() {
                self
            } else {
                limit
            },
    {
        if self.value <= limit.value {
            self
        } else {
            limit
        }
    }
}

/// A network port other than zero.
#[derive(Clone, Copy, Debug, PartialEq, Eq)]
pub struct NonZeroPort {
    value: u16,
}

impl NonZeroPort {
    #[verifier::type_invariant]
    closed spec fn at_least_one(self) -> bool {
        self.value >= 1
    }

    /// The port as a number.
    pub closed spec fn number(self) -> u16 {
        self.value
    }

    /// The port of a number, where it is not zero.
    pub fn new(value: u16) -> (port: Option<NonZeroPort>)
        ensures
            match port {
                Some(port) => value != 0 && port.number() == value,
                None => value == 0,
            },
    {
        if value == 0 {
            None
        } else {
            Some(NonZeroPort { value })
        }
    }

    /// The port as a number.
    pub fn get(&self) -> (value: u16)
        ensures
            value == self.number(),
            value >= 1,
    {
        proof {
            use_type_invariant(self);
        }
        self.value
    }
}

/// Every number but zero has a count and a port, which give it back, and the smaller
/// of two counts is one of them.
pub proof fn law_counts_hold_every_number_but_zero(
    value: u64,
    count: Option<NonZeroCount>,
    port_value: u16,
    port: Option<NonZeroPort>,
    a: NonZeroCount,
    b: NonZeroCount,
    smaller: NonZeroCount,
    read: u64,
    one: NonZeroCount,
)
    requires
        call_ensures(NonZeroCount::new, (value,), count),
        call_ensures(NonZeroPort::new, (port_value,), port),
        call_ensures(NonZeroCount::at_most, (a, b), smaller),
        call_ensures(NonZeroCount::get, (&a,), read),
        call_ensures(NonZeroCount::one, (), one),
    ensures
        count is Some <==> value != 0,
        count matches Some(held) ==> held.number() == value,
        port is Some <==> port_value != 0,
        port matches Some(held) ==> held.number() == port_value,
        smaller == a || smaller == b,
        smaller.number() <= a.number() && smaller.number() <= b.number(),
        read == a.number(),
        one.number() == 1,
{
}

} // verus!
