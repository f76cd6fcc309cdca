use vstd::prelude::*;

verus! {

/// Number of bits in one LTC frame.
pub const LTC_FRAME_BIT_COUNT: u32 = 80;

/// Value of an unsigned 8-bit sample at zero signal.
pub const SAMPLE_CENTER: u8 = 128;

/// One of the binary-group options that steer how a frame is built or read.
#[allow(non_camel_case_types)]
#[derive(Debug, Clone, Copy, PartialEq, Eq, Structural)]
pub enum LtcBgFlagsKind {
    /// The user bits carry a date and a time zone.
    LTC_USE_DATE,
    /// The time is locked to an external clock.
    LTC_TC_CLOCK,
    /// The encoder leaves the binary-group flag bits as they are.
    LTC_BGF_DONT_TOUCH,
    /// No parity bit is computed; when parsed, the parity check failed.
    LTC_NO_PARITY,
}

impl LtcBgFlagsKind {
    pub open spec fn spec_bits(self) -> u32 {
        match self {
            LtcBgFlagsKind::LTC_USE_DATE => 1,
            LtcBgFlagsKind::LTC_TC_CLOCK => 2,
            LtcBgFlagsKind::LTC_BGF_DONT_TOUCH => 4,
            LtcBgFlagsKind::LTC_NO_PARITY => 8,
        }
    }

    /// The single bit that stands for this option in a flag word.
    pub fn bits(self) -> (r: u32)
        ensures
            r == self.spec_bits(),
    {
        match self {
            LtcBgFlagsKind::LTC_USE_DATE => 1,
            LtcBgFlagsKind::LTC_TC_CLOCK => 2,
            LtcBgFlagsKind::LTC_BGF_DONT_TOUCH => 4,
            LtcBgFlagsKind::LTC_NO_PARITY => 8,
        }
    }
}

/// A set of binary-group options, held as a bit word.
#[derive(Debug, Clone, Copy, PartialEq, Eq, Structural)]
pub struct LtcBgFlags(pub u32);

impl LtcBgFlags {
    /// Whether the option `k` is in the set.
    pub open spec fn has(self, k: LtcBgFlagsKind) -> bool {
        self.0 & k.spec_bits() != 0
    }

    pub fn contains(&self, flag: LtcBgFlagsKind) -> (r: bool)
        ensures
            r == self.has(flag),
    {
        self.0 & flag.bits() != 0
    }

    pub fn new(flags: u32) -> (r: Self)
        ensures
            r.0 == flags,
    {
        LtcBgFlags(flags)
    }

    /// Adds `flag` to the set; every other option keeps its state.
    pub fn set(&mut self, flag: LtcBgFlagsKind) -> (r: &mut Self)
        ensures
            r.0 == old(self).0 | flag.spec_bits(),
            r.has(flag),
            forall|k: LtcBgFlagsKind| k != flag ==> (r.has(k) <==> old(self).has(k)),
            *final(self) == *final(r),
    {
        let b = flag.bits();
        let old_bits = self.0;
        self.0 = old_bits | b;
        proof {
            lemma_bits_or(old_bits, flag);
        }
        self
    }

    /// Takes `flag` out of the set; every other option keeps its state.
    pub fn unset(&mut self, flag: LtcBgFlagsKind) -> (r: &mut Self)
        ensures
            r.0 == old(self).0 & !flag.spec_bits(),
            !r.has(flag),
            forall|k: LtcBgFlagsKind| k != flag ==> (r.has(k) <==> old(self).has(k)),
            *final(self) == *final(r),
    {
        let b = flag.bits();
        let old_bits = self.0;
        self.0 = old_bits & !b;
        proof {
            lemma_bits_and_not(old_bits, flag);
        }
        self
    }
}

proof fn lemma_single_bits(x: u32, y: u32, z: u32)
    by (bit_vector)
    requires
        y == 1 || y == 2 || y == 4 || y == 8,
        z == 1 || z == 2 || z == 4 || z == 8,
    ensures
        (x | y) & y != 0,
        (x & !y) & y == 0,
        z != y ==> (((x | y) & z != 0) <==> (x & z != 0)),
        z != y ==> (((x & !y) & z != 0) <==> (x & z != 0)),
{
}

proof fn lemma_bits_or(x: u32, flag: LtcBgFlagsKind)
    ensures
        (LtcBgFlags(x | flag.spec_bits())).has(flag),
        forall|k: LtcBgFlagsKind|
            k != flag ==> ((LtcBgFlags(x | flag.spec_bits())).has(k) <==> (LtcBgFlags(x)).has(k)),
{
    lemma_single_bits(x, flag.spec_bits(), flag.spec_bits());
    assert forall|k: LtcBgFlagsKind| k != flag implies ((LtcBgFlags(x | flag.spec_bits())).has(k)
        <==> (LtcBgFlags(x)).has(k)) by {
        lemma_single_bits(x, flag.spec_bits(), k.spec_bits());
    }
}

proof fn lemma_bits_and_not(x: u32, flag: LtcBgFlagsKind)
    ensures
        !(LtcBgFlags(x & !flag.spec_bits())).has(flag),
        forall|k: LtcBgFlagsKind|
            k != flag ==> ((LtcBgFlags(x & !flag.spec_bits())).has(k) <==> (LtcBgFlags(x)).has(k)),
{
    lemma_single_bits(x, flag.spec_bits(), flag.spec_bits());
    assert forall|k: LtcBgFlagsKind| k != flag implies ((LtcBgFlags(x & !flag.spec_bits())).has(k)
        <==> (LtcBgFlags(x)).has(k)) by {
        lemma_single_bits(x, flag.spec_bits(), k.spec_bits());
    }
}

impl Default for LtcBgFlags {
    fn default() -> (r: Self)
        ensures
            r.0 == 0,
    {
        LtcBgFlags(0)
    }
}

impl From<u32> for LtcBgFlags {
    fn from(flags: u32) -> (r: Self) {
        LtcBgFlags(flags)
    }
}

impl vstd::std_specs::convert::FromSpecImpl<u32> for LtcBgFlags {
    open spec fn obeys_from_spec() -> bool {
        true
    }

    open spec fn from_spec(flags: u32) -> Self {
        LtcBgFlags(flags)
    }
}

impl From<i32> for LtcBgFlags {
    fn from(flags: i32) -> (r: Self) {
        LtcBgFlags(flags as u32)
    }
}

impl vstd::std_specs::convert::FromSpecImpl<i32> for LtcBgFlags {
    open spec fn obeys_from_spec() -> bool {
        true
    }

    open spec fn from_spec(flags: i32) -> Self {
        LtcBgFlags(flags as u32)
    }
}

impl From<LtcBgFlags> for i32 {
    fn from(val: LtcBgFlags) -> (r: i32) {
        val.0 as i32
    }
}

impl vstd::std_specs::convert::FromSpecImpl<LtcBgFlags> for i32 {
    open spec fn obeys_from_spec() -> bool {
        true
    }

    open spec fn from_spec(val: LtcBgFlags) -> i32 {
        val.0 as i32
    }
}

impl From<LtcBgFlags> for u32 {
    fn from(val: LtcBgFlags) -> (r: u32) {
        val.0
    }
}

impl vstd::std_specs::convert::FromSpecImpl<LtcBgFlags> for u32 {
    open spec fn obeys_from_spec() -> bool {
        true
    }

    open spec fn from_spec(val: LtcBgFlags) -> u32 {
        val.0
    }
}

} // verus!
