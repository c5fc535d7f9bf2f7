use vstd::prelude::*;

verus! {

/// A single-precision reading as the library carries it: its IEEE-754 bit
/// pattern, which decides its place in an ordering, and its decimal
/// rendering, which is what a report prints.
pub struct Figure {
    pub bits: u32,
    pub text: String,
}

/// One traded instrument at one sampling instant.
///
/// `key` identifies it across snapshots; `wkn` is its registration code,
/// shared by duplicate listings of the same underlying instrument.
pub struct Instrument {
    pub name: String,
    pub key: u64,
    pub wkn: String,
    pub price: Figure,
    pub performance_abs: Figure,
    pub performance_rel: Figure,
}

/// One team of the ranking at one sampling instant.
pub struct Team {
    pub name: String,
    pub depot_value: Figure,
    pub performance: Figure,
    pub performance_rank: u32,
}

/// The position of a bit pattern in the IEEE-754 total order: positive
/// patterns ascend with their bits, negative ones descend, so that `-NaN`
/// comes first and `+NaN` last.
pub open spec fn order_key(bits: u32) -> i64 {
    if bits < 0x8000_0000 {
        bits as i64
    } else {
        (0x7FFF_FFFF - bits as int) as i64
    }
}

/// The key under which a reading is ordered.
pub fn total_order_key(bits: u32) -> (r: i64)
    ensures
        r == order_key(bits),
{
    if bits < 0x8000_0000 {
        bits as i64
    } else {
        0x7FFF_FFFFi64 - bits as i64
    }
}

impl Figure {
    pub fn new(bits: u32, text: String) -> (r: Figure)
        ensures
            r.bits == bits,
            r.text == text,
    {
        Figure { bits, text }
    }

    pub fn duplicate(&self) -> (r: Figure)
        ensures
            r == *self,
    {
        Figure { bits: self.bits, text: self.text.clone() }
    }
}

impl Instrument {
    pub fn duplicate(&self) -> (r: Instrument)
        ensures
            r == *self,
    {
        Instrument {
            name: self.name.clone(),
            key: self.key,
            wkn: self.wkn.clone(),
            price: self.price.duplicate(),
            performance_abs: self.performance_abs.duplicate(),
            performance_rel: self.performance_rel.duplicate(),
        }
    }
}

} // verus!
