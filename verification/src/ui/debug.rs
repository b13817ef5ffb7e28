use vstd::prelude::*;

verus! {

/// A set of debugging switches for the UI, stored as a bit mask.
#[derive(Clone, Copy, PartialEq, Eq, Structural, Default, Debug)]
pub struct UIDebugFlag(pub u8);

impl UIDebugFlag {
    /// Whether the two masks share a bit.
    pub open spec fn intersects(self, flag: Self) -> bool {
        self.0 & flag.0 != 0
    }

    /// The union of two masks.
    pub open spec fn union(self, other: Self) -> Self {
        UIDebugFlag(self.0 | other.0)
    }

    /// No debugging switch.
    pub fn none() -> (r: Self)
        ensures
            r.0 == 0,
    {
        Self(0)
    }

    /// Outline every widget when drawing.
    pub fn debug_widgets() -> (r: Self)
        ensures
            r.0 == 1,
    {
        Self(0b0000_0001)
    }

    /// Trace the pointer events that the UI dispatches.
    pub fn debug_events() -> (r: Self)
        ensures
            r.0 == 2,
    {
        Self(0b0000_0010)
    }

    /// The flag set whose mask is `bits`.
    pub fn from_bits(bits: u8) -> (r: Self)
        ensures
            r.0 == bits,
    {
        Self(bits)
    }

    /// Whether `self` and `flag` have a switch in common.
    pub fn contains(self, flag: Self) -> (r: bool)
        ensures
            r == self.intersects(flag),
    {
        self.0 & flag.0 != 0
    }

    /// Switches on every switch of `flag`.
    pub fn insert(&mut self, flag: Self)
        ensures
            *final(self) == old(self).union(flag),
    {
        self.0 |= flag.0;
    }
}

impl core::ops::BitOr for UIDebugFlag {
    type Output = Self;

    fn bitor(self, rhs: Self) -> (r: Self)
        ensures
            r == self.union(rhs),
    {
        Self(self.0 | rhs.0)
    }
}

impl vstd::std_specs::ops::BitOrSpecImpl for UIDebugFlag {
    open spec fn obeys_bitor_spec() -> bool {
        true
    }

    open spec fn bitor_req(self, rhs: Self) -> bool {
        true
    }

    open spec fn bitor_spec(self, rhs: Self) -> Self {
        UIDebugFlag(self.0 | rhs.0)
    }
}

/// A union has a switch in common with `f` exactly when one of its parts has.
pub proof fn lemma_union_intersects(a: UIDebugFlag, b: UIDebugFlag, f: UIDebugFlag)
    ensures
        a.union(b).intersects(f) <==> (a.intersects(f) || b.intersects(f)),
{
    let (x, y, z) = (a.0, b.0, f.0);
    assert(((x | y) & z != 0) <==> (x & z != 0 || y & z != 0)) by (bit_vector);
}

/// Any flag with a switch on has that switch in common with itself, so after
/// `insert(f)` the set `contains(f)`.
pub proof fn lemma_insert_then_contains(a: UIDebugFlag, f: UIDebugFlag)
    requires
        f.0 != 0,
    ensures
        a.union(f).intersects(f),
{
    let (x, z) = (a.0, f.0);
    assert(z != 0 ==> (x | z) & z != 0) by (bit_vector);
}

/// Union is commutative, associative and idempotent, and the empty set is its unit.
pub proof fn lemma_union_laws(a: UIDebugFlag, b: UIDebugFlag, c: UIDebugFlag)
    ensures
        a.union(b) == b.union(a),
        a.union(b).union(c) == a.union(b.union(c)),
        a.union(a) == a,
        a.union(UIDebugFlag(0)) == a,
{
    let (x, y, z) = (a.0, b.0, c.0);
    assert(x | y == y | x) by (bit_vector);
    assert((x | y) | z == x | (y | z)) by (bit_vector);
    assert(x | x == x) by (bit_vector);
    assert(x | 0 == x) by (bit_vector);
}

/// The empty set has nothing in common with any flag.
pub proof fn lemma_none_contains_nothing(f: UIDebugFlag)
    ensures
        !UIDebugFlag(0).intersects(f),
        !f.intersects(UIDebugFlag(0)),
{
    let z = f.0;
    assert(0u8 & z == 0 && z & 0u8 == 0) by (bit_vector);
}

} // verus!
