//! Fixed-width bitsets over the flag enumerations: per-object flags,
//! prototype extended flags, and critter combat-damage flags.

use vstd::prelude::*;

verus! {

/// Per-object behaviour flags. At most one translucency flag is meant
/// to be set at a time; when several are, the effect resolution order is
/// fixed (energy, glass, red, steam, wall).
#[derive(Clone, Copy, Debug, PartialEq, Eq, Structural)]
pub enum Flag {
    TurnedOff,
    Flat,
    NoBlock,
    MultiHex,
    LightThru,
    ShootThru,
    WallTransEnd,
    TransEnergy,
    TransGlass,
    TransRed,
    TransSteam,
    TransWall,
    TransNone,
}

/// Bit position of an object flag.
pub open spec fn flag_index(f: Flag) -> u32 {
    match f {
        Flag::TurnedOff => 0,
        Flag::Flat => 1,
        Flag::NoBlock => 2,
        Flag::MultiHex => 3,
        Flag::LightThru => 4,
        Flag::ShootThru => 5,
        Flag::WallTransEnd => 6,
        Flag::TransEnergy => 7,
        Flag::TransGlass => 8,
        Flag::TransRed => 9,
        Flag::TransSteam => 10,
        Flag::TransWall => 11,
        Flag::TransNone => 12,
    }
}

fn flag_index_exec(f: Flag) -> (r: u32)
    ensures
        r == flag_index(f),
{
    match f {
        Flag::TurnedOff => 0,
        Flag::Flat => 1,
        Flag::NoBlock => 2,
        Flag::MultiHex => 3,
        Flag::LightThru => 4,
        Flag::ShootThru => 5,
        Flag::WallTransEnd => 6,
        Flag::TransEnergy => 7,
        Flag::TransGlass => 8,
        Flag::TransRed => 9,
        Flag::TransSteam => 10,
        Flag::TransWall => 11,
        Flag::TransNone => 12,
    }
}

/// A set of object flags, one bit per flag.
#[derive(Clone, Copy, Debug, PartialEq, Eq, Structural)]
pub struct Flags {
    bits: u32,
}

impl Flags {
    pub closed spec fn has(self, f: Flag) -> bool {
        self.bits & (1u32 << flag_index(f)) != 0
    }

    /// The empty flag set.
    pub fn empty() -> (r: Flags)
        ensures
            forall|f: Flag| !r.has(f),
    {
        proof {
            assert forall|f: Flag| (0u32 & (1u32 << flag_index(f))) == 0 by {
                lemma_zero_bit(flag_index(f));
            }
        }
        Flags { bits: 0 }
    }

    /// The set with `f` added.
    pub fn with(self, f: Flag) -> (r: Flags)
        ensures
            forall|g: Flag| #[trigger] r.has(g) <==> (self.has(g) || g == f),
    {
        let result = Flags { bits: self.bits | (1u32 << flag_index_exec(f)) };
        proof {
            assert forall|g: Flag| #[trigger] result.has(g) <==> (self.has(g) || g == f) by {
                lemma_or_bit(self.bits, flag_index(f), flag_index(g));
                assert(flag_index(f) == flag_index(g) ==> f == g);
            }
        }
        result
    }

    /// Whether `f` is in the set.
    pub fn contains(self, f: Flag) -> (r: bool)
        ensures
            r == self.has(f),
    {
        (self.bits & (1u32 << flag_index_exec(f))) != 0
    }
}

/// Prototype extended flags: wall corner and edge classification, and
/// the capability bits the prototype database reports.
#[derive(Clone, Copy, Debug, PartialEq, Eq, Structural)]
pub enum FlagExt {
    WallEastOrWest,
    WallEastCorner,
    WallWestCorner,
    WallNorthCorner,
    WallSouthCorner,
    CanTalk,
    CanUse,
}

/// Bit position of a prototype extended flag.
pub open spec fn flag_ext_index(f: FlagExt) -> u32 {
    match f {
        FlagExt::WallEastOrWest => 0,
        FlagExt::WallEastCorner => 1,
        FlagExt::WallWestCorner => 2,
        FlagExt::WallNorthCorner => 3,
        FlagExt::WallSouthCorner => 4,
        FlagExt::CanTalk => 5,
        FlagExt::CanUse => 6,
    }
}

fn flag_ext_index_exec(f: FlagExt) -> (r: u32)
    ensures
        r == flag_ext_index(f),
{
    match f {
        FlagExt::WallEastOrWest => 0,
        FlagExt::WallEastCorner => 1,
        FlagExt::WallWestCorner => 2,
        FlagExt::WallNorthCorner => 3,
        FlagExt::WallSouthCorner => 4,
        FlagExt::CanTalk => 5,
        FlagExt::CanUse => 6,
    }
}

/// A set of prototype extended flags.
#[derive(Clone, Copy, Debug, PartialEq, Eq, Structural)]
pub struct FlagsExt {
    bits: u32,
}

impl FlagsExt {
    pub closed spec fn has(self, f: FlagExt) -> bool {
        self.bits & (1u32 << flag_ext_index(f)) != 0
    }

    /// The empty flag set.
    pub fn empty() -> (r: FlagsExt)
        ensures
            forall|f: FlagExt| !r.has(f),
    {
        proof {
            assert forall|f: FlagExt| (0u32 & (1u32 << flag_ext_index(f))) == 0 by {
                lemma_zero_bit(flag_ext_index(f));
            }
        }
        FlagsExt { bits: 0 }
    }

    /// The set with `f` added.
    pub fn with(self, f: FlagExt) -> (r: FlagsExt)
        ensures
            forall|g: FlagExt| #[trigger] r.has(g) <==> (self.has(g) || g == f),
    {
        let result = FlagsExt { bits: self.bits | (1u32 << flag_ext_index_exec(f)) };
        proof {
            assert forall|g: FlagExt| #[trigger] result.has(g) <==> (self.has(g) || g == f) by {
                lemma_or_bit(self.bits, flag_ext_index(f), flag_ext_index(g));
                assert(flag_ext_index(f) == flag_ext_index(g) ==> f == g);
            }
        }
        result
    }

    /// Whether `f` is in the set.
    pub fn contains(self, f: FlagExt) -> (r: bool)
        ensures
            r == self.has(f),
    {
        (self.bits & (1u32 << flag_ext_index_exec(f))) != 0
    }
}

/// Combat damage state of a critter.
#[derive(Clone, Copy, Debug, PartialEq, Eq, Structural)]
pub enum DamageFlag {
    KnockedOut,
    KnockedDown,
    CripLegLeft,
    CripLegRight,
    CripArmLeft,
    CripArmRight,
    Blind,
    Dead,
    Hit,
    Critical,
    OnFire,
    Bypass,
    Explode,
    Destroy,
    Drop,
    LoseTurn,
    HitSelf,
    LoseAmmo,
    Dud,
    HurtSelf,
    RandomHit,
    CripRandom,
    Backwash,
    PerformReverse,
}

/// Bit position of a damage flag.
pub open spec fn damage_flag_index(f: DamageFlag) -> u32 {
    match f {
        DamageFlag::KnockedOut => 0,
        DamageFlag::KnockedDown => 1,
        DamageFlag::CripLegLeft => 2,
        DamageFlag::CripLegRight => 3,
        DamageFlag::CripArmLeft => 4,
        DamageFlag::CripArmRight => 5,
        DamageFlag::Blind => 6,
        DamageFlag::Dead => 7,
        DamageFlag::Hit => 8,
        DamageFlag::Critical => 9,
        DamageFlag::OnFire => 10,
        DamageFlag::Bypass => 11,
        DamageFlag::Explode => 12,
        DamageFlag::Destroy => 13,
        DamageFlag::Drop => 14,
        DamageFlag::LoseTurn => 15,
        DamageFlag::HitSelf => 16,
        DamageFlag::LoseAmmo => 17,
        DamageFlag::Dud => 18,
        DamageFlag::HurtSelf => 19,
        DamageFlag::RandomHit => 20,
        DamageFlag::CripRandom => 21,
        DamageFlag::Backwash => 22,
        DamageFlag::PerformReverse => 23,
    }
}

fn damage_flag_index_exec(f: DamageFlag) -> (r: u32)
    ensures
        r == damage_flag_index(f),
{
    match f {
        DamageFlag::KnockedOut => 0,
        DamageFlag::KnockedDown => 1,
        DamageFlag::CripLegLeft => 2,
        DamageFlag::CripLegRight => 3,
        DamageFlag::CripArmLeft => 4,
        DamageFlag::CripArmRight => 5,
        DamageFlag::Blind => 6,
        DamageFlag::Dead => 7,
        DamageFlag::Hit => 8,
        DamageFlag::Critical => 9,
        DamageFlag::OnFire => 10,
        DamageFlag::Bypass => 11,
        DamageFlag::Explode => 12,
        DamageFlag::Destroy => 13,
        DamageFlag::Drop => 14,
        DamageFlag::LoseTurn => 15,
        DamageFlag::HitSelf => 16,
        DamageFlag::LoseAmmo => 17,
        DamageFlag::Dud => 18,
        DamageFlag::HurtSelf => 19,
        DamageFlag::RandomHit => 20,
        DamageFlag::CripRandom => 21,
        DamageFlag::Backwash => 22,
        DamageFlag::PerformReverse => 23,
    }
}

/// A set of damage flags.
#[derive(Clone, Copy, Debug, PartialEq, Eq, Structural)]
pub struct DamageFlags {
    bits: u32,
}

impl DamageFlags {
    pub closed spec fn has(self, f: DamageFlag) -> bool {
        self.bits & (1u32 << damage_flag_index(f)) != 0
    }

    /// The empty flag set.
    pub fn empty() -> (r: DamageFlags)
        ensures
            forall|f: DamageFlag| !r.has(f),
    {
        proof {
            assert forall|f: DamageFlag| (0u32 & (1u32 << damage_flag_index(f))) == 0 by {
                lemma_zero_bit(damage_flag_index(f));
            }
        }
        DamageFlags { bits: 0 }
    }

    /// The set with `f` added.
    pub fn with(self, f: DamageFlag) -> (r: DamageFlags)
        ensures
            forall|g: DamageFlag| #[trigger] r.has(g) <==> (self.has(g) || g == f),
    {
        let result = DamageFlags { bits: self.bits | (1u32 << damage_flag_index_exec(f)) };
        proof {
            assert forall|g: DamageFlag| #[trigger] result.has(g) <==> (self.has(g) || g == f) by {
                lemma_or_bit(self.bits, damage_flag_index(f), damage_flag_index(g));
                assert(damage_flag_index(f) == damage_flag_index(g) ==> f == g);
            }
        }
        result
    }

    /// Whether `f` is in the set.
    pub fn contains(self, f: DamageFlag) -> (r: bool)
        ensures
            r == self.has(f),
    {
        (self.bits & (1u32 << damage_flag_index_exec(f))) != 0
    }
}

proof fn lemma_or_bit(bits: u32, i: u32, j: u32)
    requires
        i < 32,
        j < 32,
    ensures
        ((bits | (1u32 << i)) & (1u32 << j) != 0) <==> ((bits & (1u32 << j) != 0) || i == j),
{
    assert(((bits | (1u32 << i)) & (1u32 << j) != 0) <==> ((bits & (1u32 << j) != 0) || i == j))
        by (bit_vector)
        requires
            i < 32,
            j < 32,
    ;
}

proof fn lemma_zero_bit(j: u32)
    requires
        j < 32,
    ensures
        (0u32 & (1u32 << j)) == 0,
{
    assert((0u32 & (1u32 << j)) == 0) by (bit_vector);
}

} // verus!
