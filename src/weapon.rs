use crate::die::{lemma_sum_bounds, total, DiceError, Die};
use vstd::prelude::*;
use vstd::std_specs::cmp::PartialEqSpec;

verus! {

/// A weapon's profile: its category, strength, armour penetration and damage.
pub struct Weapon {
    /// The category, with how many to-hit rolls it grants.
    pub wt: WeaponType,
    /// Strength.
    pub s: u8,
    /// Armour penetration.
    pub ap: u8,
    /// Damage dealt by each hit.
    pub d: DamageType,
}

/// The category of a weapon. Each one carries the number of to-hit rolls the
/// weapon makes, fixed or rolled (`Grenade` with `1d6`, `Pistol` with 1).
pub enum WeaponType {
    Assault(DamageType),
    Heavy(DamageType),
    RapidFire(DamageType),
    Grenade(DamageType),
    Pistol(DamageType),
    Blast(DamageType),
}

/// A number that is either fixed or rolled on dice.
pub enum DamageType {
    /// Rolled: the sum of one roll of the bag.
    DieDamage(Die),
    /// Fixed.
    Absolute(u16),
}

impl DamageType {
    /// Works out the number: a fixed value as it is, and for dice the sum of
    /// one roll of every die in the bag.
    pub fn resolve(&self) -> (r: Result<u64, DiceError>)
        ensures
            match self {
                DamageType::Absolute(v) => r == Ok::<u64, DiceError>(*v as u64),
                DamageType::DieDamage(d) => match r {
                    Ok(t) => {
                        &&& d.die_value >= 1
                        &&& d.die_count <= t <= d.die_count * d.die_value
                    },
                    Err(e) => d.die_value == 0 && e == DiceError::InvalidRange,
                },
            },
    {
        match self {
            DamageType::Absolute(v) => Ok(*v as u64),
            DamageType::DieDamage(d) => match d.roll() {
                Ok(rolls) => {
                    proof {
                        lemma_sum_bounds(rolls@, d.die_value);
                    }
                    Ok(total(&rolls))
                },
                Err(e) => Err(e),
            },
        }
    }
}

impl PartialEq for DamageType {
    fn eq(&self, other: &DamageType) -> (r: bool) {
        match (self, other) {
            (DamageType::DieDamage(a), DamageType::DieDamage(b)) => a == b,
            (DamageType::Absolute(a), DamageType::Absolute(b)) => a == b,
            _ => false,
        }
    }
}

impl vstd::std_specs::cmp::PartialEqSpecImpl for DamageType {
    open spec fn obeys_eq_spec() -> bool {
        true
    }

    open spec fn eq_spec(&self, other: &DamageType) -> bool {
        match (self, other) {
            (DamageType::DieDamage(a), DamageType::DieDamage(b)) => PartialEqSpec::eq_spec(a, b),
            (DamageType::Absolute(a), DamageType::Absolute(b)) => a == b,
            _ => false,
        }
    }
}

impl PartialEq for WeaponType {
    fn eq(&self, other: &WeaponType) -> (r: bool) {
        match (self, other) {
            (WeaponType::Assault(a), WeaponType::Assault(b)) => a == b,
            (WeaponType::Heavy(a), WeaponType::Heavy(b)) => a == b,
            (WeaponType::RapidFire(a), WeaponType::RapidFire(b)) => a == b,
            (WeaponType::Grenade(a), WeaponType::Grenade(b)) => a == b,
            (WeaponType::Pistol(a), WeaponType::Pistol(b)) => a == b,
            (WeaponType::Blast(a), WeaponType::Blast(b)) => a == b,
            _ => false,
        }
    }
}

impl vstd::std_specs::cmp::PartialEqSpecImpl for WeaponType {
    open spec fn obeys_eq_spec() -> bool {
        true
    }

    open spec fn eq_spec(&self, other: &WeaponType) -> bool {
        match (self, other) {
            (WeaponType::Assault(a), WeaponType::Assault(b)) => PartialEqSpec::eq_spec(a, b),
            (WeaponType::Heavy(a), WeaponType::Heavy(b)) => PartialEqSpec::eq_spec(a, b),
            (WeaponType::RapidFire(a), WeaponType::RapidFire(b)) => PartialEqSpec::eq_spec(a, b),
            (WeaponType::Grenade(a), WeaponType::Grenade(b)) => PartialEqSpec::eq_spec(a, b),
            (WeaponType::Pistol(a), WeaponType::Pistol(b)) => PartialEqSpec::eq_spec(a, b),
            (WeaponType::Blast(a), WeaponType::Blast(b)) => PartialEqSpec::eq_spec(a, b),
            _ => false,
        }
    }
}

impl PartialEq for Weapon {
    fn eq(&self, other: &Weapon) -> (r: bool) {
        self.s == other.s && self.ap == other.ap && self.wt == other.wt && self.d == other.d
    }
}

impl vstd::std_specs::cmp::PartialEqSpecImpl for Weapon {
    open spec fn obeys_eq_spec() -> bool {
        true
    }

    open spec fn eq_spec(&self, other: &Weapon) -> bool {
        &&& PartialEqSpec::eq_spec(&self.wt, &other.wt)
        &&& self.s == other.s
        &&& self.ap == other.ap
        &&& PartialEqSpec::eq_spec(&self.d, &other.d)
    }
}

} // verus!
