//! Dice notation ("NdM") parsing and rolling, and the weapon and damage
//! model that builds on it.

pub mod die;
pub mod weapon;

pub use die::{total, validate_diestring, DiceError, Die};
pub use weapon::{DamageType, Weapon, WeaponType};
