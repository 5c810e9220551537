//! Board difficulty: preset tiers and validation of custom dimensions.
//!
//! A `DifficultySettings` value is only meant to be produced by a preset or
//! by `validate_custom`; both establish `DifficultySettings::valid`, which the
//! game engine requires of every board it is built from.

use vstd::prelude::*;

verus! {

/// The three fixed difficulty tiers.
#[derive(Clone, Copy, Debug, PartialEq, Eq, Structural)]
pub enum DifficultyPreset {
    Beginner,
    Intermediate,
    Expert,
}

/// Immutable description of a board: dimensions, mine count and display name.
#[derive(Clone, Debug, PartialEq, Eq)]
pub struct DifficultySettings {
    pub width: usize,
    pub height: usize,
    pub mines: usize,
    pub label: String,
}

/// Smallest accepted custom board side.
pub const MIN_SIDE: usize = 5;

/// Largest accepted custom board side.
pub const MAX_SIDE: usize = 50;

impl DifficultySettings {
    /// What every constructor of settings guarantees: at least one mine,
    /// at least one safe cell, and a cell count small enough that every
    /// counter derived from it fits the machine integers the engine uses.
    pub open spec fn valid(self) -> bool {
        0 < self.mines
            && (self.mines as int) < (self.width as int) * (self.height as int)
            && (self.width as int) * (self.height as int) <= 0x7fff_ffff
    }

    /// Total number of cells on a board with these settings.
    pub open spec fn spec_total(self) -> int {
        (self.width as int) * (self.height as int)
    }
}

impl DifficultyPreset {
    /// The fixed settings of this tier: Beginner 9x9 with 10 mines,
    /// Intermediate 16x16 with 40 mines, Expert 30x16 with 99 mines.
    pub fn settings(self) -> (s: DifficultySettings)
        ensures
            s.valid(),
            self == DifficultyPreset::Beginner ==> s.width == 9 && s.height == 9 && s.mines == 10
                && s.label@ == "Beginner"@,
            self == DifficultyPreset::Intermediate ==> s.width == 16 && s.height == 16
                && s.mines == 40 && s.label@ == "Intermediate"@,
            self == DifficultyPreset::Expert ==> s.width == 30 && s.height == 16 && s.mines == 99
                && s.label@ == "Expert"@,
    {
        match self {
            Self::Beginner => DifficultySettings {
                width: 9,
                height: 9,
                mines: 10,
                label: "Beginner".to_owned(),
            },
            Self::Intermediate => DifficultySettings {
                width: 16,
                height: 16,
                mines: 40,
                label: "Intermediate".to_owned(),
            },
            Self::Expert => DifficultySettings {
                width: 30,
                height: 16,
                mines: 99,
                label: "Expert".to_owned(),
            },
        }
    }
}

/// The single validation gate for custom boards: both sides must lie in
/// `[MIN_SIDE, MAX_SIDE]` and the mine count must leave at least one safe
/// cell. Each rejected field yields its own message; success yields settings
/// labeled "Custom".
pub fn validate_custom(width: usize, height: usize, mines: usize) -> (r: Result<
    DifficultySettings,
    String,
>)
    ensures
        r is Ok <==> MIN_SIDE <= width <= MAX_SIDE && MIN_SIDE <= height <= MAX_SIDE && 0 < mines
            && (mines as int) < (width as int) * (height as int),
        (match r {
            Ok(s) => s.width == width && s.height == height && s.mines == mines && s.valid()
                && s.label@ == "Custom"@,
            Err(m) => if !(MIN_SIDE <= width <= MAX_SIDE) {
                m@ == "Width must be between 5 and 50."@
            } else if !(MIN_SIDE <= height <= MAX_SIDE) {
                m@ == "Height must be between 5 and 50."@
            } else if mines == 0 {
                m@ == "Mines must be at least 1."@
            } else {
                m@ == "Mines must be less than total cell count."@
            },
        }),
{
    if width < MIN_SIDE || width > MAX_SIDE {
        return Err("Width must be between 5 and 50.".to_owned());
    }
    if height < MIN_SIDE || height > MAX_SIDE {
        return Err("Height must be between 5 and 50.".to_owned());
    }
    assert((width as int) * (height as int) <= 2500) by (nonlinear_arith)
        requires
            width <= 50,
            height <= 50,
    ;
    let total = width * height;
    if mines == 0 {
        return Err("Mines must be at least 1.".to_owned());
    }
    if mines >= total {
        return Err("Mines must be less than total cell count.".to_owned());
    }
    Ok(DifficultySettings { width, height, mines, label: "Custom".to_owned() })
}

} // verus!
