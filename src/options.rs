use vstd::prelude::*;

use crate::color::{opaque, PColor};

verus! {

/// Threshold of the brightness mode when none is given.
pub const DEFAULT_BRIGHTNESS: u8 = 60;

/// Sorting modes: the test that decides where spans begin and end.
#[derive(Clone, Copy, Debug, PartialEq, Eq, Structural)]
pub enum Mode {
    /// Black mode with a threshold color.
    Black(PColor),
    /// Brightness mode with a threshold value `0` to `255`.
    Brightness(u8),
    /// White mode with a threshold color.
    White(PColor),
}

/// The axes along which an image is sorted.
#[derive(Clone, Copy, Debug, PartialEq, Eq, Structural)]
pub enum Direction {
    /// Columns first, then rows.
    Both,
    /// Columns only.
    Column,
    /// Rows only.
    Row,
}

/// Options to configure a sort.
#[derive(Clone, Copy, Debug, PartialEq, Eq, Structural)]
pub struct Options {
    /// Sorting mode.
    pub mode: Mode,
    /// Axes to sort along.
    pub direction: Direction,
}

impl Direction {
    pub open spec fn spec_has_column(&self) -> bool {
        *self is Both || *self is Column
    }

    pub open spec fn spec_has_row(&self) -> bool {
        *self is Both || *self is Row
    }

    /// Whether columns are sorted.
    #[verifier::when_used_as_spec(spec_has_column)]
    pub fn has_column(&self) -> (r: bool)
        ensures
            r == self.spec_has_column(),
    {
        match self {
            Direction::Both | Direction::Column => true,
            Direction::Row => false,
        }
    }

    /// Whether rows are sorted.
    #[verifier::when_used_as_spec(spec_has_row)]
    pub fn has_row(&self) -> (r: bool)
        ensures
            r == self.spec_has_row(),
    {
        match self {
            Direction::Both | Direction::Row => true,
            Direction::Column => false,
        }
    }
}

impl Default for Direction {
    fn default() -> (r: Direction)
        ensures
            r == Direction::Both,
    {
        Direction::Both
    }
}

impl Default for Mode {
    fn default() -> (r: Mode)
        ensures
            r == Mode::Brightness(DEFAULT_BRIGHTNESS),
    {
        Mode::brightness()
    }
}

impl Default for Options {
    fn default() -> (r: Options)
        ensures
            r == (Options { mode: Mode::Brightness(DEFAULT_BRIGHTNESS), direction: Direction::Both }),
    {
        Options { mode: Mode::brightness(), direction: Direction::Both }
    }
}

impl Mode {
    /// Black mode with the default threshold `(11, 220, 0)`.
    pub fn black() -> (r: Mode)
        ensures
            r == Mode::Black(opaque(11, 220, 0)),
    {
        Mode::Black(PColor::new(11, 220, 0))
    }

    /// Brightness mode with the default threshold `60`.
    pub fn brightness() -> (r: Mode)
        ensures
            r == Mode::Brightness(DEFAULT_BRIGHTNESS),
    {
        Mode::Brightness(DEFAULT_BRIGHTNESS)
    }

    /// White mode with the default threshold `(57, 162, 192)`.
    pub fn white() -> (r: Mode)
        ensures
            r == Mode::White(opaque(57, 162, 192)),
    {
        Mode::White(PColor::new(57, 162, 192))
    }
}

} // verus!
