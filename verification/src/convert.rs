//! The integer types that name a cell width, and conversions between cells
//! and characters.

use vstd::prelude::*;
use crate::cell::{fits, valid_bits};
use crate::engine::Width;
use crate::error::FungeError;
use crate::ops::{char_of, int_to_cell};
use crate::semantics::is_char;
use crate::text::code_point;

verus! {

/// A signed integer type, as the name of the cell width it has.
pub trait Int: Copy {
    /// The width of a cell that holds what the type holds.
    spec fn width_of() -> Width;

    /// The width of a cell that holds what the type holds.
    fn width() -> (w: Width)
        ensures
            w == Self::width_of(),
    ;
}

impl Int for i8 {
    open spec fn width_of() -> Width {
        Width::W8
    }

    fn width() -> Width {
        Width::W8
    }
}

impl Int for i16 {
    open spec fn width_of() -> Width {
        Width::W16
    }

    fn width() -> Width {
        Width::W16
    }
}

impl Int for i32 {
    open spec fn width_of() -> Width {
        Width::W32
    }

    fn width() -> Width {
        Width::W32
    }
}

impl Int for i64 {
    open spec fn width_of() -> Width {
        Width::W64
    }

    fn width() -> Width {
        Width::W64
    }
}

impl Int for i128 {
    open spec fn width_of() -> Width {
        Width::W128
    }

    fn width() -> Width {
        Width::W128
    }
}

impl Int for isize {
    open spec fn width_of() -> Width {
        Width::Native
    }

    fn width() -> Width {
        Width::Native
    }
}

/// The number as a cell of that width; `Casting` when it is none.
pub fn cast_int(v: i128, bits: u32) -> (r: Result<i128, FungeError>)
    requires
        valid_bits(bits),
    ensures
        fits(v as int, bits) ==> r == Ok::<i128, FungeError>(v),
        !fits(v as int, bits) ==> r == Err::<i128, FungeError>(FungeError::Casting),
{
    match int_to_cell(v, bits) {
        Some(c) => Ok(c),
        None => Err(FungeError::Casting),
    }
}

/// The code point of a character as a cell of that width; `Casting` when
/// it is none.
pub fn ord(c: char, bits: u32) -> (r: Result<i128, FungeError>)
    requires
        valid_bits(bits),
    ensures
        fits(c as int, bits) ==> r == Ok::<i128, FungeError>(c as i128),
        !fits(c as int, bits) ==> r == Err::<i128, FungeError>(FungeError::Casting),
{
    cast_int(code_point(c) as i128, bits)
}

/// The character whose code point the cell is; `Casting` when it is none.
pub fn chr(v: i128) -> (r: Result<char, FungeError>)
    ensures
        is_char(v) ==> r == Ok::<char, FungeError>(v as char),
        !is_char(v) ==> r == Err::<char, FungeError>(FungeError::Casting),
{
    match char_of(v) {
        Some(c) => Ok(c),
        None => Err(FungeError::Casting),
    }
}

} // verus!
