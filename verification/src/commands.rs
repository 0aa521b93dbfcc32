//! The typed vocabulary of the chain: operations, rotations, the parsed
//! command line, and the errors a malformed token stream produces.

use vstd::prelude::*;

use crate::numbers::is_dec_i32;
use crate::numbers::parse_i32;
use crate::numbers::signed_val;

verus! {

/// The command line as the binary hands it over: the output path, the flat
/// token stream of the chain, and an optional input path.
pub struct Cli {
    pub outfile: String,
    pub command_vector: Vec<String>,
    pub infile: Option<String>,
}

/// One of the three clockwise rotations the chain accepts.
#[derive(Clone, Copy, PartialEq, Eq, Structural, Debug)]
pub enum Rotation {
    Ninety,
    OneEighty,
    TwoSeventy,
}

/// The rotation a token denotes: it must read as a signed integer whose
/// value is exactly 90, 180 or 270.  Anything else denotes none.
pub open spec fn rotation_of(s: Seq<char>) -> Option<Rotation> {
    if is_dec_i32(s) && signed_val(s) == 90 {
        Some(Rotation::Ninety)
    } else if is_dec_i32(s) && signed_val(s) == 180 {
        Some(Rotation::OneEighty)
    } else if is_dec_i32(s) && signed_val(s) == 270 {
        Some(Rotation::TwoSeventy)
    } else {
        None
    }
}

impl Rotation {
    /// Reads a rotation from its token.  Succeeds exactly on the tokens that
    /// denote a rotation, and returns the denoted one.
    pub fn from_str(s: &str) -> (r: Result<Rotation, &'static str>)
        ensures
            r is Ok <==> rotation_of(s@) is Some,
            r is Ok ==> r->Ok_0 == rotation_of(s@)->0,
            r is Err ==> r->Err_0@ == "Must be one of 90, 180, 270"@,
    {
        match parse_i32(s) {
            Some(90) => Ok(Rotation::Ninety),
            Some(180) => Ok(Rotation::OneEighty),
            Some(270) => Ok(Rotation::TwoSeventy),
            _ => Err("Must be one of 90, 180, 270"),
        }
    }

    /// The angle in degrees, for display and for picking the matching
    /// primitive of an image library.
    pub fn degrees(&self) -> (d: u32)
        ensures
            d == match *self {
                Rotation::Ninety => 90u32,
                Rotation::OneEighty => 180u32,
                Rotation::TwoSeventy => 270u32,
            },
    {
        match *self {
            Rotation::Ninety => 90,
            Rotation::OneEighty => 180,
            Rotation::TwoSeventy => 270,
        }
    }
}

/// One operation of the chain, operands already typed.
#[derive(Clone, Copy, PartialEq, Eq, Structural, Debug)]
pub enum ChainCommands {
    Blur {},
    Brighten { brightness: i32 },
    Crop { x: u32, y: u32, width: u32, height: u32 },
    Rotate { rotation: Rotation },
    Invert {},
    Grayscale {},
    Fractal {},
    Square { red: u8, green: u8, blue: u8 },
}

/// The bare name of an operation, used to report which sub-command a parse
/// failure belongs to.
#[derive(Clone, Copy, PartialEq, Eq, Structural, Debug)]
pub enum OpKind {
    Blur,
    Brighten,
    Crop,
    Rotate,
    Invert,
    Grayscale,
    Fractal,
    Square,
}

/// Why a token stream was rejected.  A wrong operand count, an operand that
/// is no number, a rotation outside {90, 180, 270} and an unknown operation
/// name are four distinct failures.
#[derive(Clone, Copy, PartialEq, Eq, Structural, Debug)]
pub enum ParseError {
    WrongArity { op: OpKind },
    NotANumber { op: OpKind },
    InvalidRotation,
    UnknownOperation,
}

/// The usage line of an operation: its capitalized name followed by the
/// shape of its operands.
pub open spec fn usage_hint(op: OpKind) -> Seq<char> {
    match op {
        OpKind::Blur => "Blur <no operands>"@,
        OpKind::Brighten => "Brighten <brightness>"@,
        OpKind::Crop => "Crop <x> <y> <width> <height>"@,
        OpKind::Rotate => "Rotate <rotation (90, 180, 270)>"@,
        OpKind::Invert => "Invert <no operands>"@,
        OpKind::Grayscale => "Grayscale <no operands>"@,
        OpKind::Fractal => "Fractal <no operands>"@,
        OpKind::Square => "Square <red> <green> <blue>"@,
    }
}

/// The diagnostic each parse failure carries.
pub open spec fn spec_message(e: ParseError) -> Seq<char> {
    match e {
        ParseError::WrongArity { op } => usage_hint(op),
        ParseError::NotANumber { op } => match op {
            OpKind::Brighten => "Brighten: argument must be a number"@,
            OpKind::Crop => "Crop: argument must be a number"@,
            OpKind::Square => "Square: argument must be a number"@,
            _ => "argument must be a number"@,
        },
        ParseError::InvalidRotation => "Invalid value for rotation"@,
        ParseError::UnknownOperation => "unknown operation name"@,
    }
}

impl ParseError {
    /// The diagnostic to show the user, as [`spec_message`] states it.
    pub fn message(&self) -> (r: &'static str)
        ensures
            r@ == spec_message(*self),
    {
        match *self {
            ParseError::WrongArity { op } => match op {
                OpKind::Blur => "Blur <no operands>",
                OpKind::Brighten => "Brighten <brightness>",
                OpKind::Crop => "Crop <x> <y> <width> <height>",
                OpKind::Rotate => "Rotate <rotation (90, 180, 270)>",
                OpKind::Invert => "Invert <no operands>",
                OpKind::Grayscale => "Grayscale <no operands>",
                OpKind::Fractal => "Fractal <no operands>",
                OpKind::Square => "Square <red> <green> <blue>",
            },
            ParseError::NotANumber { op } => match op {
                OpKind::Brighten => "Brighten: argument must be a number",
                OpKind::Crop => "Crop: argument must be a number",
                OpKind::Square => "Square: argument must be a number",
                _ => "argument must be a number",
            },
            ParseError::InvalidRotation => "Invalid value for rotation",
            ParseError::UnknownOperation => "unknown operation name",
        }
    }
}

} // verus!
