//! The abstract value types that the analysis tracks.

use vstd::prelude::*;

verus! {

/// The type of one operand-stack slot or local.
///
/// `Any` stands for a slot whose type an instruction leaves open (`select`,
/// `drop`, `local.tee`); `U8` is a single byte; `Ref` is a reference.
#[derive(Clone, Copy, Debug, PartialEq, Eq, Structural)]
pub enum WasmType {
    Any,
    U8,
    I32,
    F32,
    I64,
    F64,
    V128,
    Ref,
}

/// The width in bytes that stands for a reference.
pub const REF_SIZE: u8 = 255;

impl WasmType {
    /// The name of the type as a sequence of characters.
    pub open spec fn spec_name(self) -> Seq<char> {
        match self {
            WasmType::Any => "Any"@,
            WasmType::U8 => "U8"@,
            WasmType::I32 => "I32"@,
            WasmType::F32 => "F32"@,
            WasmType::I64 => "I64"@,
            WasmType::F64 => "F64"@,
            WasmType::V128 => "V128"@,
            WasmType::Ref => "Ref"@,
        }
    }

    /// The number of bytes that a value of the type occupies.
    pub open spec fn spec_size(self) -> u8 {
        match self {
            WasmType::Any => 0,
            WasmType::U8 => 1,
            WasmType::I32 | WasmType::F32 => 4,
            WasmType::I64 | WasmType::F64 => 8,
            WasmType::V128 => 16,
            WasmType::Ref => REF_SIZE,
        }
    }

    /// The one-byte tag under which the type is stored.
    pub open spec fn spec_tag(self) -> u8 {
        match self {
            WasmType::Any => 0,
            WasmType::U8 => 1,
            WasmType::I32 => 2,
            WasmType::F32 => 3,
            WasmType::I64 => 4,
            WasmType::F64 => 5,
            WasmType::V128 => 6,
            WasmType::Ref => 7,
        }
    }

    /// The type stored under `tag`, if there is one.
    pub open spec fn spec_from_tag(tag: u8) -> Option<WasmType> {
        if tag == 0 {
            Some(WasmType::Any)
        } else if tag == 1 {
            Some(WasmType::U8)
        } else if tag == 2 {
            Some(WasmType::I32)
        } else if tag == 3 {
            Some(WasmType::F32)
        } else if tag == 4 {
            Some(WasmType::I64)
        } else if tag == 5 {
            Some(WasmType::F64)
        } else if tag == 6 {
            Some(WasmType::V128)
        } else if tag == 7 {
            Some(WasmType::Ref)
        } else {
            None
        }
    }

    /// The name of the type.
    pub fn to_string(&self) -> (name: &'static str)
        ensures
            name@ == self.spec_name(),
    {
        match self {
            WasmType::Any => "Any",
            WasmType::U8 => "U8",
            WasmType::I32 => "I32",
            WasmType::F32 => "F32",
            WasmType::I64 => "I64",
            WasmType::F64 => "F64",
            WasmType::V128 => "V128",
            WasmType::Ref => "Ref",
        }
    }

    /// The number of bytes that a value of the type occupies; `REF_SIZE` for a
    /// reference and 0 for `Any`.
    pub fn size(&self) -> (width: u8)
        ensures
            width == self.spec_size(),
    {
        match self {
            WasmType::Any => 0,
            WasmType::U8 => 1,
            WasmType::I32 | WasmType::F32 => 4,
            WasmType::I64 | WasmType::F64 => 8,
            WasmType::V128 => 16,
            WasmType::Ref => REF_SIZE,
        }
    }

    /// The tag byte of the type.
    pub fn tag(&self) -> (tag: u8)
        ensures
            tag == self.spec_tag(),
            WasmType::spec_from_tag(tag) == Some(*self),
    {
        match self {
            WasmType::Any => 0,
            WasmType::U8 => 1,
            WasmType::I32 => 2,
            WasmType::F32 => 3,
            WasmType::I64 => 4,
            WasmType::F64 => 5,
            WasmType::V128 => 6,
            WasmType::Ref => 7,
        }
    }

    /// Reads a type back from its tag byte; `None` for a byte that is no tag.
    pub fn from_tag(tag: u8) -> (ty: Option<WasmType>)
        ensures
            ty == WasmType::spec_from_tag(tag),
            ty matches Some(t) ==> t.spec_tag() == tag,
    {
        match tag {
            0 => Some(WasmType::Any),
            1 => Some(WasmType::U8),
            2 => Some(WasmType::I32),
            3 => Some(WasmType::F32),
            4 => Some(WasmType::I64),
            5 => Some(WasmType::F64),
            6 => Some(WasmType::V128),
            7 => Some(WasmType::Ref),
            _ => None,
        }
    }
}

/// Whether a value's place is fixed when the code is analysed or only known
/// when it runs.
#[derive(Clone, Copy, Debug, PartialEq, Eq, Structural)]
pub enum SpaceKind {
    Static,
    Dynamic,
}

/// What is known of one value besides its type.
#[derive(Clone, Copy, Debug, PartialEq, Eq, Structural)]
pub struct ValInfo {
    pub space_kind: SpaceKind,
}

impl ValInfo {
    /// What is known of a value in the given kind of space.
    pub fn new(space_kind: SpaceKind) -> (info: ValInfo)
        ensures
            info.space_kind == space_kind,
    {
        ValInfo { space_kind }
    }
}

} // verus!
