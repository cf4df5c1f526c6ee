use vstd::prelude::*;
use crate::text::chars_are;

verus! {

/// The primitive types of the language.
#[derive(Clone, Copy, Debug, PartialEq, Eq, Structural)]
pub enum AuroraType {
    /// Inference sentinel: no expression of a checked program carries it.
    Any,
    Void,
    Bool,
    I8,
    I16,
    I32,
    I64,
    F32,
    F64,
}

/// The machine-level representation of a value.
#[derive(Clone, Copy, Debug, PartialEq, Eq, Structural)]
pub enum MachType {
    I8,
    I16,
    I32,
    I64,
    F32,
    F64,
}

/// The type spelled by a type identifier, if it is one.
pub open spec fn type_named(s: Seq<char>) -> Option<AuroraType> {
    if s == seq!['v', 'o', 'i', 'd'] {
        Some(AuroraType::Void)
    } else if s == seq!['b', 'o', 'o', 'l'] {
        Some(AuroraType::Bool)
    } else if s == seq!['i', '8'] {
        Some(AuroraType::I8)
    } else if s == seq!['i', '1', '6'] {
        Some(AuroraType::I16)
    } else if s == seq!['i', '3', '2'] {
        Some(AuroraType::I32)
    } else if s == seq!['i', '6', '4'] {
        Some(AuroraType::I64)
    } else if s == seq!['f', '3', '2'] {
        Some(AuroraType::F32)
    } else if s == seq!['f', '6', '4'] {
        Some(AuroraType::F64)
    } else {
        None
    }
}

/// The machine representation of a type; `Any` and `Void` have none, and
/// `Bool` shares its representation with `I8`.
pub open spec fn mach_of(t: AuroraType) -> Option<MachType> {
    match t {
        AuroraType::Any | AuroraType::Void => None,
        AuroraType::Bool | AuroraType::I8 => Some(MachType::I8),
        AuroraType::I16 => Some(MachType::I16),
        AuroraType::I32 => Some(MachType::I32),
        AuroraType::I64 => Some(MachType::I64),
        AuroraType::F32 => Some(MachType::F32),
        AuroraType::F64 => Some(MachType::F64),
    }
}

/// The type of a binary expression: its left operand's type, except that
/// floats of two widths give `f64`.
pub open spec fn binary_result(lt: AuroraType, rt: AuroraType) -> AuroraType {
    if is_float_type(lt) && is_float_type(rt) && lt != rt {
        AuroraType::F64
    } else {
        lt
    }
}

pub open spec fn is_float_mach(m: MachType) -> bool {
    m == MachType::F32 || m == MachType::F64
}

impl MachType {
    /// Whether this is a float representation.
    pub fn is_float(&self) -> (r: bool)
        ensures
            r == is_float_mach(*self),
    {
        match self {
            MachType::F32 | MachType::F64 => true,
            _ => false,
        }
    }
}

/// The text that names a type.
pub open spec fn type_text(t: AuroraType) -> Seq<char> {
    match t {
        AuroraType::Any => seq!['a', 'n', 'y'],
        AuroraType::Void => seq!['v', 'o', 'i', 'd'],
        AuroraType::Bool => seq!['b', 'o', 'o', 'l'],
        AuroraType::I8 => seq!['i', '8'],
        AuroraType::I16 => seq!['i', '1', '6'],
        AuroraType::I32 => seq!['i', '3', '2'],
        AuroraType::I64 => seq!['i', '6', '4'],
        AuroraType::F32 => seq!['f', '3', '2'],
        AuroraType::F64 => seq!['f', '6', '4'],
    }
}

pub open spec fn is_int_type(t: AuroraType) -> bool {
    t == AuroraType::I8 || t == AuroraType::I16 || t == AuroraType::I32 || t == AuroraType::I64
}

pub open spec fn is_float_type(t: AuroraType) -> bool {
    t == AuroraType::F32 || t == AuroraType::F64
}

impl AuroraType {
    /// The text that names this type.
    pub fn name(&self) -> (r: String)
        ensures
            r@ == type_text(*self),
    {
        let mut r = String::new();
        match self {
            AuroraType::Any => {
                r.push('a');
                r.push('n');
                r.push('y');
            },
            AuroraType::Void => {
                r.push('v');
                r.push('o');
                r.push('i');
                r.push('d');
            },
            AuroraType::Bool => {
                r.push('b');
                r.push('o');
                r.push('o');
                r.push('l');
            },
            AuroraType::I8 => {
                r.push('i');
                r.push('8');
            },
            AuroraType::I16 => {
                r.push('i');
                r.push('1');
                r.push('6');
            },
            AuroraType::I32 => {
                r.push('i');
                r.push('3');
                r.push('2');
            },
            AuroraType::I64 => {
                r.push('i');
                r.push('6');
                r.push('4');
            },
            AuroraType::F32 => {
                r.push('f');
                r.push('3');
                r.push('2');
            },
            AuroraType::F64 => {
                r.push('f');
                r.push('6');
                r.push('4');
            },
        }
        proof {
            assert(r@ =~= type_text(*self));
        }
        r
    }

    /// The type of a binary expression with operands of types `lt` and `rt`.
    pub fn binary_result(lt: AuroraType, rt: AuroraType) -> (r: AuroraType)
        ensures
            r == binary_result(lt, rt),
    {
        if lt.is_float() && rt.is_float() && lt != rt {
            AuroraType::F64
        } else {
            lt
        }
    }

    /// Whether this is one of the signed integer types.
    pub fn is_int(&self) -> (r: bool)
        ensures
            r == is_int_type(*self),
    {
        match self {
            AuroraType::I8 | AuroraType::I16 | AuroraType::I32 | AuroraType::I64 => true,
            _ => false,
        }
    }

    /// Whether this is one of the float types.
    pub fn is_float(&self) -> (r: bool)
        ensures
            r == is_float_type(*self),
    {
        match self {
            AuroraType::F32 | AuroraType::F64 => true,
            _ => false,
        }
    }

    /// The machine representation of this type.
    pub fn get_type(&self) -> (r: Option<MachType>)
        ensures
            r == mach_of(*self),
    {
        match self {
            AuroraType::Void | AuroraType::Any => None,
            AuroraType::Bool => Some(MachType::I8),
            AuroraType::I8 => Some(MachType::I8),
            AuroraType::I16 => Some(MachType::I16),
            AuroraType::I32 => Some(MachType::I32),
            AuroraType::I64 => Some(MachType::I64),
            AuroraType::F32 => Some(MachType::F32),
            AuroraType::F64 => Some(MachType::F64),
        }
    }

    /// The type that a type identifier names, or `None` for any other
    /// identifier.
    pub fn from_string(s: &String) -> (r: Option<AuroraType>)
        ensures
            r == type_named(s@),
    {
        let t = s.as_str();
        if chars_are(t, &vec!['v', 'o', 'i', 'd']) {
            Some(AuroraType::Void)
        } else if chars_are(t, &vec!['b', 'o', 'o', 'l']) {
            Some(AuroraType::Bool)
        } else if chars_are(t, &vec!['i', '8']) {
            Some(AuroraType::I8)
        } else if chars_are(t, &vec!['i', '1', '6']) {
            Some(AuroraType::I16)
        } else if chars_are(t, &vec!['i', '3', '2']) {
            Some(AuroraType::I32)
        } else if chars_are(t, &vec!['i', '6', '4']) {
            Some(AuroraType::I64)
        } else if chars_are(t, &vec!['f', '3', '2']) {
            Some(AuroraType::F32)
        } else if chars_are(t, &vec!['f', '6', '4']) {
            Some(AuroraType::F64)
        } else {
            None
        }
    }
}

} // verus!
