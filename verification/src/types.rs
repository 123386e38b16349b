//! Scalar types and operators of the device language.
use vstd::prelude::*;

use crate::text::same_text;

verus! {

/// A scalar type with the same representation in Rust and in Metal.
#[derive(Debug, Clone, Copy, PartialEq, Eq, Structural)]
pub enum ScalarType {
    U8,
    U16,
    U32,
    U64,
    I8,
    I16,
    I32,
    I64,
    F32,
}

impl ScalarType {
    /// The name of the type in Rust.
    pub open spec fn rust_text(self) -> Seq<char> {
        match self {
            ScalarType::U8 => "u8"@,
            ScalarType::U16 => "u16"@,
            ScalarType::U32 => "u32"@,
            ScalarType::U64 => "u64"@,
            ScalarType::I8 => "i8"@,
            ScalarType::I16 => "i16"@,
            ScalarType::I32 => "i32"@,
            ScalarType::I64 => "i64"@,
            ScalarType::F32 => "f32"@,
        }
    }

    /// The name of the type in the Metal Shading Language.
    pub open spec fn msl_text(self) -> Seq<char> {
        match self {
            ScalarType::U8 => "uchar"@,
            ScalarType::U16 => "ushort"@,
            ScalarType::U32 => "uint"@,
            ScalarType::U64 => "ulong"@,
            ScalarType::I8 => "char"@,
            ScalarType::I16 => "short"@,
            ScalarType::I32 => "int"@,
            ScalarType::I64 => "long"@,
            ScalarType::F32 => "float"@,
        }
    }

    /// The scalar type of that Rust name, where there is one.
    pub open spec fn named(name: Seq<char>) -> Option<ScalarType> {
        if name == "u8"@ {
            Some(ScalarType::U8)
        } else if name == "u16"@ {
            Some(ScalarType::U16)
        } else if name == "u32"@ {
            Some(ScalarType::U32)
        } else if name == "u64"@ {
            Some(ScalarType::U64)
        } else if name == "i8"@ {
            Some(ScalarType::I8)
        } else if name == "i16"@ {
            Some(ScalarType::I16)
        } else if name == "i32"@ {
            Some(ScalarType::I32)
        } else if name == "i64"@ {
            Some(ScalarType::I64)
        } else if name == "f32"@ {
            Some(ScalarType::F32)
        } else {
            None
        }
    }

    pub fn from_rust_name(name: &str) -> (found: Option<ScalarType>)
        ensures
            found == ScalarType::named(name@),
    {
        if same_text(name, "u8") {
            Some(ScalarType::U8)
        } else if same_text(name, "u16") {
            Some(ScalarType::U16)
        } else if same_text(name, "u32") {
            Some(ScalarType::U32)
        } else if same_text(name, "u64") {
            Some(ScalarType::U64)
        } else if same_text(name, "i8") {
            Some(ScalarType::I8)
        } else if same_text(name, "i16") {
            Some(ScalarType::I16)
        } else if same_text(name, "i32") {
            Some(ScalarType::I32)
        } else if same_text(name, "i64") {
            Some(ScalarType::I64)
        } else if same_text(name, "f32") {
            Some(ScalarType::F32)
        } else {
            None
        }
    }

    pub fn msl_name(self) -> (name: &'static str)
        ensures
            name@ == self.msl_text(),
    {
        match self {
            ScalarType::U8 => "uchar",
            ScalarType::U16 => "ushort",
            ScalarType::U32 => "uint",
            ScalarType::U64 => "ulong",
            ScalarType::I8 => "char",
            ScalarType::I16 => "short",
            ScalarType::I32 => "int",
            ScalarType::I64 => "long",
            ScalarType::F32 => "float",
        }
    }
}

/// Each scalar type is found under its own Rust name and under no other.
pub proof fn law_scalar_names_are_unique(name: Seq<char>, ty: ScalarType)
    ensures
        ScalarType::named(name) == Some(ty) <==> name == ty.rust_text(),
{
    reveal_strlit("u8");
    reveal_strlit("u16");
    reveal_strlit("u32");
    reveal_strlit("u64");
    reveal_strlit("i8");
    reveal_strlit("i16");
    reveal_strlit("i32");
    reveal_strlit("i64");
    reveal_strlit("f32");
    assert("u16"@[1] != "u32"@[1] && "u16"@[1] != "u64"@[1] && "u32"@[1] != "u64"@[1]);
    assert("i16"@[1] != "i32"@[1] && "i16"@[1] != "i64"@[1] && "i32"@[1] != "i64"@[1]);
    assert("u8"@[0] != "i8"@[0] && "u16"@[0] != "i16"@[0] && "u32"@[0] != "i32"@[0] && "u64"@[0]
        != "i64"@[0] && "f32"@[0] != "u32"@[0] && "f32"@[0] != "i32"@[0]);
    assert("f32"@[0] == 'f' && "u16"@[0] == 'u' && "i16"@[0] == 'i' && "u64"@[0] == 'u' && "i64"@[0]
        == 'i');
}

#[derive(Debug, Clone, Copy, PartialEq, Eq, Structural)]
pub enum UnaryOp {
    Neg,
}

impl UnaryOp {
    pub open spec fn msl_text(self) -> Seq<char> {
        match self {
            UnaryOp::Neg => "-"@,
        }
    }

    /// The operator's token in the Metal Shading Language.
    pub fn msl(self) -> (token: &'static str)
        ensures
            token@ == self.msl_text(),
    {
        match self {
            UnaryOp::Neg => "-",
        }
    }
}

#[derive(Debug, Clone, Copy, PartialEq, Eq, Structural)]
pub enum BinaryOp {
    Add,
    Sub,
    Mul,
    Div,
    Rem,
    BitXor,
    BitAnd,
    BitOr,
    Shl,
    Shr,
    Eq,
    Ne,
    Lt,
    Le,
    Gt,
    Ge,
    And,
    Or,
}

impl BinaryOp {
    pub open spec fn msl_text(self) -> Seq<char> {
        match self {
            BinaryOp::Add => "+"@,
            BinaryOp::Sub => "-"@,
            BinaryOp::Mul => "*"@,
            BinaryOp::Div => "/"@,
            BinaryOp::Rem => "%"@,
            BinaryOp::BitXor => "^"@,
            BinaryOp::BitAnd => "&"@,
            BinaryOp::BitOr => "|"@,
            BinaryOp::Shl => "<<"@,
            BinaryOp::Shr => ">>"@,
            BinaryOp::Eq => "=="@,
            BinaryOp::Ne => "!="@,
            BinaryOp::Lt => "<"@,
            BinaryOp::Le => "<="@,
            BinaryOp::Gt => ">"@,
            BinaryOp::Ge => ">="@,
            BinaryOp::And => "&&"@,
            BinaryOp::Or => "||"@,
        }
    }

    /// The operator's token in the Metal Shading Language.
    pub fn msl(self) -> (token: &'static str)
        ensures
            token@ == self.msl_text(),
    {
        match self {
            BinaryOp::Add => "+",
            BinaryOp::Sub => "-",
            BinaryOp::Mul => "*",
            BinaryOp::Div => "/",
            BinaryOp::Rem => "%",
            BinaryOp::BitXor => "^",
            BinaryOp::BitAnd => "&",
            BinaryOp::BitOr => "|",
            BinaryOp::Shl => "<<",
            BinaryOp::Shr => ">>",
            BinaryOp::Eq => "==",
            BinaryOp::Ne => "!=",
            BinaryOp::Lt => "<",
            BinaryOp::Le => "<=",
            BinaryOp::Gt => ">",
            BinaryOp::Ge => ">=",
            BinaryOp::And => "&&",
            BinaryOp::Or => "||",
        }
    }
}

} // verus!
