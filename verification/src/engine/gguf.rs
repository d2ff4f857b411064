//! What a GGUF header holds, as plain values.

use candle_core::quantized::GgmlDType as StoredAs;
use vstd::prelude::*;

use crate::table::Table;

verus! {

/// A metadata value. Only the unsigned widths and text are ever read; any
/// other kind keeps its name and the way it is shown in messages.
#[derive(Clone, Debug)]
pub enum Value {
    U8(u8),
    U16(u16),
    U32(u32),
    U64(u64),
    String(String),
    Other { kind: ValueKind, shown: String },
}

/// The kinds of metadata that are never read.
#[derive(Clone, Copy, Debug, PartialEq, Eq, Structural)]
pub enum ValueKind {
    I8,
    I16,
    I32,
    I64,
    F32,
    F64,
    Bool,
    Array,
}

impl ValueKind {
    /// How messages name the kind.
    pub open spec fn shown(self) -> Seq<char> {
        match self {
            ValueKind::I8 => "I8"@,
            ValueKind::I16 => "I16"@,
            ValueKind::I32 => "I32"@,
            ValueKind::I64 => "I64"@,
            ValueKind::F32 => "F32"@,
            ValueKind::F64 => "F64"@,
            ValueKind::Bool => "Bool"@,
            ValueKind::Array => "Array"@,
        }
    }

    /// How messages name the kind.
    pub fn name(self) -> (out: &'static str)
        ensures
            out@ == self.shown(),
    {
        match self {
            ValueKind::I8 => "I8",
            ValueKind::I16 => "I16",
            ValueKind::I32 => "I32",
            ValueKind::I64 => "I64",
            ValueKind::F32 => "F32",
            ValueKind::F64 => "F64",
            ValueKind::Bool => "Bool",
            ValueKind::Array => "Array",
        }
    }
}

/// How a tensor's values are stored: plainly, or in quantized blocks.
#[derive(Clone, Copy, Debug, PartialEq, Eq, Structural)]
pub enum GgmlDType {
    F32,
    F16,
    BF16,
    Q4_0,
    Q4_1,
    Q5_0,
    Q5_1,
    Q8_0,
    Q8_1,
    Q2K,
    Q3K,
    Q4K,
    Q5K,
    Q6K,
    Q8K,
}

impl GgmlDType {
    /// The values in one block.
    pub open spec fn block_values(self) -> nat {
        match self {
            GgmlDType::F32 | GgmlDType::F16 | GgmlDType::BF16 => 1,
            GgmlDType::Q4_0
            | GgmlDType::Q4_1
            | GgmlDType::Q5_0
            | GgmlDType::Q5_1
            | GgmlDType::Q8_0
            | GgmlDType::Q8_1 => 32,
            _ => 256,
        }
    }

    /// The bytes that one block takes.
    pub open spec fn block_bytes(self) -> nat {
        match self {
            GgmlDType::F32 => 4,
            GgmlDType::F16 | GgmlDType::BF16 => 2,
            GgmlDType::Q4_0 => 18,
            GgmlDType::Q4_1 => 20,
            GgmlDType::Q5_0 => 22,
            GgmlDType::Q5_1 => 24,
            GgmlDType::Q8_0 => 34,
            GgmlDType::Q8_1 => 36,
            GgmlDType::Q2K => 84,
            GgmlDType::Q3K => 110,
            GgmlDType::Q4K => 144,
            GgmlDType::Q5K => 176,
            GgmlDType::Q6K => 210,
            GgmlDType::Q8K => 292,
        }
    }
}

/// The storage formats as the engine's own type.
#[verifier::external_type_specification]
#[verifier::external_body]
pub struct ExStoredAs(StoredAs);

/// The engine's name for a storage format; nothing is claimed of it here.
#[verifier::external_body]
fn stored_as(dtype: GgmlDType) -> StoredAs {
    match dtype {
        GgmlDType::F32 => StoredAs::F32, GgmlDType::F16 => StoredAs::F16,
        GgmlDType::BF16 => StoredAs::BF16, GgmlDType::Q4_0 => StoredAs::Q4_0,
        GgmlDType::Q4_1 => StoredAs::Q4_1, GgmlDType::Q5_0 => StoredAs::Q5_0,
        GgmlDType::Q5_1 => StoredAs::Q5_1, GgmlDType::Q8_0 => StoredAs::Q8_0,
        GgmlDType::Q8_1 => StoredAs::Q8_1, GgmlDType::Q2K => StoredAs::Q2K,
        GgmlDType::Q3K => StoredAs::Q3K, GgmlDType::Q4K => StoredAs::Q4K,
        GgmlDType::Q5K => StoredAs::Q5K, GgmlDType::Q6K => StoredAs::Q6K,
        GgmlDType::Q8K => StoredAs::Q8K,
    }
}

/// `candle_core`'s `GgmlDType::block_size`: how many values share a block.
#[verifier::external_body]
pub(crate) fn block_size(dtype: GgmlDType) -> (out: u64)
    ensures
        out == dtype.block_values(),
{
    stored_as(dtype).block_size() as u64
}

/// `candle_core`'s `GgmlDType::type_size`: the bytes that a block takes.
#[verifier::external_body]
pub(crate) fn type_size(dtype: GgmlDType) -> (out: u64)
    ensures
        out == dtype.block_bytes(),
{
    stored_as(dtype).type_size() as u64
}

/// A tensor's shape and storage format.
#[derive(Clone, Debug)]
pub struct TensorInfo {
    pub ggml_dtype: GgmlDType,
    pub shape: Vec<usize>,
}

/// A GGUF header.
#[derive(Clone, Debug)]
pub struct Content {
    pub metadata: Table<Value>,
    pub tensor_infos: Table<TensorInfo>,
}

}
