//! Settings that decide how data is placed and moved.

use vstd::prelude::*;

verus! {

/// The type of a sharding key.
#[derive(Debug, Clone, Copy, PartialEq, Eq, Structural)]
pub enum DataType {
    Bigint,
    Uuid,
    Vector,
    Varchar,
}

impl DataType {
    /// The name of the type.
    pub open spec fn spec_name(self) -> Seq<char> {
        match self {
            DataType::Bigint => "Bigint"@,
            DataType::Uuid => "Uuid"@,
            DataType::Vector => "Vector"@,
            DataType::Varchar => "Varchar"@,
        }
    }

    /// The name of the type.
    pub fn name(&self) -> (out: &'static str)
        ensures
            out@ == self.spec_name(),
    {
        match self {
            DataType::Bigint => "Bigint",
            DataType::Uuid => "Uuid",
            DataType::Vector => "Vector",
            DataType::Varchar => "Varchar",
        }
    }
}

/// The format in which table data is copied.
#[derive(Debug, Clone, Copy, PartialEq, Eq, Structural)]
pub enum CopyFormat {
    Text,
    Binary,
}

impl CopyFormat {
    /// The format's name in a `COPY` statement.
    pub open spec fn spec_name(self) -> Seq<char> {
        match self {
            CopyFormat::Text => "text"@,
            CopyFormat::Binary => "binary"@,
        }
    }

    /// The format's name in a `COPY` statement.
    pub fn name(&self) -> (out: &'static str)
        ensures
            out@ == self.spec_name(),
    {
        match self {
            CopyFormat::Text => "text",
            CopyFormat::Binary => "binary",
        }
    }
}

} // verus!
