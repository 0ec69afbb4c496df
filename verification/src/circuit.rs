//! Circuit type codec: the closed set of circuit kinds and its stable wire
//! representations, a one-byte integer form and a human-readable name.
use vstd::prelude::*;

use crate::text::str_eq;

verus! {

/// The kind of circuit a proof belongs to. `Undefined` stands for every
/// unrecognized wire value, so decoding never fails.
#[derive(Clone, Copy, Debug, PartialEq, Eq, Structural, Hash)]
pub enum CircuitType {
    Undefined,
    Chunk,
    Batch,
    Bundle,
}

impl CircuitType {
    /// Wire integer of this kind: Undefined=0, Chunk=1, Batch=2, Bundle=3.
    pub open spec fn spec_to_u8(self) -> u8 {
        match self {
            CircuitType::Undefined => 0,
            CircuitType::Chunk => 1,
            CircuitType::Batch => 2,
            CircuitType::Bundle => 3,
        }
    }

    /// Lenient integer decode: 1, 2, 3 name a kind, everything else is
    /// `Undefined`.
    pub open spec fn spec_from_u8(v: u8) -> CircuitType {
        if v == 1 {
            CircuitType::Chunk
        } else if v == 2 {
            CircuitType::Batch
        } else if v == 3 {
            CircuitType::Bundle
        } else {
            CircuitType::Undefined
        }
    }

    /// Lenient textual decode: exactly "chunk", "batch", "bundle" name a
    /// kind, every other string is `Undefined`.
    pub open spec fn spec_from_str(s: Seq<char>) -> CircuitType {
        if s == "chunk"@ {
            CircuitType::Chunk
        } else if s == "bundle"@ {
            CircuitType::Bundle
        } else if s == "batch"@ {
            CircuitType::Batch
        } else {
            CircuitType::Undefined
        }
    }

    /// Human-readable name of this kind.
    pub open spec fn spec_display(self) -> Seq<char> {
        match self {
            CircuitType::Undefined => "undefined"@,
            CircuitType::Chunk => "chunk"@,
            CircuitType::Batch => "batch"@,
            CircuitType::Bundle => "bundle"@,
        }
    }

    pub fn from_u8(v: u8) -> (r: Self)
        ensures
            r == Self::spec_from_u8(v),
    {
        match v {
            1 => CircuitType::Chunk,
            2 => CircuitType::Batch,
            3 => CircuitType::Bundle,
            _ => CircuitType::Undefined,
        }
    }

    pub fn to_u8(self) -> (r: u8)
        ensures
            r == self.spec_to_u8(),
    {
        match self {
            CircuitType::Undefined => 0,
            CircuitType::Chunk => 1,
            CircuitType::Batch => 2,
            CircuitType::Bundle => 3,
        }
    }

    pub fn from_string(value: &str) -> (r: Self)
        ensures
            r == Self::spec_from_str(value@),
    {
        if str_eq(value, "chunk") {
            CircuitType::Chunk
        } else if str_eq(value, "bundle") {
            CircuitType::Bundle
        } else if str_eq(value, "batch") {
            CircuitType::Batch
        } else {
            CircuitType::Undefined
        }
    }

    pub fn display(self) -> (r: &'static str)
        ensures
            r@ == self.spec_display(),
    {
        match self {
            CircuitType::Chunk => "chunk",
            CircuitType::Batch => "batch",
            CircuitType::Bundle => "bundle",
            CircuitType::Undefined => "undefined",
        }
    }
}

/// The integer codec is a bijection on the four defined kinds: decoding an
/// encoded kind gives the kind back, and encoding a decode of any byte in
/// 0..=3 gives the byte back.
pub proof fn lemma_u8_codec_bijective(t: CircuitType, v: u8)
    ensures
        CircuitType::spec_from_u8(t.spec_to_u8()) == t,
        v <= 3 ==> CircuitType::spec_from_u8(v).spec_to_u8() == v,
{
}

/// Every integer outside the defined range decodes to `Undefined`.
pub proof fn lemma_from_u8_lenient(v: u8)
    requires
        v >= 4,
    ensures
        CircuitType::spec_from_u8(v) == CircuitType::Undefined,
{
}

/// Every string other than the three defined names decodes to `Undefined`.
pub proof fn lemma_from_str_lenient(s: Seq<char>)
    requires
        s != "chunk"@,
        s != "bundle"@,
        s != "batch"@,
    ensures
        CircuitType::spec_from_str(s) == CircuitType::Undefined,
{
}

/// `display` inverts the textual decode: the name of every kind decodes back
/// to that kind ("undefined" is not a defined name, so it decodes to
/// `Undefined` by leniency, which closes the loop for all four kinds).
pub proof fn lemma_display_from_str(t: CircuitType)
    ensures
        CircuitType::spec_from_str(t.spec_display()) == t,
{
    reveal_strlit("chunk");
    reveal_strlit("batch");
    reveal_strlit("bundle");
    reveal_strlit("undefined");
    assert("bundle"@ != "chunk"@) by {
        assert("bundle"@.len() != "chunk"@.len());
    }
    assert("batch"@ != "chunk"@) by {
        assert("batch"@[0] != "chunk"@[0]);
    }
    assert("batch"@ != "bundle"@) by {
        assert("batch"@.len() != "bundle"@.len());
    }
    assert("undefined"@ != "chunk"@) by {
        assert("undefined"@.len() != "chunk"@.len());
    }
    assert("undefined"@ != "bundle"@) by {
        assert("undefined"@.len() != "bundle"@.len());
    }
    assert("undefined"@ != "batch"@) by {
        assert("undefined"@.len() != "batch"@.len());
    }
}

} // verus!
