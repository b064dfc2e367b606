//! What every record kind of the container format has in common: a byte
//! layout, an encoder, a decoder, and the laws that tie them together.

use crate::error::DecodeError;
use vstd::prelude::*;

verus! {

/// The three kinds of container, told apart by the tag that opens the header.
#[derive(Clone, Copy, Debug, PartialEq, Eq, Structural)]
pub enum ContainerKind {
    /// Sensor readings only, tag `SENS`.
    Sensor,
    /// Log entries only, tag `LOGS`.
    Log,
    /// Sensor readings and log entries, each behind a type byte, tag `MIXD`.
    Mixed,
}

impl ContainerKind {
    /// The four ASCII bytes that open a container of this kind.
    pub open spec fn magic(self) -> Seq<u8> {
        match self {
            ContainerKind::Sensor => seq![0x53u8, 0x45u8, 0x4eu8, 0x53u8],
            ContainerKind::Log => seq![0x4cu8, 0x4fu8, 0x47u8, 0x53u8],
            ContainerKind::Mixed => seq![0x4du8, 0x49u8, 0x58u8, 0x44u8],
        }
    }

    /// The tag of this kind, as bytes.
    pub fn tag(self) -> (t: [u8; 4])
        ensures
            t@ == self.magic(),
    {
        let t: [u8; 4] = match self {
            ContainerKind::Sensor => [0x53, 0x45, 0x4e, 0x53],
            ContainerKind::Log => [0x4c, 0x4f, 0x47, 0x53],
            ContainerKind::Mixed => [0x4d, 0x49, 0x58, 0x44],
        };
        assert(t@ =~= self.magic());
        t
    }
}

/// What a decoder makes of the front of a byte sequence: the record or the
/// reason there is none, and how many bytes the attempt used up.
pub struct Parsed<V> {
    /// The decoded record, or why there is none.
    pub outcome: Result<V, DecodeError>,
    /// The bytes taken from the front of the input.
    pub consumed: nat,
}

/// A record kind: a fixed byte layout with an encoder and a decoder that
/// are inverse to one another on valid records.
pub trait Record: Sized + View {
    /// What a writer must keep true of a record for it to be read back.
    spec fn valid(v: Self::V) -> bool;

    /// The bytes of a record: its fields in declaration order, little-endian,
    /// without padding.
    spec fn encoding(v: Self::V) -> Seq<u8>;

    /// The result of decoding one record from the front of `bytes`.
    spec fn parse(bytes: Seq<u8>) -> Parsed<Self::V>;

    /// The kind of container whose records are of this type.
    spec fn kind() -> ContainerKind;

    /// The kind of container whose records are of this type.
    fn container_kind() -> (k: ContainerKind)
        ensures
            k == Self::kind(),
    ;

    /// Appends the record's bytes to `out`.
    fn encode(&self, out: &mut Vec<u8>)
        ensures
            final(out)@ == old(out)@ + Self::encoding(self@),
    ;

    /// Decodes the record that starts at `pos`. Returns it, or the reason
    /// there is none, together with the position behind what was used up.
    fn decode(bytes: &[u8], pos: usize) -> (r: (Result<Self, DecodeError>, usize))
        requires
            pos <= bytes@.len(),
        ensures
            r.1 == pos + Self::parse(bytes@.skip(pos as int)).consumed,
            match r.0 {
                Ok(rec) => Self::parse(bytes@.skip(pos as int)).outcome == Ok::<Self::V, DecodeError>(rec@),
                Err(e) => Self::parse(bytes@.skip(pos as int)).outcome == Err::<Self::V, DecodeError>(e),
            },
    ;

    /// A decoder never uses more than there is, always uses something of a
    /// source that is not empty, and hands out valid records only.
    proof fn lemma_parse_bounds(bytes: Seq<u8>)
        ensures
            Self::parse(bytes).consumed <= bytes.len(),
            bytes.len() > 0 ==> Self::parse(bytes).consumed > 0,
            Self::parse(bytes).outcome matches Ok(v) ==> Self::valid(v),
    ;

    /// Decoding the bytes of a valid record gives the record again and uses
    /// exactly those bytes, whatever follows them.
    proof fn lemma_round_trip(v: Self::V, rest: Seq<u8>)
        requires
            Self::valid(v),
        ensures
            Self::parse(Self::encoding(v) + rest) == (Parsed {
                outcome: Ok::<Self::V, DecodeError>(v),
                consumed: Self::encoding(v).len(),
            }),
    ;

    /// A source that ends inside a valid record decodes to `UnexpectedEnd`
    /// and is used up by the attempt.
    proof fn lemma_cut_short(v: Self::V, n: int)
        requires
            Self::valid(v),
            0 <= n < Self::encoding(v).len(),
        ensures
            Self::parse(Self::encoding(v).take(n)) == (Parsed {
                outcome: Err::<Self::V, DecodeError>(DecodeError::UnexpectedEnd),
                consumed: n as nat,
            }),
    ;
}

} // verus!
