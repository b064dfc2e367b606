//! The twelve byte header that opens every container.

use crate::error::DecodeError;
use crate::le::{get_u32, lemma_u32_round_trip, put_u32, u32_from_le, u32_le};
use crate::record::ContainerKind;
use vstd::prelude::*;

verus! {

/// The width of an encoded header.
pub const HEADER_LEN: usize = 12;

/// The version that writers of this library put into the header.
pub const FORMAT_VERSION: u32 = 1;

/// The header of a container: which kind it is, the format version, and how
/// many records the writer declared.
#[derive(Clone, Copy, Debug, PartialEq, Eq, Structural)]
pub struct Header {
    /// The kind of container, which the magic tag spells out.
    pub kind: ContainerKind,
    /// The format version.
    pub version: u32,
    /// The number of records the writer declared to follow.
    pub record_count: u32,
}

impl ContainerKind {
    /// The kind whose tag the first four bytes of `bytes` spell, if any.
    pub open spec fn of_magic(bytes: Seq<u8>) -> Option<ContainerKind>
        recommends
            bytes.len() >= 4,
    {
        let tag = bytes.take(4);
        if tag == ContainerKind::Sensor.magic() {
            Some(ContainerKind::Sensor)
        } else if tag == ContainerKind::Log.magic() {
            Some(ContainerKind::Log)
        } else if tag == ContainerKind::Mixed.magic() {
            Some(ContainerKind::Mixed)
        } else {
            None
        }
    }

    /// The kind whose tag stands at `pos`, if any.
    pub fn from_tag(bytes: &[u8], pos: usize) -> (kind: Option<ContainerKind>)
        requires
            pos + 4 <= bytes@.len(),
        ensures
            kind == ContainerKind::of_magic(bytes@.skip(pos as int)),
    {
        let b0: u8 = bytes[pos];
        let b1: u8 = bytes[pos + 1];
        let b2: u8 = bytes[pos + 2];
        let b3: u8 = bytes[pos + 3];
        proof {
            let tag = bytes@.skip(pos as int).take(4);
            assert(tag =~= seq![b0, b1, b2, b3]);
            assert(ContainerKind::Sensor.magic()[0] == 0x53 && ContainerKind::Sensor.magic()[1]
                == 0x45 && ContainerKind::Sensor.magic()[2] == 0x4e
                && ContainerKind::Sensor.magic()[3] == 0x53);
            assert(ContainerKind::Log.magic()[0] == 0x4c && ContainerKind::Log.magic()[1] == 0x4f
                && ContainerKind::Log.magic()[2] == 0x47 && ContainerKind::Log.magic()[3] == 0x53);
            assert(ContainerKind::Mixed.magic()[0] == 0x4d && ContainerKind::Mixed.magic()[1]
                == 0x49 && ContainerKind::Mixed.magic()[2] == 0x58 && ContainerKind::Mixed.magic()[3]
                == 0x44);
            assert(seq![0x53u8, 0x45u8, 0x4eu8, 0x53u8] =~= ContainerKind::Sensor.magic());
            assert(seq![0x4cu8, 0x4fu8, 0x47u8, 0x53u8] =~= ContainerKind::Log.magic());
            assert(seq![0x4du8, 0x49u8, 0x58u8, 0x44u8] =~= ContainerKind::Mixed.magic());
        }
        if b0 == 0x53 && b1 == 0x45 && b2 == 0x4e && b3 == 0x53 {
            Some(ContainerKind::Sensor)
        } else if b0 == 0x4c && b1 == 0x4f && b2 == 0x47 && b3 == 0x53 {
            Some(ContainerKind::Log)
        } else if b0 == 0x4d && b1 == 0x49 && b2 == 0x58 && b3 == 0x44 {
            Some(ContainerKind::Mixed)
        } else {
            None
        }
    }

    /// Every kind is found again from its own tag, whatever follows the tag.
    pub proof fn lemma_magic_round_trip(self, rest: Seq<u8>)
        ensures
            self.magic().len() == 4,
            ContainerKind::of_magic(self.magic() + rest) == Some(self),
    {
        assert((self.magic() + rest).take(4) =~= self.magic());
        assert(ContainerKind::Sensor.magic()[0] != ContainerKind::Log.magic()[0]);
        assert(ContainerKind::Sensor.magic()[0] != ContainerKind::Mixed.magic()[0]);
        assert(ContainerKind::Log.magic()[0] != ContainerKind::Mixed.magic()[0]);
    }
}

impl Header {
    /// The twelve bytes of the header: tag, version, record count.
    pub open spec fn encoding(self) -> Seq<u8> {
        self.kind.magic() + u32_le(self.version) + u32_le(self.record_count)
    }

    /// What a reader makes of the front of `bytes`: the header, `UnexpectedEnd`
    /// where twelve bytes are not there, `InvalidMagic` where the tag is none
    /// of the three.
    pub open spec fn parse(bytes: Seq<u8>) -> Result<Header, DecodeError> {
        if bytes.len() < HEADER_LEN {
            Err(DecodeError::UnexpectedEnd)
        } else {
            match ContainerKind::of_magic(bytes) {
                Some(kind) => Ok(
                    Header {
                        kind,
                        version: u32_from_le(bytes.skip(4)),
                        record_count: u32_from_le(bytes.skip(8)),
                    },
                ),
                None => Err(DecodeError::InvalidMagic),
            }
        }
    }

    /// Appends the header's bytes to `out`.
    pub fn encode(&self, out: &mut Vec<u8>)
        ensures
            final(out)@ == old(out)@ + self.encoding(),
    {
        let tag: [u8; 4] = self.kind.tag();
        out.push(tag[0]);
        out.push(tag[1]);
        out.push(tag[2]);
        out.push(tag[3]);
        put_u32(out, self.version);
        put_u32(out, self.record_count);
        assert(out@ =~= old(out)@ + self.encoding());
    }

    /// Reads the header at the front of `bytes`.
    pub fn decode(bytes: &[u8]) -> (r: Result<Header, DecodeError>)
        ensures
            r == Header::parse(bytes@),
    {
        if bytes.len() < HEADER_LEN {
            return Err(DecodeError::UnexpectedEnd);
        }
        proof {
            assert(bytes@.skip(0) =~= bytes@);
        }
        match ContainerKind::from_tag(bytes, 0) {
            Some(kind) => Ok(
                Header { kind, version: get_u32(bytes, 4), record_count: get_u32(bytes, 8) },
            ),
            None => Err(DecodeError::InvalidMagic),
        }
    }

    /// A header is read back from its own bytes, whatever follows them.
    pub proof fn lemma_round_trip(self, rest: Seq<u8>)
        ensures
            self.encoding().len() == HEADER_LEN,
            Header::parse(self.encoding() + rest) == Ok::<Header, DecodeError>(self),
    {
        let tail2 = u32_le(self.record_count) + rest;
        let tail1 = u32_le(self.version) + tail2;
        let all = self.encoding() + rest;
        self.kind.lemma_magic_round_trip(tail1);
        lemma_u32_round_trip(self.version, tail2);
        lemma_u32_round_trip(self.record_count, rest);
        assert(all =~= self.kind.magic() + tail1);
        assert(all.skip(4) =~= tail1);
        assert(all.skip(8) =~= tail2);
    }
}

} // verus!
