//! Whole containers: the writer that lays a header and its records out in
//! bytes, and the reader that hands the records back one at a time.

use crate::error::DecodeError;
use crate::header::{Header, FORMAT_VERSION, HEADER_LEN};
use crate::record::{Parsed, Record};
use core::marker::PhantomData;
use vstd::prelude::*;

verus! {

/// The mathematical values of a sequence of records.
pub open spec fn views<R: Record>(records: Seq<R>) -> Seq<R::V> {
    records.map_values(|r: R| r@)
}

/// The encodings of `records`, one after the other.
pub open spec fn concat_encodings<R: Record>(records: Seq<R::V>) -> Seq<u8>
    decreases records.len(),
{
    if records.len() == 0 {
        Seq::empty()
    } else {
        R::encoding(records[0]) + concat_encodings::<R>(records.drop_first())
    }
}

/// The header that a writer puts in front of `count` records of type `R`.
pub open spec fn header_of<R: Record>(count: nat) -> Header
    recommends
        count <= u32::MAX,
{
    Header { kind: R::kind(), version: FORMAT_VERSION, record_count: count as u32 }
}

/// The bytes of the container that holds exactly `records`.
pub open spec fn container_bytes<R: Record>(records: Seq<R::V>) -> Seq<u8>
    recommends
        records.len() <= u32::MAX,
{
    header_of::<R>(records.len()).encoding() + concat_encodings::<R>(records)
}

/// Appending a record to a sequence appends its encoding to the bytes.
pub proof fn lemma_concat_push<R: Record>(records: Seq<R::V>, last: R::V)
    ensures
        concat_encodings::<R>(records.push(last)) == concat_encodings::<R>(records) + R::encoding(
            last,
        ),
    decreases records.len(),
{
    if records.len() == 0 {
        let one = records.push(last);
        assert(one.drop_first() =~= Seq::<R::V>::empty());
        assert(concat_encodings::<R>(one.drop_first()) =~= Seq::<u8>::empty());
        assert(concat_encodings::<R>(one) =~= R::encoding(last));
        assert(concat_encodings::<R>(records) + R::encoding(last) =~= R::encoding(last));
    } else {
        assert(records.push(last).drop_first() =~= records.drop_first().push(last));
        lemma_concat_push::<R>(records.drop_first(), last);
        assert(concat_encodings::<R>(records.push(last)) =~= concat_encodings::<R>(records)
            + R::encoding(last));
    }
}

/// Writes the container that holds exactly `records`: the header with their
/// number, then each record in order. There is no container for more records
/// than the header's count can say.
pub fn write_container<R: Record>(records: &Vec<R>) -> (bytes: Option<Vec<u8>>)
    ensures
        bytes is Some <==> records@.len() <= u32::MAX,
        bytes matches Some(b) ==> b@ == container_bytes::<R>(views(records@)),
{
    let count: usize = records.len();
    if count > u32::MAX as usize {
        return None;
    }
    let header = Header {
        kind: R::container_kind(),
        version: FORMAT_VERSION,
        record_count: count as u32,
    };
    let mut out: Vec<u8> = Vec::new();
    header.encode(&mut out);
    let mut i: usize = 0;
    while i < count
        invariant
            i <= count,
            count == records@.len(),
            header == header_of::<R>(count as nat),
            out@ == header.encoding() + concat_encodings::<R>(views(records@).take(i as int)),
        decreases count - i,
    {
        proof {
            let all = views(records@);
            lemma_concat_push::<R>(all.take(i as int), all[i as int]);
            assert(all.take(i as int).push(all[i as int]) =~= all.take(i + 1));
        }
        records[i].encode(&mut out);
        i += 1;
    }
    proof {
        let all = views(records@);
        assert(all.take(count as int) =~= all);
    }
    Some(out)
}

/// A single pass over the records of a container. The reader owns the
/// position in the bytes; each call of `next` decodes one record and moves
/// on, so a caller may stop early and nothing is decoded twice.
pub struct Reader<'a, R: Record> {
    bytes: &'a [u8],
    pos: usize,
    header: Header,
    attempts: u32,
    marker: PhantomData<R>,
}

/// The header of a container that is read as one of `R` records:
/// `InvalidMagic` where the bytes open with the tag of another kind.
pub open spec fn open_result<R: Record>(bytes: Seq<u8>) -> Result<Header, DecodeError> {
    match Header::parse(bytes) {
        Ok(header) => if header.kind == R::kind() {
            Ok(header)
        } else {
            Err(DecodeError::InvalidMagic)
        },
        Err(e) => Err(e),
    }
}

/// What one call of `next` hands out.
pub enum Item<R> {
    /// The next record.
    Record(R),
    /// The next record could not be decoded.
    Failed(DecodeError),
    /// Nothing is left to read.
    End {
        /// Whether the bytes ran out before the declared number of records.
        truncated: bool,
    },
}

impl<'a, R: Record> Reader<'a, R> {
    #[verifier::type_invariant]
    spec fn well_formed(self) -> bool {
        &&& self.pos <= self.bytes@.len()
        &&& self.attempts <= self.header.record_count
        &&& self.header.kind == R::kind()
    }

    /// The header that the container opened with.
    pub closed spec fn header_spec(self) -> Header {
        self.header
    }

    /// The bytes that have not been read yet.
    pub closed spec fn rest(self) -> Seq<u8> {
        self.bytes@.skip(self.pos as int)
    }

    /// The number of declared records that have not been attempted yet.
    pub closed spec fn pending(self) -> nat {
        (self.header.record_count - self.attempts) as nat
    }

    /// Starts reading `bytes` as a container of `R` records.
    pub fn open(bytes: &'a [u8]) -> (r: Result<Reader<'a, R>, DecodeError>)
        ensures
            match r {
                Ok(reader) => {
                    &&& open_result::<R>(bytes@) == Ok::<Header, DecodeError>(reader.header_spec())
                    &&& reader.rest() == bytes@.skip(HEADER_LEN as int)
                    &&& reader.pending() == reader.header_spec().record_count
                },
                Err(e) => open_result::<R>(bytes@) == Err::<Header, DecodeError>(e),
            },
    {
        match Header::decode(bytes) {
            Ok(header) => {
                if header.kind == R::container_kind() {
                    Ok(Reader { bytes, pos: HEADER_LEN, header, attempts: 0, marker: PhantomData })
                } else {
                    Err(DecodeError::InvalidMagic)
                }
            },
            Err(e) => Err(e),
        }
    }

    /// The header that the container opened with.
    pub fn header(&self) -> (h: Header)
        ensures
            h == self.header_spec(),
    {
        self.header
    }

    /// The number of declared records that have not been attempted yet.
    pub fn remaining(&self) -> (n: u32)
        ensures
            n == self.pending(),
    {
        proof {
            use_type_invariant(self);
        }
        self.header.record_count - self.attempts
    }

    /// Decodes the next record. Nothing changes once the end is reached:
    /// either all declared records were attempted, or the bytes ran out
    /// first and the container is truncated.
    pub fn next(&mut self) -> (item: Item<R>)
        ensures
            final(self).header_spec() == old(self).header_spec(),
            old(self).pending() == 0 ==> {
                &&& item == Item::<R>::End { truncated: false }
                &&& final(self).rest() == old(self).rest()
                &&& final(self).pending() == 0
            },
            old(self).pending() > 0 && old(self).rest().len() == 0 ==> {
                &&& item == Item::<R>::End { truncated: true }
                &&& final(self).rest() == old(self).rest()
                &&& final(self).pending() == old(self).pending()
            },
            old(self).pending() > 0 && old(self).rest().len() > 0 ==> {
                let parsed = R::parse(old(self).rest());
                &&& final(self).rest() == old(self).rest().skip(parsed.consumed as int)
                &&& final(self).pending() == old(self).pending() - 1
                &&& match item {
                    Item::Record(rec) => parsed.outcome == Ok::<R::V, DecodeError>(rec@),
                    Item::Failed(e) => parsed.outcome == Err::<R::V, DecodeError>(e),
                    Item::End { .. } => false,
                }
            },
    {
        proof {
            use_type_invariant(&*self);
        }
        if self.attempts == self.header.record_count {
            return Item::End { truncated: false };
        }
        if self.pos == self.bytes.len() {
            return Item::End { truncated: true };
        }
        proof {
            R::lemma_parse_bounds(self.bytes@.skip(self.pos as int));
            assert(self.bytes@.skip(self.pos as int).skip(
                R::parse(self.bytes@.skip(self.pos as int)).consumed as int,
            ) =~= self.bytes@.skip(
                self.pos + R::parse(self.bytes@.skip(self.pos as int)).consumed,
            ));
        }
        let (outcome, next) = R::decode(self.bytes, self.pos);
        self.pos = next;
        self.attempts = self.attempts + 1;
        match outcome {
            Ok(rec) => Item::Record(rec),
            Err(e) => Item::Failed(e),
        }
    }
}

} // verus!
