//! The bulk payload: two long vectors of samples under a small header,
//! serialized in the tag-length-value format.

use crate::error::PublishError;
use crate::text::{push_signed_decimal, signed_decimal};
use crate::wire::{
    int32_field, lemma_int32_field_round_trip, lemma_packed_fixed32_field_round_trip,
    lemma_parse_int32_field_is_field, lemma_parse_packed_fixed32_field_is_field,
    lemma_parse_uint64_field_is_field, lemma_short_key, lemma_uint64_field_round_trip,
    packed_fixed32_field, parse_int32_field, parse_packed_fixed32_field, parse_uint64_field,
    put_int32_field, put_packed_fixed32_field, put_uint64_field, read_int32_field,
    read_packed_fixed32_field, read_uint64_field, uint64_field, WireType,
};
use vstd::prelude::*;

verus! {

/// The number of samples in each of the two vectors.
pub const SAMPLES: usize = 780_000;

/// The bit pattern of 1.0, which normalized samples stay below.
pub const NORMALIZED_END: u32 = 0x3f80_0000;

/// The bit pattern of negative zero, the least pattern of a negative number.
pub const NEGATIVE_ZERO: u32 = 0x8000_0000;

/// The bit pattern of 1000.0, which samples that are not normalized stay below.
pub const UNNORMALIZED_END: u32 = 0x447a_0000;

/// The bit pattern of -1000.0, the least sample that is not normalized.
pub const UNNORMALIZED_MIN: u32 = 0xc47a_0000;

/// Whether `bits` is the pattern of a number in [0, 1). These are the
/// patterns below that of 1.0, and negative zero, which equals zero.
pub open spec fn is_normalized(bits: u32) -> bool {
    bits < NORMALIZED_END || bits == NEGATIVE_ZERO
}

/// Whether `bits` is the pattern of a number in [-1000, 1000). Among
/// negative numbers the patterns grow as the numbers fall, so these are the
/// patterns below that of 1000.0 and those from negative zero to -1000.0.
pub open spec fn is_unnormalized(bits: u32) -> bool {
    bits < UNNORMALIZED_END || NEGATIVE_ZERO <= bits <= UNNORMALIZED_MIN
}

/// Whether `bits` is the pattern of a number in [0, 1).
pub fn check_normalized(bits: u32) -> (ok: bool)
    ensures
        ok == is_normalized(bits),
{
    bits < NORMALIZED_END || bits == NEGATIVE_ZERO
}

/// Whether `bits` is the pattern of a number in [-1000, 1000).
pub fn check_unnormalized(bits: u32) -> (ok: bool)
    ensures
        ok == is_unnormalized(bits),
{
    bits < UNNORMALIZED_END || (NEGATIVE_ZERO <= bits && bits <= UNNORMALIZED_MIN)
}

/// One bulk message. The samples are single precision numbers held as their
/// IEEE 754 bit patterns, which is also how they travel.
#[derive(Clone, Debug, PartialEq, Eq)]
pub struct AutomationData {
    /// The key that groups the messages of one source.
    pub message_key: i32,
    /// The number of the message within its source.
    pub sequence_number: i32,
    /// Seconds since the Unix epoch at which the message was made.
    pub sys_timestamp: u64,
    /// Samples in [0, 1).
    pub normalized_data: Vec<u32>,
    /// Samples in [-1000, 1000).
    pub unnormalized_data: Vec<u32>,
}

/// A bulk message as a mathematical value.
pub struct AutomationDataView {
    pub message_key: i32,
    pub sequence_number: i32,
    pub sys_timestamp: u64,
    pub normalized_data: Seq<u32>,
    pub unnormalized_data: Seq<u32>,
}

impl View for AutomationData {
    type V = AutomationDataView;

    open spec fn view(&self) -> AutomationDataView {
        AutomationDataView {
            message_key: self.message_key,
            sequence_number: self.sequence_number,
            sys_timestamp: self.sys_timestamp,
            normalized_data: self.normalized_data@,
            unnormalized_data: self.unnormalized_data@,
        }
    }
}

impl AutomationDataView {
    /// Whether both vectors have their full length and every sample lies in
    /// the domain of its vector.
    pub open spec fn in_domain(self) -> bool {
        &&& self.normalized_data.len() == SAMPLES
        &&& self.unnormalized_data.len() == SAMPLES
        &&& forall|i: int|
            0 <= i < self.normalized_data.len() ==> is_normalized(#[trigger] self.normalized_data[i])
        &&& forall|i: int|
            0 <= i < self.unnormalized_data.len() ==> is_unnormalized(
                #[trigger] self.unnormalized_data[i],
            )
    }

    /// Whether the length prefixes can say the sizes of the two blocks.
    pub open spec fn encodable(self) -> bool {
        4 * self.normalized_data.len() <= u64::MAX && 4 * self.unnormalized_data.len() <= u64::MAX
    }

    /// The bytes of the message: fields one to five in order, a scalar left
    /// out where it is zero, each vector as one packed block.
    pub open spec fn encoding(self) -> Seq<u8> {
        int32_field(1, self.message_key) + int32_field(2, self.sequence_number) + uint64_field(
            3,
            self.sys_timestamp,
        ) + packed_fixed32_field(4, self.normalized_data) + packed_fixed32_field(
            5,
            self.unnormalized_data,
        )
    }

    /// The key under which the message is published: its sequence number in decimal.
    pub open spec fn key(self) -> Seq<char> {
        signed_decimal(self.sequence_number as int)
    }
}

/// The message with nothing in it.
pub open spec fn blank() -> AutomationDataView {
    AutomationDataView {
        message_key: 0,
        sequence_number: 0,
        sys_timestamp: 0,
        normalized_data: Seq::empty(),
        unnormalized_data: Seq::empty(),
    }
}

/// The bytes of field five.
#[verifier::opaque]
spec fn bytes_from_5(v: AutomationDataView) -> Seq<u8> {
    packed_fixed32_field(5, v.unnormalized_data)
}

/// The bytes of fields four and five.
#[verifier::opaque]
spec fn bytes_from_4(v: AutomationDataView) -> Seq<u8> {
    packed_fixed32_field(4, v.normalized_data) + bytes_from_5(v)
}

/// The bytes of fields three to five.
#[verifier::opaque]
spec fn bytes_from_3(v: AutomationDataView) -> Seq<u8> {
    uint64_field(3, v.sys_timestamp) + bytes_from_4(v)
}

/// The bytes of fields two to five.
#[verifier::opaque]
spec fn bytes_from_2(v: AutomationDataView) -> Seq<u8> {
    int32_field(2, v.sequence_number) + bytes_from_3(v)
}

/// The bytes of all five fields.
#[verifier::opaque]
spec fn bytes_from_1(v: AutomationDataView) -> Seq<u8> {
    int32_field(1, v.message_key) + bytes_from_2(v)
}

/// What is read as field five and the end of the message.
#[verifier::opaque]
spec fn parse_from_5(bytes: Seq<u8>) -> Option<AutomationDataView> {
    match parse_packed_fixed32_field(5, bytes) {
        Some(read) => if read.len == bytes.len() {
            Some(AutomationDataView { unnormalized_data: read.value, ..blank() })
        } else {
            None
        },
        None => None,
    }
}

/// What is read as fields four and five and the end of the message.
#[verifier::opaque]
spec fn parse_from_4(bytes: Seq<u8>) -> Option<AutomationDataView> {
    match parse_packed_fixed32_field(4, bytes) {
        Some(read) => match parse_from_5(bytes.skip(read.len as int)) {
            Some(rest) => Some(AutomationDataView { normalized_data: read.value, ..rest }),
            None => None,
        },
        None => None,
    }
}

/// What is read as fields three to five and the end of the message.
#[verifier::opaque]
spec fn parse_from_3(bytes: Seq<u8>) -> Option<AutomationDataView> {
    match parse_uint64_field(3, bytes) {
        Some(read) => match parse_from_4(bytes.skip(read.len as int)) {
            Some(rest) => Some(AutomationDataView { sys_timestamp: read.value, ..rest }),
            None => None,
        },
        None => None,
    }
}

/// What is read as fields two to five and the end of the message.
#[verifier::opaque]
spec fn parse_from_2(bytes: Seq<u8>) -> Option<AutomationDataView> {
    match parse_int32_field(2, bytes) {
        Some(read) => match parse_from_3(bytes.skip(read.len as int)) {
            Some(rest) => Some(AutomationDataView { sequence_number: read.value, ..rest }),
            None => None,
        },
        None => None,
    }
}

/// What is read as a whole message: the five fields in order, each in the
/// form in which it is written, and nothing behind the last.
#[verifier::opaque]
spec fn parse_from_1(bytes: Seq<u8>) -> Option<AutomationDataView> {
    match parse_int32_field(1, bytes) {
        Some(read) => match parse_from_2(bytes.skip(read.len as int)) {
            Some(rest) => Some(AutomationDataView { message_key: read.value, ..rest }),
            None => None,
        },
        None => None,
    }
}

/// Field five is read back from its own bytes. What is left of them opens with a key
/// that is not the one of an earlier field.
proof fn lemma_round_trip_from_5(v: AutomationDataView)
    requires
        v.encodable(),
    ensures
        parse_from_5(bytes_from_5(v)) == Some(
            AutomationDataView { unnormalized_data: v.unnormalized_data, ..blank() },
        ),
        bytes_from_5(v).len() > 0 ==> bytes_from_5(v)[0] == 0x2a,
{
    reveal(parse_from_5);
    reveal(bytes_from_5);
    let end = Seq::<u8>::empty();
    lemma_packed_fixed32_field_round_trip(5, v.unnormalized_data, end);
    assert(bytes_from_5(v) + end =~= bytes_from_5(v));
    lemma_short_key(5, WireType::LengthDelimited);
}

/// Fields four and five are read back from their own bytes. What is left of them opens with a key
/// that is not the one of an earlier field.
proof fn lemma_round_trip_from_4(v: AutomationDataView)
    requires
        v.encodable(),
    ensures
        parse_from_4(bytes_from_4(v)) == Some(
            AutomationDataView {
                normalized_data: v.normalized_data,
                unnormalized_data: v.unnormalized_data,
                ..blank()
            },
        ),
        bytes_from_4(v).len() > 0 ==> bytes_from_4(v)[0] >= 0x22,
{
    reveal(parse_from_4);
    reveal(bytes_from_4);
    let field = packed_fixed32_field(4, v.normalized_data);
    let rest = bytes_from_5(v);
    lemma_round_trip_from_5(v);
    lemma_packed_fixed32_field_round_trip(4, v.normalized_data, rest);
    assert((field + rest).skip(field.len() as int) =~= rest);
    lemma_short_key(4, WireType::LengthDelimited);
}

/// Fields three to five are read back from their own bytes. What is left of them opens with a key
/// that is not the one of an earlier field.
proof fn lemma_round_trip_from_3(v: AutomationDataView)
    requires
        v.encodable(),
    ensures
        parse_from_3(bytes_from_3(v)) == Some(
            AutomationDataView {
                sys_timestamp: v.sys_timestamp,
                normalized_data: v.normalized_data,
                unnormalized_data: v.unnormalized_data,
                ..blank()
            },
        ),
        bytes_from_3(v).len() > 0 ==> bytes_from_3(v)[0] >= 0x18,
{
    reveal(parse_from_3);
    reveal(bytes_from_3);
    let field = uint64_field(3, v.sys_timestamp);
    let rest = bytes_from_4(v);
    lemma_round_trip_from_4(v);
    lemma_uint64_field_round_trip(3, v.sys_timestamp, rest);
    assert((field + rest).skip(field.len() as int) =~= rest);
    lemma_short_key(3, WireType::Varint);
}

/// Fields two to five are read back from their own bytes. What is left of them opens with a key
/// that is not the one of an earlier field.
proof fn lemma_round_trip_from_2(v: AutomationDataView)
    requires
        v.encodable(),
    ensures
        parse_from_2(bytes_from_2(v)) == Some(AutomationDataView { message_key: 0, ..v }),
        bytes_from_2(v).len() > 0 ==> bytes_from_2(v)[0] >= 0x10,
{
    reveal(parse_from_2);
    reveal(bytes_from_2);
    let field = int32_field(2, v.sequence_number);
    let rest = bytes_from_3(v);
    lemma_round_trip_from_3(v);
    lemma_int32_field_round_trip(2, v.sequence_number, rest);
    assert((field + rest).skip(field.len() as int) =~= rest);
    lemma_short_key(2, WireType::Varint);
}

/// All five fields are read back from their own bytes.
proof fn lemma_round_trip_from_1(v: AutomationDataView)
    requires
        v.encodable(),
    ensures
        parse_from_1(bytes_from_1(v)) == Some(v),
{
    reveal(parse_from_1);
    reveal(bytes_from_1);
    let field = int32_field(1, v.message_key);
    let rest = bytes_from_2(v);
    lemma_round_trip_from_2(v);
    lemma_int32_field_round_trip(1, v.message_key, rest);
    assert((field + rest).skip(field.len() as int) =~= rest);
}

/// What is read from field five on spells the bytes it was read from, and
/// the fields before it are left blank.
proof fn lemma_parsed_from_5(bytes: Seq<u8>)
    ensures
        parse_from_5(bytes) matches Some(v) ==> {
            &&& bytes_from_5(v) == bytes
            &&& 4 * v.unnormalized_data.len() <= u64::MAX
            &&& v == AutomationDataView { unnormalized_data: v.unnormalized_data, ..blank() }
        },
{
    reveal(parse_from_5);
    reveal(bytes_from_5);
    lemma_parse_packed_fixed32_field_is_field(5, bytes);
    assert(bytes.take(bytes.len() as int) =~= bytes);
}

/// What is read from field four on spells the bytes it was read from, and
/// the fields before it are left blank.
proof fn lemma_parsed_from_4(bytes: Seq<u8>)
    ensures
        parse_from_4(bytes) matches Some(v) ==> {
            &&& bytes_from_4(v) == bytes
            &&& v.encodable()
            &&& v == AutomationDataView {
                normalized_data: v.normalized_data,
                unnormalized_data: v.unnormalized_data,
                ..blank()
            }
        },
{
    reveal(parse_from_4);
    reveal(bytes_from_4);
    if parse_from_4(bytes) is Some {
        lemma_parse_packed_fixed32_field_is_field(4, bytes);
        let read = parse_packed_fixed32_field(4, bytes)->0;
        let rest = bytes.skip(read.len as int);
        lemma_parsed_from_5(rest);
        let tail = parse_from_5(rest)->0;
        let v = parse_from_4(bytes)->0;
        assert(bytes_from_5(v) == bytes_from_5(tail)) by {
            reveal(bytes_from_5);
        }
        assert(bytes =~= bytes.take(read.len as int) + rest);
    }
}

/// What is read from field three on spells the bytes it was read from, and
/// the fields before it are left blank.
proof fn lemma_parsed_from_3(bytes: Seq<u8>)
    ensures
        parse_from_3(bytes) matches Some(v) ==> {
            &&& bytes_from_3(v) == bytes
            &&& v.encodable()
            &&& v.message_key == 0
            &&& v.sequence_number == 0
        },
{
    reveal(parse_from_3);
    reveal(bytes_from_3);
    if parse_from_3(bytes) is Some {
        lemma_parse_uint64_field_is_field(3, bytes);
        let read = parse_uint64_field(3, bytes)->0;
        let rest = bytes.skip(read.len as int);
        lemma_parsed_from_4(rest);
        let tail = parse_from_4(rest)->0;
        let v = parse_from_3(bytes)->0;
        assert(bytes_from_4(v) == bytes_from_4(tail)) by {
            reveal(bytes_from_4);
            reveal(bytes_from_5);
        }
        assert(bytes =~= bytes.take(read.len as int) + rest);
    }
}

/// What is read from field two on spells the bytes it was read from, and
/// the fields before it are left blank.
proof fn lemma_parsed_from_2(bytes: Seq<u8>)
    ensures
        parse_from_2(bytes) matches Some(v) ==> {
            &&& bytes_from_2(v) == bytes
            &&& v.encodable()
            &&& v.message_key == 0
        },
{
    reveal(parse_from_2);
    reveal(bytes_from_2);
    if parse_from_2(bytes) is Some {
        lemma_parse_int32_field_is_field(2, bytes);
        let read = parse_int32_field(2, bytes)->0;
        let rest = bytes.skip(read.len as int);
        lemma_parsed_from_3(rest);
        let tail = parse_from_3(rest)->0;
        let v = parse_from_2(bytes)->0;
        assert(bytes_from_3(v) == bytes_from_3(tail)) by {
            reveal(bytes_from_3);
            reveal(bytes_from_4);
            reveal(bytes_from_5);
        }
        assert(bytes =~= bytes.take(read.len as int) + rest);
    }
}

/// What is read from field one on spells the bytes it was read from, and
/// the fields before it are left blank.
proof fn lemma_parsed_from_1(bytes: Seq<u8>)
    ensures
        parse_from_1(bytes) matches Some(v) ==> bytes_from_1(v) == bytes && v.encodable(),
{
    reveal(parse_from_1);
    reveal(bytes_from_1);
    if parse_from_1(bytes) is Some {
        lemma_parse_int32_field_is_field(1, bytes);
        let read = parse_int32_field(1, bytes)->0;
        let rest = bytes.skip(read.len as int);
        lemma_parsed_from_2(rest);
        let tail = parse_from_2(rest)->0;
        let v = parse_from_1(bytes)->0;
        assert(bytes_from_2(v) == bytes_from_2(tail)) by {
            reveal(bytes_from_2);
            reveal(bytes_from_3);
            reveal(bytes_from_4);
            reveal(bytes_from_5);
        }
        assert(bytes =~= bytes.take(read.len as int) + rest);
    }
}

/// The bytes of a message are those of its five fields in order.
proof fn lemma_encoding_in_stages(v: AutomationDataView)
    ensures
        v.encoding() == bytes_from_1(v),
{
    reveal(bytes_from_1);
    reveal(bytes_from_2);
    reveal(bytes_from_3);
    reveal(bytes_from_4);
    reveal(bytes_from_5);
    assert(v.encoding() =~= bytes_from_1(v));
}

impl AutomationDataView {
    /// The message whose bytes are `bytes`, if there is one: the five fields
    /// are read in order, each in the form in which it is written, and
    /// nothing may follow the last.
    pub closed spec fn parse(bytes: Seq<u8>) -> Option<AutomationDataView> {
        parse_from_1(bytes)
    }
}

/// Round trip: the bytes of a message are read back as the message.
pub proof fn lemma_parse_encoding(v: AutomationDataView)
    requires
        v.encodable(),
    ensures
        AutomationDataView::parse(v.encoding()) == Some(v),
{
    lemma_encoding_in_stages(v);
    lemma_round_trip_from_1(v);
}

/// The other way round: what is read as a message is a message that can be
/// encoded, and the bytes it was read from are its own.
pub proof fn lemma_parse_is_encoding(bytes: Seq<u8>)
    ensures
        AutomationDataView::parse(bytes) matches Some(v) ==> v.encodable() && v.encoding()
            == bytes,
{
    lemma_parsed_from_1(bytes);
    if AutomationDataView::parse(bytes) is Some {
        lemma_encoding_in_stages(AutomationDataView::parse(bytes)->0);
    }
}

/// No two messages have the same bytes.
pub proof fn lemma_encoding_is_injective(a: AutomationDataView, b: AutomationDataView)
    requires
        a.encodable(),
        b.encodable(),
        a.encoding() == b.encoding(),
    ensures
        a == b,
{
    lemma_parse_encoding(a);
    lemma_parse_encoding(b);
}

/// Whether every sample of `samples` is normalized.
fn all_normalized(samples: &Vec<u32>) -> (ok: bool)
    ensures
        ok == forall|i: int| 0 <= i < samples@.len() ==> is_normalized(#[trigger] samples@[i]),
{
    let mut i: usize = 0;
    while i < samples.len()
        invariant
            i <= samples@.len(),
            forall|j: int| 0 <= j < i ==> is_normalized(#[trigger] samples@[j]),
        decreases samples@.len() - i,
    {
        if !check_normalized(samples[i]) {
            return false;
        }
        i += 1;
    }
    true
}

/// Whether every sample of `samples` lies in [-1000, 1000).
fn all_unnormalized(samples: &Vec<u32>) -> (ok: bool)
    ensures
        ok == forall|i: int| 0 <= i < samples@.len() ==> is_unnormalized(#[trigger] samples@[i]),
{
    let mut i: usize = 0;
    while i < samples.len()
        invariant
            i <= samples@.len(),
            forall|j: int| 0 <= j < i ==> is_unnormalized(#[trigger] samples@[j]),
        decreases samples@.len() - i,
    {
        if !check_unnormalized(samples[i]) {
            return false;
        }
        i += 1;
    }
    true
}

impl AutomationData {
    /// The message with the given fields, or nothing where a vector does
    /// not have its full length or a sample lies outside its domain.
    pub fn new(
        message_key: i32,
        sequence_number: i32,
        sys_timestamp: u64,
        normalized_data: Vec<u32>,
        unnormalized_data: Vec<u32>,
    ) -> (data: Option<AutomationData>)
        ensures
            data is Some <==> (AutomationDataView {
                message_key,
                sequence_number,
                sys_timestamp,
                normalized_data: normalized_data@,
                unnormalized_data: unnormalized_data@,
            }).in_domain(),
            data matches Some(d) ==> d@ == (AutomationDataView {
                message_key,
                sequence_number,
                sys_timestamp,
                normalized_data: normalized_data@,
                unnormalized_data: unnormalized_data@,
            }),
    {
        if normalized_data.len() != SAMPLES || unnormalized_data.len() != SAMPLES {
            return None;
        }
        if !all_normalized(&normalized_data) || !all_unnormalized(&unnormalized_data) {
            return None;
        }
        Some(
            AutomationData {
                message_key,
                sequence_number,
                sys_timestamp,
                normalized_data,
                unnormalized_data,
            },
        )
    }

    /// Whether both vectors have their full length and every sample lies in
    /// the domain of its vector.
    pub fn is_in_domain(&self) -> (ok: bool)
        ensures
            ok == self@.in_domain(),
    {
        self.normalized_data.len() == SAMPLES && self.unnormalized_data.len() == SAMPLES
            && all_normalized(&self.normalized_data) && all_unnormalized(&self.unnormalized_data)
    }

    /// The bytes of the message, or `SerializationFailure` where a vector is
    /// longer than its length prefix can say.
    pub fn encode(&self) -> (r: Result<Vec<u8>, PublishError>)
        ensures
            r is Ok <==> self@.encodable(),
            r matches Ok(bytes) ==> bytes@ == self@.encoding(),
            r matches Err(e) ==> e == PublishError::SerializationFailure,
    {
        let limit: u64 = u64::MAX / 4;
        if self.normalized_data.len() as u64 > limit || self.unnormalized_data.len() as u64
            > limit {
            return Err(PublishError::SerializationFailure);
        }
        let mut out: Vec<u8> = Vec::new();
        put_int32_field(1, self.message_key, &mut out);
        put_int32_field(2, self.sequence_number, &mut out);
        put_uint64_field(3, self.sys_timestamp, &mut out);
        put_packed_fixed32_field(4, &self.normalized_data, &mut out);
        put_packed_fixed32_field(5, &self.unnormalized_data, &mut out);
        assert(out@ =~= self@.encoding());
        Ok(out)
    }

    /// The message whose bytes are `bytes`, or nothing where they are not
    /// the bytes of any message. Only the form that `encode` writes is
    /// taken: the fields in order, none of them twice, and no others.
    pub fn decode(bytes: &[u8]) -> (data: Option<AutomationData>)
        ensures
            match data {
                Some(d) => {
                    &&& AutomationDataView::parse(bytes@) == Some(d@)
                    &&& d@.encodable()
                    &&& d@.encoding() == bytes@
                },
                None => {
                    &&& AutomationDataView::parse(bytes@) is None
                    &&& forall|v: AutomationDataView|
                        v.encodable() ==> #[trigger] v.encoding() != bytes@
                },
            },
    {
        proof {
            reveal(parse_from_1);
            reveal(parse_from_2);
            reveal(parse_from_3);
            reveal(parse_from_4);
            reveal(parse_from_5);
            lemma_parse_is_encoding(bytes@);
            assert forall|v: AutomationDataView|
                v.encodable() && #[trigger] v.encoding() == bytes@ implies AutomationDataView::parse(
                bytes@,
            ) is Some by {
                lemma_parse_encoding(v);
            }
            assert(bytes@.skip(0) =~= bytes@);
        }
        let (message_key, key_end) = match read_int32_field(1, bytes, 0) {
            Some(read) => read,
            None => {
                return None;
            },
        };
        proof {
            assert(bytes@.skip(0).skip(key_end as int) =~= bytes@.skip(key_end as int));
        }
        let (sequence_number, seq_end) = match read_int32_field(2, bytes, key_end) {
            Some(read) => read,
            None => {
                return None;
            },
        };
        proof {
            assert(bytes@.skip(key_end as int).skip(seq_end - key_end) =~= bytes@.skip(seq_end as int));
        }
        let (sys_timestamp, time_end) = match read_uint64_field(3, bytes, seq_end) {
            Some(read) => read,
            None => {
                return None;
            },
        };
        proof {
            assert(bytes@.skip(seq_end as int).skip(time_end - seq_end) =~= bytes@.skip(time_end as int));
        }
        let (normalized_data, first_end) = match read_packed_fixed32_field(4, bytes, time_end) {
            Some(read) => read,
            None => {
                return None;
            },
        };
        proof {
            assert(bytes@.skip(time_end as int).skip(first_end - time_end) =~= bytes@.skip(first_end as int));
        }
        let (unnormalized_data, end) = match read_packed_fixed32_field(5, bytes, first_end) {
            Some(read) => read,
            None => {
                return None;
            },
        };
        if end != bytes.len() {
            return None;
        }
        Some(
            AutomationData {
                message_key,
                sequence_number,
                sys_timestamp,
                normalized_data,
                unnormalized_data,
            },
        )
    }

    /// The key under which the message is published: its sequence number in decimal.
    pub fn key(&self) -> (key: String)
        ensures
            key@ == self@.key(),
    {
        let mut key = String::new();
        push_signed_decimal(&mut key, self.sequence_number as i64);
        assert(key@ =~= self@.key());
        key
    }
}

} // verus!
