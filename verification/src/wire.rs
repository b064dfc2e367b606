//! The tag-length-value wire format of the bulk payload: field keys and
//! the fields behind them. The keys are written by the `prost` crate.

use crate::le::{
    get_u32, lemma_u32_le_of_from_le, lemma_u32_round_trip, put_u32, u32_from_le, u32_le,
};
use crate::varint::{
    lemma_parse_varint_is_varint, lemma_varint_round_trip, parse_varint, put_varint,
    read_varint, varint, Read,
};
use vstd::prelude::*;

verus! {

/// The greatest field number that a key can carry.
pub const MAX_TAG: u32 = 0x1fff_ffff;

/// How the value of a field is laid out behind its key.
#[derive(Clone, Copy, Debug, PartialEq, Eq, Structural)]
pub enum WireType {
    /// A variable-length integer.
    Varint,
    /// A length as a variable-length integer, then that many bytes.
    LengthDelimited,
}

impl WireType {
    /// The number of the wire type in the low three bits of a key.
    pub open spec fn number(self) -> u64 {
        match self {
            WireType::Varint => 0,
            WireType::LengthDelimited => 2,
        }
    }
}

/// The key of a field: its number, shifted past the three bits of the wire type.
pub open spec fn field_key(tag: u32, wire: WireType) -> u64 {
    (tag * 8 + wire.number()) as u64
}

/// A 32 bit signed number widened to 64 bits in two's complement, which is
/// how a negative value travels as a variable-length integer.
pub open spec fn sign_extended(value: i32) -> u64 {
    if value >= 0 {
        value as u64
    } else {
        (value + 0x1_0000_0000_0000_0000) as u64
    }
}

/// The little-endian words of `values`, one after the other.
pub open spec fn fixed32_block(values: Seq<u32>) -> Seq<u8>
    decreases values.len(),
{
    if values.len() == 0 {
        Seq::empty()
    } else {
        fixed32_block(values.drop_last()) + u32_le(values.last())
    }
}

/// A signed field: nothing for zero, else the key and the value.
pub open spec fn int32_field(tag: u32, value: i32) -> Seq<u8> {
    if value == 0 {
        Seq::empty()
    } else {
        varint(field_key(tag, WireType::Varint)) + varint(sign_extended(value))
    }
}

/// An unsigned field: nothing for zero, else the key and the value.
pub open spec fn uint64_field(tag: u32, value: u64) -> Seq<u8> {
    if value == 0 {
        Seq::empty()
    } else {
        varint(field_key(tag, WireType::Varint)) + varint(value)
    }
}

/// A packed field of 32 bit words: nothing for no words, else the key, the
/// length of the block in bytes, and the block.
pub open spec fn packed_fixed32_field(tag: u32, values: Seq<u32>) -> Seq<u8> {
    if values.len() == 0 {
        Seq::empty()
    } else {
        varint(field_key(tag, WireType::LengthDelimited)) + varint((4 * values.len()) as u64)
            + fixed32_block(values)
    }
}

/// `prost::encoding::encode_key`: appends the key of field `tag` with the
/// given wire type, which is the variable-length integer of the field number
/// times eight plus the number of the wire type. The field number must be
/// one that a key can carry.
#[verifier::external_body]
pub(crate) fn put_key(tag: u32, wire: WireType, out: &mut Vec<u8>)
    requires
        1 <= tag <= MAX_TAG,
    ensures
        final(out)@ == old(out)@ + varint(field_key(tag, wire)),
{
    let wire_type = match wire {
        WireType::Varint => prost::encoding::WireType::Varint,
        WireType::LengthDelimited => prost::encoding::WireType::LengthDelimited,
    };
    prost::encoding::encode_key(tag, wire_type, out)
}

/// Widens `value` to 64 bits in two's complement.
pub fn sign_extend(value: i32) -> (wide: u64)
    ensures
        wide == sign_extended(value),
{
    if value >= 0 {
        value as u64
    } else {
        let below: i64 = -1 - value as i64;
        u64::MAX - below as u64
    }
}

/// Appends the signed field `tag` to `out`.
pub fn put_int32_field(tag: u32, value: i32, out: &mut Vec<u8>)
    requires
        1 <= tag <= MAX_TAG,
    ensures
        final(out)@ == old(out)@ + int32_field(tag, value),
{
    if value != 0 {
        put_key(tag, WireType::Varint, out);
        put_varint(sign_extend(value), out);
    }
    assert(out@ =~= old(out)@ + int32_field(tag, value));
}

/// Appends the unsigned field `tag` to `out`.
pub fn put_uint64_field(tag: u32, value: u64, out: &mut Vec<u8>)
    requires
        1 <= tag <= MAX_TAG,
    ensures
        final(out)@ == old(out)@ + uint64_field(tag, value),
{
    if value != 0 {
        put_key(tag, WireType::Varint, out);
        put_varint(value, out);
    }
    assert(out@ =~= old(out)@ + uint64_field(tag, value));
}

/// Appends the packed field `tag` to `out`. The block must be one whose
/// length in bytes the length prefix can say.
pub fn put_packed_fixed32_field(tag: u32, values: &Vec<u32>, out: &mut Vec<u8>)
    requires
        1 <= tag <= MAX_TAG,
        4 * values@.len() <= u64::MAX,
    ensures
        final(out)@ == old(out)@ + packed_fixed32_field(tag, values@),
{
    let count: usize = values.len();
    if count != 0 {
        put_key(tag, WireType::LengthDelimited, out);
        put_varint(4 * (count as u64), out);
        let ghost front = out@;
        let mut i: usize = 0;
        while i < count
            invariant
                i <= count,
                count == values@.len(),
                out@ == front + fixed32_block(values@.take(i as int)),
            decreases count - i,
        {
            proof {
                assert(values@.take(i + 1).drop_last() =~= values@.take(i as int));
            }
            put_u32(out, values[i]);
            i += 1;
        }
        proof {
            assert(values@.take(count as int) =~= values@);
        }
    }
    assert(out@ =~= old(out)@ + packed_fixed32_field(tag, values@));
}

/// The greatest field number whose key is a single byte.
pub const MAX_SHORT_TAG: u32 = 15;

impl WireType {
    /// The number of the wire type in the low three bits of a key.
    pub fn code(self) -> (n: u8)
        ensures
            n == self.number(),
    {
        match self {
            WireType::Varint => 0,
            WireType::LengthDelimited => 2,
        }
    }
}

/// Whether `bytes` opens with the key of field `tag`, for a field number
/// whose key is a single byte.
pub open spec fn starts_with_key(bytes: Seq<u8>, tag: u32, wire: WireType) -> bool {
    bytes.len() > 0 && bytes[0] == field_key(tag, wire)
}

/// Whether `wide` is a 32 bit signed number widened to 64 bits.
pub open spec fn is_sign_extended(wide: u64) -> bool {
    wide <= 0x7fff_ffff || wide >= 0xffff_ffff_8000_0000
}

/// The 32 bit signed number that was widened to `wide`.
pub open spec fn narrowed(wide: u64) -> i32
    recommends
        is_sign_extended(wide),
{
    if wide <= 0x7fff_ffff {
        wide as i32
    } else {
        (wide - 0x1_0000_0000_0000_0000) as i32
    }
}

/// The unsigned field `tag` at the front of `bytes`: zero and no bytes where
/// the key does not stand there, else the number behind the key, which must
/// not be a zero that should have been left out.
#[verifier::opaque]
pub open spec fn parse_uint64_field(tag: u32, bytes: Seq<u8>) -> Option<Read<u64>> {
    if starts_with_key(bytes, tag, WireType::Varint) {
        match parse_varint(bytes.skip(1)) {
            Some(number) => if number.value != 0 {
                Some(Read { value: number.value, len: 1 + number.len })
            } else {
                None
            },
            None => None,
        }
    } else {
        Some(Read { value: 0, len: 0 })
    }
}

/// The signed field `tag` at the front of `bytes`: as the unsigned field,
/// and the number must be a 32 bit one widened.
#[verifier::opaque]
pub open spec fn parse_int32_field(tag: u32, bytes: Seq<u8>) -> Option<Read<i32>> {
    match parse_uint64_field(tag, bytes) {
        Some(wide) => if is_sign_extended(wide.value) {
            Some(Read { value: narrowed(wide.value), len: wide.len })
        } else {
            None
        },
        None => None,
    }
}

/// The words whose little-endian bytes stand at the front of `bytes`.
pub open spec fn parse_fixed32_block(bytes: Seq<u8>, count: nat) -> Seq<u32> {
    Seq::new(count, |i: int| u32_from_le(bytes.skip(4 * i)))
}

/// The packed field `tag` at the front of `bytes`: no words and no bytes
/// where the key does not stand there, else the block behind key and length.
/// The length must be that of at least one word and of whole words, and the
/// block must be there in full.
#[verifier::opaque]
pub open spec fn parse_packed_fixed32_field(tag: u32, bytes: Seq<u8>) -> Option<Read<Seq<u32>>> {
    if starts_with_key(bytes, tag, WireType::LengthDelimited) {
        match parse_varint(bytes.skip(1)) {
            Some(size) => if size.value == 0 || size.value % 4 != 0 || 1 + size.len + size.value
                > bytes.len() {
                None
            } else {
                Some(
                    Read {
                        value: parse_fixed32_block(
                            bytes.skip(1 + size.len as int),
                            (size.value / 4) as nat,
                        ),
                        len: 1 + size.len + size.value as nat,
                    },
                )
            },
            None => None,
        }
    } else {
        Some(Read { value: Seq::empty(), len: 0 })
    }
}

/// The key of a field with a small number is one byte.
pub proof fn lemma_short_key(tag: u32, wire: WireType)
    requires
        1 <= tag <= MAX_SHORT_TAG,
    ensures
        varint(field_key(tag, wire)) == seq![field_key(tag, wire) as u8],
        0 < field_key(tag, wire) < 0x80,
{
}

/// Widening and narrowing are inverse to one another.
pub proof fn lemma_sign_extension(value: i32, wide: u64)
    ensures
        is_sign_extended(sign_extended(value)),
        narrowed(sign_extended(value)) == value,
        sign_extended(value) == 0 <==> value == 0,
        is_sign_extended(wide) ==> sign_extended(narrowed(wide)) == wide,
{
}

/// A block of words has four bytes to the word, and each word stands where
/// its number says.
pub proof fn lemma_fixed32_block_layout(values: Seq<u32>)
    ensures
        fixed32_block(values).len() == 4 * values.len(),
        forall|i: int|
            0 <= i < values.len() ==> #[trigger] fixed32_block(values).subrange(4 * i, 4 * i + 4)
                == u32_le(values[i]),
    decreases values.len(),
{
    if values.len() > 0 {
        let front = values.drop_last();
        lemma_fixed32_block_layout(front);
        let all = fixed32_block(values);
        assert(all == fixed32_block(front) + u32_le(values.last()));
        assert forall|i: int| 0 <= i < values.len() implies #[trigger] all.subrange(
            4 * i,
            4 * i + 4,
        ) == u32_le(values[i]) by {
            if i < front.len() {
                assert(all.subrange(4 * i, 4 * i + 4) =~= fixed32_block(front).subrange(
                    4 * i,
                    4 * i + 4,
                ));
                assert(front[i] == values[i]);
            } else {
                assert(all.subrange(4 * i, 4 * i + 4) =~= u32_le(values.last()));
            }
        }
    }
}

/// A block of words is read back from its own bytes, whatever follows them.
pub proof fn lemma_fixed32_block_round_trip(values: Seq<u32>, rest: Seq<u8>)
    ensures
        parse_fixed32_block(fixed32_block(values) + rest, values.len()) == values,
{
    lemma_fixed32_block_layout(values);
    let block = fixed32_block(values);
    let bytes = block + rest;
    let read = parse_fixed32_block(bytes, values.len());
    assert forall|i: int| 0 <= i < values.len() implies read[i] == values[i] by {
        let word = u32_le(values[i]);
        assert(block.subrange(4 * i, 4 * i + 4) == word);
        let behind = bytes.skip(4 * i + 4);
        lemma_u32_round_trip(values[i], behind);
        assert(bytes.skip(4 * i) =~= block.subrange(4 * i, 4 * i + 4) + behind);
    }
    assert(read =~= values);
}

/// The words read from a block spell the bytes they were read from.
pub proof fn lemma_parse_fixed32_block_is_block(bytes: Seq<u8>, count: nat)
    requires
        4 * count <= bytes.len(),
    ensures
        fixed32_block(parse_fixed32_block(bytes, count)) == bytes.take(4 * count as int),
    decreases count,
{
    let words = parse_fixed32_block(bytes, count);
    if count == 0 {
        assert(bytes.take(0) =~= Seq::<u8>::empty());
    } else {
        let fewer = (count - 1) as nat;
        let at = 4 * fewer as int;
        lemma_parse_fixed32_block_is_block(bytes, fewer);
        assert(words.drop_last() =~= parse_fixed32_block(bytes, fewer));
        lemma_u32_le_of_from_le(bytes.skip(at));
        assert(words.last() == u32_from_le(bytes.skip(at)));
        assert(bytes.take(at + 4) =~= bytes.take(at) + bytes.skip(at).take(4));
    }
}

/// An unsigned field is read back from its own bytes. Where the field is
/// left out, what follows must not open with its key.
pub proof fn lemma_uint64_field_round_trip(tag: u32, value: u64, rest: Seq<u8>)
    requires
        1 <= tag <= MAX_SHORT_TAG,
        value == 0 ==> !starts_with_key(rest, tag, WireType::Varint),
    ensures
        parse_uint64_field(tag, uint64_field(tag, value) + rest) == Some(
            Read { value, len: uint64_field(tag, value).len() },
        ),
{
    reveal(parse_uint64_field);
    let bytes = uint64_field(tag, value) + rest;
    lemma_short_key(tag, WireType::Varint);
    if value == 0 {
        assert(bytes =~= rest);
    } else {
        lemma_varint_round_trip(value, rest);
        assert(bytes.skip(1) =~= varint(value) + rest);
    }
}

/// What is read as an unsigned field is the front of the bytes, in the form
/// in which the field is written; and a field that was left out is not there.
pub proof fn lemma_parse_uint64_field_is_field(tag: u32, bytes: Seq<u8>)
    requires
        1 <= tag <= MAX_SHORT_TAG,
    ensures
        parse_uint64_field(tag, bytes) matches Some(read) ==> {
            &&& read.len <= bytes.len()
            &&& bytes.take(read.len as int) == uint64_field(tag, read.value)
            &&& read.value == 0 ==> read.len == 0 && !starts_with_key(bytes, tag, WireType::Varint)
        },
{
    reveal(parse_uint64_field);
    lemma_short_key(tag, WireType::Varint);
    if parse_uint64_field(tag, bytes) is Some {
        if starts_with_key(bytes, tag, WireType::Varint) {
            lemma_parse_varint_is_varint(bytes.skip(1));
            let number = parse_varint(bytes.skip(1))->0;
            assert(bytes.take(1 + number.len as int) =~= seq![bytes[0]] + bytes.skip(1).take(
                number.len as int,
            ));
        } else {
            assert(bytes.take(0) =~= Seq::<u8>::empty());
        }
    }
}

/// A signed field is read back from its own bytes. Where the field is left
/// out, what follows must not open with its key.
pub proof fn lemma_int32_field_round_trip(tag: u32, value: i32, rest: Seq<u8>)
    requires
        1 <= tag <= MAX_SHORT_TAG,
        value == 0 ==> !starts_with_key(rest, tag, WireType::Varint),
    ensures
        parse_int32_field(tag, int32_field(tag, value) + rest) == Some(
            Read { value, len: int32_field(tag, value).len() },
        ),
{
    reveal(parse_int32_field);
    lemma_sign_extension(value, 0);
    lemma_uint64_field_round_trip(tag, sign_extended(value), rest);
    assert(int32_field(tag, value) == uint64_field(tag, sign_extended(value)));
}

/// What is read as a signed field is the front of the bytes, in the form in
/// which the field is written; and a field that was left out is not there.
pub proof fn lemma_parse_int32_field_is_field(tag: u32, bytes: Seq<u8>)
    requires
        1 <= tag <= MAX_SHORT_TAG,
    ensures
        parse_int32_field(tag, bytes) matches Some(read) ==> {
            &&& read.len <= bytes.len()
            &&& bytes.take(read.len as int) == int32_field(tag, read.value)
            &&& read.value == 0 ==> read.len == 0 && !starts_with_key(bytes, tag, WireType::Varint)
        },
{
    reveal(parse_int32_field);
    lemma_parse_uint64_field_is_field(tag, bytes);
    if parse_int32_field(tag, bytes) is Some {
        let wide = parse_uint64_field(tag, bytes)->0;
        lemma_sign_extension(narrowed(wide.value), wide.value);
        assert(int32_field(tag, narrowed(wide.value)) == uint64_field(tag, wide.value));
    }
}

/// A packed field is read back from its own bytes. Where the field is left
/// out, what follows must not open with its key.
pub proof fn lemma_packed_fixed32_field_round_trip(tag: u32, values: Seq<u32>, rest: Seq<u8>)
    requires
        1 <= tag <= MAX_SHORT_TAG,
        4 * values.len() <= u64::MAX,
        values.len() == 0 ==> !starts_with_key(rest, tag, WireType::LengthDelimited),
    ensures
        parse_packed_fixed32_field(tag, packed_fixed32_field(tag, values) + rest) == Some(
            Read { value: values, len: packed_fixed32_field(tag, values).len() },
        ),
{
    reveal(parse_packed_fixed32_field);
    let bytes = packed_fixed32_field(tag, values) + rest;
    lemma_short_key(tag, WireType::LengthDelimited);
    if values.len() == 0 {
        assert(bytes =~= rest);
        assert(values =~= Seq::<u32>::empty());
    } else {
        let size = (4 * values.len()) as u64;
        let block = fixed32_block(values);
        let prefix = varint(size).len();
        lemma_fixed32_block_layout(values);
        lemma_varint_round_trip(size, block + rest);
        assert(bytes =~= seq![field_key(tag, WireType::LengthDelimited) as u8] + (varint(size)
            + (block + rest)));
        assert(bytes.skip(1) =~= varint(size) + (block + rest));
        assert(parse_varint(bytes.skip(1)) == Some(Read { value: size, len: prefix }));
        assert(bytes.skip(1 + prefix as int) =~= block + rest);
        lemma_fixed32_block_round_trip(values, rest);
        assert((size / 4) as nat == values.len());
        assert(bytes.len() == 1 + prefix + size + rest.len());
        assert(packed_fixed32_field(tag, values).len() == 1 + prefix + size);
        assert(starts_with_key(bytes, tag, WireType::LengthDelimited));
        assert(parse_fixed32_block(bytes.skip(1 + prefix as int), (size / 4) as nat) == values);
    }
}

/// What is read as a packed field is the front of the bytes, in the form in
/// which the field is written; and a field that was left out is not there.
pub proof fn lemma_parse_packed_fixed32_field_is_field(tag: u32, bytes: Seq<u8>)
    requires
        1 <= tag <= MAX_SHORT_TAG,
    ensures
        parse_packed_fixed32_field(tag, bytes) matches Some(read) ==> {
            &&& read.len <= bytes.len()
            &&& 4 * read.value.len() <= u64::MAX
            &&& bytes.take(read.len as int) == packed_fixed32_field(tag, read.value)
            &&& read.value.len() == 0 ==> read.len == 0 && !starts_with_key(
                bytes,
                tag,
                WireType::LengthDelimited,
            )
        },
{
    reveal(parse_packed_fixed32_field);
    lemma_short_key(tag, WireType::LengthDelimited);
    if parse_packed_fixed32_field(tag, bytes) is Some {
        if starts_with_key(bytes, tag, WireType::LengthDelimited) {
            lemma_parse_varint_is_varint(bytes.skip(1));
            let size = parse_varint(bytes.skip(1))->0;
            let count = (size.value / 4) as nat;
            let body = bytes.skip(1 + size.len as int);
            lemma_parse_fixed32_block_is_block(body, count);
            let read = parse_packed_fixed32_field(tag, bytes)->0;
            assert(read.value.len() == count);
            assert((4 * read.value.len()) as u64 == size.value);
            assert(bytes.take(read.len as int) =~= seq![bytes[0]] + bytes.skip(1).take(
                size.len as int,
            ) + body.take(4 * count as int));
        } else {
            assert(bytes.take(0) =~= Seq::<u8>::empty());
        }
    }
}

/// Narrows a 32 bit signed number that was widened to 64 bits.
pub fn narrow(wide: u64) -> (value: i32)
    requires
        is_sign_extended(wide),
    ensures
        value == narrowed(wide),
{
    if wide <= 0x7fff_ffff {
        wide as i32
    } else {
        let below: i32 = (u64::MAX - wide) as i32;
        -1 - below
    }
}

/// Reads the unsigned field `tag` at `pos`: the number and the position
/// behind the field, or nothing where the field is malformed.
pub fn read_uint64_field(tag: u32, bytes: &[u8], pos: usize) -> (r: Option<(u64, usize)>)
    requires
        1 <= tag <= MAX_SHORT_TAG,
        pos <= bytes@.len(),
    ensures
        match r {
            Some((value, next)) => pos <= next <= bytes@.len() && parse_uint64_field(
                tag,
                bytes@.skip(pos as int),
            ) == Some(Read { value, len: (next - pos) as nat }),
            None => parse_uint64_field(tag, bytes@.skip(pos as int)) is None,
        },
{
    proof {
        reveal(parse_uint64_field);
    }
    let key: u8 = (tag * 8) as u8 + WireType::Varint.code();
    if pos < bytes.len() && bytes[pos] == key {
        proof {
            assert(bytes@.skip(pos as int).skip(1) =~= bytes@.skip(pos + 1));
        }
        match read_varint(bytes, pos + 1) {
            Some((value, next)) => if value != 0 {
                Some((value, next))
            } else {
                None
            },
            None => None,
        }
    } else {
        Some((0, pos))
    }
}

/// Reads the signed field `tag` at `pos`: the number and the position
/// behind the field, or nothing where the field is malformed.
pub fn read_int32_field(tag: u32, bytes: &[u8], pos: usize) -> (r: Option<(i32, usize)>)
    requires
        1 <= tag <= MAX_SHORT_TAG,
        pos <= bytes@.len(),
    ensures
        match r {
            Some((value, next)) => pos <= next <= bytes@.len() && parse_int32_field(
                tag,
                bytes@.skip(pos as int),
            ) == Some(Read { value, len: (next - pos) as nat }),
            None => parse_int32_field(tag, bytes@.skip(pos as int)) is None,
        },
{
    proof {
        reveal(parse_int32_field);
    }
    match read_uint64_field(tag, bytes, pos) {
        Some((wide, next)) => if wide <= 0x7fff_ffff || wide >= 0xffff_ffff_8000_0000 {
            Some((narrow(wide), next))
        } else {
            None
        },
        None => None,
    }
}

/// Reads the packed field `tag` at `pos`: the words and the position behind
/// the field, or nothing where the field is malformed.
pub fn read_packed_fixed32_field(tag: u32, bytes: &[u8], pos: usize) -> (r: Option<
    (Vec<u32>, usize),
>)
    requires
        1 <= tag <= MAX_SHORT_TAG,
        pos <= bytes@.len(),
    ensures
        match r {
            Some((values, next)) => pos <= next <= bytes@.len() && parse_packed_fixed32_field(
                tag,
                bytes@.skip(pos as int),
            ) == Some(Read { value: values@, len: (next - pos) as nat }),
            None => parse_packed_fixed32_field(tag, bytes@.skip(pos as int)) is None,
        },
{
    proof {
        reveal(parse_packed_fixed32_field);
    }
    let key: u8 = (tag * 8) as u8 + WireType::LengthDelimited.code();
    if !(pos < bytes.len() && bytes[pos] == key) {
        let none: Vec<u32> = Vec::new();
        assert(none@ =~= Seq::<u32>::empty());
        return Some((none, pos));
    }
    proof {
        assert(bytes@.skip(pos as int).skip(1) =~= bytes@.skip(pos + 1));
    }
    let (size, start) = match read_varint(bytes, pos + 1) {
        Some(read) => read,
        None => {
            return None;
        },
    };
    if size == 0 || size % 4 != 0 || size > (bytes.len() - start) as u64 {
        return None;
    }
    let count: usize = (size / 4) as usize;
    let len: usize = bytes.len();
    let ghost body = bytes@.skip(start as int);
    proof {
        assert(bytes@.skip(pos as int).skip(1 + (start - pos - 1)) =~= body);
    }
    let mut values: Vec<u32> = Vec::new();
    let mut i: usize = 0;
    while i < count
        invariant
            i <= count,
            len == bytes@.len(),
            start + 4 * count <= len,
            body == bytes@.skip(start as int),
            values@ == parse_fixed32_block(body, i as nat),
        decreases count - i,
    {
        proof {
            assert(body.skip(4 * i) =~= bytes@.skip(start + 4 * i));
        }
        values.push(get_u32(bytes, start + 4 * i));
        i += 1;
        proof {
            assert(values@ =~= parse_fixed32_block(body, i as nat));
        }
    }
    Some((values, start + 4 * count))
}

} // verus!
