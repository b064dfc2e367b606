//! Variable-length integers: a number in base 128, least significant digit
//! first, one digit to a byte. They are written by the `prost` crate and read
//! back here.

use vstd::prelude::*;

verus! {

/// A number in base 128, least significant digit first, one digit to a
/// byte; the high bit of a byte says that another one follows.
pub open spec fn varint(value: u64) -> Seq<u8>
    decreases value,
{
    if value < 0x80 {
        seq![value as u8]
    } else {
        seq![(value % 0x80 + 0x80) as u8] + varint(value / 0x80)
    }
}

/// `prost::encoding::encode_varint`: appends `value` to `out` in LEB128,
/// the base 128 form that `varint` spells out.
#[verifier::external_body]
pub(crate) fn put_varint(value: u64, out: &mut Vec<u8>)
    ensures
        final(out)@ == old(out)@ + varint(value),
{
    prost::encoding::encode_varint(value, out)
}

/// The longest a variable-length integer of 64 bits can be.
pub const MAX_VARINT_LEN: usize = 10;

/// The number that a run of base 128 digits spells, least significant digit
/// first. The high bit of a byte is no part of its digit.
pub open spec fn group_value(groups: Seq<u8>) -> nat
    decreases groups.len(),
{
    if groups.len() == 0 {
        0
    } else {
        (groups[0] % 0x80) as nat + 0x80 * group_value(groups.drop_first())
    }
}

/// The length of the variable-length integer at the front of `bytes`: one
/// more than the position of the first byte without the high bit, where that
/// comes within the longest length there is.
pub open spec fn varint_end(bytes: Seq<u8>, from: int) -> Option<int>
    decreases MAX_VARINT_LEN - from,
{
    if from < 0 || from >= MAX_VARINT_LEN || from >= bytes.len() {
        None
    } else if bytes[from] < 0x80 {
        Some(from + 1)
    } else {
        varint_end(bytes, from + 1)
    }
}

/// What was read from the front of a byte sequence, and how many bytes it took.
pub struct Read<T> {
    /// The value read.
    pub value: T,
    /// The number of bytes that spell it.
    pub len: nat,
}

/// The number at the front of `bytes` and its length, where `bytes` starts
/// with a variable-length integer in its shortest form that fits 64 bits.
pub open spec fn parse_varint(bytes: Seq<u8>) -> Option<Read<u64>> {
    match varint_end(bytes, 0) {
        Some(end) => {
            let groups = bytes.take(end);
            if (end > 1 && groups[end - 1] == 0) || group_value(groups) > u64::MAX {
                None
            } else {
                Some(Read { value: group_value(groups) as u64, len: end as nat })
            }
        },
        None => None,
    }
}

/// Whether `groups` has the shape of a variable-length integer in its
/// shortest form: every byte but the last carries the high bit, and the last
/// is not a zero that could have been left out.
pub open spec fn is_shortest_form(groups: Seq<u8>) -> bool {
    &&& groups.len() > 0
    &&& forall|i: int| 0 <= i < groups.len() - 1 ==> #[trigger] groups[i] >= 0x80
    &&& groups.last() < 0x80
    &&& groups.len() > 1 ==> groups.last() != 0
}

/// The end of a variable-length integer is found where its shape says.
proof fn lemma_varint_end(bytes: Seq<u8>, from: int, end: int)
    requires
        0 <= from < end <= bytes.len(),
        end <= MAX_VARINT_LEN,
        forall|i: int| from <= i < end - 1 ==> #[trigger] bytes[i] >= 0x80,
        bytes[end - 1] < 0x80,
    ensures
        varint_end(bytes, from) == Some(end),
    decreases end - from,
{
    if from < end - 1 {
        lemma_varint_end(bytes, from + 1, end);
    }
}

/// Where an end is found, the bytes before it have the shape.
proof fn lemma_varint_end_shape(bytes: Seq<u8>, from: int)
    requires
        0 <= from,
        varint_end(bytes, from) is Some,
    ensures
        from < varint_end(bytes, from)->0 <= bytes.len(),
        varint_end(bytes, from)->0 <= MAX_VARINT_LEN,
        forall|i: int| from <= i < varint_end(bytes, from)->0 - 1 ==> #[trigger] bytes[i] >= 0x80,
        bytes[varint_end(bytes, from)->0 - 1] < 0x80,
    decreases MAX_VARINT_LEN - from,
{
    if bytes[from] >= 0x80 {
        lemma_varint_end_shape(bytes, from + 1);
    }
}

/// The digits of a number in shortest form spell a number of at least
/// 128 to the power of their count less one; so a number of more than one
/// digit is not zero.
proof fn lemma_shortest_form_is_positive(groups: Seq<u8>)
    requires
        is_shortest_form(groups),
        groups.len() > 1,
    ensures
        group_value(groups) >= 0x80,
        group_value(groups.drop_first()) >= 1,
    decreases groups.len(),
{
    let tail = groups.drop_first();
    assert(tail.last() == groups.last());
    if tail.len() > 1 {
        assert(is_shortest_form(tail)) by {
            assert forall|i: int| 0 <= i < tail.len() - 1 implies #[trigger] tail[i] >= 0x80 by {
                assert(tail[i] == groups[i + 1]);
            }
        }
        lemma_shortest_form_is_positive(tail);
    } else {
        assert(tail.drop_first() =~= Seq::<u8>::empty());
        assert(group_value(tail) == (tail[0] % 0x80) as nat + 0x80 * group_value(
            tail.drop_first(),
        ));
    }
}

/// The bytes of a variable-length integer have the shape of the shortest
/// form, spell the number, and are at most ten.
pub proof fn lemma_varint_shape(value: u64)
    ensures
        is_shortest_form(varint(value)),
        group_value(varint(value)) == value,
        varint(value).len() <= MAX_VARINT_LEN,
    decreases value,
{
    assert(capacity(10) > u64::MAX) by {
        reveal_with_fuel(capacity, 11);
    }
    lemma_varint_shape_bounded(value, MAX_VARINT_LEN as nat);
}

/// The power of 128 with the given exponent, for exponents up to ten.
spec fn capacity(digits: nat) -> nat
    decreases digits,
{
    if digits == 0 {
        1
    } else {
        0x80 * capacity((digits - 1) as nat)
    }
}

proof fn lemma_varint_shape_bounded(value: u64, digits: nat)
    requires
        digits >= 1,
        value < capacity(digits),
    ensures
        is_shortest_form(varint(value)),
        group_value(varint(value)) == value,
        varint(value).len() <= digits,
    decreases digits,
{
    let bytes = varint(value);
    if value < 0x80 {
        assert(bytes.drop_first() =~= Seq::<u8>::empty());
        assert(group_value(bytes) == (bytes[0] % 0x80) as nat + 0x80 * group_value(
            bytes.drop_first(),
        ));
    } else {
        let rest = varint(value / 0x80);
        assert(capacity(1) == 0x80) by {
            assert(capacity(0) == 1);
        }
        assert(digits >= 2);
        lemma_varint_shape_bounded(value / 0x80, (digits - 1) as nat);
        assert(bytes.drop_first() =~= rest);
        assert(bytes.last() == rest.last());
        assert forall|i: int| 0 <= i < bytes.len() - 1 implies #[trigger] bytes[i] >= 0x80 by {
            if i > 0 {
                assert(bytes[i] == rest[i - 1]);
            }
        }
        if rest.len() == 1 {
            assert(rest.drop_first() =~= Seq::<u8>::empty());
            assert(group_value(rest) == (rest[0] % 0x80) as nat + 0x80 * group_value(
                rest.drop_first(),
            ));
        }
    }
}

/// A variable-length integer is read back from its own bytes, whatever
/// follows them.
pub proof fn lemma_varint_round_trip(value: u64, rest: Seq<u8>)
    ensures
        parse_varint(varint(value) + rest) == Some(Read { value, len: varint(value).len() }),
{
    let own = varint(value);
    let bytes = own + rest;
    lemma_varint_shape(value);
    assert forall|i: int| 0 <= i < own.len() - 1 implies #[trigger] bytes[i] >= 0x80 by {
        assert(bytes[i] == own[i]);
    }
    assert(bytes[own.len() - 1] == own.last());
    lemma_varint_end(bytes, 0, own.len() as int);
    assert(bytes.take(own.len() as int) =~= own);
}

/// The digits of a number in shortest form are the bytes of its
/// variable-length integer.
proof fn lemma_shortest_form_is_varint(groups: Seq<u8>)
    requires
        is_shortest_form(groups),
        group_value(groups) <= u64::MAX,
    ensures
        varint(group_value(groups) as u64) == groups,
    decreases groups.len(),
{
    let tail = groups.drop_first();
    if groups.len() == 1 {
        assert(tail =~= Seq::<u8>::empty());
        assert(group_value(groups) == (groups[0] % 0x80) as nat + 0x80 * group_value(tail));
        assert(varint(group_value(groups) as u64) =~= groups);
    } else {
        lemma_shortest_form_is_positive(groups);
        assert(tail.last() == groups.last());
        assert(is_shortest_form(tail)) by {
            assert forall|i: int| 0 <= i < tail.len() - 1 implies #[trigger] tail[i] >= 0x80 by {
                assert(tail[i] == groups[i + 1]);
            }
            if tail.len() == 1 {
                assert(tail.drop_first() =~= Seq::<u8>::empty());
                assert(group_value(tail) == (tail[0] % 0x80) as nat + 0x80 * group_value(
                    tail.drop_first(),
                ));
            }
        }
        lemma_shortest_form_is_varint(tail);
        let value = group_value(groups) as u64;
        assert(groups[0] >= 0x80);
        assert(value / 0x80 == group_value(tail));
        assert(value % 0x80 == groups[0] % 0x80);
        assert(varint(value) =~= seq![(value % 0x80 + 0x80) as u8] + varint(value / 0x80));
        assert(varint(value) =~= groups);
    }
}

/// What is read as a variable-length integer is the front of the bytes, in
/// the form in which the number is written.
pub proof fn lemma_parse_varint_is_varint(bytes: Seq<u8>)
    ensures
        parse_varint(bytes) matches Some(read) ==> 0 < read.len <= bytes.len() && bytes.take(
            read.len as int,
        ) == varint(read.value),
{
    if parse_varint(bytes) is Some {
        lemma_varint_end_shape(bytes, 0);
        let end = varint_end(bytes, 0)->0;
        let groups = bytes.take(end);
        assert(is_shortest_form(groups)) by {
            assert forall|i: int| 0 <= i < groups.len() - 1 implies #[trigger] groups[i]
                >= 0x80 by {
                assert(groups[i] == bytes[i]);
            }
        }
        lemma_shortest_form_is_varint(groups);
    }
}

/// Cutting digits from the front of a number leaves no more than the number.
proof fn lemma_group_value_of_tail(groups: Seq<u8>, from: int)
    requires
        0 <= from <= groups.len(),
    ensures
        group_value(groups.skip(from)) <= group_value(groups),
    decreases from,
{
    if from == 0 {
        assert(groups.skip(0) =~= groups);
    } else {
        lemma_group_value_of_tail(groups.drop_first(), from - 1);
        assert(groups.drop_first().skip(from - 1) =~= groups.skip(from));
    }
}

/// Reads the variable-length integer at `pos`: the number and the position
/// behind it, or nothing where none stands there in its shortest form.
pub fn read_varint(bytes: &[u8], pos: usize) -> (r: Option<(u64, usize)>)
    requires
        pos <= bytes@.len(),
    ensures
        match r {
            Some((value, next)) => pos < next <= bytes@.len() && parse_varint(
                bytes@.skip(pos as int),
            ) == Some(Read { value, len: (next - pos) as nat }),
            None => parse_varint(bytes@.skip(pos as int)) is None,
        },
{
    let ghost rest = bytes@.skip(pos as int);
    let len: usize = bytes.len();
    let mut end: usize = pos;
    loop
        invariant_except_break
            varint_end(rest, 0) == varint_end(rest, end - pos),
        invariant
            pos <= end <= len,
            len == bytes@.len(),
            rest == bytes@.skip(pos as int),
            end - pos <= MAX_VARINT_LEN,
        ensures
            pos < end <= len,
            varint_end(rest, 0) == Some(end - pos),
        decreases len - end,
    {
        if end == len || end - pos == MAX_VARINT_LEN {
            return None;
        }
        assert(rest[end - pos] == bytes@[end as int]);
        let byte: u8 = bytes[end];
        end += 1;
        if byte < 0x80 {
            break ;
        }
    }
    let ghost groups = rest.take(end - pos);
    if end - pos > 1 && bytes[end - 1] == 0 {
        assert(groups[end - pos - 1] == bytes@[end - 1]);
        return None;
    }
    let mut value: u64 = 0;
    let mut at: usize = end;
    proof {
        assert(groups.skip(end - pos) =~= Seq::<u8>::empty());
    }
    while at > pos
        invariant
            pos <= at <= end <= len,
            len == bytes@.len(),
            rest == bytes@.skip(pos as int),
            groups == rest.take(end - pos),
            varint_end(rest, 0) == Some(end - pos),
            value == group_value(groups.skip(at - pos)),
        decreases at - pos,
    {
        at -= 1;
        let digit: u64 = (bytes[at] % 0x80) as u64;
        proof {
            let tail = groups.skip(at - pos);
            assert(tail[0] == bytes@[at as int]);
            assert(tail.drop_first() =~= groups.skip(at - pos + 1));
            lemma_group_value_of_tail(groups, at - pos);
            assert(group_value(tail) == digit + 0x80 * value);
        }
        if value > (u64::MAX - digit) / 0x80 {
            assert(digit + 0x80 * value > u64::MAX);
            return None;
        }
        value = value * 0x80 + digit;
    }
    proof {
        assert(groups.skip(0) =~= groups);
        assert(end - pos > 1 ==> groups[end - pos - 1] == bytes@[end - 1]);
    }
    Some((value, end))
}

} // verus!
