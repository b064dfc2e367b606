//! Log entries: the variable-width record of the `LOGS` container.

use crate::error::DecodeError;
use crate::le::{
    get_u16, get_u64, lemma_u16_round_trip, lemma_u64_round_trip, put_u16, put_u64, u16_from_le,
    u16_le, u64_from_le, u64_le,
};
use crate::record::{ContainerKind, Parsed, Record};
use crate::text::string_from_utf8;
use vstd::prelude::*;
use vstd::slice::{slice_subrange, slice_to_vec};
use vstd::utf8::{
    decode_utf8, decode_utf8_encode_utf8, encode_utf8, encode_utf8_decode_utf8,
    encode_utf8_valid_utf8, valid_utf8,
};

verus! {

/// One textual event. `message_length` repeats the byte length of `message`;
/// an entry is valid while the two agree.
#[derive(Clone, Debug, PartialEq, Eq)]
pub struct LogEntry {
    /// Seconds since the Unix epoch.
    pub timestamp: u64,
    /// Severity: 0 is debug, 1 info, 2 warning, 3 error.
    pub level: u8,
    /// The length of `message` in bytes of UTF-8.
    pub message_length: u16,
    /// The text of the event.
    pub message: String,
}

/// A log entry as a mathematical value: the message is its characters.
pub struct LogEntryView {
    pub timestamp: u64,
    pub level: u8,
    pub message_length: u16,
    pub message: Seq<char>,
}

impl View for LogEntry {
    type V = LogEntryView;

    open spec fn view(&self) -> LogEntryView {
        LogEntryView {
            timestamp: self.timestamp,
            level: self.level,
            message_length: self.message_length,
            message: self.message@,
        }
    }
}

/// The width of the fixed part of a log entry, which the message follows.
pub const LOG_ENTRY_FIXED_LEN: usize = 11;

impl LogEntry {
    /// An entry with the given text, or nothing where the text is longer than
    /// the length field can say.
    pub fn new(timestamp: u64, level: u8, message: String) -> (entry: Option<LogEntry>)
        ensures
            entry is Some <==> encode_utf8(message@).len() <= u16::MAX,
            entry matches Some(e) ==> e@ == (LogEntryView {
                timestamp,
                level,
                message_length: encode_utf8(message@).len() as u16,
                message: message@,
            }) && Self::valid(e@),
    {
        let len: usize = message.as_str().as_bytes().len();
        if len > u16::MAX as usize {
            None
        } else {
            Some(LogEntry { timestamp, level, message_length: len as u16, message })
        }
    }

    /// Whether the length field agrees with the message.
    pub fn is_valid(&self) -> (ok: bool)
        ensures
            ok == Self::valid(self@),
    {
        self.message.as_str().as_bytes().len() == self.message_length as usize
    }

    /// The bytes of the entry: eleven of fixed fields, then the message.
    pub fn to_bytes(&self) -> (bytes: Vec<u8>)
        ensures
            bytes@ == Self::encoding(self@),
            bytes@.len() == LOG_ENTRY_FIXED_LEN + encode_utf8(self.message@).len(),
    {
        let mut bytes: Vec<u8> = Vec::new();
        self.encode(&mut bytes);
        bytes
    }
}

impl Record for LogEntry {
    open spec fn valid(v: LogEntryView) -> bool {
        v.message_length == encode_utf8(v.message).len()
    }

    open spec fn encoding(v: LogEntryView) -> Seq<u8> {
        u64_le(v.timestamp) + seq![v.level] + u16_le(v.message_length) + encode_utf8(v.message)
    }

    open spec fn parse(bytes: Seq<u8>) -> Parsed<LogEntryView> {
        if bytes.len() < LOG_ENTRY_FIXED_LEN {
            Parsed { outcome: Err(DecodeError::UnexpectedEnd), consumed: bytes.len() }
        } else {
            let message_length = u16_from_le(bytes.skip(9));
            let end = LOG_ENTRY_FIXED_LEN + message_length;
            if bytes.len() < end {
                Parsed { outcome: Err(DecodeError::UnexpectedEnd), consumed: bytes.len() }
            } else {
                let text = bytes.subrange(LOG_ENTRY_FIXED_LEN as int, end);
                Parsed {
                    outcome: if valid_utf8(text) {
                        Ok(
                            LogEntryView {
                                timestamp: u64_from_le(bytes),
                                level: bytes[8],
                                message_length,
                                message: decode_utf8(text),
                            },
                        )
                    } else {
                        Err(DecodeError::InvalidUtf8)
                    },
                    consumed: end as nat,
                }
            }
        }
    }

    open spec fn kind() -> ContainerKind {
        ContainerKind::Log
    }

    fn container_kind() -> (k: ContainerKind) {
        ContainerKind::Log
    }

    fn encode(&self, out: &mut Vec<u8>) {
        put_u64(out, self.timestamp);
        out.push(self.level);
        put_u16(out, self.message_length);
        out.extend_from_slice(self.message.as_str().as_bytes());
        assert(out@ =~= old(out)@ + Self::encoding(self@));
    }

    fn decode(bytes: &[u8], pos: usize) -> (r: (Result<Self, DecodeError>, usize)) {
        let available: usize = bytes.len() - pos;
        if available < LOG_ENTRY_FIXED_LEN {
            return (Err(DecodeError::UnexpectedEnd), bytes.len());
        }
        proof {
            assert(bytes@.skip(pos as int).skip(9) =~= bytes@.skip(pos + 9));
        }
        let timestamp: u64 = get_u64(bytes, pos);
        let level: u8 = bytes[pos + 8];
        let message_length: u16 = get_u16(bytes, pos + 9);
        if available - LOG_ENTRY_FIXED_LEN < message_length as usize {
            return (Err(DecodeError::UnexpectedEnd), bytes.len());
        }
        let start: usize = pos + LOG_ENTRY_FIXED_LEN;
        let end: usize = start + message_length as usize;
        let text = slice_to_vec(slice_subrange(bytes, start, end));
        proof {
            assert(text@ =~= bytes@.skip(pos as int).subrange(
                LOG_ENTRY_FIXED_LEN as int,
                LOG_ENTRY_FIXED_LEN + message_length,
            ));
        }
        match string_from_utf8(text) {
            Some(message) => (Ok(LogEntry { timestamp, level, message_length, message }), end),
            None => (Err(DecodeError::InvalidUtf8), end),
        }
    }

    proof fn lemma_parse_bounds(bytes: Seq<u8>) {
        if bytes.len() >= LOG_ENTRY_FIXED_LEN {
            let message_length = u16_from_le(bytes.skip(9));
            let end = LOG_ENTRY_FIXED_LEN + message_length;
            if bytes.len() >= end {
                let text = bytes.subrange(LOG_ENTRY_FIXED_LEN as int, end);
                if valid_utf8(text) {
                    decode_utf8_encode_utf8(text);
                }
            }
        }
    }

    proof fn lemma_round_trip(v: LogEntryView, rest: Seq<u8>) {
        let text = encode_utf8(v.message);
        let tail2 = text + rest;
        let tail1 = u16_le(v.message_length) + tail2;
        let tail0 = seq![v.level] + tail1;
        let all = Self::encoding(v) + rest;
        lemma_u64_round_trip(v.timestamp, tail0);
        lemma_u16_round_trip(v.message_length, tail2);
        assert(all =~= u64_le(v.timestamp) + tail0);
        assert(all.skip(9) =~= tail1);
        assert(all[8] == v.level);
        assert(all.subrange(LOG_ENTRY_FIXED_LEN as int, LOG_ENTRY_FIXED_LEN + v.message_length)
            =~= text);
        encode_utf8_valid_utf8(v.message);
        encode_utf8_decode_utf8(v.message);
    }

    proof fn lemma_cut_short(v: LogEntryView, n: int) {
        let all = Self::encoding(v);
        let cut = all.take(n);
        if n >= LOG_ENTRY_FIXED_LEN {
            let tail2 = encode_utf8(v.message);
            let tail1 = u16_le(v.message_length) + tail2;
            assert(all.skip(9) =~= tail1);
            lemma_u16_round_trip(v.message_length, tail2);
            assert(u16_from_le(cut.skip(9)) == u16_from_le(all.skip(9))) by {
                assert(cut.skip(9)[0] == all.skip(9)[0]);
                assert(cut.skip(9)[1] == all.skip(9)[1]);
            }
        }
    }
}

} // verus!
