//! The topic that bulk messages go to and the settings of the client that
//! sends them. Asking the broker is the caller's part; here stand what is
//! asked for and how the answer is read.

use crate::text::{contains_bytes, occurs_in};
use vstd::prelude::*;
use vstd::string::StringSliceAdditionalSpecFns;

verus! {

/// The number of partitions of the topic.
pub const TOPIC_PARTITIONS: i32 = 3;

/// The number of copies the broker keeps of each partition.
pub const TOPIC_REPLICATION: i32 = 1;

/// The size in bytes of the largest message that topic and client accept.
pub const MAX_MESSAGE_BYTES: u64 = 10_485_760;

/// The seconds that the caller waits for the broker to create the topic.
pub const ADMIN_TIMEOUT_SECS: u64 = 10;

/// A setting of the topic or of the client: a name and a value.
#[derive(Clone, Copy, Debug, PartialEq, Eq)]
pub struct Setting {
    /// The name of the setting.
    pub name: &'static str,
    /// Its value.
    pub value: &'static str,
}

/// Whether a setting has the given name and value.
pub open spec fn is_setting(setting: Setting, name: Seq<char>, value: Seq<char>) -> bool {
    setting.name@ == name && setting.value@ == value
}

/// The settings of the topic: room for messages of ten megabytes, and LZ4
/// compression.
pub fn topic_settings() -> (settings: Vec<Setting>)
    ensures
        settings@.len() == 2,
        is_setting(settings@[0], "max.message.bytes"@, "10485760"@),
        is_setting(settings@[1], "compression.type"@, "lz4"@),
{
    let mut settings: Vec<Setting> = Vec::new();
    settings.push(Setting { name: "max.message.bytes", value: "10485760" });
    settings.push(Setting { name: "compression.type", value: "lz4" });
    settings
}

/// The settings of the client that sends to the broker at `servers`: room
/// for messages of ten megabytes, LZ4 compression, batches of one megabyte
/// and a short wait for a batch to fill.
pub fn producer_settings(servers: &'static str) -> (settings: Vec<Setting>)
    ensures
        settings@.len() == 5,
        is_setting(settings@[0], "bootstrap.servers"@, servers@),
        is_setting(settings@[1], "message.max.bytes"@, "10485760"@),
        is_setting(settings@[2], "compression.type"@, "lz4"@),
        is_setting(settings@[3], "batch.size"@, "1048576"@),
        is_setting(settings@[4], "linger.ms"@, "10"@),
{
    let mut settings: Vec<Setting> = Vec::new();
    settings.push(Setting { name: "bootstrap.servers", value: servers });
    settings.push(Setting { name: "message.max.bytes", value: "10485760" });
    settings.push(Setting { name: "compression.type", value: "lz4" });
    settings.push(Setting { name: "batch.size", value: "1048576" });
    settings.push(Setting { name: "linger.ms", value: "10" });
    settings
}

/// What became of the request to create the topic.
#[derive(Clone, Copy, Debug, PartialEq, Eq, Structural)]
pub enum TopicOutcome {
    /// The broker created the topic.
    Created,
    /// The topic was there before, which is as good.
    AlreadyExists,
    /// The broker refused for another reason.
    Refused,
}

impl TopicOutcome {
    /// Whether the topic is there to be used.
    pub fn is_ready(self) -> (ready: bool)
        ensures
            ready == (self != TopicOutcome::Refused),
    {
        match self {
            TopicOutcome::Created => true,
            TopicOutcome::AlreadyExists => true,
            TopicOutcome::Refused => false,
        }
    }
}

/// Reads the broker's answer to the request to create the topic: no
/// complaint means it was created, a complaint that says `already exists`
/// means it was there before, and any other complaint is a refusal.
pub fn topic_outcome(complaint: Option<&str>) -> (outcome: TopicOutcome)
    ensures
        outcome == match complaint {
            None => TopicOutcome::Created,
            Some(text) => if occurs_in("already exists".spec_bytes(), text.spec_bytes()) {
                TopicOutcome::AlreadyExists
            } else {
                TopicOutcome::Refused
            },
        },
{
    match complaint {
        None => TopicOutcome::Created,
        Some(text) => {
            if contains_bytes(text.as_bytes(), "already exists".as_bytes()) {
                TopicOutcome::AlreadyExists
            } else {
                TopicOutcome::Refused
            }
        },
    }
}

} // verus!
