//! The publish pipeline: what is handed to the broker for a record, and the
//! bookkeeping of a batch. Talking to the broker is the caller's part; the
//! batch tells it what to do next and takes note of how it went.

use crate::automation::AutomationData;
use crate::error::PublishError;
use crate::json::{is_json_number, sensor_json, write_sensor_json};
use crate::sensor::SensorReading;
use crate::text::{decimal, push_decimal};
use vstd::prelude::*;
use vstd::slice::slice_to_vec;
use vstd::string::StringExecFns;
use vstd::string::StringSliceAdditionalSpecFns;
use vstd::utf8::encode_utf8;

verus! {

/// The seconds that the caller waits for the broker to take one message.
pub const SEND_TIMEOUT_SECS: u64 = 5;

/// The seconds that the caller waits for the final flush.
pub const FLUSH_TIMEOUT_SECS: u64 = 5;

/// What is handed to the broker for one record.
#[derive(Clone, Debug, PartialEq, Eq)]
pub struct OutboundMessage {
    /// The key, derived from the identity of the record.
    pub key: String,
    /// The serialized record.
    pub payload: Vec<u8>,
    /// The record's own timestamp, in seconds since the Unix epoch.
    pub timestamp: u64,
}

impl OutboundMessage {
    /// The timestamp in milliseconds, the unit of the broker, where it fits
    /// a signed 64 bit number.
    pub fn timestamp_millis(&self) -> (millis: Option<i64>)
        ensures
            millis is Some <==> self.timestamp * 1000 <= i64::MAX,
            millis matches Some(ms) ==> ms == self.timestamp * 1000,
    {
        if self.timestamp > (i64::MAX / 1000) as u64 {
            None
        } else {
            Some((self.timestamp * 1000) as i64)
        }
    }
}

/// The key of a reading: the word `sensor`, an underscore, and the sensor id
/// in decimal.
pub open spec fn sensor_key(sensor_id: u32) -> Seq<char> {
    "sensor_"@ + decimal(sensor_id as nat)
}

impl SensorReading {
    /// The key under which the reading is published.
    pub fn key(&self) -> (key: String)
        ensures
            key@ == sensor_key(self.sensor_id),
    {
        let mut key = String::new();
        key.append("sensor_");
        push_decimal(&mut key, self.sensor_id as u64);
        assert(key@ =~= sensor_key(self.sensor_id));
        key
    }

    /// The message for the reading: its key, its JSON document in UTF-8 and
    /// its own timestamp. The three measurements are spelled by the caller;
    /// the result is `SerializationFailure` where one of the spellings is
    /// not a JSON number.
    pub fn to_message(&self, temperature: &str, humidity: &str, pressure: &str) -> (r: Result<
        OutboundMessage,
        PublishError,
    >)
        ensures
            r is Ok <==> is_json_number(temperature.spec_bytes()) && is_json_number(
                humidity.spec_bytes(),
            ) && is_json_number(pressure.spec_bytes()),
            r matches Ok(message) ==> {
                &&& message.key@ == sensor_key(self.sensor_id)
                &&& message.payload@ == encode_utf8(
                    sensor_json(*self, temperature@, humidity@, pressure@),
                )
                &&& message.timestamp == self.timestamp
            },
            r matches Err(e) ==> e == PublishError::SerializationFailure,
    {
        match write_sensor_json(self, temperature, humidity, pressure) {
            Some(json) => {
                let payload = slice_to_vec(json.as_str().as_bytes());
                Ok(OutboundMessage { key: self.key(), payload, timestamp: self.timestamp })
            },
            None => Err(PublishError::SerializationFailure),
        }
    }
}

impl AutomationData {
    /// The message for the bulk payload: the sequence number as its key, its
    /// bytes in the tag-length-value format and its own timestamp. The
    /// result is `SerializationFailure` where the payload cannot be encoded.
    pub fn to_message(&self) -> (r: Result<OutboundMessage, PublishError>)
        ensures
            r is Ok <==> self@.encodable(),
            r matches Ok(message) ==> {
                &&& message.key@ == self@.key()
                &&& message.payload@ == self@.encoding()
                &&& message.timestamp == self.sys_timestamp
            },
            r matches Err(e) ==> e == PublishError::SerializationFailure,
    {
        match self.encode() {
            Ok(payload) => Ok(
                OutboundMessage { key: self.key(), payload, timestamp: self.sys_timestamp },
            ),
            Err(e) => Err(e),
        }
    }
}

/// The broker's acknowledgement of one message.
#[derive(Clone, Copy, Debug, PartialEq, Eq, Structural)]
pub struct DeliveryReceipt {
    /// The partition the message went to.
    pub partition: i32,
    /// The offset of the message in its partition.
    pub offset: i64,
}

/// How the attempt to publish one record went.
pub type Attempt = Result<DeliveryReceipt, PublishError>;

/// The tally of a batch.
#[derive(Clone, Copy, Debug, PartialEq, Eq, Structural)]
pub struct BatchOutcome {
    /// The records that the broker acknowledged.
    pub successful: usize,
    /// The records that failed.
    pub failed: usize,
}

/// What the caller is to do next.
#[derive(Clone, Copy, Debug, PartialEq, Eq, Structural)]
pub enum Action {
    /// Publish the record with this position in the batch and report how it went.
    Send {
        /// The position of the record, counted from zero.
        index: usize,
    },
    /// Flush the broker's buffers and report how it went.
    Flush,
    /// Nothing is left to do.
    Finish,
}

/// What the caller reports back.
#[derive(Clone, Copy, Debug, PartialEq, Eq)]
pub enum Event {
    /// The record that was to be sent went through or failed.
    Sent(Attempt),
    /// The flush went through or failed.
    Flushed(Result<(), PublishError>),
}

/// A batch as a mathematical value.
pub struct BatchView {
    /// The number of records in the batch.
    pub total: nat,
    /// How the attempts so far went, in the order of the records.
    pub attempts: Seq<Attempt>,
    /// How the flush went, once it has been reported.
    pub flush: Option<Result<(), PublishError>>,
}

/// The number of attempts that succeeded.
pub open spec fn successes(attempts: Seq<Attempt>) -> nat
    decreases attempts.len(),
{
    if attempts.len() == 0 {
        0
    } else {
        successes(attempts.drop_last()) + if attempts.last() is Ok {
            1nat
        } else {
            0nat
        }
    }
}

/// The number of attempts that failed.
pub open spec fn failures(attempts: Seq<Attempt>) -> nat
    decreases attempts.len(),
{
    if attempts.len() == 0 {
        0
    } else {
        failures(attempts.drop_last()) + if attempts.last() is Err {
            1nat
        } else {
            0nat
        }
    }
}

impl BatchView {
    /// A batch of `total` records before the first attempt.
    pub open spec fn fresh(total: nat) -> BatchView {
        BatchView { total, attempts: Seq::empty(), flush: None }
    }

    /// What is to be done next: send the first record not attempted yet,
    /// flush once all have been attempted, and nothing after the flush.
    pub open spec fn action(self) -> Action {
        if self.attempts.len() < self.total {
            Action::Send { index: self.attempts.len() as usize }
        } else if self.flush is None {
            Action::Flush
        } else {
            Action::Finish
        }
    }

    /// The batch after an event. The report of a send is taken down while
    /// records are left to send, whether it is a success or a failure; the
    /// report of the flush once all have been attempted. An event that
    /// answers nothing the batch asked for is ignored.
    pub open spec fn after(self, event: Event) -> BatchView {
        match event {
            Event::Sent(attempt) => if self.attempts.len() < self.total {
                BatchView { attempts: self.attempts.push(attempt), ..self }
            } else {
                self
            },
            Event::Flushed(result) => if self.attempts.len() >= self.total && self.flush is None {
                BatchView { flush: Some(result), ..self }
            } else {
                self
            },
        }
    }

    /// The batch after the reports of a run of sends.
    pub open spec fn after_sends(self, reports: Seq<Attempt>) -> BatchView
        decreases reports.len(),
    {
        if reports.len() == 0 {
            self
        } else {
            self.after_sends(reports.drop_last()).after(Event::Sent(reports.last()))
        }
    }
}

/// The bookkeeping of one batch.
pub struct Batch {
    total: usize,
    attempts: Vec<Attempt>,
    flush: Option<Result<(), PublishError>>,
}

impl View for Batch {
    type V = BatchView;

    closed spec fn view(&self) -> BatchView {
        BatchView { total: self.total as nat, attempts: self.attempts@, flush: self.flush }
    }
}

impl Batch {
    /// A batch of `total` records before the first attempt.
    pub fn new(total: usize) -> (batch: Batch)
        ensures
            batch@ == BatchView::fresh(total as nat),
    {
        Batch { total, attempts: Vec::new(), flush: None }
    }

    /// What the caller is to do next.
    pub fn action(&self) -> (action: Action)
        ensures
            action == self@.action(),
    {
        if self.attempts.len() < self.total {
            Action::Send { index: self.attempts.len() }
        } else if self.flush.is_none() {
            Action::Flush
        } else {
            Action::Finish
        }
    }

    /// Takes note of an event and says what to do next.
    pub fn handle(&mut self, event: Event) -> (action: Action)
        ensures
            final(self)@ == old(self)@.after(event),
            action == final(self)@.action(),
    {
        match event {
            Event::Sent(attempt) => {
                if self.attempts.len() < self.total {
                    self.attempts.push(attempt);
                }
            },
            Event::Flushed(result) => {
                if self.attempts.len() >= self.total && self.flush.is_none() {
                    self.flush = Some(result);
                }
            },
        }
        self.action()
    }

    /// The tally of the attempts so far.
    pub fn outcome(&self) -> (tally: BatchOutcome)
        ensures
            tally.successful == successes(self@.attempts),
            tally.failed == failures(self@.attempts),
    {
        let mut successful: usize = 0;
        let mut failed: usize = 0;
        let mut i: usize = 0;
        while i < self.attempts.len()
            invariant
                i <= self.attempts@.len(),
                successful == successes(self.attempts@.take(i as int)),
                failed == failures(self.attempts@.take(i as int)),
                successful + failed == i,
            decreases self.attempts@.len() - i,
        {
            proof {
                assert(self.attempts@.take(i + 1).drop_last() =~= self.attempts@.take(i as int));
            }
            match self.attempts[i] {
                Ok(_) => {
                    successful += 1;
                },
                Err(_) => {
                    failed += 1;
                },
            }
            i += 1;
        }
        proof {
            assert(self.attempts@.take(self.attempts@.len() as int) =~= self.attempts@);
        }
        BatchOutcome { successful, failed }
    }

    /// How the attempt at the record with the given position went, once it
    /// has been reported.
    pub fn attempt(&self, index: usize) -> (attempt: Option<Attempt>)
        ensures
            attempt == if index < self@.attempts.len() {
                Some(self@.attempts[index as int])
            } else {
                None
            },
    {
        if index < self.attempts.len() {
            Some(self.attempts[index])
        } else {
            None
        }
    }

    /// How the flush went, once it has been reported.
    pub fn flush_result(&self) -> (flush: Option<Result<(), PublishError>>)
        ensures
            flush == self@.flush,
    {
        self.flush
    }
}

/// Every attempt is counted once, as a success or as a failure.
pub proof fn lemma_tally_is_complete(attempts: Seq<Attempt>)
    ensures
        successes(attempts) + failures(attempts) == attempts.len(),
    decreases attempts.len(),
{
    if attempts.len() > 0 {
        lemma_tally_is_complete(attempts.drop_last());
    }
}

/// Batch independence: whatever the reports of the sends are, failures
/// among them included, a batch that has taken as many reports as it has
/// records holds them all in order, so every record was attempted and none
/// was skipped after a failure. Before the report with position `i` the batch
/// asks for record `i`, and after the last one for the flush.
pub proof fn lemma_batch_attempts_all(total: nat, reports: Seq<Attempt>)
    requires
        reports.len() <= total <= usize::MAX,
    ensures
        BatchView::fresh(total).after_sends(reports).attempts == reports,
        BatchView::fresh(total).after_sends(reports).total == total,
        BatchView::fresh(total).after_sends(reports).flush is None,
        reports.len() < total ==> BatchView::fresh(total).after_sends(reports).action()
            == (Action::Send { index: reports.len() as usize }),
        reports.len() == total ==> BatchView::fresh(total).after_sends(reports).action()
            == Action::Flush,
    decreases reports.len(),
{
    if reports.len() > 0 {
        lemma_batch_attempts_all(total, reports.drop_last());
        assert(reports.drop_last().push(reports.last()) =~= reports);
    }
}

/// A flush that fails takes nothing back: the attempts, and with them the
/// tally, are the same before and after the report of the flush, and the
/// batch is finished either way.
pub proof fn lemma_flush_keeps_tally(batch: BatchView, result: Result<(), PublishError>)
    requires
        batch.attempts.len() == batch.total,
        batch.flush is None,
    ensures
        batch.after(Event::Flushed(result)).attempts == batch.attempts,
        batch.after(Event::Flushed(result)).flush == Some(result),
        batch.after(Event::Flushed(result)).action() == Action::Finish,
{
}

} // verus!
