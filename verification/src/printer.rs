//! The transport decisions: a printer endpoint, the distinct error kinds a
//! request can surface, the query envelope, and the state machine of the
//! sentinel-terminated, deadline-bounded read loop. The loop's I/O lives
//! outside; every decision it takes is made here, from plain values.

use vstd::prelude::*;

use crate::text::{
    chars_of, eq_lit, parse_u8_dec, push_lit, push_string, spec_split, spec_u8_dec_ok,
    string_from_chars,
};

verus! {

/// The sentinel byte that ends a multi-line telemetry reply.
pub const END_OF_TRANSMISSION: u8 = 3;

/// A printer endpoint: a display name and the network address the caller
/// connects to.
#[derive(Debug, Clone, PartialEq)]
pub struct ZplPrinter {
    pub name: String,
    pub ip: String,
    pub port: u16,
}

impl ZplPrinter {
    /// An endpoint at an address, named after it.
    pub fn new(ip: String, port: u16) -> (r: Self)
        ensures
            r.name@ == "ZPL Printer @ "@ + ip@,
            r.ip@ == ip@,
            r.port == port,
    {
        let mut name = chars_of("ZPL Printer @ ");
        push_string(&mut name, &ip);
        ZplPrinter { name: string_from_chars(&name), ip, port }
    }
}

/// The distinct ways a request can fail, so a caller can tell a
/// configuration mistake from a transient network fault. Each carries the
/// underlying cause text where one exists.
#[derive(Debug, Clone, PartialEq)]
pub enum TransportError {
    InvalidAddress(String),
    ConnectFailed(String),
    SetTimeoutFailed(String),
    WriteFailed(String),
    FlushFailed(String),
    ReadFailed(String),
    NoResponse,
}

/// The human-readable message of each error kind.
pub open spec fn spec_error_message(e: TransportError) -> Seq<char> {
    match e {
        TransportError::InvalidAddress(d) => "Invalid address: "@ + d@,
        TransportError::ConnectFailed(d) => "Failed to connect to printer: "@ + d@,
        TransportError::SetTimeoutFailed(d) => "Failed to set timeout: "@ + d@,
        TransportError::WriteFailed(d) => "Failed to send data: "@ + d@,
        TransportError::FlushFailed(d) => "Failed to flush data: "@ + d@,
        TransportError::ReadFailed(d) => "Read error: "@ + d@,
        TransportError::NoResponse => "No response from printer"@,
    }
}

fn prefixed_message(prefix: &str, detail: &String) -> (r: String)
    ensures
        r@ == prefix@ + detail@,
{
    let mut out = chars_of(prefix);
    push_string(&mut out, detail);
    string_from_chars(&out)
}

impl TransportError {
    /// Returns the human-readable cause of this failure.
    pub fn message(&self) -> (r: String)
        ensures
            r@ == spec_error_message(*self),
    {
        match self {
            TransportError::InvalidAddress(d) => prefixed_message("Invalid address: ", d),
            TransportError::ConnectFailed(d) => prefixed_message(
                "Failed to connect to printer: ",
                d,
            ),
            TransportError::SetTimeoutFailed(d) => prefixed_message("Failed to set timeout: ", d),
            TransportError::WriteFailed(d) => prefixed_message("Failed to send data: ", d),
            TransportError::FlushFailed(d) => prefixed_message("Failed to flush data: ", d),
            TransportError::ReadFailed(d) => prefixed_message("Read error: ", d),
            TransportError::NoResponse => {
                let cs = chars_of("No response from printer");
                string_from_chars(&cs)
            },
        }
    }
}

/// One observation of the byte stream, as the reading side reports it.
#[derive(Debug)]
pub enum ReadEvent {
    /// Bytes arrived.
    Data(Vec<u8>),
    /// The device closed the stream.
    EndOfStream,
    /// Nothing was ready; reading would have blocked.
    WouldBlock,
    /// Reading failed outright, with the cause text.
    Failed(String),
}

/// The decision after one observation.
#[derive(Debug, PartialEq)]
pub enum QueryStep {
    /// Read again at once.
    Proceed,
    /// Sleep one backoff interval, then read again.
    Backoff,
    /// Stop and return what was accumulated.
    Finished,
    /// Stop with a read error carrying the cause text.
    Failed(String),
}

/// The buffer after an observation: arriving bytes are appended, anything
/// else leaves it unchanged.
pub open spec fn spec_buffer_after(buf: Seq<u8>, ev: ReadEvent) -> Seq<u8> {
    match ev {
        ReadEvent::Data(d) => buf + d@,
        _ => buf,
    }
}

/// The decision the accumulation loop takes after one observation: data
/// continues the loop unless the grown buffer holds the sentinel or the
/// deadline has passed; end of stream always ends it; a would-block backs
/// off unless the deadline has passed; a read failure ends it with that
/// failure. The loop therefore never runs past the deadline by more than
/// one observation and one backoff interval.
pub open spec fn spec_step(buf: Seq<u8>, deadline: u64, ev: ReadEvent, now: u64) -> QueryStep {
    match ev {
        ReadEvent::Data(d) => {
            if (buf + d@).contains(END_OF_TRANSMISSION) {
                QueryStep::Finished
            } else if now > deadline {
                QueryStep::Finished
            } else {
                QueryStep::Proceed
            }
        },
        ReadEvent::EndOfStream => QueryStep::Finished,
        ReadEvent::WouldBlock => {
            if now > deadline {
                QueryStep::Finished
            } else {
                QueryStep::Backoff
            }
        },
        ReadEvent::Failed(m) => QueryStep::Failed(m),
    }
}

/// Whether `v` holds the byte `b`.
fn contains_byte(v: &Vec<u8>, b: u8) -> (r: bool)
    ensures
        r == v@.contains(b),
{
    let mut i: usize = 0;
    while i < v.len()
        invariant
            0 <= i <= v@.len(),
            forall|k: int| 0 <= k < i ==> v@[k] != b,
        decreases v@.len() - i,
    {
        if v[i] == b {
            return true;
        }
        i = i + 1;
    }
    false
}

/// The accumulation state of one query: the bytes collected so far and the
/// wall-clock deadline fixed when the query began.
#[derive(Debug)]
pub struct QueryAccumulator {
    pub buffer: Vec<u8>,
    pub deadline_ms: u64,
}

impl QueryAccumulator {
    /// Opens an accumulation with an empty buffer and a deadline one
    /// timeout past the start, saturating at the clock's end.
    pub fn new(now_ms: u64, timeout_ms: u64) -> (r: Self)
        ensures
            r.buffer@ == Seq::<u8>::empty(),
            r.deadline_ms == if now_ms + timeout_ms <= u64::MAX {
                now_ms + timeout_ms
            } else {
                u64::MAX as int
            },
    {
        let deadline_ms = if now_ms <= u64::MAX - timeout_ms {
            now_ms + timeout_ms
        } else {
            u64::MAX
        };
        QueryAccumulator { buffer: Vec::new(), deadline_ms }
    }

    /// Feeds one observation, taken at wall-clock `now_ms`, into the
    /// accumulation: the buffer grows by any arrived bytes and the returned
    /// decision is exactly the step function's.
    pub fn on_event(&mut self, event: ReadEvent, now_ms: u64) -> (r: QueryStep)
        ensures
            final(self).deadline_ms == old(self).deadline_ms,
            final(self).buffer@ == spec_buffer_after(old(self).buffer@, event),
            r == spec_step(old(self).buffer@, old(self).deadline_ms, event, now_ms),
    {
        match event {
            ReadEvent::Data(data) => {
                let mut d = data;
                let ghost dview = d@;
                self.buffer.append(&mut d);
                proof {
                    assert(self.buffer@ == old(self).buffer@ + dview);
                }
                if contains_byte(&self.buffer, END_OF_TRANSMISSION) {
                    QueryStep::Finished
                } else if now_ms > self.deadline_ms {
                    QueryStep::Finished
                } else {
                    QueryStep::Proceed
                }
            },
            ReadEvent::EndOfStream => QueryStep::Finished,
            ReadEvent::WouldBlock => {
                if now_ms > self.deadline_ms {
                    QueryStep::Finished
                } else {
                    QueryStep::Backoff
                }
            },
            ReadEvent::Failed(m) => QueryStep::Failed(m),
        }
    }

    /// Closes the accumulation: an empty buffer is the distinct no-response
    /// failure, anything collected is returned as the reply, sentinel or
    /// not.
    pub fn finish(self) -> (r: Result<Vec<u8>, TransportError>)
        ensures
            match r {
                Result::Ok(v) => self.buffer@.len() > 0 && v@ == self.buffer@,
                Result::Err(e) => self.buffer@.len() == 0 && e is NoResponse,
            },
    {
        if self.buffer.len() == 0 {
            Err(TransportError::NoResponse)
        } else {
            Ok(self.buffer)
        }
    }
}

/// Past the deadline, every observation but an outright read failure ends
/// the accumulation at once; in particular a stream that never sends the
/// sentinel and never closes cannot keep the loop alive: at most one
/// backoff interval after the deadline, the next observation finishes.
///
/// Law: the query loop returns within one backoff interval of the deadline,
/// with whatever bytes were accumulated.
pub proof fn lemma_deadline_forces_finish(buf: Seq<u8>, deadline: u64, ev: ReadEvent, now: u64)
    requires
        now > deadline,
        !(ev is Failed),
    ensures
        spec_step(buf, deadline, ev, now) is Finished,
{
}

/// The wire envelope of a query code: the memory query is sent bare behind
/// a tilde, every other code behind the host-query prefix, both ending with
/// the line terminator.
pub open spec fn spec_query_envelope(code: Seq<char>) -> Seq<char> {
    if code == "HM"@ {
        "~"@ + code + "\r\n"@
    } else {
        "~HQ"@ + code + "\r\n"@
    }
}

/// Builds the wire envelope of a query code.
pub fn query_envelope(code: &str) -> (r: String)
    ensures
        r@ == spec_query_envelope(code@),
{
    let cs = chars_of(code);
    let mut out: Vec<char>;
    if eq_lit(&cs, "HM") {
        out = chars_of("~");
    } else {
        out = chars_of("~HQ");
    }
    push_lit(&mut out, code);
    push_lit(&mut out, "\r\n");
    string_from_chars(&out)
}

/// Whether `s` is a dotted-quad address: four dot-separated pieces, each a
/// decimal byte.
pub open spec fn spec_valid_ipv4(s: Seq<char>) -> bool {
    let parts = spec_split(s, '.');
    parts.len() == 4 && (forall|i: int| 0 <= i < 4 ==> spec_u8_dec_ok(#[trigger] parts[i]))
}

/// Checks a dotted-quad address.
pub fn valid_ipv4_addr(s: &str) -> (r: bool)
    ensures
        r == spec_valid_ipv4(s@),
{
    let cs = chars_of(s);
    let parts = crate::text::split_char(&cs, '.');
    let ghost ps = parts.deep_view();
    if parts.len() != 4 {
        proof {
            assert(ps.len() == parts@.len());
        }
        return false;
    }
    let mut i: usize = 0;
    while i < 4
        invariant
            0 <= i <= 4,
            ps == parts.deep_view(),
            ps == spec_split(s@, '.'),
            parts@.len() == 4,
            ps.len() == 4,
            forall|k: int| 0 <= k < i ==> spec_u8_dec_ok(#[trigger] ps[k]),
        decreases 4 - i,
    {
        proof {
            assert(parts@[i as int].deep_view() =~= parts@[i as int]@);
            assert(ps[i as int] == parts@[i as int].deep_view());
        }
        if parse_u8_dec(&parts[i]).is_none() {
            return false;
        }
        i = i + 1;
    }
    true
}

} // verus!
