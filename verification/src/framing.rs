//! Line-delimited JSON-RPC framing: frame bounds, payload validation, and frame assembly from
//! the bytes a stream delivers.

use vstd::prelude::*;
use crate::types::InvariantViolation;

verus! {

/// Returned bytes that a buffer holds before it is compacted while input is pending.
pub const COMPACT_AFTER_BYTES: usize = 8192;

/// The line delimiter.
pub open spec fn newline() -> u8 {
    10
}

/// The carriage return that may precede a line delimiter.
pub open spec fn carriage_return() -> u8 {
    13
}

/// Maximum bytes in one line-delimited frame, excluding the `\n` delimiter.
#[derive(Debug, Clone, Copy, PartialEq, Eq, PartialOrd, Ord, Hash)]
pub struct FrameLimit {
    max_bytes: usize,
}

impl FrameLimit {
    #[verifier::type_invariant]
    spec fn positive(self) -> bool {
        self.max_bytes > 0
    }

    /// The byte limit.
    pub closed spec fn spec_get(self) -> usize {
        self.max_bytes
    }

    /// A conservative eight-mebibyte frame limit.
    pub fn default_limit() -> (r: Self)
        ensures
            r.spec_get() == 8388608,
    {
        Self { max_bytes: 8388608 }
    }

    /// Constructs a non-zero frame limit.
    pub fn try_new(max_bytes: usize) -> (r: Result<Self, InvariantViolation>)
        ensures
            r is Ok <==> max_bytes > 0,
            r matches Ok(l) ==> l.spec_get() == max_bytes,
    {
        if max_bytes == 0 {
            return Err(InvariantViolation::new("frame limit must be non-zero"));
        }
        Ok(Self { max_bytes })
    }

    /// Returns the byte limit.
    pub fn get(self) -> (r: usize)
        ensures
            r == self.spec_get(),
            r > 0,
    {
        proof {
            use_type_invariant(&self);
        }
        self.max_bytes
    }
}

/// Why a frame could not be written or read.
#[derive(Debug, Clone, Copy, PartialEq, Eq, Structural)]
pub enum FrameError {
    /// A frame to write is empty.
    Empty,
    /// A frame is longer than the limit (the limit is carried).
    TooLarge(usize),
    /// A frame to write contains a line delimiter or ends with a carriage return.
    ContainsDelimiter,
}

/// Why a payload cannot be written as one frame, if it cannot.
pub open spec fn payload_refusal(payload: Seq<u8>, limit: usize) -> Option<FrameError> {
    if payload.len() == 0 {
        Some(FrameError::Empty)
    } else if payload.len() > limit {
        Some(FrameError::TooLarge(limit))
    } else if payload.contains(newline()) || payload.last() == carriage_return() {
        Some(FrameError::ContainsDelimiter)
    } else {
        None
    }
}

/// Checks that a payload can be written as one line-delimited frame.
pub fn validate_frame_payload(payload: &[u8], limit: FrameLimit) -> (r: Result<(), FrameError>)
    ensures
        match payload_refusal(payload@, limit.spec_get()) {
            Some(e) => r == Err::<(), FrameError>(e),
            None => r is Ok,
        },
{
    if payload.len() == 0 {
        return Err(FrameError::Empty);
    }
    if payload.len() > limit.get() {
        return Err(FrameError::TooLarge(limit.get()));
    }
    let mut i: usize = 0;
    while i < payload.len()
        invariant
            i <= payload.len(),
            0 < payload@.len() <= limit.spec_get(),
            forall|k: int| 0 <= k < i ==> payload@[k] != newline(),
        decreases payload.len() - i,
    {
        if payload[i] == 10 {
            assert(payload@[i as int] == newline());
            assert(payload@.contains(newline()));
            return Err(FrameError::ContainsDelimiter);
        }
        i += 1;
    }
    if payload[payload.len() - 1] == 13 {
        return Err(FrameError::ContainsDelimiter);
    }
    Ok(())
}

/// The bytes of a frame as written: the payload followed by the line delimiter.
pub open spec fn written_frame(payload: Seq<u8>) -> Seq<u8> {
    payload.push(newline())
}

/// Builds the bytes that writing a payload as one frame puts on the stream.
pub fn encode_frame(payload: &[u8], limit: FrameLimit) -> (r: Result<Vec<u8>, FrameError>)
    ensures
        match payload_refusal(payload@, limit.spec_get()) {
            Some(e) => r == Err::<Vec<u8>, FrameError>(e),
            None => r matches Ok(bytes) && bytes@ == written_frame(payload@),
        },
{
    validate_frame_payload(payload, limit)?;
    let mut bytes: Vec<u8> = Vec::new();
    let mut i: usize = 0;
    while i < payload.len()
        invariant
            i <= payload.len(),
            bytes@ == payload@.take(i as int),
        decreases payload.len() - i,
    {
        bytes.push(payload[i]);
        assert(bytes@ =~= payload@.take(i + 1));
        i += 1;
    }
    bytes.push(10);
    assert(bytes@ =~= written_frame(payload@));
    Ok(bytes)
}

/// The position of the first line delimiter, if any.
pub open spec fn first_newline(b: Seq<u8>) -> Option<int> {
    if exists|i: int| 0 <= i < b.len() && b[i] == newline() {
        Some(choose|i: int| 0 <= i < b.len() && b[i] == newline() && forall|k: int| 0 <= k < i ==> b[k] != newline())
    } else {
        None
    }
}

/// A line without its trailing carriage return, if it has one.
pub open spec fn without_carriage_return(line: Seq<u8>) -> Seq<u8> {
    if line.len() > 0 && line.last() == carriage_return() {
        line.drop_last()
    } else {
        line
    }
}

/// One step of assembling a frame from a non-empty read buffer, given the partial line so far:
/// the bytes consumed from the buffer, the frame completed if any, and the partial line after.
/// A line longer than the limit is refused; an empty line completes no frame.
pub open spec fn spec_feed(line: Seq<u8>, buffer: Seq<u8>, limit: usize) -> Result<(nat, Option<Seq<u8>>, Seq<u8>), FrameError> {
    let n = match first_newline(buffer) {
        Some(i) => i,
        None => buffer.len() as int,
    };
    if line.len() + n > limit {
        Err(FrameError::TooLarge(limit))
    } else {
        let joined = line + buffer.take(n);
        match first_newline(buffer) {
            None => Ok((n as nat, None, joined)),
            Some(i) => {
                let done = without_carriage_return(joined);
                if done.len() == 0 {
                    Ok(((i + 1) as nat, None, Seq::empty()))
                } else {
                    Ok(((i + 1) as nat, Some(done), Seq::empty()))
                }
            },
        }
    }
}

/// The frame left in a stream that ends without a final delimiter.
pub open spec fn spec_finish(line: Seq<u8>) -> Option<Seq<u8>> {
    if line.len() == 0 {
        None
    } else {
        Some(line)
    }
}

/// One result of reading a line-delimited JSON-RPC stream.
#[derive(Debug, Clone, PartialEq, Eq)]
pub enum FrameReadOutcome {
    /// A frame payload was read.
    Frame(Vec<u8>),
    /// The stream ended cleanly.
    EndOfStream,
}

/// Assembles frames from the bytes a buffered stream delivers.
#[derive(Debug)]
pub struct LineAssembler {
    line: Vec<u8>,
}

/// The position of the first line delimiter in a buffer.
fn find_newline(buffer: &[u8]) -> (r: Option<usize>)
    ensures
        match r {
            Some(i) => first_newline(buffer@) == Some(i as int) && i < buffer@.len(),
            None => first_newline(buffer@) is None,
        },
{
    let mut i: usize = 0;
    while i < buffer.len()
        invariant
            i <= buffer.len(),
            forall|k: int| 0 <= k < i ==> buffer@[k] != newline(),
        decreases buffer.len() - i,
    {
        if buffer[i] == 10 {
            proof {
                let c = choose|j: int| 0 <= j < buffer@.len() && buffer@[j] == newline() && forall|k: int| 0 <= k < j ==> buffer@[k] != newline();
                assert(buffer@[i as int] == newline());
                if c < i {
                } else if c > i {
                    assert(buffer@[i as int] != newline());
                }
            }
            return Some(i);
        }
        i += 1;
    }
    None
}

impl LineAssembler {
    /// The partial line assembled so far.
    pub closed spec fn spec_line(&self) -> Seq<u8> {
        self.line@
    }

    /// An assembler with no partial line.
    pub fn new() -> (r: Self)
        ensures
            r.spec_line() == Seq::<u8>::empty(),
    {
        Self { line: Vec::new() }
    }

    /// Whether bytes of an unfinished line are held.
    pub fn has_partial_line(&self) -> (r: bool)
        ensures
            r == (self.spec_line().len() > 0),
    {
        self.line.len() > 0
    }

    /// Takes bytes from a non-empty read buffer: returns how many bytes were consumed and the
    /// frame completed by them, if any.
    pub fn feed(&mut self, buffer: &[u8], limit: FrameLimit) -> (r: Result<(usize, Option<Vec<u8>>), FrameError>)
        requires
            buffer@.len() > 0,
        ensures
            match spec_feed(old(self).spec_line(), buffer@, limit.spec_get()) {
                Err(e) => r == Err::<(usize, Option<Vec<u8>>), FrameError>(e),
                Ok((consumed, frame, line)) => r matches Ok((c, f)) && c == consumed && final(self).spec_line() == line
                    && match f {
                    Some(v) => frame == Some(v@),
                    None => frame is None,
                },
            },
    {
        let delimiter = find_newline(buffer);
        let payload_bytes = match delimiter {
            Some(i) => i,
            None => buffer.len(),
        };
        if self.line.len() > limit.get() || payload_bytes > limit.get() - self.line.len() {
            return Err(FrameError::TooLarge(limit.get()));
        }
        let ghost before = self.line@;
        let mut i: usize = 0;
        while i < payload_bytes
            invariant
                i <= payload_bytes <= buffer@.len(),
                self.line@ == before + buffer@.take(i as int),
                match delimiter {
                    Some(p) => first_newline(buffer@) == Some(p as int) && p < buffer@.len() && payload_bytes == p,
                    None => first_newline(buffer@) is None && payload_bytes == buffer@.len(),
                },
            decreases payload_bytes - i,
        {
            self.line.push(buffer[i]);
            assert(self.line@ =~= before + buffer@.take(i + 1));
            i += 1;
        }
        let consumed = match delimiter {
            Some(position) => {
                let total = buffer.len();
                assert(position < total);
                position + 1
            },
            None => {
                return Ok((payload_bytes, None));
            },
        };
        if self.line.len() > 0 && self.line[self.line.len() - 1] == 13 {
            let _carriage_return = self.line.pop();
        }
        let mut frame: Vec<u8> = Vec::new();
        std::mem::swap(&mut frame, &mut self.line);
        assert(self.line@ =~= Seq::<u8>::empty());
        if frame.len() == 0 {
            return Ok((consumed, None));
        }
        Ok((consumed, Some(frame)))
    }

    /// What the stream holds when it ends: the unfinished line as a last frame, or the end.
    pub fn finish(self) -> (r: FrameReadOutcome)
        ensures
            match spec_finish(self.spec_line()) {
                Some(f) => r matches FrameReadOutcome::Frame(v) && v@ == f,
                None => r == FrameReadOutcome::EndOfStream,
            },
    {
        if self.line.len() == 0 {
            FrameReadOutcome::EndOfStream
        } else {
            FrameReadOutcome::Frame(self.line)
        }
    }
}

/// Reading back a written frame with a fresh assembler yields exactly the payload, consuming
/// exactly the written bytes.
pub proof fn lemma_written_frame_reads_back(payload: Seq<u8>, limit: usize)
    requires
        payload_refusal(payload, limit) is None,
    ensures
        spec_feed(Seq::empty(), written_frame(payload), limit) == Ok::<(nat, Option<Seq<u8>>, Seq<u8>), FrameError>(
            ((payload.len() + 1) as nat, Some(payload), Seq::empty()),
        ),
{
    let w = written_frame(payload);
    let n = payload.len() as int;
    assert(w[n] == newline());
    assert forall|k: int| 0 <= k < n implies w[k] != newline() by {
        assert(w[k] == payload[k]);
        if payload[k] == newline() {
            assert(payload.contains(newline()));
        }
    }
    let c = choose|i: int| 0 <= i < w.len() && w[i] == newline() && forall|k: int| 0 <= k < i ==> w[k] != newline();
    if c < n {
        assert(w[c] != newline());
    } else if c > n {
        assert(w[n] != newline());
    }
    assert(first_newline(w) == Some(n));
    let joined = Seq::<u8>::empty() + w.take(n);
    assert(joined =~= payload);
    assert(without_carriage_return(joined) == payload);
}

/// One result of polling a blocking line-delimited JSON-RPC stream.
#[derive(Debug, Clone, PartialEq, Eq)]
pub enum TimedFrameReadOutcome {
    /// A frame payload was read.
    Frame(Vec<u8>),
    /// The stream ended cleanly.
    EndOfStream,
    /// No complete frame arrived before the deadline.
    TimedOut,
}

/// The next frame held in read-ahead bytes and how many bytes it uses: complete lines first
/// (empty lines are skipped), then, at the end of the stream, the unfinished line.
#[verifier::opaque]
pub open spec fn spec_extract(pending: Seq<u8>, eof: bool, limit: usize) -> Result<(Option<Seq<u8>>, nat), FrameError>
    decreases pending.len(),
{
    match first_newline(pending) {
        None => if pending.len() > limit {
            Err(FrameError::TooLarge(limit))
        } else if eof && pending.len() > 0 {
            Ok((Some(pending), pending.len()))
        } else {
            Ok((None, 0))
        },
        Some(d) => if d > limit {
            Err(FrameError::TooLarge(limit))
        } else {
            let frame = without_carriage_return(pending.take(d));
            if frame.len() > 0 {
                Ok((Some(frame), (d + 1) as nat))
            } else if 0 <= d < pending.len() {
                match spec_extract(pending.skip(d + 1), eof, limit) {
                    Ok((f, c)) => Ok((f, (d + 1 + c) as nat)),
                    Err(e) => Err(e),
                }
            } else {
                Ok((None, 0))
            }
        },
    }
}

/// An extraction result shifted by `k` bytes skipped before it.
pub open spec fn shifted(r: Result<(Option<Seq<u8>>, nat), FrameError>, k: nat) -> Result<(Option<Seq<u8>>, nat), FrameError> {
    match r {
        Ok((f, c)) => Ok((f, k + c)),
        Err(e) => Err(e),
    }
}

/// Skipping an empty line shifts the extraction of what follows it.
proof fn lemma_extract_empty_line(pending: Seq<u8>, d: int, eof: bool, limit: usize)
    requires
        first_newline(pending) == Some(d),
        0 <= d < pending.len(),
        d <= limit,
        without_carriage_return(pending.take(d)).len() == 0,
    ensures
        spec_extract(pending, eof, limit) == shifted(spec_extract(pending.skip(d + 1), eof, limit), (d + 1) as nat),
{
    reveal(spec_extract);
}

/// One unfolding of frame extraction.
proof fn lemma_extract_step(pending: Seq<u8>, eof: bool, limit: usize)
    ensures
        first_newline(pending) is None ==> spec_extract(pending, eof, limit) == (if pending.len() > limit {
            Err::<(Option<Seq<u8>>, nat), FrameError>(FrameError::TooLarge(limit))
        } else if eof && pending.len() > 0 {
            Ok((Some(pending), pending.len()))
        } else {
            Ok((None, 0))
        }),
        first_newline(pending) matches Some(d) ==> (d > limit ==> spec_extract(pending, eof, limit) == Err::<
            (Option<Seq<u8>>, nat),
            FrameError,
        >(FrameError::TooLarge(limit))),
        first_newline(pending) matches Some(d) ==> (d <= limit && without_carriage_return(pending.take(d)).len() > 0
            ==> spec_extract(pending, eof, limit) == Ok::<(Option<Seq<u8>>, nat), FrameError>(
            (Some(without_carriage_return(pending.take(d))), (d + 1) as nat),
        )),
{
    reveal(spec_extract);
}

/// Skipping twice is skipping the sum.
proof fn lemma_skip_skip(s: Seq<u8>, a: int, b: int)
    requires
        0 <= a,
        0 <= b,
        a + b <= s.len(),
    ensures
        s.skip(a).skip(b) == s.skip(a + b),
{
    assert(s.skip(a).skip(b) =~= s.skip(a + b));
}

/// Read-ahead bytes of a stream that have not yet formed a returned frame.
#[derive(Debug)]
pub struct FrameBuffer {
    buffer: Vec<u8>,
    consumed: usize,
    eof: bool,
}

impl FrameBuffer {
    /// The returned prefix lies within the read bytes.
    pub closed spec fn wf(&self) -> bool {
        self.consumed <= self.buffer@.len()
    }

    /// Bytes read from the stream but not yet returned in a frame.
    pub closed spec fn spec_pending(&self) -> Seq<u8> {
        self.buffer@.skip(self.consumed as int)
    }

    /// Bytes already returned in frames that the buffer still holds.
    pub closed spec fn spec_released(&self) -> nat {
        self.consumed as nat
    }

    /// Whether the stream has ended.
    pub closed spec fn spec_eof(&self) -> bool {
        self.eof
    }

    /// An empty buffer of a stream that has not ended.
    pub fn new() -> (r: Self)
        ensures
            r.wf(),
            r.spec_pending() == Seq::<u8>::empty(),
            r.spec_released() == 0,
            !r.spec_eof(),
    {
        let r = Self { buffer: Vec::new(), consumed: 0, eof: false };
        assert(r.buffer@.skip(0) =~= Seq::<u8>::empty());
        r
    }

    /// Whether bytes have left the stream but not yet formed a returned frame.
    pub fn has_buffered_input(&self) -> (r: bool)
        requires
            self.wf(),
        ensures
            r == (self.spec_pending().len() > 0),
    {
        self.consumed < self.buffer.len()
    }

    /// Whether the stream has ended.
    pub fn at_end(&self) -> (r: bool)
        ensures
            r == self.spec_eof(),
    {
        self.eof
    }

    /// Records that the stream ended.
    pub fn mark_end(&mut self)
        requires
            old(self).wf(),
        ensures
            final(self).wf(),
            final(self).spec_pending() == old(self).spec_pending(),
            final(self).spec_eof(),
    {
        self.eof = true;
    }

    /// Appends bytes read from the stream.
    pub fn push_bytes(&mut self, bytes: &[u8])
        requires
            old(self).wf(),
        ensures
            final(self).wf(),
            final(self).spec_pending() == old(self).spec_pending() + bytes@,
            final(self).spec_eof() == old(self).spec_eof(),
    {
        let ghost before = self.buffer@;
        let mut grown: Vec<u8> = Vec::new();
        std::mem::swap(&mut grown, &mut self.buffer);
        assert(grown@ == before);
        let mut i: usize = 0;
        while i < bytes.len()
            invariant
                i <= bytes.len(),
                grown@ == before + bytes@.take(i as int),
            decreases bytes.len() - i,
        {
            grown.push(bytes[i]);
            assert(grown@ =~= before + bytes@.take(i + 1));
            i += 1;
        }
        assert(grown@ =~= before + bytes@);
        self.buffer = grown;
        assert(self.buffer@.skip(self.consumed as int) =~= before.skip(self.consumed as int) + bytes@);
    }

    /// Drops bytes already returned, keeping the pending bytes: they are dropped when nothing
    /// is pending or when at least `COMPACT_AFTER_BYTES` of them are held.
    pub fn compact(&mut self)
        requires
            old(self).wf(),
        ensures
            final(self).wf(),
            final(self).spec_pending() == old(self).spec_pending(),
            final(self).spec_eof() == old(self).spec_eof(),
            final(self).spec_released() == if old(self).spec_pending().len() == 0 || old(self).spec_released()
                >= COMPACT_AFTER_BYTES {
                0
            } else {
                old(self).spec_released()
            },
    {
        if self.consumed == self.buffer.len() {
            self.buffer = Vec::new();
            self.consumed = 0;
            assert(self.buffer@.skip(0) =~= Seq::<u8>::empty());
        } else if self.consumed >= COMPACT_AFTER_BYTES {
            let ghost pending = self.buffer@.skip(self.consumed as int);
            let mut kept: Vec<u8> = Vec::new();
            let mut i: usize = self.consumed;
            while i < self.buffer.len()
                invariant
                    self.consumed <= i <= self.buffer@.len(),
                    kept@ == self.buffer@.subrange(self.consumed as int, i as int),
                decreases self.buffer.len() - i,
            {
                kept.push(self.buffer[i]);
                assert(kept@ =~= self.buffer@.subrange(self.consumed as int, i + 1));
                i += 1;
            }
            assert(kept@ =~= pending);
            self.buffer = kept;
            self.consumed = 0;
            assert(self.buffer@.skip(0) =~= pending);
        }
    }

    /// Takes the next frame out of the pending bytes, if one is complete.
    #[verifier::rlimit(100)]
    #[verifier::spinoff_prover]
    pub fn extract_frame(&mut self, limit: FrameLimit) -> (r: Result<Option<Vec<u8>>, FrameError>)
        requires
            old(self).wf(),
        ensures
            final(self).wf(),
            final(self).spec_eof() == old(self).spec_eof(),
            match spec_extract(old(self).spec_pending(), old(self).spec_eof(), limit.spec_get()) {
                Err(e) => r == Err::<Option<Vec<u8>>, FrameError>(e),
                Ok((frame, used)) => r matches Ok(f) && final(self).spec_pending() == old(self).spec_pending().skip(
                    used as int,
                ) && match f {
                    Some(v) => frame == Some(v@),
                    None => frame is None,
                },
            },
    {
        let ghost start_pending = self.buffer@.skip(self.consumed as int);
        let ghost start_consumed = self.consumed as int;
        let max = limit.get();
        loop
            invariant
                self.consumed <= self.buffer@.len(),
                0 <= start_consumed <= self.consumed,
                self.eof == old(self).eof,
                self.buffer@ == old(self).buffer@,
                start_pending == old(self).spec_pending(),
                start_pending == self.buffer@.skip(start_consumed),
                max == limit.spec_get(),
                spec_extract(start_pending, self.eof, max) == shifted(
                    spec_extract(self.buffer@.skip(self.consumed as int), self.eof, max),
                    (self.consumed - start_consumed) as nat,
                ),
            decreases self.buffer@.len() - self.consumed,
        {
            let start = self.consumed;
            let total = self.buffer.len();
            let ghost pending = self.buffer@.skip(start as int);
            proof {
                lemma_skip_skip(self.buffer@, start_consumed, start - start_consumed);
                lemma_extract_step(pending, self.eof, max);
            }
            match find_newline_from(&self.buffer, start) {
                None => {
                    if total - start > max {
                        return Err(FrameError::TooLarge(max));
                    }
                    if self.eof && total - start > 0 {
                        let frame = copy_range(&self.buffer, start, total);
                        self.consumed = total;
                        proof {
                            assert(frame@ =~= pending);
                            lemma_skip_skip(self.buffer@, start_consumed, total - start_consumed);
                        }
                        return Ok(Some(frame));
                    }
                    return Ok(None);
                },
                Some(d) => {
                    if d > max {
                        return Err(FrameError::TooLarge(max));
                    }
                    let end = start + d;
                    let mut frame = copy_range(&self.buffer, start, end);
                    assert(frame@ =~= pending.take(d as int));
                    if frame.len() > 0 && frame[frame.len() - 1] == 13 {
                        let _carriage_return = frame.pop();
                    }
                    self.consumed = end + 1;
                    proof {
                        lemma_skip_skip(self.buffer@, start as int, d + 1);
                        lemma_skip_skip(self.buffer@, start_consumed, self.consumed - start_consumed);
                    }
                    if frame.len() > 0 {
                        return Ok(Some(frame));
                    }
                    proof {
                        lemma_extract_empty_line(pending, d as int, self.eof, max);
                    }
                },
            }
        }
    }
}

/// The position of the first line delimiter at or after `start`, relative to `start`.
fn find_newline_from(buffer: &Vec<u8>, start: usize) -> (r: Option<usize>)
    requires
        start <= buffer@.len(),
    ensures
        match r {
            Some(d) => first_newline(buffer@.skip(start as int)) == Some(d as int) && start + d < buffer@.len(),
            None => first_newline(buffer@.skip(start as int)) is None,
        },
{
    let ghost pending = buffer@.skip(start as int);
    let mut i: usize = start;
    while i < buffer.len()
        invariant
            start <= i <= buffer@.len(),
            pending == buffer@.skip(start as int),
            forall|k: int| 0 <= k < i - start ==> pending[k] != newline(),
        decreases buffer.len() - i,
    {
        if buffer[i] == 10 {
            let d = i - start;
            proof {
                assert(pending[d as int] == newline());
                let c = choose|j: int| 0 <= j < pending.len() && pending[j] == newline() && forall|k: int| 0 <= k < j ==> pending[k] != newline();
                if c < d {
                } else if c > d {
                    assert(pending[d as int] != newline());
                }
            }
            return Some(d);
        }
        i += 1;
    }
    None
}

/// Copies `v[a..b]`.
fn copy_range(v: &Vec<u8>, a: usize, b: usize) -> (r: Vec<u8>)
    requires
        a <= b <= v@.len(),
    ensures
        r@ == v@.subrange(a as int, b as int),
{
    let mut out: Vec<u8> = Vec::new();
    let mut i: usize = a;
    while i < b
        invariant
            a <= i <= b <= v@.len(),
            out@ == v@.subrange(a as int, i as int),
        decreases b - i,
    {
        out.push(v[i]);
        assert(out@ =~= v@.subrange(a as int, i + 1));
        i += 1;
    }
    out
}

/// Lossless timed reader for blocking file descriptors: read-ahead bytes survive timeouts.
///
/// A caller preparing to replace its process image must defer replacement while
/// [`Self::has_buffered_input`] is true; kernel-buffered bytes survive `exec`, but bytes
/// already admitted here do not.
pub struct TimedFrameReader<R> {
    /// The underlying blocking stream.
    pub reader: R,
    limit: FrameLimit,
    buffered: FrameBuffer,
}

impl<R> TimedFrameReader<R> {
    /// The read-ahead state is well formed.
    pub closed spec fn wf(&self) -> bool {
        self.buffered.wf()
    }

    /// Bytes read but not yet returned in a frame.
    pub closed spec fn spec_pending(&self) -> Seq<u8> {
        self.buffered.spec_pending()
    }

    /// Whether the stream has ended.
    pub closed spec fn spec_eof(&self) -> bool {
        self.buffered.spec_eof()
    }

    /// The per-frame byte limit.
    pub closed spec fn spec_limit(&self) -> usize {
        self.limit.spec_get()
    }

    /// Constructs a timed reader with an explicit per-frame byte limit.
    pub fn new(reader: R, limit: FrameLimit) -> (r: Self)
        ensures
            r.wf(),
            r.spec_pending() == Seq::<u8>::empty(),
            !r.spec_eof(),
            r.spec_limit() == limit.spec_get(),
    {
        Self { reader, limit, buffered: FrameBuffer::new() }
    }

    /// Returns whether bytes have left the stream but not yet formed a returned frame.
    pub fn has_buffered_input(&self) -> (r: bool)
        requires
            self.wf(),
        ensures
            r == (self.spec_pending().len() > 0),
    {
        self.buffered.has_buffered_input()
    }

    /// The per-frame byte limit.
    pub fn limit(&self) -> (r: FrameLimit)
        ensures
            r.spec_get() == self.spec_limit(),
    {
        self.limit
    }

    /// Whether the stream has ended.
    pub fn at_end(&self) -> (r: bool)
        ensures
            r == self.spec_eof(),
    {
        self.buffered.at_end()
    }

    /// Records that the stream ended.
    pub fn mark_end(&mut self)
        requires
            old(self).wf(),
        ensures
            final(self).wf(),
            final(self).spec_pending() == old(self).spec_pending(),
            final(self).spec_eof(),
            final(self).spec_limit() == old(self).spec_limit(),
    {
        self.buffered.mark_end();
    }

    /// Admits bytes read from the stream, first dropping bytes already returned.
    pub fn take_in(&mut self, bytes: &[u8])
        requires
            old(self).wf(),
        ensures
            final(self).wf(),
            final(self).spec_pending() == old(self).spec_pending() + bytes@,
            final(self).spec_eof() == old(self).spec_eof(),
            final(self).spec_limit() == old(self).spec_limit(),
    {
        self.buffered.compact();
        self.buffered.push_bytes(bytes);
    }

    /// Takes the next frame out of the read-ahead bytes, if one is complete.
    pub fn extract_frame(&mut self) -> (r: Result<Option<Vec<u8>>, FrameError>)
        requires
            old(self).wf(),
        ensures
            final(self).wf(),
            final(self).spec_eof() == old(self).spec_eof(),
            final(self).spec_limit() == old(self).spec_limit(),
            match spec_extract(old(self).spec_pending(), old(self).spec_eof(), old(self).spec_limit()) {
                Err(e) => r == Err::<Option<Vec<u8>>, FrameError>(e),
                Ok((frame, used)) => r matches Ok(f) && final(self).spec_pending() == old(self).spec_pending().skip(
                    used as int,
                ) && match f {
                    Some(v) => frame == Some(v@),
                    None => frame is None,
                },
            },
    {
        let limit = self.limit;
        self.buffered.extract_frame(limit)
    }
}

/// A written frame followed by anything is extracted back as exactly its payload, using exactly
/// the written bytes.
pub proof fn lemma_written_frame_extracts(payload: Seq<u8>, rest: Seq<u8>, eof: bool, limit: usize)
    requires
        payload_refusal(payload, limit) is None,
    ensures
        spec_extract(written_frame(payload) + rest, eof, limit) == Ok::<(Option<Seq<u8>>, nat), FrameError>(
            (Some(payload), (payload.len() + 1) as nat),
        ),
{
    let w = written_frame(payload) + rest;
    let n = payload.len() as int;
    assert(w[n] == newline());
    assert forall|k: int| 0 <= k < n implies w[k] != newline() by {
        assert(w[k] == payload[k]);
        if payload[k] == newline() {
            assert(payload.contains(newline()));
        }
    }
    let c = choose|i: int| 0 <= i < w.len() && w[i] == newline() && forall|k: int| 0 <= k < i ==> w[k] != newline();
    if c < n {
        assert(w[c] != newline());
    } else if c > n {
        assert(w[n] != newline());
    }
    assert(first_newline(w) == Some(n));
    assert(w.take(n) =~= payload);
    assert(without_carriage_return(w.take(n)) == payload);
    lemma_extract_step(w, eof, limit);
}

} // verus!
