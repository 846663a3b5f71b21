//! The streaming decoder for length-prefixed event-stream frames.
//!
//! A frame starts with a twelve-byte prelude: the total frame length and
//! the header-block length, both big-endian thirty-two bit words, then a
//! prelude checksum word. The frame ends with a four-byte message checksum.
//! The decoder validates the lengths, carves out the header block and the
//! payload, and recovers from garbage by advancing one byte at a time; the
//! checksum words are carried but not recomputed here.

use vstd::prelude::*;

verus! {

/// Twelve bytes of prelude and a four-byte trailing checksum.
pub const FRAME_OVERHEAD: usize = 16;

/// The prelude alone.
pub const PRELUDE_LEN: usize = 12;

/// Frames longer than this are rejected as garbage.
pub const MAX_FRAME_LEN: usize = 16777216;

/// Consecutive parse errors tolerated before the decoder latches.
pub const DEFAULT_MAX_ERRORS: usize = 10;

/// What the decoder is doing.
#[derive(Debug, Clone, Copy, PartialEq, Eq, Structural)]
pub enum DecoderState {
    /// Waiting for more bytes.
    AwaitingData,
    /// In the middle of a parse attempt.
    ParsingFrame,
    /// Latched after too many consecutive errors; `feed` unlatches.
    Recovering,
}

/// One decoded frame: its header block and its payload, checksums and
/// prelude stripped.
#[derive(Debug, Clone)]
pub struct Frame {
    pub headers: Vec<u8>,
    pub payload: Vec<u8>,
}

/// The mathematical value of a frame.
#[verifier::ext_equal]
pub struct FrameV {
    pub headers: Seq<u8>,
    pub payload: Seq<u8>,
}

impl View for Frame {
    type V = FrameV;

    open spec fn view(&self) -> FrameV {
        FrameV { headers: self.headers@, payload: self.payload@ }
    }
}

/// A parse failure.
#[derive(Debug, Clone, Copy, PartialEq, Eq, Structural)]
pub enum ParseError {
    /// The prelude's lengths cannot belong to a frame.
    BadLength,
    /// The consecutive-error bound was reached; the decoder latched.
    ErrorLimit,
}

/// The big-endian thirty-two bit word at offset `i`.
pub open spec fn be32(b: Seq<u8>, i: int) -> int {
    b[i] * 0x1000000 + b[i + 1] * 0x10000 + b[i + 2] * 0x100 + b[i + 3]
}

/// The prelude's lengths describe a well-formed frame.
pub open spec fn prelude_ok(b: Seq<u8>) -> bool {
    &&& be32(b, 0) >= FRAME_OVERHEAD
    &&& be32(b, 0) <= MAX_FRAME_LEN
    &&& be32(b, 4) <= be32(b, 0) - FRAME_OVERHEAD
}

/// The streaming frame decoder.
#[derive(Debug)]
pub struct EventStreamDecoder {
    /// Bytes fed and not yet consumed.
    pub buffer: Vec<u8>,
    pub state: DecoderState,
    /// Frames decoded since construction.
    pub frames_decoded: usize,
    /// Consecutive parse errors since the last success.
    pub error_count: usize,
    /// The consecutive-error bound.
    pub max_errors: usize,
}

/// The mathematical value of the decoder.
#[verifier::ext_equal]
pub struct DecoderV {
    pub buffer: Seq<u8>,
    pub state: DecoderState,
    pub frames_decoded: int,
    pub error_count: int,
    pub max_errors: int,
}

impl View for EventStreamDecoder {
    type V = DecoderV;

    open spec fn view(&self) -> DecoderV {
        DecoderV {
            buffer: self.buffer@,
            state: self.state,
            frames_decoded: self.frames_decoded as int,
            error_count: self.error_count as int,
            max_errors: self.max_errors as int,
        }
    }
}

/// The views of a list of decode outcomes.
pub open spec fn outcomes_v(s: Seq<Result<Frame, ParseError>>) -> Seq<Result<FrameV, ParseError>> {
    s.map_values(
        |x: Result<Frame, ParseError>|
            match x {
                Ok(f) => Result::<FrameV, ParseError>::Ok(f@),
                Err(e) => Result::<FrameV, ParseError>::Err(e),
            },
    )
}

/// `outs` is exactly the run of successive `decode` outcomes from decoder
/// value `d` to `dend`: the run stops before a latched decoder, stops
/// silently at a request for more data, includes each error, and ends right
/// after the error that latches.
pub open spec fn iter_trace(
    d: DecoderV,
    outs: Seq<Result<FrameV, ParseError>>,
    dend: DecoderV,
) -> bool
    decreases outs.len(),
{
    if d.state == DecoderState::Recovering {
        outs.len() == 0 && dend == d
    } else if d.buffer.len() == 0 {
        outs.len() == 0 && dend == d
    } else if d.buffer.len() < PRELUDE_LEN {
        outs.len() == 0 && dend == (DecoderV { state: DecoderState::AwaitingData, ..d })
    } else if !prelude_ok(d.buffer) {
        let ec = if d.error_count < d.max_errors {
            d.error_count + 1
        } else {
            d.error_count
        };
        let latched = ec >= d.max_errors;
        let d2 = DecoderV {
            buffer: d.buffer.skip(1),
            state: if latched {
                DecoderState::Recovering
            } else {
                DecoderState::AwaitingData
            },
            error_count: ec,
            ..d
        };
        if outs.len() == 0 {
            false
        } else if latched {
            outs[0] == Result::<FrameV, ParseError>::Err(ParseError::ErrorLimit) && outs.len()
                == 1 && dend == d2
        } else {
            outs[0] == Result::<FrameV, ParseError>::Err(ParseError::BadLength) && iter_trace(
                d2,
                outs.skip(1),
                dend,
            )
        }
    } else if d.buffer.len() < be32(d.buffer, 0) {
        outs.len() == 0 && dend == (DecoderV { state: DecoderState::AwaitingData, ..d })
    } else {
        let total = be32(d.buffer, 0);
        let hl = be32(d.buffer, 4);
        let f = FrameV {
            headers: d.buffer.subrange(PRELUDE_LEN as int, PRELUDE_LEN + hl),
            payload: d.buffer.subrange(PRELUDE_LEN + hl, total - 4),
        };
        let d2 = DecoderV {
            buffer: d.buffer.skip(total),
            state: DecoderState::AwaitingData,
            error_count: 0,
            frames_decoded: if d.frames_decoded < usize::MAX {
                d.frames_decoded + 1
            } else {
                d.frames_decoded
            },
            ..d
        };
        if outs.len() == 0 {
            false
        } else {
            outs[0] == Result::<FrameV, ParseError>::Ok(f) && iter_trace(d2, outs.skip(1), dend)
        }
    }
}

impl EventStreamDecoder {
    /// A decoder with the default buffer capacity.
    pub fn new() -> (r: Self)
        ensures
            r.buffer@.len() == 0,
            r.state == DecoderState::AwaitingData,
            r.frames_decoded == 0,
            r.error_count == 0,
            r.max_errors == DEFAULT_MAX_ERRORS,
    {
        Self::with_capacity(8192)
    }

    /// A decoder whose buffer starts with the given capacity.
    pub fn with_capacity(capacity: usize) -> (r: Self)
        ensures
            r.buffer@.len() == 0,
            r.state == DecoderState::AwaitingData,
            r.frames_decoded == 0,
            r.error_count == 0,
            r.max_errors == DEFAULT_MAX_ERRORS,
    {
        EventStreamDecoder {
            buffer: Vec::with_capacity(capacity),
            state: DecoderState::AwaitingData,
            frames_decoded: 0,
            error_count: 0,
            max_errors: DEFAULT_MAX_ERRORS,
        }
    }

    /// Appends bytes to the buffer; a latched decoder resumes.
    pub fn feed(&mut self, data: &[u8])
        ensures
            final(self).buffer@ == old(self).buffer@ + data@,
            final(self).state == if old(self).state == DecoderState::Recovering {
                DecoderState::AwaitingData
            } else {
                old(self).state
            },
            final(self).frames_decoded == old(self).frames_decoded,
            final(self).error_count == old(self).error_count,
            final(self).max_errors == old(self).max_errors,
    {
        self.buffer.extend_from_slice(data);
        if matches!(self.state, DecoderState::Recovering) {
            self.state = DecoderState::AwaitingData;
        }
    }

    /// Attempts to decode one frame at the front of the buffer.
    ///
    /// An empty or short buffer asks for more data. A prelude whose lengths
    /// cannot belong to a frame is an error: the buffer advances one byte
    /// to resync, the error counter grows, and at the bound the decoder
    /// latches into recovery. A successful parse consumes the frame and
    /// clears the error counter.
    pub fn decode(&mut self) -> (r: Result<Option<Frame>, ParseError>)
        ensures
            final(self).frames_decoded >= old(self).frames_decoded,
            final(self).max_errors == old(self).max_errors,
            old(self).buffer@.len() == 0 ==> r == Result::<Option<Frame>, ParseError>::Ok(
                Option::<Frame>::None,
            ) && *final(self) == *old(self),
            0 < old(self).buffer@.len() < PRELUDE_LEN ==> r == Result::<
                Option<Frame>,
                ParseError,
            >::Ok(Option::<Frame>::None) && final(self).buffer@ == old(self).buffer@ && final(self).state == DecoderState::AwaitingData && final(self).error_count == old(self).error_count && final(self).frames_decoded == old(self).frames_decoded,
            old(self).buffer@.len() >= PRELUDE_LEN && !prelude_ok(old(self).buffer@) ==> {
                &&& r is Err
                &&& final(self).buffer@ == old(self).buffer@.skip(1)
                &&& final(self).frames_decoded == old(self).frames_decoded
                &&& final(self).error_count == if old(self).error_count < old(self).max_errors {
                    old(self).error_count + 1
                } else {
                    old(self).error_count as int
                }
                &&& final(self).state == (if final(self).error_count >= old(self).max_errors {
                    DecoderState::Recovering
                } else {
                    DecoderState::AwaitingData
                })
                &&& (r == Result::<Option<Frame>, ParseError>::Err(ParseError::ErrorLimit)
                    <==> final(self).error_count >= old(self).max_errors)
            },
            old(self).buffer@.len() >= PRELUDE_LEN && prelude_ok(old(self).buffer@) && old(self).buffer@.len() < be32(old(self).buffer@, 0) ==> r == Result::<
                Option<Frame>,
                ParseError,
            >::Ok(Option::<Frame>::None) && final(self).buffer@ == old(self).buffer@ && final(self).state == DecoderState::AwaitingData && final(self).error_count == old(self).error_count && final(self).frames_decoded == old(self).frames_decoded,
            old(self).buffer@.len() >= PRELUDE_LEN && prelude_ok(old(self).buffer@) && old(self).buffer@.len() >= be32(old(self).buffer@, 0) ==> {
                let total = be32(old(self).buffer@, 0);
                let hl = be32(old(self).buffer@, 4);
                &&& match r {
                    Ok(f) => match f {
                        Some(frame) => {
                            &&& frame.headers@ == old(self).buffer@.subrange(
                                PRELUDE_LEN as int,
                                PRELUDE_LEN + hl,
                            )
                            &&& frame.payload@ == old(self).buffer@.subrange(
                                PRELUDE_LEN + hl,
                                total - 4,
                            )
                        },
                        None => false,
                    },
                    Err(_) => false,
                }
                &&& final(self).buffer@ == old(self).buffer@.skip(total)
                &&& final(self).state == DecoderState::AwaitingData
                &&& final(self).error_count == 0
                &&& final(self).frames_decoded == (if old(self).frames_decoded < usize::MAX {
                    old(self).frames_decoded + 1
                } else {
                    old(self).frames_decoded as int
                })
            },
    {
        if self.buffer.len() == 0 {
            return Ok(None);
        }
        self.state = DecoderState::ParsingFrame;
        if self.buffer.len() < PRELUDE_LEN {
            self.state = DecoderState::AwaitingData;
            return Ok(None);
        }
        let total = read_be32(&self.buffer, 0);
        let hl = read_be32(&self.buffer, 4);
        let good = total >= FRAME_OVERHEAD && total <= MAX_FRAME_LEN && hl <= total
            - FRAME_OVERHEAD;
        if !good {
            if self.error_count < self.max_errors {
                self.error_count = self.error_count + 1;
            }
            drop_front(&mut self.buffer, 1);
            if self.error_count >= self.max_errors {
                self.state = DecoderState::Recovering;
                return Err(ParseError::ErrorLimit);
            }
            self.state = DecoderState::AwaitingData;
            return Err(ParseError::BadLength);
        }
        if self.buffer.len() < total {
            self.state = DecoderState::AwaitingData;
            return Ok(None);
        }
        let headers = copy_range(&self.buffer, PRELUDE_LEN, PRELUDE_LEN + hl);
        let payload = copy_range(&self.buffer, PRELUDE_LEN + hl, total - 4);
        drop_front(&mut self.buffer, total);
        self.state = DecoderState::AwaitingData;
        if self.frames_decoded < usize::MAX {
            self.frames_decoded = self.frames_decoded + 1;
        }
        self.error_count = 0;
        Ok(Some(Frame { headers, payload }))
    }

    /// Decodes every frame available right now: the returned elements are
    /// the successive `decode` outcomes, and the run stops at the first
    /// request for more data or when the decoder latches, exactly as
    /// `iter_trace` lays down.
    pub fn decode_iter(&mut self) -> (r: Vec<Result<Frame, ParseError>>)
        ensures
            iter_trace(old(self)@, outcomes_v(r@), final(self)@),
            final(self).max_errors == old(self).max_errors,
            final(self).frames_decoded >= old(self).frames_decoded,
        decreases self.buffer@.len(),
    {
        let ghost d0 = self@;
        if matches!(self.state, DecoderState::Recovering) {
            let out: Vec<Result<Frame, ParseError>> = Vec::new();
            proof {
                assert(outcomes_v(out@) =~= Seq::<Result<FrameV, ParseError>>::empty());
                assert(iter_trace(d0, outcomes_v(out@), self@));
            }
            return out;
        }
        match self.decode() {
            Ok(Some(frame)) => {
                proof {
                    assert(self.buffer@.len() < d0.buffer.len());
                }
                let ghost fv = frame@;
                let ghost dmid = self@;
                let tail = self.decode_iter();
                let ghost tailv = tail@;
                let mut out = tail;
                out.insert(0, Ok(frame));
                proof {
                    let total = be32(d0.buffer, 0);
                    let hl = be32(d0.buffer, 4);
                    assert(fv =~= (FrameV {
                        headers: d0.buffer.subrange(PRELUDE_LEN as int, PRELUDE_LEN + hl),
                        payload: d0.buffer.subrange(PRELUDE_LEN + hl, total - 4),
                    }));
                    assert(dmid =~= (DecoderV {
                        buffer: d0.buffer.skip(total),
                        state: DecoderState::AwaitingData,
                        error_count: 0,
                        frames_decoded: if d0.frames_decoded < usize::MAX {
                            d0.frames_decoded + 1
                        } else {
                            d0.frames_decoded
                        },
                        ..d0
                    }));
                    assert(out@ =~= seq![Result::<Frame, ParseError>::Ok(frame)] + tailv);
                    assert(outcomes_v(out@) =~= seq![Result::<FrameV, ParseError>::Ok(fv)]
                        + outcomes_v(tailv));
                    assert(outcomes_v(out@).skip(1) =~= outcomes_v(tailv));
                    assert(iter_trace(d0, outcomes_v(out@), self@));
                }
                out
            },
            Ok(None) => {
                let out: Vec<Result<Frame, ParseError>> = Vec::new();
                proof {
                    assert(outcomes_v(out@) =~= Seq::<Result<FrameV, ParseError>>::empty());
                    if d0.buffer.len() == 0 {
                        assert(self@ =~= d0);
                    } else if d0.buffer.len() < PRELUDE_LEN {
                        assert(self@ =~= (DecoderV { state: DecoderState::AwaitingData, ..d0 }));
                    } else if !prelude_ok(d0.buffer) {
                        assert(false);
                    } else if d0.buffer.len() < be32(d0.buffer, 0) {
                        assert(self@ =~= (DecoderV { state: DecoderState::AwaitingData, ..d0 }));
                    } else {
                        assert(false);
                    }
                    assert(iter_trace(d0, outcomes_v(out@), self@));
                }
                out
            },
            Err(e) => {
                proof {
                    assert(self.buffer@.len() < d0.buffer.len());
                }
                let ghost ec = if d0.error_count < d0.max_errors {
                    d0.error_count + 1
                } else {
                    d0.error_count
                };
                let ghost d2 = DecoderV {
                    buffer: d0.buffer.skip(1),
                    state: if ec >= d0.max_errors {
                        DecoderState::Recovering
                    } else {
                        DecoderState::AwaitingData
                    },
                    error_count: ec,
                    ..d0
                };
                proof {
                    assert(self@ =~= d2);
                }
                if matches!(self.state, DecoderState::Recovering) {
                    let mut out: Vec<Result<Frame, ParseError>> = Vec::new();
                    out.push(Err(e));
                    proof {
                        assert(e == ParseError::ErrorLimit);
                        assert(outcomes_v(out@) =~= seq![
                            Result::<FrameV, ParseError>::Err(ParseError::ErrorLimit),
                        ]);
                        assert(iter_trace(d0, outcomes_v(out@), self@));
                    }
                    out
                } else {
                    let tail = self.decode_iter();
                    let ghost tailv = tail@;
                    let mut out = tail;
                    out.insert(0, Err(e));
                    proof {
                        assert(e == ParseError::BadLength);
                        assert(out@ =~= seq![Result::<Frame, ParseError>::Err(e)] + tailv);
                        assert(outcomes_v(out@) =~= seq![
                            Result::<FrameV, ParseError>::Err(ParseError::BadLength),
                        ] + outcomes_v(tailv));
                        assert(outcomes_v(out@).skip(1) =~= outcomes_v(tailv));
                        assert(iter_trace(d0, outcomes_v(out@), self@));
                    }
                    out
                }
            },
        }
    }
}

impl Default for EventStreamDecoder {
    fn default() -> (r: Self)
        ensures
            r.buffer@.len() == 0,
            r.state == DecoderState::AwaitingData,
            r.frames_decoded == 0,
            r.error_count == 0,
            r.max_errors == DEFAULT_MAX_ERRORS,
    {
        Self::new()
    }
}

/// Reads the big-endian thirty-two bit word at `i`.
fn read_be32(buf: &Vec<u8>, i: usize) -> (r: usize)
    requires
        i + 4 <= buf@.len(),
    ensures
        r == be32(buf@, i as int),
        r < 0x100000000,
{
    let n = buf.len();
    proof {
        assert(i + 4 <= n);
    }
    let b0 = buf[i] as usize;
    let b1 = buf[i + 1] as usize;
    let b2 = buf[i + 2] as usize;
    let b3 = buf[i + 3] as usize;
    b0 * 0x1000000 + b1 * 0x10000 + b2 * 0x100 + b3
}

/// Removes the first `k` bytes of the buffer.
fn drop_front(buf: &mut Vec<u8>, k: usize)
    requires
        k <= old(buf)@.len(),
    ensures
        final(buf)@ == old(buf)@.skip(k as int),
{
    let n = buf.len();
    let mut rest: Vec<u8> = Vec::new();
    let mut i: usize = k;
    while i < n
        invariant
            k <= i <= n,
            n == buf@.len(),
            buf@ == old(buf)@,
            rest@ =~= buf@.subrange(k as int, i as int),
        decreases n - i,
    {
        let b = buf[i];
        rest.push(b);
        i = i + 1;
    }
    proof {
        assert(rest@ =~= old(buf)@.skip(k as int));
    }
    *buf = rest;
}

/// Copies the byte range `from..to` out of the buffer.
fn copy_range(buf: &Vec<u8>, from: usize, to: usize) -> (r: Vec<u8>)
    requires
        from <= to <= buf@.len(),
    ensures
        r@ == buf@.subrange(from as int, to as int),
{
    let mut out: Vec<u8> = Vec::new();
    let mut i: usize = from;
    while i < to
        invariant
            from <= i <= to <= buf@.len(),
            out@ =~= buf@.subrange(from as int, i as int),
        decreases to - i,
    {
        let b = buf[i];
        out.push(b);
        i = i + 1;
    }
    proof {
        assert(out@ =~= buf@.subrange(from as int, to as int));
    }
    out
}

} // verus!
