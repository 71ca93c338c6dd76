//! The encode/decode session state machine and owned frames.
//!
//! A session moves Allocated → Parameterized (`set_parameters`) → Opened
//! (`open2`), then operates as an encoder (`send_frame`/`receive_pkt`) or a
//! decoder (`send_packet`/`receive_frame`), drains after a flush, and ends
//! in the terminal EndOfStream state, reported repeatedly and idempotently.
//! Backpressure is explicit: a push into a saturated session and a pull
//! from an empty one answer WouldBlock, and the caller performs the
//! complementary operation before retrying. The session relays each
//! accepted input unit to exactly one output unit, oldest first, keeping
//! its timestamp; it does not model the codec algorithm itself.

use vstd::prelude::*;

use crate::buffer::{AVBufferRef, BufferArena};
use crate::codec::{AVCodec, AVCodecID, AVMediaType, AVPacket, AVPixelFormat, AV_NOPTS_VALUE};
use crate::dict::AVDictionary;
use crate::errors::AVERROR_EINVAL;

verus! {

/// How many accepted input units a session buffers before it answers
/// WouldBlock.
pub const CODEC_QUEUE_CAPACITY: usize = 8;

/// The session states.
#[derive(Clone, Copy, PartialEq, Eq, Structural, Debug)]
pub enum CodecState {
    /// Freshly allocated, not yet parameterized.
    Allocated,
    /// Parameters set, not yet opened.
    Parameterized,
    /// Open and accepting input.
    Opened,
    /// Flushed: no more input, buffered output still draining.
    Draining,
    /// Terminal: no input accepted, no output will ever come.
    EndOfStream,
}

/// The result of pushing one unit into a session or graph node.
#[derive(PartialEq, Eq, Structural, Debug)]
pub enum PushResult {
    /// The unit was accepted.
    Accepted,
    /// The internal queue is saturated: drain outputs, then retry.
    WouldBlock,
    /// No more input is accepted.
    EndOfStream,
    /// A hard failure with its status code.
    Error(i32),
}

/// The result of pulling one unit from a session or graph node.
#[derive(PartialEq, Eq, Structural, Debug)]
pub enum PullResult {
    /// One unit was produced into the out-parameter.
    Produced,
    /// Nothing is ready: feed more input, then retry.
    WouldBlock,
    /// Terminal: no more output will ever be produced.
    EndOfStream,
    /// A hard failure with its status code.
    Error(i32),
}

/// The payload shared by every reference to one frame: its bytes and,
/// for an accelerator-resident frame, the pool slot it was drawn from.
pub struct FrameData {
    pub bytes: Vec<u8>,
    pub pool_slot: Option<usize>,
}

/// An owned media frame: picture metadata, a timestamp, and a shared
/// handle to its payload. Taking a reference (`av_frame_ref`) shares the
/// payload instead of copying it.
pub struct AVFrame {
    pub width: i32,
    pub height: i32,
    pub format: AVPixelFormat,
    pub pts: i64,
    pub buf: Option<AVBufferRef<FrameData>>,
}

impl AVFrame {
    /// A fresh frame with no payload and unset metadata.
    pub fn new() -> (f: Self)
        ensures
            f.width == 0,
            f.height == 0,
            f.format == -1,
            f.pts == AV_NOPTS_VALUE,
            f.buf is None,
    {
        AVFrame { width: 0, height: 0, format: -1, pts: AV_NOPTS_VALUE, buf: None }
    }
}

/// A new handle to the same frame: the metadata is copied, the payload is
/// shared by taking one more reference, never duplicated.
pub fn av_frame_ref(frames: &mut BufferArena<FrameData>, f: &AVFrame) -> (r: AVFrame)
    requires
        old(frames).wf(),
        f.buf matches Some(b) ==> old(frames).live(b) && old(frames).counts()[b.slot as int]
            < u64::MAX,
    ensures
        final(frames).wf(),
        r.width == f.width && r.height == f.height && r.format == f.format && r.pts == f.pts,
        match f.buf {
            Some(b) => {
                &&& r.buf matches Some(rb) && rb.slot == b.slot
                &&& final(frames).counts() == old(frames).counts().update(
                    b.slot as int,
                    (old(frames).counts()[b.slot as int] + 1) as u64,
                )
                &&& final(frames).freed() == old(frames).freed()
                &&& final(frames).payloads() == old(frames).payloads()
                &&& final(frames).n_slots() == old(frames).n_slots()
            },
            None => r.buf is None && *final(frames) == *old(frames),
        },
{
    let buf = match &f.buf {
        Some(b) => Some(frames.buffer_ref(b)),
        None => None,
    };
    AVFrame { width: f.width, height: f.height, format: f.format, pts: f.pts, buf }
}

/// Mutable encode/decode parameters, copied into a session before opening.
#[derive(Clone, Copy)]
pub struct AVCodecParameters {
    pub codec_id: AVCodecID,
    pub media_type: AVMediaType,
    pub width: i32,
    pub height: i32,
    pub format: AVPixelFormat,
    pub bit_rate: i64,
}

impl AVCodecParameters {
    /// Fresh parameters with nothing set.
    pub fn new() -> (p: Self)
        ensures
            p.codec_id == 0,
            p.media_type == -1,
            p.width == 0,
            p.height == 0,
            p.format == -1,
            p.bit_rate == 0,
    {
        AVCodecParameters {
            codec_id: 0,
            media_type: -1,
            width: 0,
            height: 0,
            format: -1,
            bit_rate: 0,
        }
    }

    /// The parameters currently held by a session.
    pub fn from(ctx: &AVCodecContext) -> (r: Result<Self, i32>)
        ensures
            r == Ok::<AVCodecParameters, i32>(ctx.params()),
    {
        Ok(ctx.read_params())
    }
}

/// Whether `open2` succeeds on a session in this condition: it must be
/// parameterized but not yet opened, the descriptor handed in must name
/// the codec the session was allocated for, and the picture dimensions
/// must be set.
pub open spec fn spec_open_ok(ctx: AVCodecContext, codec: AVCodec) -> bool {
    &&& ctx.state() == CodecState::Parameterized
    &&& codec.id == ctx.codec_id()
    &&& ctx.params().width >= 1
    &&& ctx.params().height >= 1
}

/// One encode/decode session.
pub struct AVCodecContext {
    codec_id: AVCodecID,
    encoder: bool,
    decoder: bool,
    state: CodecState,
    params: AVCodecParameters,
    queue: Vec<i64>,
}

impl AVCodecContext {
    /// The session's state.
    pub closed spec fn state(&self) -> CodecState {
        self.state
    }

    /// The id of the codec the session was allocated for.
    pub closed spec fn codec_id(&self) -> AVCodecID {
        self.codec_id
    }

    /// Whether the session encodes.
    pub closed spec fn is_encoder_session(&self) -> bool {
        self.encoder
    }

    /// Whether the session decodes.
    pub closed spec fn is_decoder_session(&self) -> bool {
        self.decoder
    }

    /// The session's parameters.
    pub closed spec fn params(&self) -> AVCodecParameters {
        self.params
    }

    /// The timestamps of the accepted units not yet drained, oldest first.
    pub closed spec fn queued(&self) -> Seq<i64> {
        self.queue@
    }

    /// Everything but the state and the queue is as it was.
    pub open spec fn same_session(&self, other: &AVCodecContext) -> bool {
        &&& self.codec_id() == other.codec_id()
        &&& self.is_encoder_session() == other.is_encoder_session()
        &&& self.is_decoder_session() == other.is_decoder_session()
        &&& self.params() == other.params()
    }

    /// A fresh session for this codec descriptor: allocated but not yet
    /// configured.
    pub fn new(codec: &AVCodec) -> (c: Self)
        ensures
            c.state() == CodecState::Allocated,
            c.codec_id() == codec.id,
            c.is_encoder_session() == codec.encoder,
            c.is_decoder_session() == codec.decoder,
            c.queued() == Seq::<i64>::empty(),
            c.params().codec_id == 0,
            c.params().media_type == -1,
            c.params().width == 0,
            c.params().height == 0,
            c.params().format == -1,
            c.params().bit_rate == 0,
    {
        let c = AVCodecContext {
            codec_id: codec.id,
            encoder: codec.encoder,
            decoder: codec.decoder,
            state: CodecState::Allocated,
            params: AVCodecParameters {
                codec_id: 0,
                media_type: -1,
                width: 0,
                height: 0,
                format: -1,
                bit_rate: 0,
            },
            queue: Vec::new(),
        };
        proof {
            assert(c.queued() =~= Seq::<i64>::empty());
        }
        c
    }

    /// The parameters currently held.
    fn read_params(&self) -> (p: AVCodecParameters)
        ensures
            p == self.params(),
    {
        self.params
    }

    /// Copies parameters into the session. Succeeds exactly when the
    /// session is not yet opened; an opened, draining or ended session
    /// fails with `AVERROR_EINVAL`, unchanged.
    pub fn set_parameters(&mut self, parameters: &AVCodecParameters) -> (r: Result<i32, i32>)
        ensures
            ({
                let ok = old(self).state() == CodecState::Allocated || old(self).state()
                    == CodecState::Parameterized;
                if ok {
                    &&& r == Ok::<i32, i32>(0)
                    &&& final(self).state() == CodecState::Parameterized
                    &&& final(self).params() == *parameters
                    &&& final(self).codec_id() == old(self).codec_id()
                    &&& final(self).is_encoder_session() == old(self).is_encoder_session()
                    &&& final(self).is_decoder_session() == old(self).is_decoder_session()
                    &&& final(self).queued() == old(self).queued()
                } else {
                    r == Err::<i32, i32>(AVERROR_EINVAL) && *final(self) == *old(self)
                }
            }),
    {
        match self.state {
            CodecState::Allocated | CodecState::Parameterized => {
                self.params = *parameters;
                self.state = CodecState::Parameterized;
                Ok(0)
            },
            _ => Err(AVERROR_EINVAL),
        }
    }

    /// Opens the session, with optional tuning options handed through to
    /// the codec. Succeeds exactly when `spec_open_ok` holds: the session
    /// is parameterized, the descriptor names the codec it was allocated
    /// for, and the dimensions are set; otherwise fails with
    /// `AVERROR_EINVAL`, unchanged. All-or-nothing: on error nothing is
    /// left for the caller to release.
    pub fn open2(&mut self, codec: &AVCodec, options: Option<&AVDictionary>) -> (r: Result<
        i32,
        i32,
    >)
        ensures
            ({
                if spec_open_ok(*old(self), *codec) {
                    &&& r == Ok::<i32, i32>(0)
                    &&& final(self).state() == CodecState::Opened
                    &&& final(self).same_session(old(self))
                    &&& final(self).queued() == old(self).queued()
                } else {
                    r == Err::<i32, i32>(AVERROR_EINVAL) && *final(self) == *old(self)
                }
            }),
    {
        let state_ok = match self.state {
            CodecState::Parameterized => true,
            _ => false,
        };
        if state_ok && codec.id == self.codec_id && self.params.width >= 1 && self.params.height
            >= 1 {
            self.state = CodecState::Opened;
            Ok(0)
        } else {
            Err(AVERROR_EINVAL)
        }
    }

    /// Pushes one frame into an opened encoder session, or flushes it when
    /// no frame is handed in. An unopened session or a decoder session
    /// fails hard; a session already draining or ended accepts nothing
    /// more and answers EndOfStream; a saturated queue answers WouldBlock
    /// and the caller must drain packets first. An accepted frame joins
    /// the queue with its timestamp; an accepted flush starts draining.
    pub fn send_frame(&mut self, frame: Option<&AVFrame>) -> (r: PushResult)
        ensures
            final(self).same_session(old(self)),
            ({
                let st = old(self).state();
                if st == CodecState::Allocated || st == CodecState::Parameterized {
                    r == PushResult::Error(AVERROR_EINVAL) && *final(self) == *old(self)
                } else if !old(self).is_encoder_session() {
                    r == PushResult::Error(AVERROR_EINVAL) && *final(self) == *old(self)
                } else if st == CodecState::Draining || st == CodecState::EndOfStream {
                    r == PushResult::EndOfStream && *final(self) == *old(self)
                } else if frame is None {
                    &&& r == PushResult::Accepted
                    &&& final(self).state() == CodecState::Draining
                    &&& final(self).queued() == old(self).queued()
                } else if old(self).queued().len() >= CODEC_QUEUE_CAPACITY {
                    r == PushResult::WouldBlock && *final(self) == *old(self)
                } else {
                    &&& r == PushResult::Accepted
                    &&& final(self).state() == CodecState::Opened
                    &&& final(self).queued() == old(self).queued().push(frame.unwrap().pts)
                }
            }),
    {
        let unit = match frame {
            Some(f) => Some(f.pts),
            None => None,
        };
        self.push_unit(unit, true)
    }

    /// Pushes one packet into an opened decoder session, or flushes it;
    /// the dual of `send_frame`.
    pub fn send_packet(&mut self, pkt: Option<&AVPacket>) -> (r: PushResult)
        ensures
            final(self).same_session(old(self)),
            ({
                let st = old(self).state();
                if st == CodecState::Allocated || st == CodecState::Parameterized {
                    r == PushResult::Error(AVERROR_EINVAL) && *final(self) == *old(self)
                } else if !old(self).is_decoder_session() {
                    r == PushResult::Error(AVERROR_EINVAL) && *final(self) == *old(self)
                } else if st == CodecState::Draining || st == CodecState::EndOfStream {
                    r == PushResult::EndOfStream && *final(self) == *old(self)
                } else if pkt is None {
                    &&& r == PushResult::Accepted
                    &&& final(self).state() == CodecState::Draining
                    &&& final(self).queued() == old(self).queued()
                } else if old(self).queued().len() >= CODEC_QUEUE_CAPACITY {
                    r == PushResult::WouldBlock && *final(self) == *old(self)
                } else {
                    &&& r == PushResult::Accepted
                    &&& final(self).state() == CodecState::Opened
                    &&& final(self).queued() == old(self).queued().push(pkt.unwrap().pts)
                }
            }),
    {
        let unit = match pkt {
            Some(p) => Some(p.pts),
            None => None,
        };
        self.push_unit(unit, false)
    }

    /// The shared push decision: `unit` is the timestamp of the unit
    /// handed in, or nothing for a flush.
    fn push_unit(&mut self, unit: Option<i64>, need_encoder: bool) -> (r: PushResult)
        ensures
            final(self).same_session(old(self)),
            ({
                let st = old(self).state();
                let dir_ok = if need_encoder {
                    old(self).is_encoder_session()
                } else {
                    old(self).is_decoder_session()
                };
                if st == CodecState::Allocated || st == CodecState::Parameterized {
                    r == PushResult::Error(AVERROR_EINVAL) && *final(self) == *old(self)
                } else if !dir_ok {
                    r == PushResult::Error(AVERROR_EINVAL) && *final(self) == *old(self)
                } else if st == CodecState::Draining || st == CodecState::EndOfStream {
                    r == PushResult::EndOfStream && *final(self) == *old(self)
                } else if unit is None {
                    &&& r == PushResult::Accepted
                    &&& final(self).state() == CodecState::Draining
                    &&& final(self).queued() == old(self).queued()
                } else if old(self).queued().len() >= CODEC_QUEUE_CAPACITY {
                    r == PushResult::WouldBlock && *final(self) == *old(self)
                } else {
                    &&& r == PushResult::Accepted
                    &&& final(self).state() == CodecState::Opened
                    &&& final(self).queued() == old(self).queued().push(unit.unwrap())
                }
            }),
    {
        let dir_ok = if need_encoder {
            self.encoder
        } else {
            self.decoder
        };
        match self.state {
            CodecState::Allocated | CodecState::Parameterized => PushResult::Error(AVERROR_EINVAL),
            CodecState::Draining | CodecState::EndOfStream => {
                if !dir_ok {
                    PushResult::Error(AVERROR_EINVAL)
                } else {
                    PushResult::EndOfStream
                }
            },
            CodecState::Opened => {
                if !dir_ok {
                    return PushResult::Error(AVERROR_EINVAL);
                }
                match unit {
                    None => {
                        self.state = CodecState::Draining;
                        PushResult::Accepted
                    },
                    Some(pts) => {
                        if self.queue.len() >= CODEC_QUEUE_CAPACITY {
                            PushResult::WouldBlock
                        } else {
                            self.queue.push(pts);
                            PushResult::Accepted
                        }
                    },
                }
            },
        }
    }

    /// Pulls one packet from an opened encoder session. The oldest
    /// accepted frame is relayed as one packet keeping its timestamp; the
    /// packet's previous content is cleared. With nothing buffered, an
    /// open session answers WouldBlock (feed more input first), and a
    /// draining session reaches EndOfStream — terminal and idempotent:
    /// every later pull answers EndOfStream again.
    pub fn receive_pkt(&mut self, pkt: &mut AVPacket) -> (r: PullResult)
        ensures
            final(self).same_session(old(self)),
            ({
                let st = old(self).state();
                if st == CodecState::Allocated || st == CodecState::Parameterized
                    || !old(self).is_encoder_session() {
                    &&& r == PullResult::Error(AVERROR_EINVAL)
                    &&& *final(self) == *old(self)
                    &&& *final(pkt) == *old(pkt)
                } else if old(self).queued().len() > 0 {
                    &&& r == PullResult::Produced
                    &&& final(self).state() == st
                    &&& final(self).queued() == old(self).queued().drop_first()
                    &&& final(pkt).pts == old(self).queued()[0]
                    &&& final(pkt).dts == old(self).queued()[0]
                    &&& final(pkt).data@ == Seq::<u8>::empty()
                } else if st == CodecState::Opened {
                    &&& r == PullResult::WouldBlock
                    &&& *final(self) == *old(self)
                    &&& *final(pkt) == *old(pkt)
                } else {
                    &&& r == PullResult::EndOfStream
                    &&& final(self).state() == CodecState::EndOfStream
                    &&& final(self).queued() == old(self).queued()
                    &&& *final(pkt) == *old(pkt)
                }
            }),
    {
        let dir_ok = self.encoder;
        match self.state {
            CodecState::Allocated | CodecState::Parameterized => {
                return PullResult::Error(AVERROR_EINVAL);
            },
            _ => {},
        }
        if !dir_ok {
            return PullResult::Error(AVERROR_EINVAL);
        }
        if self.queue.len() > 0 {
            let pts = self.queue.remove(0);
            pkt.unref();
            pkt.pts = pts;
            pkt.dts = pts;
            proof {
                assert(self.queue@ =~= old(self).queued().drop_first());
            }
            PullResult::Produced
        } else {
            match self.state {
                CodecState::Opened => PullResult::WouldBlock,
                _ => {
                    self.state = CodecState::EndOfStream;
                    PullResult::EndOfStream
                },
            }
        }
    }

    /// Pulls one frame from an opened decoder session; the dual of
    /// `receive_pkt`. The produced frame carries the session's picture
    /// parameters and the relayed timestamp, and owns no payload handle.
    pub fn receive_frame(&mut self, frame: &mut AVFrame) -> (r: PullResult)
        ensures
            final(self).same_session(old(self)),
            ({
                let st = old(self).state();
                if st == CodecState::Allocated || st == CodecState::Parameterized
                    || !old(self).is_decoder_session() {
                    &&& r == PullResult::Error(AVERROR_EINVAL)
                    &&& *final(self) == *old(self)
                    &&& *final(frame) == *old(frame)
                } else if old(self).queued().len() > 0 {
                    &&& r == PullResult::Produced
                    &&& final(self).state() == st
                    &&& final(self).queued() == old(self).queued().drop_first()
                    &&& final(frame).pts == old(self).queued()[0]
                    &&& final(frame).width == old(self).params().width
                    &&& final(frame).height == old(self).params().height
                    &&& final(frame).format == old(self).params().format
                    &&& final(frame).buf is None
                } else if st == CodecState::Opened {
                    &&& r == PullResult::WouldBlock
                    &&& *final(self) == *old(self)
                    &&& *final(frame) == *old(frame)
                } else {
                    &&& r == PullResult::EndOfStream
                    &&& final(self).state() == CodecState::EndOfStream
                    &&& final(self).queued() == old(self).queued()
                    &&& *final(frame) == *old(frame)
                }
            }),
    {
        let dir_ok = self.decoder;
        match self.state {
            CodecState::Allocated | CodecState::Parameterized => {
                return PullResult::Error(AVERROR_EINVAL);
            },
            _ => {},
        }
        if !dir_ok {
            return PullResult::Error(AVERROR_EINVAL);
        }
        if self.queue.len() > 0 {
            let pts = self.queue.remove(0);
            frame.width = self.params.width;
            frame.height = self.params.height;
            frame.format = self.params.format;
            frame.pts = pts;
            frame.buf = None;
            proof {
                assert(self.queue@ =~= old(self).queued().drop_first());
            }
            PullResult::Produced
        } else {
            match self.state {
                CodecState::Opened => PullResult::WouldBlock,
                _ => {
                    self.state = CodecState::EndOfStream;
                    PullResult::EndOfStream
                },
            }
        }
    }
}

} // verus!
