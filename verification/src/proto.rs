//! Wire protocol for remote sessions, spoken between the client and the session daemon over a
//! single byte stream.
//!
//! Two frame kinds: compact JSON **control** messages, and raw binary **data** (terminal bytes) so
//! that high-volume output carries no encoding overhead.
//!
//! ```text
//! frame   = [u32 len big-endian][payload]
//! payload = [u8 tag][...]
//!   tag 1 (Control) = JSON of a control message
//!   tag 2 (Data)    = [u64 pane little-endian][raw bytes]
//! ```

use crate::text;
use crate::text::{push_bytes, push_number};
use vstd::bytes::*;
use vstd::prelude::*;
use vstd::slice::*;
use vstd::string::*;

verus! {

pub const PROTOCOL_VERSION: u32 = 2;

pub type PaneId = u64;

pub const TAG_CONTROL: u8 = 1;

pub const TAG_DATA: u8 = 2;

/// Reject absurd frame lengths so a desynchronised stream cannot make us allocate the world.
pub const MAX_FRAME: usize = 16 * 1024 * 1024;

/// Control messages (both directions). Terminal bytes travel as data frames, not here, so this
/// stays small and human-readable on the wire.
#[derive(Debug, PartialEq, Eq)]
pub enum Control {
    /// Client to server: first frame; negotiate version.
    Hello { version: u32 },
    /// Server to client: acknowledge the connection. `client` is this client's daemon-assigned id
    /// (0 from a version 1 daemon, which also never sends `Focus`, so that owner and client agree
    /// and the client behaves as the sole controller).
    Welcome { version: u32, client: u64 },
    /// Server to client: which attached client currently holds focus (drives layout and pane
    /// sizes). `owner == 0` means nobody until the next input claims it.
    Focus { owner: u64 },
    /// Client to server: open a new pane running a shell of the given size. `cwd_from`, when
    /// present, asks for the current directory of an existing pane.
    Open { pane: PaneId, cols: u16, rows: u16, cwd_from: Option<PaneId> },
    /// Server to client: the pane is live.
    Opened { pane: PaneId },
    /// Client to server (focused client): resize a pane. Server to client (to the others): conform
    /// your grid; the pane has one size, and the focused client's geometry is the one that wins.
    Resize { pane: PaneId, cols: u16, rows: u16 },
    /// Client to server: close a pane (kill its shell).
    Close { pane: PaneId },
    /// Server to client: a pane's shell exited.
    Exited { pane: PaneId },
    /// Server to client: a pane that exists in the daemon but that this client does not know yet.
    /// Its current screen follows as data frames.
    Restore { pane: PaneId },
    /// Server to client: the end of the restore burst on attach.
    Ready,
    /// The client's tab and pane tree, as JSON of a `Layout`. The daemon stores it opaquely.
    LayoutTree { json: String },
    /// Server to client: an attention-feed note captured by the daemon. Client to server: a feed
    /// update, used to clear a persisted note after the user dismissed it. JSON of a note.
    Notify { json: String },
}

/// What a control message says.
pub enum ControlView {
    Hello { version: u32 },
    Welcome { version: u32, client: u64 },
    Focus { owner: u64 },
    Open { pane: PaneId, cols: u16, rows: u16, cwd_from: Option<PaneId> },
    Opened { pane: PaneId },
    Resize { pane: PaneId, cols: u16, rows: u16 },
    Close { pane: PaneId },
    Exited { pane: PaneId },
    Restore { pane: PaneId },
    Ready,
    LayoutTree { json: Seq<char> },
    Notify { json: Seq<char> },
}

impl View for Control {
    type V = ControlView;

    open spec fn view(&self) -> ControlView {
        match *self {
            Control::Hello { version } => ControlView::Hello { version },
            Control::Welcome { version, client } => ControlView::Welcome { version, client },
            Control::Focus { owner } => ControlView::Focus { owner },
            Control::Open { pane, cols, rows, cwd_from } => ControlView::Open {
                pane,
                cols,
                rows,
                cwd_from,
            },
            Control::Opened { pane } => ControlView::Opened { pane },
            Control::Resize { pane, cols, rows } => ControlView::Resize { pane, cols, rows },
            Control::Close { pane } => ControlView::Close { pane },
            Control::Exited { pane } => ControlView::Exited { pane },
            Control::Restore { pane } => ControlView::Restore { pane },
            Control::Ready => ControlView::Ready,
            Control::LayoutTree { json } => ControlView::LayoutTree { json: json@ },
            Control::Notify { json } => ControlView::Notify { json: json@ },
        }
    }
}

impl Clone for Control {
    fn clone(&self) -> (c: Control)
        ensures
            c == *self,
    {
        match self {
            Control::Hello { version } => Control::Hello { version: *version },
            Control::Welcome { version, client } => Control::Welcome {
                version: *version,
                client: *client,
            },
            Control::Focus { owner } => Control::Focus { owner: *owner },
            Control::Open { pane, cols, rows, cwd_from } => Control::Open {
                pane: *pane,
                cols: *cols,
                rows: *rows,
                cwd_from: *cwd_from,
            },
            Control::Opened { pane } => Control::Opened { pane: *pane },
            Control::Resize { pane, cols, rows } => Control::Resize {
                pane: *pane,
                cols: *cols,
                rows: *rows,
            },
            Control::Close { pane } => Control::Close { pane: *pane },
            Control::Exited { pane } => Control::Exited { pane: *pane },
            Control::Restore { pane } => Control::Restore { pane: *pane },
            Control::Ready => Control::Ready,
            Control::LayoutTree { json } => Control::LayoutTree { json: json.clone() },
            Control::Notify { json } => Control::Notify { json: json.clone() },
        }
    }
}

/// A snapshot of the client's tab and pane tree for one session, with daemon pane ids at the
/// leaves. The daemon replays it on reattach so the client can rebuild the splits and tabs.
#[derive(Debug, PartialEq, Eq)]
pub struct Layout {
    pub tabs: Vec<LayoutTab>,
}

#[derive(Debug, PartialEq, Eq)]
pub struct LayoutTab {
    pub root: LayoutNode,
    /// The focused pane's daemon id, if known.
    pub focus: Option<PaneId>,
}

/// A node in the layout tree: a pane leaf (by daemon pane id) or a split of two children.
#[derive(Debug, PartialEq, Eq)]
pub enum LayoutNode {
    Leaf { pane: PaneId },
    /// `cols` means side by side (vertical divider); otherwise stacked. `ratio` is the first
    /// child's share, as the bits of a single-precision number.
    Split { cols: bool, ratio: u32, a: Box<LayoutNode>, b: Box<LayoutNode> },
}

/// A decoded frame. A control message is carried as the JSON text it is on the wire.
#[derive(Debug, PartialEq, Eq)]
pub enum Frame {
    Control(Vec<u8>),
    /// Raw terminal bytes for a pane: output towards the client, input towards the daemon.
    Data { pane: PaneId, bytes: Vec<u8> },
}

/// What a frame says.
pub enum FrameView {
    Control(Seq<u8>),
    Data { pane: PaneId, bytes: Seq<u8> },
}

impl View for Frame {
    type V = FrameView;

    open spec fn view(&self) -> FrameView {
        match *self {
            Frame::Control(json) => FrameView::Control(json@),
            Frame::Data { pane, bytes } => FrameView::Data { pane, bytes: bytes@ },
        }
    }
}

/// Why bytes are no frame.
#[derive(Debug, Clone, Copy, PartialEq, Eq, Structural)]
pub enum FrameError {
    /// The length prefix is zero or above `MAX_FRAME`.
    BadLength(u32),
    /// A data payload too short for its pane number.
    ShortData,
    UnknownTag(u8),
    /// A payload of no bytes at all.
    Empty,
    /// The stream ended inside a frame.
    UnexpectedEof,
}

/// The big-endian bytes of a length.
pub open spec fn be32(n: u32) -> Seq<u8> {
    seq![
        (n / 0x100_0000) as u8,
        (n / 0x1_0000 % 0x100) as u8,
        (n / 0x100 % 0x100) as u8,
        (n % 0x100) as u8,
    ]
}

/// The number whose big-endian bytes start `s`.
pub open spec fn from_be32(s: Seq<u8>) -> int
    recommends
        s.len() >= 4,
{
    s[0] * 0x100_0000 + s[1] * 0x1_0000 + s[2] * 0x100 + s[3]
}

/// The payload that carries a frame.
pub open spec fn payload_of(f: FrameView) -> Seq<u8> {
    match f {
        FrameView::Control(json) => seq![TAG_CONTROL] + json,
        FrameView::Data { pane, bytes } => seq![TAG_DATA] + spec_u64_to_le_bytes(pane) + bytes,
    }
}

/// The bytes of a frame on the wire.
pub open spec fn encode(f: FrameView) -> Seq<u8> {
    be32(payload_of(f).len() as u32) + payload_of(f)
}

/// The frame that a payload carries.
pub open spec fn decode(p: Seq<u8>) -> Result<FrameView, FrameError> {
    if p.len() == 0 {
        Err(FrameError::Empty)
    } else if p[0] == TAG_CONTROL {
        Ok(FrameView::Control(p.skip(1)))
    } else if p[0] == TAG_DATA {
        if p.len() >= 9 {
            Ok(
                FrameView::Data {
                    pane: spec_u64_from_le_bytes(p.subrange(1, 9)),
                    bytes: p.skip(9),
                },
            )
        } else {
            Err(FrameError::ShortData)
        }
    } else {
        Err(FrameError::UnknownTag(p[0]))
    }
}

/// Whether a length prefix is acceptable.
pub open spec fn good_length(len: int) -> bool {
    0 < len <= MAX_FRAME
}

/// The frame at the front of `s` with the number of bytes it takes, or `None` while `s` does not
/// hold a whole one.
pub open spec fn parse(s: Seq<u8>) -> Result<Option<(FrameView, int)>, FrameError> {
    if s.len() < 4 {
        Ok(None)
    } else if !good_length(from_be32(s)) {
        Err(FrameError::BadLength(from_be32(s) as u32))
    } else if s.len() < 4 + from_be32(s) {
        Ok(None)
    } else {
        match decode(s.subrange(4, 4 + from_be32(s))) {
            Ok(f) => Ok(Some((f, 4 + from_be32(s)))),
            Err(e) => Err(e),
        }
    }
}

/// How a result of this module relates to the result the model gives.
pub open spec fn same_frame(
    r: Result<Option<(Frame, usize)>, FrameError>,
    v: Result<Option<(FrameView, int)>, FrameError>,
) -> bool {
    match (r, v) {
        (Ok(None), Ok(None)) => true,
        (Ok(Some((f, n))), Ok(Some((g, m)))) => f@ == g && n == m,
        (Err(a), Err(b)) => a == b,
        _ => false,
    }
}

impl FrameError {
    pub open spec fn text(self) -> Seq<char> {
        match self {
            FrameError::BadLength(n) => "bad frame length "@ + text::ascii(text::decimal(n as nat)),
            FrameError::ShortData => "short data frame"@,
            FrameError::UnknownTag(t) => "unknown frame tag "@ + text::ascii(text::decimal(t as nat)),
            FrameError::Empty => "empty frame"@,
            FrameError::UnexpectedEof => "unexpected end of file"@,
        }
    }

    /// The error as a line for the user.
    pub fn message(&self) -> (s: String)
        ensures
            s@ == self.text(),
    {
        match *self {
            FrameError::BadLength(n) => {
                let mut s = "bad frame length ".to_owned();
                push_number(&mut s, n as u128);
                s
            },
            FrameError::ShortData => "short data frame".to_owned(),
            FrameError::UnknownTag(t) => {
                let mut s = "unknown frame tag ".to_owned();
                push_number(&mut s, t as u128);
                s
            },
            FrameError::Empty => "empty frame".to_owned(),
            FrameError::UnexpectedEof => "unexpected end of file".to_owned(),
        }
    }
}

impl Frame {
    /// Append the frame to `out`, length prefix first.
    pub fn write(&self, out: &mut Vec<u8>)
        ensures
            final(out)@ == old(out)@ + encode(self@),
    {
        let mut payload: Vec<u8> = Vec::new();
        match self {
            Frame::Control(json) => {
                payload.push(TAG_CONTROL);
                push_bytes(&mut payload, json.as_slice());
            },
            Frame::Data { pane, bytes } => {
                payload.push(TAG_DATA);
                let le = u64_to_le_bytes(*pane);
                push_bytes(&mut payload, le.as_slice());
                push_bytes(&mut payload, bytes.as_slice());
            },
        }
        assert(payload@ =~= payload_of(self@));
        let n: u32 = payload.len() as u32;
        out.push((n / 0x100_0000) as u8);
        out.push((n / 0x1_0000 % 0x100) as u8);
        out.push((n / 0x100 % 0x100) as u8);
        out.push((n % 0x100) as u8);
        assert(out@ =~= old(out)@ + be32(n));
        push_bytes(out, payload.as_slice());
        assert(out@ =~= old(out)@ + encode(self@));
    }

    /// Take one frame off the front of `r`, a stream that has nothing more to come. `Ok(None)` is
    /// a clean end at a frame boundary.
    pub fn read(r: &mut &[u8]) -> (res: Result<Option<Frame>, FrameError>)
        ensures
            match parse(old(r)@) {
                Ok(Some((f, n))) => res matches Ok(Some(g)) && g@ == f && final(r)@ == old(r)@.skip(
                    n,
                ),
                Ok(None) => {
                    if old(r)@.len() == 0 {
                        res matches Ok(None) && final(r)@ == old(r)@
                    } else {
                        res matches Err(FrameError::UnexpectedEof) && final(r)@.len() == 0
                    }
                },
                Err(e) => res == Err::<Option<Frame>, FrameError>(e) && final(r)@ == old(r)@.skip(
                    if good_length(from_be32(old(r)@)) {
                        4 + from_be32(old(r)@)
                    } else {
                        4
                    },
                ),
            },
    {
        let s: &[u8] = *r;
        if s.len() == 0 {
            return Ok(None);
        }
        if s.len() < 4 {
            *r = slice_subrange(s, s.len(), s.len());
            return Err(FrameError::UnexpectedEof);
        }
        let rest = slice_subrange(s, 4, s.len());
        *r = rest;
        let len: usize = match checked_len(s) {
            Ok(n) => n,
            Err(e) => {
                return Err(e);
            },
        };
        if rest.len() < len {
            *r = slice_subrange(s, s.len(), s.len());
            return Err(FrameError::UnexpectedEof);
        }
        *r = slice_subrange(rest, len, rest.len());
        assert(rest@.skip(len as int) =~= s@.skip(4 + len));
        let payload = slice_subrange(rest, 0, len);
        assert(payload@ =~= s@.subrange(4, 4 + len));
        match decode_payload(payload) {
            Ok(f) => Ok(Some(f)),
            Err(e) => Err(e),
        }
    }

    /// Try to parse one frame from the front of `buf` (a growing read buffer). Returns the frame
    /// and how many bytes it consumed, or `None` if `buf` does not yet hold a whole frame.
    pub fn try_parse(buf: &[u8]) -> (res: Result<Option<(Frame, usize)>, FrameError>)
        ensures
            same_frame(res, parse(buf@)),
    {
        if buf.len() < 4 {
            return Ok(None);
        }
        let len: usize = match checked_len(buf) {
            Ok(n) => n,
            Err(e) => {
                return Err(e);
            },
        };
        if buf.len() - 4 < len {
            return Ok(None);
        }
        match decode_payload(slice_subrange(buf, 4, 4 + len)) {
            Ok(f) => Ok(Some((f, 4 + len))),
            Err(e) => Err(e),
        }
    }
}

/// The length that the first four bytes announce.
fn checked_len(bytes: &[u8]) -> (res: Result<usize, FrameError>)
    requires
        bytes.len() >= 4,
    ensures
        match res {
            Ok(n) => n == from_be32(bytes@) && good_length(n as int),
            Err(e) => !good_length(from_be32(bytes@)) && e == FrameError::BadLength(
                from_be32(bytes@) as u32,
            ),
        },
{
    let len: u32 = bytes[0] as u32 * 0x100_0000 + bytes[1] as u32 * 0x1_0000 + bytes[2] as u32
        * 0x100 + bytes[3] as u32;
    if len == 0 || len as usize > MAX_FRAME {
        Err(FrameError::BadLength(len))
    } else {
        Ok(len as usize)
    }
}

fn decode_payload(payload: &[u8]) -> (res: Result<Frame, FrameError>)
    ensures
        match decode(payload@) {
            Ok(f) => res matches Ok(g) && g@ == f,
            Err(e) => res == Err::<Frame, FrameError>(e),
        },
{
    if payload.len() == 0 {
        return Err(FrameError::Empty);
    }
    let tag: u8 = payload[0];
    if tag == TAG_CONTROL {
        let json = slice_to_vec(slice_subrange(payload, 1, payload.len()));
        assert(json@ =~= payload@.skip(1));
        Ok(Frame::Control(json))
    } else if tag == TAG_DATA {
        if payload.len() >= 9 {
            let pane: u64 = u64_from_le_bytes(slice_subrange(payload, 1, 9));
            let bytes = slice_to_vec(slice_subrange(payload, 9, payload.len()));
            assert(bytes@ =~= payload@.skip(9));
            Ok(Frame::Data { pane, bytes })
        } else {
            Err(FrameError::ShortData)
        }
    } else {
        Err(FrameError::UnknownTag(tag))
    }
}

/// The bytes of a stream that do not make a frame yet.
#[derive(Debug, PartialEq, Eq)]
pub struct FrameBuffer {
    pending: Vec<u8>,
}

impl View for FrameBuffer {
    type V = Seq<u8>;

    closed spec fn view(&self) -> Seq<u8> {
        self.pending@
    }
}

impl FrameBuffer {
    pub fn new() -> (b: FrameBuffer)
        ensures
            b@ == Seq::<u8>::empty(),
    {
        FrameBuffer { pending: Vec::new() }
    }

    /// Add what was read from the stream.
    pub fn push(&mut self, chunk: &[u8])
        ensures
            final(self)@ == old(self)@ + chunk@,
    {
        push_bytes(&mut self.pending, chunk);
    }

    /// Take the next whole frame off the front. Where there is none, and on an error, the bytes
    /// stay.
    pub fn next_frame(&mut self) -> (res: Result<Option<Frame>, FrameError>)
        ensures
            match parse(old(self)@) {
                Ok(Some((f, n))) => res matches Ok(Some(g)) && g@ == f && final(self)@ == old(
                    self,
                )@.skip(n),
                Ok(None) => res matches Ok(None) && final(self)@ == old(self)@,
                Err(e) => res == Err::<Option<Frame>, FrameError>(e) && final(self)@ == old(self)@,
            },
    {
        match Frame::try_parse(self.pending.as_slice()) {
            Ok(Some((f, n))) => {
                let all = self.pending.as_slice();
                let rest = slice_to_vec(slice_subrange(all, n, all.len()));
                assert(rest@ =~= self.pending@.skip(n as int));
                self.pending = rest;
                Ok(Some(f))
            },
            Ok(None) => Ok(None),
            Err(e) => Err(e),
        }
    }

    /// The stream has ended: nothing may be left over.
    pub fn finish(&self) -> (res: Result<(), FrameError>)
        ensures
            self@.len() == 0 ==> res == Ok::<(), FrameError>(()),
            self@.len() > 0 ==> res == Err::<(), FrameError>(FrameError::UnexpectedEof),
    {
        if self.pending.len() == 0 {
            Ok(())
        } else {
            Err(FrameError::UnexpectedEof)
        }
    }
}

/// What a reader gets out of a stretch of the stream: the whole frames in order, the bytes left
/// over, and the error at which it stopped, if any.
pub struct Drained {
    pub frames: Seq<FrameView>,
    pub rest: Seq<u8>,
    pub error: Option<FrameError>,
}

/// Take frames off the front of `s` until none is left.
pub open spec fn drain(s: Seq<u8>) -> Drained
    decreases s.len(),
{
    match parse(s) {
        Ok(Some((f, n))) => {
            let d = drain(s.skip(n));
            Drained { frames: seq![f] + d.frames, rest: d.rest, error: d.error }
        },
        Ok(None) => Drained { frames: seq![], rest: s, error: None },
        Err(e) => Drained { frames: seq![], rest: s, error: Some(e) },
    }
}

/// The bytes of several frames, one after the other.
pub open spec fn encode_all(fs: Seq<FrameView>) -> Seq<u8>
    decreases fs.len(),
{
    if fs.len() == 0 {
        seq![]
    } else {
        encode(fs[0]) + encode_all(fs.skip(1))
    }
}

/// A length survives its big-endian form.
pub proof fn length_round_trips(n: u32)
    ensures
        be32(n).len() == 4,
        from_be32(be32(n)) == n,
{
}

/// What was written is what is read back, whatever follows it, for every frame that the reader
/// accepts by its length; and reading it takes exactly the bytes that were written.
pub proof fn write_then_read(f: FrameView, rest: Seq<u8>)
    requires
        payload_of(f).len() <= MAX_FRAME,
    ensures
        parse(encode(f) + rest) == Ok::<Option<(FrameView, int)>, FrameError>(
            Some((f, encode(f).len() as int)),
        ),
{
    lemma_auto_spec_u64_to_from_le_bytes();
    let p = payload_of(f);
    let s = encode(f) + rest;
    length_round_trips(p.len() as u32);
    assert(s.subrange(4, (4 + p.len()) as int) =~= p);
    match f {
        FrameView::Control(json) => {
            assert(p.skip(1) =~= json);
        },
        FrameView::Data { pane, bytes } => {
            assert(p.subrange(1, 9) =~= spec_u64_to_le_bytes(pane));
            assert(p.skip(9) =~= bytes);
        },
    }
}

/// A frame too long for the reader is refused by its length.
pub proof fn oversized_frame_is_refused(f: FrameView, rest: Seq<u8>)
    requires
        MAX_FRAME < payload_of(f).len() <= u32::MAX,
    ensures
        parse(encode(f) + rest) == Err::<Option<(FrameView, int)>, FrameError>(
            FrameError::BadLength(payload_of(f).len() as u32),
        ),
{
    length_round_trips(payload_of(f).len() as u32);
}

/// Once the front of the stream holds a frame or an error, more bytes do not change what it is.
pub proof fn more_bytes_change_nothing(s: Seq<u8>, t: Seq<u8>)
    requires
        parse(s) != Ok::<Option<(FrameView, int)>, FrameError>(None),
    ensures
        parse(s + t) == parse(s),
{
    if s.len() >= 4 + from_be32(s) {
        assert((s + t).subrange(4, 4 + from_be32(s)) =~= s.subrange(4, 4 + from_be32(s)));
    }
}

/// How the stream is cut into chunks does not matter: draining `s` and then, with what was left
/// over, `t` gives the frames of the whole.
pub proof fn chunks_do_not_matter(s: Seq<u8>, t: Seq<u8>)
    ensures
        drain(s).error is None ==> {
            let d = drain(drain(s).rest + t);
            &&& drain(s + t).frames == drain(s).frames + d.frames
            &&& drain(s + t).rest == d.rest
            &&& drain(s + t).error == d.error
        },
        drain(s).error is Some ==> {
            &&& drain(s + t).frames == drain(s).frames
            &&& drain(s + t).rest == drain(s).rest + t
            &&& drain(s + t).error == drain(s).error
        },
    decreases s.len(),
{
    match parse(s) {
        Ok(Some((f, n))) => {
            more_bytes_change_nothing(s, t);
            chunks_do_not_matter(s.skip(n), t);
            assert((s + t).skip(n) =~= s.skip(n) + t);
            let d = drain(drain(s).rest + t);
            assert(seq![f] + (drain(s.skip(n)).frames + d.frames) =~= drain(s).frames + d.frames);
        },
        Ok(None) => {
            assert(drain(s).frames + drain(s + t).frames =~= drain(s + t).frames);
        },
        Err(_) => {
            more_bytes_change_nothing(s, t);
        },
    }
}

/// A stream of written frames drains to those frames, and nothing is left over.
pub proof fn written_stream_drains(fs: Seq<FrameView>)
    requires
        forall|i: int| 0 <= i < fs.len() ==> payload_of(#[trigger] fs[i]).len() <= MAX_FRAME,
    ensures
        drain(encode_all(fs)).frames == fs,
        drain(encode_all(fs)).rest.len() == 0,
        drain(encode_all(fs)).error is None,
    decreases fs.len(),
{
    if fs.len() > 0 {
        let tail = fs.skip(1);
        assert forall|i: int| 0 <= i < tail.len() implies payload_of(#[trigger] tail[i]).len()
            <= MAX_FRAME by {
            assert(tail[i] == fs[i + 1]);
        }
        written_stream_drains(tail);
        write_then_read(fs[0], encode_all(tail));
        assert(encode_all(fs).skip(encode(fs[0]).len() as int) =~= encode_all(tail));
        assert(seq![fs[0]] + tail =~= fs);
    } else {
        assert(fs =~= seq![]);
    }
}

} // verus!
