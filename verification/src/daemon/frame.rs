//! Frames: a length in four bytes, most significant first, and as many bytes
//! of payload. A response is the total length in eight bytes and the payload
//! in frames of bounded size.

use crate::text::decimal;
use vstd::prelude::*;

verus! {

/// The largest payload of one frame.
pub const MAX_FRAME_BYTES: usize = 8_388_608;

/// What can go wrong between a frontend and the daemon.
#[derive(Debug, PartialEq, Eq)]
pub enum IpcError {
    FrameTooLarge(usize),
    IncompleteFrame { need: usize, have: usize },
    InvalidJson(String),
    UnsupportedProtocol(u32),
    GenerationMismatch { daemon: u64, client: u64 },
    Unauthorized,
    Busy(String),
    Io(String),
    Serde(String),
    NotConnected,
}

impl IpcError {
    /// The message for the reader.
    pub open spec fn text(self) -> Seq<char> {
        match self {
            IpcError::FrameTooLarge(n) => "frame too large: "@ + crate::text::dec(n as nat)
                + " bytes > 8388608"@,
            IpcError::IncompleteFrame { need, have } => "incomplete frame: need "@
                + crate::text::dec(need as nat) + " bytes, have "@ + crate::text::dec(have as nat),
            IpcError::InvalidJson(e) => "invalid JSON: "@ + e@,
            IpcError::UnsupportedProtocol(v) => "unsupported protocol version: "@
                + crate::text::dec(v as nat),
            IpcError::GenerationMismatch { daemon, client } =>
                "store generation mismatch: daemon "@ + crate::text::dec(daemon as nat)
                + ", client "@ + crate::text::dec(client as nat),
            IpcError::Unauthorized => "unauthorized frontend"@,
            IpcError::Busy(e) => "daemon busy: "@ + e@,
            IpcError::Io(e) => "io: "@ + e@,
            IpcError::Serde(e) => "serde: "@ + e@,
            IpcError::NotConnected => "not connected to daemon"@,
        }
    }

    pub fn message(&self) -> (r: String)
        ensures
            r@ == self.text(),
    {
        match self {
            IpcError::FrameTooLarge(n) => "frame too large: ".to_owned().concat(
                decimal(*n as u64).as_str(),
            ).concat(" bytes > 8388608"),
            IpcError::IncompleteFrame { need, have } => "incomplete frame: need ".to_owned().concat(
                decimal(*need as u64).as_str(),
            ).concat(" bytes, have ").concat(decimal(*have as u64).as_str()),
            IpcError::InvalidJson(e) => "invalid JSON: ".to_owned().concat(e.as_str()),
            IpcError::UnsupportedProtocol(v) => "unsupported protocol version: ".to_owned().concat(
                decimal(*v as u64).as_str(),
            ),
            IpcError::GenerationMismatch { daemon, client } =>
                "store generation mismatch: daemon ".to_owned().concat(
                decimal(*daemon).as_str(),
            ).concat(", client ").concat(decimal(*client).as_str()),
            IpcError::Unauthorized => "unauthorized frontend".to_owned(),
            IpcError::Busy(e) => "daemon busy: ".to_owned().concat(e.as_str()),
            IpcError::Io(e) => "io: ".to_owned().concat(e.as_str()),
            IpcError::Serde(e) => "serde: ".to_owned().concat(e.as_str()),
            IpcError::NotConnected => "not connected to daemon".to_owned(),
        }
    }
}

// ---------------------------------------------------------------------------
// Numbers in bytes
// ---------------------------------------------------------------------------

/// A number in `width` bytes, most significant first.
pub open spec fn be(n: nat, width: nat) -> Seq<u8>
    decreases width,
{
    if width == 0 {
        Seq::empty()
    } else {
        be(n / 256, (width - 1) as nat).push((n % 256) as u8)
    }
}

/// The number that bytes write, most significant first.
pub open spec fn from_be(s: Seq<u8>) -> nat
    decreases s.len(),
{
    if s.len() == 0 {
        0
    } else {
        from_be(s.drop_last()) * 256 + s.last() as nat
    }
}

/// Bytes enough give the number back.
pub proof fn lemma_be(n: nat, width: nat)
    ensures
        be(n, width).len() == width,
        n < vstd::arithmetic::power::pow(256, width) ==> from_be(be(n, width)) == n,
    decreases width,
{
    vstd::arithmetic::power::lemma_pow0(256);
    if width > 0 {
        let m = n / 256;
        let w = (width - 1) as nat;
        lemma_be(m, w);
        let b = be(n, width);
        assert(b.drop_last() =~= be(m, w));
        assert(b.last() == (n % 256) as u8);
        if n < vstd::arithmetic::power::pow(256, width) {
            vstd::arithmetic::power::lemma_pow_adds(256, 1, w);
            vstd::arithmetic::power::lemma_pow1(256);
            assert(m < vstd::arithmetic::power::pow(256, w)) by (nonlinear_arith)
                requires
                    n < 256 * vstd::arithmetic::power::pow(256, w),
                    m == n / 256,
            ;
        }
    }
}

/// The bytes of a frame's length.
fn be_u32(n: u32) -> (r: Vec<u8>)
    ensures
        r@ == be(n as nat, 4),
{
    let mut out: Vec<u8> = Vec::new();
    out.push((n / 16_777_216) as u8);
    out.push((n / 65_536 % 256) as u8);
    out.push((n / 256 % 256) as u8);
    out.push((n % 256) as u8);
    proof {
        reveal_with_fuel(be, 5);
        let x = n as nat;
        assert(x / 256 / 256 == x / 65_536);
        assert(x / 256 / 256 / 256 == x / 16_777_216);
        assert(out@ =~= be(x, 4));
    }
    out
}

/// The bytes of a response's length.
fn be_u64(n: u64) -> (r: Vec<u8>)
    ensures
        r@ == be(n as nat, 8),
{
    let hi: u32 = (n / 4_294_967_296) as u32;
    let lo: u32 = (n % 4_294_967_296) as u32;
    let mut out = be_u32(hi);
    let mut low = be_u32(lo);
    let ghost first = out@;
    let ghost second = low@;
    out.append(&mut low);
    proof {
        reveal_with_fuel(be, 9);
        let x = n as nat;
        let h = hi as nat;
        let l = lo as nat;
        assert(x == h * 4_294_967_296 + l);
        assert(l % 256 == x % 256);
        assert(l / 256 % 256 == x / 256 % 256);
        assert(l / 256 / 256 % 256 == x / 256 / 256 % 256);
        assert(l / 256 / 256 / 256 % 256 == x / 256 / 256 / 256 % 256);
        assert(x / 256 / 256 / 256 / 256 == h);
        assert(out@ =~= be(x, 8));
    }
    out
}

/// The number in four bytes of a buffer.
pub fn u32_at(buf: &[u8], at: usize) -> (r: u32)
    requires
        at + 4 <= buf@.len(),
    ensures
        r == from_be(buf@.subrange(at as int, at + 4)),
{
    let a: u32 = buf[at] as u32;
    let b: u32 = buf[at + 1] as u32;
    let c: u32 = buf[at + 2] as u32;
    let d: u32 = buf[at + 3] as u32;
    proof {
        reveal_with_fuel(from_be, 5);
        let s = buf@.subrange(at as int, at + 4);
        assert(s.last() == buf@[at + 3]);
        let s3 = s.drop_last();
        assert(s3.last() == buf@[at + 2]);
        let s2 = s3.drop_last();
        assert(s2.last() == buf@[at + 1]);
        let s1 = s2.drop_last();
        assert(s1.last() == buf@[at as int]);
        assert(s1.drop_last().len() == 0);
    }
    ((a * 256 + b) * 256 + c) * 256 + d
}

/// The number in eight bytes of a buffer.
pub fn u64_at(buf: &[u8], at: usize) -> (r: u64)
    requires
        at + 8 <= buf@.len(),
    ensures
        r == from_be(buf@.subrange(at as int, at + 8)),
{
    let size: usize = buf.len();
    assert(at + 8 <= size);
    let hi: u64 = u32_at(buf, at) as u64;
    let lo: u64 = u32_at(buf, at + 4) as u64;
    proof {
        reveal_with_fuel(from_be, 9);
        let s = buf@.subrange(at as int, at + 8);
        let l = buf@.subrange(at + 4, at + 8);
        let h = buf@.subrange(at as int, at + 4);
        assert(s.drop_last().drop_last().drop_last().drop_last() =~= h);
        assert(s.last() == l.last());
        assert(s.drop_last().last() == l.drop_last().last());
        assert(s.drop_last().drop_last().last() == l.drop_last().drop_last().last());
        assert(s.drop_last().drop_last().drop_last().last()
            == l.drop_last().drop_last().drop_last().last());
        assert(l.drop_last().drop_last().drop_last().drop_last().len() == 0);
    }
    hi * 4_294_967_296 + lo
}

// ---------------------------------------------------------------------------
// Frames
// ---------------------------------------------------------------------------

fn copy_of(s: &[u8], lo: usize, hi: usize) -> (r: Vec<u8>)
    requires
        lo <= hi <= s@.len(),
    ensures
        r@ == s@.subrange(lo as int, hi as int),
{
    let mut out: Vec<u8> = Vec::new();
    let mut i: usize = lo;
    while i < hi
        invariant
            lo <= i <= hi <= s@.len(),
            out@ == s@.subrange(lo as int, i as int),
        decreases hi - i,
    {
        out.push(s[i]);
        proof {
            assert(s@.subrange(lo as int, i + 1) =~= s@.subrange(lo as int, i as int).push(
                s@[i as int],
            ));
        }
        i += 1;
    }
    out
}

/// A payload with its length before it.
pub open spec fn frame(payload: Seq<u8>) -> Seq<u8> {
    be(payload.len(), 4) + payload
}

/// Puts a payload in a frame. One that is too large is refused, not cut.
pub fn encode_frame(payload: &[u8]) -> (r: Result<Vec<u8>, IpcError>)
    ensures
        match r {
            Ok(f) => payload@.len() <= MAX_FRAME_BYTES && f@ == frame(payload@),
            Err(e) => payload@.len() > MAX_FRAME_BYTES && e == IpcError::FrameTooLarge(
                payload@.len() as usize,
            ),
        },
{
    if payload.len() > MAX_FRAME_BYTES {
        return Err(IpcError::FrameTooLarge(payload.len()));
    }
    let mut out = be_u32(payload.len() as u32);
    let mut body = copy_of(payload, 0, payload.len());
    proof {
        assert(payload@.subrange(0, payload@.len() as int) =~= payload@);
    }
    out.append(&mut body);
    Ok(out)
}

/// What a frame at the start of a buffer holds: the payload, or why there is
/// none.
pub open spec fn first_frame(buf: Seq<u8>) -> Result<Seq<u8>, IpcError> {
    if buf.len() < 4 {
        Err(IpcError::IncompleteFrame { need: 4, have: buf.len() as usize })
    } else {
        let n = from_be(buf.subrange(0, 4));
        if n > MAX_FRAME_BYTES {
            Err(IpcError::FrameTooLarge(n as usize))
        } else if buf.len() < 4 + n {
            Err(IpcError::IncompleteFrame { need: (4 + n) as usize, have: buf.len() as usize })
        } else {
            Ok(buf.subrange(4, 4 + n as int))
        }
    }
}

/// Whether a frame may be this long.
pub fn check_frame_len(len: u32) -> (r: Result<(), IpcError>)
    ensures
        r == (if len > MAX_FRAME_BYTES {
            Err::<(), IpcError>(IpcError::FrameTooLarge(len as usize))
        } else {
            Ok::<(), IpcError>(())
        }),
{
    if len > 8_388_608 {
        return Err(IpcError::FrameTooLarge(len as usize));
    }
    Ok(())
}

/// Takes one frame from the front of a buffer and moves past it. A buffer that
/// holds no whole frame is left as it is.
pub fn decode_frame(buf: &mut &[u8]) -> (r: Result<Vec<u8>, IpcError>)
    ensures
        match r {
            Ok(p) => first_frame(old(buf)@) == Ok::<Seq<u8>, IpcError>(p@) && final(buf)@
                == old(buf)@.skip(4 + p@.len() as int),
            Err(e) => first_frame(old(buf)@) == Err::<Seq<u8>, IpcError>(e) && final(buf)@
                == old(buf)@,
        },
{
    let have: usize = buf.len();
    if have < 4 {
        return Err(IpcError::IncompleteFrame { need: 4, have });
    }
    let n: u32 = u32_at(buf, 0);
    if let Err(e) = check_frame_len(n) {
        return Err(e);
    }
    let len: usize = n as usize;
    if have < 4 + len {
        return Err(IpcError::IncompleteFrame { need: 4 + len, have });
    }
    let payload = copy_of(buf, 4, 4 + len);
    let ghost before = buf@;
    *buf = vstd::slice::slice_subrange(*buf, 4 + len, have);
    proof {
        assert(before.subrange(4 + len, before.len() as int) =~= before.skip(4 + len));
    }
    Ok(payload)
}

/// What is put in a frame is taken out again, and what follows the frame is
/// left.
pub proof fn law_frame_round_trip(payload: Seq<u8>, rest: Seq<u8>)
    requires
        payload.len() <= MAX_FRAME_BYTES,
    ensures
        first_frame(frame(payload) + rest) == Ok::<Seq<u8>, IpcError>(payload),
        (frame(payload) + rest).skip(4 + payload.len() as int) == rest,
{
    let buf = frame(payload) + rest;
    lemma_be(payload.len(), 4);
    lemma_pow_256();
    assert(buf.subrange(0, 4) =~= be(payload.len(), 4));
    assert(buf.subrange(4, 4 + payload.len() as int) =~= payload);
    assert(buf.skip(4 + payload.len() as int) =~= rest);
}

proof fn lemma_pow_256()
    ensures
        vstd::arithmetic::power::pow(256, 4) == 4_294_967_296,
        vstd::arithmetic::power::pow(256, 8) == 18_446_744_073_709_551_616,
{
    reveal_with_fuel(vstd::arithmetic::power::pow, 9);
}

// ---------------------------------------------------------------------------
// Responses in chunks
// ---------------------------------------------------------------------------

/// A payload in pieces of at most the size of a frame. One that fits a frame is
/// one piece.
pub open spec fn chunks(payload: Seq<u8>) -> Seq<Seq<u8>>
    decreases payload.len(),
{
    if payload.len() <= MAX_FRAME_BYTES {
        seq![payload]
    } else {
        seq![payload.take(MAX_FRAME_BYTES as int)] + chunks(payload.skip(MAX_FRAME_BYTES as int))
    }
}

/// Pieces put together.
pub open spec fn joined_chunks(parts: Seq<Seq<u8>>) -> Seq<u8>
    decreases parts.len(),
{
    if parts.len() == 0 {
        Seq::empty()
    } else {
        parts[0] + joined_chunks(parts.drop_first())
    }
}

/// Cuts a payload into pieces that each fit a frame. One that fits a frame, be it
/// empty, is one piece.
pub fn split_payload(payload: &[u8]) -> (r: Result<Vec<Vec<u8>>, IpcError>)
    ensures
        r is Ok,
        crate::text::views(r->Ok_0@) == chunks(payload@),
        payload@.len() <= MAX_FRAME_BYTES ==> r->Ok_0@.len() == 1 && r->Ok_0@[0]@ == payload@,
{
    let mut out: Vec<Vec<u8>> = Vec::new();
    let mut at: usize = 0;
    let size: usize = payload.len();
    proof {
        assert(payload@.skip(0) =~= payload@);
        assert(crate::text::views(out@) + chunks(payload@) =~= chunks(payload@));
    }
    while size - at > MAX_FRAME_BYTES
        invariant
            size == payload@.len(),
            at <= size,
            size <= MAX_FRAME_BYTES ==> at == 0,
            crate::text::views(out@) + chunks(payload@.skip(at as int)) == chunks(payload@),
        decreases size - at,
    {
        let piece = copy_of(payload, at, at + MAX_FRAME_BYTES);
        let ghost before = out@;
        let ghost rest = payload@.skip(at as int);
        out.push(piece);
        proof {
            let n = MAX_FRAME_BYTES as int;
            assert(piece@ =~= rest.take(n));
            assert(rest.skip(n) =~= payload@.skip(at + n));
            assert(crate::text::views(out@) =~= crate::text::views(before).push(rest.take(n)));
            assert(crate::text::views(out@) + chunks(payload@.skip(at + n))
                =~= crate::text::views(before) + (seq![rest.take(n)] + chunks(
                payload@.skip(at + n),
            )));
        }
        at = at + MAX_FRAME_BYTES;
    }
    let last = copy_of(payload, at, size);
    let ghost before = out@;
    out.push(last);
    proof {
        let rest = payload@.skip(at as int);
        assert(last@ =~= rest);
        assert(crate::text::views(out@) =~= crate::text::views(before) + chunks(rest));
        if size <= MAX_FRAME_BYTES {
            assert(crate::text::views(out@).len() == 1);
            assert(crate::text::views(out@)[0] == payload@);
        }
    }
    Ok(out)
}

/// Nothing is lost in cutting: the pieces put together are the payload, each
/// fits a frame, and only an empty payload has an empty piece.
pub proof fn law_chunks(payload: Seq<u8>)
    ensures
        joined_chunks(chunks(payload)) == payload,
        payload.len() <= MAX_FRAME_BYTES ==> chunks(payload) == seq![payload],
        forall|i: int|
            0 <= i < chunks(payload).len() ==> (#[trigger] chunks(payload)[i]).len()
                <= MAX_FRAME_BYTES && (payload.len() > 0 ==> chunks(payload)[i].len() > 0),
    decreases payload.len(),
{
    reveal_with_fuel(joined_chunks, 2);
    if payload.len() <= MAX_FRAME_BYTES {
        assert(chunks(payload).drop_first() =~= Seq::empty());
        assert(joined_chunks(chunks(payload)) =~= payload);
    } else {
        let head = payload.take(MAX_FRAME_BYTES as int);
        let rest = payload.skip(MAX_FRAME_BYTES as int);
        law_chunks(rest);
        let all = chunks(payload);
        assert(all.drop_first() =~= chunks(rest));
        assert(all[0] == head);
        assert(head + rest =~= payload);
        assert forall|i: int| 0 <= i < all.len() implies (#[trigger] all[i]).len()
            <= MAX_FRAME_BYTES && all[i].len() > 0 by {
            if i > 0 {
                assert(all[i] == chunks(rest)[i - 1]);
            }
        }
    }
}

/// Frames one after the other.
pub open spec fn framed(parts: Seq<Seq<u8>>) -> Seq<u8>
    decreases parts.len(),
{
    if parts.len() == 0 {
        Seq::empty()
    } else {
        frame(parts[0]) + framed(parts.drop_first())
    }
}

/// The pieces of a payload that are sent. The length says all of an empty one.
pub open spec fn sent_chunks(payload: Seq<u8>) -> Seq<Seq<u8>> {
    if payload.len() == 0 {
        Seq::empty()
    } else {
        chunks(payload)
    }
}

/// The bytes of a response on the wire.
pub open spec fn response_bytes(payload: Seq<u8>) -> Seq<u8> {
    be(payload.len(), 8) + framed(sent_chunks(payload))
}

/// Writes a response: its length, then its pieces in frames.
pub fn encode_response(payload: &[u8]) -> (r: Vec<u8>)
    ensures
        r@ == response_bytes(payload@),
{
    let mut out = be_u64(payload.len() as u64);
    let mut at: usize = 0;
    proof {
        assert(payload@.skip(0) =~= payload@);
    }
    while at < payload.len()
        invariant
            at <= payload@.len(),
            out@ + framed(sent_chunks(payload@.skip(at as int))) == response_bytes(payload@),
        decreases payload@.len() - at,
    {
        let left: usize = payload.len() - at;
        let n: usize = if left <= MAX_FRAME_BYTES {
            left
        } else {
            MAX_FRAME_BYTES
        };
        let mut piece = copy_of(payload, at, at + n);
        let mut len = be_u32(n as u32);
        let ghost before = out@;
        let ghost rest = payload@.skip(at as int);
        let ghost body = piece@;
        out.append(&mut len);
        out.append(&mut piece);
        proof {
            assert(body =~= rest.take(n as int));
            assert(rest.skip(n as int) =~= payload@.skip(at + n));
            assert(out@ =~= before + frame(body));
            let all = chunks(rest);
            assert(all[0] == body) by {
                if left <= MAX_FRAME_BYTES {
                    assert(rest.take(n as int) =~= rest);
                }
            }
            assert(all.drop_first() =~= sent_chunks(payload@.skip(at + n)));
            assert(out@ + framed(sent_chunks(payload@.skip(at + n))) =~= before + (frame(body)
                + framed(sent_chunks(payload@.skip(at + n)))));
        }
        at = at + n;
    }
    proof {
        assert(payload@.skip(at as int).len() == 0);
        assert(out@ + framed(sent_chunks(payload@.skip(at as int))) =~= out@);
    }
    out
}

/// Whether a piece of a response may be this long, where `have` of `total` bytes
/// are there.
pub fn check_chunk(total: usize, have: usize, len: usize) -> (r: Result<(), IpcError>)
    ensures
        r == (if have + len > total {
            Err::<(), IpcError>(
                IpcError::IncompleteFrame {
                    need: total,
                    have: if have + len > usize::MAX {
                        usize::MAX
                    } else {
                        (have + len) as usize
                    },
                },
            )
        } else {
            Ok::<(), IpcError>(())
        }),
{
    let sum: usize = if have > usize::MAX - len {
        usize::MAX
    } else {
        have + len
    };
    if have > total || len > total - have {
        return Err(IpcError::IncompleteFrame { need: total, have: sum });
    }
    Ok(())
}

/// What is collected from frames until `total` bytes are there, with what of the
/// stream is left, or why that many are not: a frame is faulty, or goes beyond
/// the total.
pub open spec fn collected(stream: Seq<u8>, have: Seq<u8>, total: nat) -> Result<
    (Seq<u8>, Seq<u8>),
    IpcError,
>
    decreases stream.len(),
{
    if have.len() >= total {
        Ok((have, stream))
    } else {
        match first_frame(stream) {
            Ok(p) => if have.len() + p.len() > total || 4 + p.len() > stream.len() {
                Err(
                    IpcError::IncompleteFrame {
                        need: total as usize,
                        have: (have.len() + p.len()) as usize,
                    },
                )
            } else {
                collected(stream.skip(4 + p.len() as int), have + p, total)
            },
            Err(e) => Err(e),
        }
    }
}

/// The response at the front of a stream of bytes, with what of the stream is
/// left, or why there is none.
pub open spec fn first_response(stream: Seq<u8>) -> Result<(Seq<u8>, Seq<u8>), IpcError> {
    if stream.len() < 8 {
        Err(IpcError::IncompleteFrame { need: 8, have: stream.len() as usize })
    } else {
        collected(stream.skip(8), Seq::empty(), from_be(stream.take(8)))
    }
}

/// Takes one response from the front of a stream and moves past it, and no
/// further. A stream that holds no whole response is left as it is.
pub fn decode_response(stream: &mut &[u8]) -> (r: Result<Vec<u8>, IpcError>)
    ensures
        match r {
            Ok(p) => first_response(old(stream)@) == Ok::<(Seq<u8>, Seq<u8>), IpcError>(
                (p@, final(stream)@),
            ),
            Err(e) => first_response(old(stream)@) == Err::<(Seq<u8>, Seq<u8>), IpcError>(e)
                && final(stream)@ == old(stream)@,
        },
{
    let size: usize = stream.len();
    if size < 8 {
        return Err(IpcError::IncompleteFrame { need: 8, have: size });
    }
    let total: u64 = u64_at(stream, 0);
    let ghost whole = stream@;
    proof {
        assert(whole.subrange(0, 8) =~= whole.take(8));
        assert(whole.skip(8) =~= whole.subrange(8, whole.len() as int));
    }
    let mut rest: &[u8] = vstd::slice::slice_subrange(*stream, 8, size);
    let mut out: Vec<u8> = Vec::new();
    proof {
        assert(out@ =~= Seq::empty());
    }
    while (out.len() as u64) < total
        invariant
            stream@ == whole,
            whole == old(stream)@,
            first_response(whole) == collected(rest@, out@, total as nat),
            out@.len() + rest@.len() <= whole.len(),
            size == whole.len(),
        decreases rest@.len(),
    {
        let ghost before = rest@;
        match decode_frame(&mut rest) {
            Err(e) => {
                return Err(e);
            },
            Ok(mut piece) => {
                let ghost p = piece@;
                let ghost have = out@;
                assert(out@.len() + piece@.len() <= size);
                if out.len() as u64 + piece.len() as u64 > total {
                    return Err(
                        IpcError::IncompleteFrame {
                            need: total as usize,
                            have: out.len() + piece.len(),
                        },
                    );
                }
                out.append(&mut piece);
                proof {
                    assert(out@ =~= have + p);
                }
            },
        }
    }
    *stream = rest;
    Ok(out)
}

proof fn lemma_collects(parts: Seq<Seq<u8>>, have: Seq<u8>, rest: Seq<u8>)
    requires
        forall|i: int| 0 <= i < parts.len() ==> 0 < (#[trigger] parts[i]).len() <= MAX_FRAME_BYTES,
    ensures
        collected(
            framed(parts) + rest,
            have,
            (have.len() + joined_chunks(parts).len()) as nat,
        ) == Ok::<(Seq<u8>, Seq<u8>), IpcError>((have + joined_chunks(parts), rest)),
    decreases parts.len(),
{
    if parts.len() == 0 {
        assert(have + joined_chunks(parts) =~= have);
        assert(framed(parts) + rest =~= rest);
    } else {
        let head = parts[0];
        let tail = parts.drop_first();
        let stream = framed(parts) + rest;
        let more = framed(tail) + rest;
        assert(stream =~= frame(head) + more);
        law_frame_round_trip(head, more);
        assert forall|i: int| 0 <= i < tail.len() implies 0 < (#[trigger] tail[i]).len()
            <= MAX_FRAME_BYTES by {
            assert(tail[i] == parts[i + 1]);
        }
        lemma_collects(tail, have + head, rest);
        assert(have + joined_chunks(parts) =~= (have + head) + joined_chunks(tail));
        lemma_be(head.len(), 4);
        let total = (have.len() + joined_chunks(parts).len()) as nat;
        assert(have.len() < total);
    }
}

/// What is written as a response is read back, whole, whatever follows it on
/// the wire; and what follows it is left.
pub proof fn law_response_round_trip(payload: Seq<u8>, rest: Seq<u8>)
    requires
        payload.len() <= u64::MAX,
    ensures
        first_response(response_bytes(payload) + rest) == Ok::<(Seq<u8>, Seq<u8>), IpcError>(
            (payload, rest),
        ),
{
    let stream = response_bytes(payload) + rest;
    let parts = sent_chunks(payload);
    lemma_be(payload.len(), 8);
    lemma_pow_256();
    assert(stream.take(8) =~= be(payload.len(), 8));
    law_chunks(payload);
    assert(joined_chunks(parts) =~= payload);
    assert(stream.skip(8) =~= framed(parts) + rest);
    lemma_collects(parts, Seq::empty(), rest);
    assert(Seq::<u8>::empty() + payload =~= payload);
}

/// Responses that are written one after the other are read one after the other:
/// the first read gives the first and leaves the second, and the second read
/// gives that and leaves what follows.
pub proof fn law_responses_in_a_row(first: Seq<u8>, second: Seq<u8>, rest: Seq<u8>)
    requires
        first.len() <= u64::MAX,
        second.len() <= u64::MAX,
    ensures
        first_response(response_bytes(first) + response_bytes(second) + rest) == Ok::<
            (Seq<u8>, Seq<u8>),
            IpcError,
        >((first, response_bytes(second) + rest)),
        first_response(response_bytes(second) + rest) == Ok::<(Seq<u8>, Seq<u8>), IpcError>(
            (second, rest),
        ),
{
    law_response_round_trip(first, response_bytes(second) + rest);
    law_response_round_trip(second, rest);
    assert(response_bytes(first) + response_bytes(second) + rest =~= response_bytes(first) + (
    response_bytes(second) + rest));
}

} // verus!
