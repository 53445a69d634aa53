//! The wire format of the interboard link.
//!
//! A frame is `start marker, kind, origin, sequence number (little endian),
//! tag, payload length, payload, checksum`. The checksum is the byte sum,
//! modulo 256, of everything between the marker and the checksum itself. The
//! same layout carries data frames of every reliability class and the
//! acknowledgement frames of the acknowledged classes.
//!
//! `spec_parse` is the meaning of a byte string as a frame; the executable
//! encoder and parser are proved against it, and the round-trip law says the
//! two sides of the link agree on the format.

use vstd::prelude::*;
use vstd::bytes::{
    lemma_auto_spec_u32_to_from_le_bytes,
    spec_u32_from_le_bytes,
    spec_u32_to_le_bytes,
    u32_from_le_bytes,
    u32_to_le_bytes,
};
use crate::messages::{Envelope, ReliabilityClass};
use crate::side::KeyboardSide;

verus! {

/// First byte of every frame; the receiver resynchronizes by scanning for it.
pub const START_MARKER: u8 = 0xB6;

/// Bytes a frame spends on everything but its payload: marker, kind, origin,
/// four sequence bytes, tag, payload length, checksum.
pub const FRAME_OVERHEAD: usize = 10;

/// Longest payload a single frame can carry (its length travels in one byte).
pub const MAX_PAYLOAD: usize = 255;

/// Everything that travels on the link: a payload-bearing frame, or the
/// acknowledgement of one by the `(origin, seq)` pair it acknowledges.
#[derive(Clone, PartialEq, Eq, Debug)]
pub enum Frame {
    Data { env: Envelope },
    Ack { origin: KeyboardSide, seq: u32 },
}

/// A frame as the specification sees it: the payload as a sequence.
pub enum FrameView {
    Data { tag: u8, data: Seq<u8>, class: ReliabilityClass, seq: u32, origin: KeyboardSide },
    Ack { origin: KeyboardSide, seq: u32 },
}

impl View for Frame {
    type V = FrameView;

    open spec fn view(&self) -> FrameView {
        match self {
            Frame::Data { env } => FrameView::Data {
                tag: env.tag,
                data: env.data@,
                class: env.class,
                seq: env.seq,
                origin: env.origin,
            },
            Frame::Ack { origin, seq } => FrameView::Ack { origin: *origin, seq: *seq },
        }
    }
}

/// Kind byte of a data frame of the given class.
pub open spec fn spec_class_byte(c: ReliabilityClass) -> u8 {
    match c {
        ReliabilityClass::Unreliable => 0u8,
        ReliabilityClass::LowLatency => 1u8,
        ReliabilityClass::Reliable => 2u8,
    }
}

/// Kind byte of an acknowledgement frame.
pub const ACK_KIND: u8 = 3;

pub open spec fn spec_class_of_byte(b: u8) -> Option<ReliabilityClass> {
    if b == 0 {
        Some(ReliabilityClass::Unreliable)
    } else if b == 1 {
        Some(ReliabilityClass::LowLatency)
    } else if b == 2 {
        Some(ReliabilityClass::Reliable)
    } else {
        None
    }
}

pub open spec fn spec_side_byte(s: KeyboardSide) -> u8 {
    match s {
        KeyboardSide::Left => 0u8,
        KeyboardSide::Right => 1u8,
    }
}

pub open spec fn spec_side_of_byte(b: u8) -> Option<KeyboardSide> {
    if b == 0 {
        Some(KeyboardSide::Left)
    } else if b == 1 {
        Some(KeyboardSide::Right)
    } else {
        None
    }
}

/// Byte sum, modulo 256, of a byte string.
pub open spec fn checksum_of(s: Seq<u8>) -> u8
    decreases s.len(),
{
    if s.len() == 0 {
        0u8
    } else {
        ((checksum_of(s.drop_last()) + s.last()) % 256) as u8
    }
}

pub open spec fn spec_frame_kind_byte(f: FrameView) -> u8 {
    match f {
        FrameView::Data { class, .. } => spec_class_byte(class),
        FrameView::Ack { .. } => ACK_KIND,
    }
}

pub open spec fn spec_frame_origin(f: FrameView) -> KeyboardSide {
    match f {
        FrameView::Data { origin, .. } => origin,
        FrameView::Ack { origin, .. } => origin,
    }
}

pub open spec fn spec_frame_seq(f: FrameView) -> u32 {
    match f {
        FrameView::Data { seq, .. } => seq,
        FrameView::Ack { seq, .. } => seq,
    }
}

pub open spec fn spec_frame_tag(f: FrameView) -> u8 {
    match f {
        FrameView::Data { tag, .. } => tag,
        FrameView::Ack { .. } => 0u8,
    }
}

pub open spec fn spec_frame_data(f: FrameView) -> Seq<u8> {
    match f {
        FrameView::Data { data, .. } => data,
        FrameView::Ack { .. } => Seq::empty(),
    }
}

/// A frame the format can carry: the payload fits the one-byte length field.
pub open spec fn spec_frame_ok(f: FrameView) -> bool {
    spec_frame_data(f).len() <= MAX_PAYLOAD
}

/// Everything between the marker and the checksum.
pub open spec fn spec_frame_body(f: FrameView) -> Seq<u8> {
    seq![spec_frame_kind_byte(f), spec_side_byte(spec_frame_origin(f))]
        + spec_u32_to_le_bytes(spec_frame_seq(f))
        + seq![spec_frame_tag(f), spec_frame_data(f).len() as u8]
        + spec_frame_data(f)
}

/// The exact bytes a frame puts on the wire.
pub open spec fn spec_frame_bytes(f: FrameView) -> Seq<u8> {
    seq![START_MARKER] + spec_frame_body(f) + seq![checksum_of(spec_frame_body(f))]
}

/// What a complete byte string means as a frame: `None` when it is not a
/// well-formed frame — wrong marker, wrong length, unknown kind or origin
/// byte, a nonempty acknowledgement, or a failing checksum.
pub open spec fn spec_parse(bytes: Seq<u8>) -> Option<FrameView> {
    if bytes.len() < FRAME_OVERHEAD {
        None
    } else if bytes[0] != START_MARKER {
        None
    } else if bytes.len() != bytes[8] + FRAME_OVERHEAD {
        None
    } else if bytes.last() != checksum_of(bytes.subrange(1, bytes.len() - 1)) {
        None
    } else {
        let seq = spec_u32_from_le_bytes(bytes.subrange(3, 7));
        let data = bytes.subrange(9, bytes.len() - 1);
        match spec_side_of_byte(bytes[2]) {
            None => None,
            Some(origin) => {
                if bytes[1] == ACK_KIND {
                    if bytes[7] == 0 && bytes[8] == 0 {
                        Some(FrameView::Ack { origin, seq })
                    } else {
                        None
                    }
                } else {
                    match spec_class_of_byte(bytes[1]) {
                        None => None,
                        Some(class) => Some(
                            FrameView::Data { tag: bytes[7], data, class, seq, origin },
                        ),
                    }
                }
            },
        }
    }
}

/// Both sides agree on the format: a frame the format can carry parses back
/// from its own bytes to exactly itself.
pub proof fn lemma_frame_round_trip(f: FrameView)
    requires
        spec_frame_ok(f),
    ensures
        spec_parse(spec_frame_bytes(f)) == Some(f),
{
    lemma_auto_spec_u32_to_from_le_bytes();
    let body = spec_frame_body(f);
    let bytes = spec_frame_bytes(f);
    let n = spec_frame_data(f).len() as int;
    assert(body.len() == 8 + n);
    assert(bytes.len() == FRAME_OVERHEAD + n);
    assert(bytes[0] == START_MARKER);
    assert(bytes[1] == spec_frame_kind_byte(f));
    assert(bytes[2] == spec_side_byte(spec_frame_origin(f)));
    assert(bytes.subrange(3, 7) =~= spec_u32_to_le_bytes(spec_frame_seq(f)));
    assert(bytes[7] == spec_frame_tag(f));
    assert(bytes[8] == n as u8);
    assert(bytes.subrange(9, bytes.len() - 1) =~= spec_frame_data(f));
    assert(bytes.subrange(1, bytes.len() - 1) =~= body);
    assert(bytes.last() == checksum_of(body));
    match f {
        FrameView::Data { tag, data, class, seq, origin } => {
            assert(spec_class_of_byte(spec_class_byte(class)) == Some(class));
            assert(spec_side_of_byte(spec_side_byte(origin)) == Some(origin));
            assert(spec_frame_kind_byte(f) != ACK_KIND);
            assert(spec_parse(bytes) == Some(f));
        },
        FrameView::Ack { origin, seq } => {
            assert(spec_side_of_byte(spec_side_byte(origin)) == Some(origin));
            assert(spec_parse(bytes) == Some(f));
        },
    }
}

/// Running checksum over `buf[start..end]`.
pub fn checksum_range(buf: &Vec<u8>, start: usize, end: usize) -> (r: u8)
    requires
        start <= end <= buf@.len(),
    ensures
        r == checksum_of(buf@.subrange(start as int, end as int)),
{
    let mut acc: u8 = 0;
    let mut i: usize = start;
    while i < end
        invariant
            start <= i <= end <= buf@.len(),
            acc == checksum_of(buf@.subrange(start as int, i as int)),
        decreases end - i,
    {
        proof {
            let pre = buf@.subrange(start as int, i as int);
            let post = buf@.subrange(start as int, i + 1);
            assert(post.drop_last() =~= pre);
            assert(post.last() == buf@[i as int]);
        }
        acc = ((acc as u16 + buf[i] as u16) % 256) as u8;
        i = i + 1;
    }
    acc
}

/// The checksum gate: a complete candidate whose stored checksum is not the
/// byte sum of its body means no frame at all, whatever its payload holds —
/// so nothing downstream can ever see its contents.
pub proof fn lemma_bad_checksum_never_parses(bytes: Seq<u8>)
    requires
        bytes.len() >= FRAME_OVERHEAD,
        bytes.last() != checksum_of(bytes.subrange(1, bytes.len() - 1)),
    ensures
        spec_parse(bytes) is None,
{
}

/// Serialize a frame for the wire.
pub fn encode_frame(f: &Frame) -> (r: Vec<u8>)
    requires
        spec_frame_ok(f@),
    ensures
        r@ == spec_frame_bytes(f@),
        spec_parse(r@) == Some(f@),
{
    let (kind, origin, seq, tag): (u8, u8, u32, u8) = match f {
        Frame::Data { env } => {
            let kind = match env.class {
                ReliabilityClass::Unreliable => 0u8,
                ReliabilityClass::LowLatency => 1u8,
                ReliabilityClass::Reliable => 2u8,
            };
            let ob = match env.origin {
                KeyboardSide::Left => 0u8,
                KeyboardSide::Right => 1u8,
            };
            (kind, ob, env.seq, env.tag)
        },
        Frame::Ack { origin, seq } => {
            let ob = match origin {
                KeyboardSide::Left => 0u8,
                KeyboardSide::Right => 1u8,
            };
            (ACK_KIND, ob, *seq, 0u8)
        },
    };
    let mut out: Vec<u8> = Vec::new();
    out.push(START_MARKER);
    out.push(kind);
    out.push(origin);
    let sb = u32_to_le_bytes(seq);
    out.push(sb[0]);
    out.push(sb[1]);
    out.push(sb[2]);
    out.push(sb[3]);
    out.push(tag);
    match f {
        Frame::Data { env } => {
            out.push(env.data.len() as u8);
            let mut i: usize = 0;
            while i < env.data.len()
                invariant
                    i <= env.data@.len(),
                    out@ == seq![START_MARKER] + spec_frame_body(f@).take(8)
                        + env.data@.take(i as int),
                    spec_frame_ok(f@),
                    f@ matches FrameView::Data { data, .. } && data == env.data@,
                decreases env.data.len() - i,
            {
                out.push(env.data[i]);
                proof {
                    assert(env.data@.take(i + 1) =~= env.data@.take(i as int) + seq![
                        env.data@[i as int],
                    ]);
                }
                i = i + 1;
            }
            proof {
                assert(env.data@.take(env.data@.len() as int) =~= env.data@);
            }
        },
        Frame::Ack { .. } => {
            out.push(0u8);
        },
    }
    proof {
        assert(out@ =~= seq![START_MARKER] + spec_frame_body(f@));
    }
    let body_len = out.len();
    let cks = checksum_range(&out, 1, body_len);
    proof {
        assert(out@.subrange(1, out@.len() as int) =~= spec_frame_body(f@));
    }
    out.push(cks);
    proof {
        assert(out@ =~= spec_frame_bytes(f@));
        lemma_frame_round_trip(f@);
    }
    out
}

/// Index of the first start marker at or after `from`, if there is one.
pub fn find_marker(buf: &Vec<u8>, from: usize) -> (r: Option<usize>)
    ensures
        match r {
            Some(i) => from <= i < buf@.len() && buf@[i as int] == START_MARKER && (forall|j: int|
                from <= j < i ==> buf@[j] != START_MARKER),
            None => forall|j: int| from <= j < buf@.len() ==> buf@[j] != START_MARKER,
        },
{
    let mut i: usize = from;
    while i < buf.len()
        invariant
            from <= i,
            forall|j: int| from <= j < i ==> buf@[j] != START_MARKER,
        decreases buf@.len() - i,
    {
        if buf[i] == START_MARKER {
            return Some(i);
        }
        i = i + 1;
    }
    None
}

/// What the parser made of the bytes at one marker position.
pub enum ParseOutcome {
    /// A well-formed frame occupies `pos..next`.
    Parsed { frame: Frame, next: usize },
    /// The bytes at `pos` cannot yet hold a whole frame; wait for more.
    Incomplete,
    /// The bytes at `pos` are a complete candidate but no frame — above all
    /// a failing checksum. Resynchronize past the marker at `pos`.
    Corrupt,
}

/// Parse the candidate frame that starts at `pos`.
///
/// The candidate occupies `pos .. pos + FRAME_OVERHEAD + length byte`; it is
/// `Parsed` exactly when those bytes mean a frame, so a frame whose checksum
/// fails verification is never handed out.
pub fn parse_frame_at(buf: &Vec<u8>, pos: usize) -> (r: ParseOutcome)
    requires
        pos < buf@.len(),
        buf@[pos as int] == START_MARKER,
    ensures
        match r {
            ParseOutcome::Parsed { frame, next } => pos < next <= buf@.len() && spec_parse(
                buf@.subrange(pos as int, next as int),
            ) == Some(frame@) && next == pos + FRAME_OVERHEAD + spec_frame_data(frame@).len(),
            ParseOutcome::Incomplete => buf@.len() < pos + FRAME_OVERHEAD || buf@.len() < pos
                + FRAME_OVERHEAD + buf@[pos + 8],
            ParseOutcome::Corrupt => pos + FRAME_OVERHEAD + buf@[pos + 8] <= buf@.len()
                && spec_parse(
                buf@.subrange(pos as int, pos + FRAME_OVERHEAD + buf@[pos + 8]),
            ) is None,
        },
{
    if buf.len() - pos < FRAME_OVERHEAD {
        return ParseOutcome::Incomplete;
    }
    let dlen = buf[pos + 8] as usize;
    if buf.len() - pos < FRAME_OVERHEAD + dlen {
        return ParseOutcome::Incomplete;
    }
    let end = pos + FRAME_OVERHEAD + dlen;
    let ghost cand = buf@.subrange(pos as int, end as int);
    assert(cand.len() == FRAME_OVERHEAD + dlen);
    assert(cand[0] == START_MARKER);
    assert(cand[8] == buf@[pos + 8]);
    let cks = checksum_range(buf, pos + 1, end - 1);
    if buf[end - 1] != cks {
        proof {
            assert(cand.last() == buf@[end - 1]);
            assert(cand.subrange(1, cand.len() - 1) =~= buf@.subrange(pos + 1, end - 1));
        }
        return ParseOutcome::Corrupt;
    }
    proof {
        assert(cand.last() == buf@[end - 1]);
        assert(cand.subrange(1, cand.len() - 1) =~= buf@.subrange(pos + 1, end - 1));
    }
    let kind = buf[pos + 1];
    let ob = buf[pos + 2];
    let origin = if ob == 0 {
        KeyboardSide::Left
    } else if ob == 1 {
        KeyboardSide::Right
    } else {
        proof {
            assert(cand[2] == buf@[pos + 2]);
        }
        return ParseOutcome::Corrupt;
    };
    let seq_slice = &buf.as_slice()[pos + 3..pos + 7];
    proof {
        assert(seq_slice@ =~= cand.subrange(3, 7));
    }
    let seq = u32_from_le_bytes(seq_slice);
    let tag = buf[pos + 7];
    proof {
        assert(cand[1] == buf@[pos + 1]);
        assert(cand[2] == buf@[pos + 2]);
        assert(cand[7] == buf@[pos + 7]);
    }
    if kind == ACK_KIND {
        if tag == 0 && dlen == 0 {
            return ParseOutcome::Parsed { frame: Frame::Ack { origin, seq }, next: end };
        }
        return ParseOutcome::Corrupt;
    }
    let class = if kind == 0 {
        ReliabilityClass::Unreliable
    } else if kind == 1 {
        ReliabilityClass::LowLatency
    } else if kind == 2 {
        ReliabilityClass::Reliable
    } else {
        return ParseOutcome::Corrupt;
    };
    let mut data: Vec<u8> = Vec::new();
    let mut i: usize = 0;
    while i < dlen
        invariant
            i <= dlen,
            pos + 9 + dlen < buf@.len() <= usize::MAX,
            data@ == buf@.subrange(pos + 9, pos + 9 + i),
        decreases dlen - i,
    {
        data.push(buf[pos + 9 + i]);
        proof {
            assert(buf@.subrange(pos + 9, pos + 9 + i + 1) =~= buf@.subrange(pos + 9, pos + 9 + i)
                + seq![buf@[pos + 9 + i]]);
        }
        i = i + 1;
    }
    proof {
        assert(data@ =~= cand.subrange(9, cand.len() - 1));
    }
    let env = Envelope { tag, data, class, seq, origin };
    ParseOutcome::Parsed { frame: Frame::Data { env }, next: end }
}

} // verus!
