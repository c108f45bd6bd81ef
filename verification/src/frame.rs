//! The framing codec: gives a stream transport packet semantics.
//!
//! Wire format: a 4-byte unsigned length prefix in big-endian byte order,
//! followed by exactly that many payload bytes.  The declared length must not
//! exceed [`MAX_FRAMED_TCP_PAYLOAD_LEN`]; a header declaring more cannot be
//! resynchronized and is a fatal protocol violation.

use vstd::prelude::*;

verus! {

/// Width of the length prefix in bytes.
pub const FRAME_HEADER_LEN: usize = 4;

/// Hard ceiling on a single framed payload.  Part of the wire contract: a
/// peer declaring a longer frame is in violation and its connection is
/// closed.
pub const MAX_FRAMED_TCP_PAYLOAD_LEN: usize = 16777215;

/// The big-endian 4-byte length prefix for a payload of `len` bytes.
pub open spec fn spec_header(len: u32) -> Seq<u8> {
    seq![(len >> 24) as u8, (len >> 16) as u8, (len >> 8) as u8, len as u8]
}

/// The payload length declared by the first four bytes of `s`, read in
/// big-endian byte order.
pub open spec fn spec_declared_len(s: Seq<u8>) -> u32
    recommends
        s.len() >= FRAME_HEADER_LEN,
{
    (((s[0] as u32) << 24) | ((s[1] as u32) << 16) | ((s[2] as u32) << 8) | (s[3] as u32))
}

/// One encoded frame: length prefix followed by the payload.
pub open spec fn spec_encode(p: Seq<u8>) -> Seq<u8>
    recommends
        p.len() <= MAX_FRAMED_TCP_PAYLOAD_LEN,
{
    spec_header(p.len() as u32) + p
}

/// Whether `s` starts with one complete, in-bounds frame.
pub open spec fn starts_with_frame(s: Seq<u8>) -> bool {
    &&& s.len() >= FRAME_HEADER_LEN
    &&& spec_declared_len(s) as int <= MAX_FRAMED_TCP_PAYLOAD_LEN as int
    &&& s.len() >= FRAME_HEADER_LEN + spec_declared_len(s) as int
}

/// The payloads of the complete frames at the front of `s`, in stream order,
/// parsed greedily until bytes run out or an oversize header is met.
pub open spec fn spec_frames(s: Seq<u8>) -> Seq<Seq<u8>>
    decreases s.len(),
{
    if starts_with_frame(s) {
        seq![
            s.subrange(
                FRAME_HEADER_LEN as int,
                FRAME_HEADER_LEN + spec_declared_len(s) as int,
            ),
        ] + spec_frames(s.skip(FRAME_HEADER_LEN + spec_declared_len(s) as int))
    } else {
        Seq::empty()
    }
}

/// What remains of `s` after the complete frames at its front.
pub open spec fn spec_residue(s: Seq<u8>) -> Seq<u8>
    decreases s.len(),
{
    if starts_with_frame(s) {
        spec_residue(s.skip(FRAME_HEADER_LEN + spec_declared_len(s) as int))
    } else {
        s
    }
}

/// Whether greedily parsing `s` runs into a complete header that declares a
/// payload beyond the ceiling: the fatal, unresynchronizable state.
pub open spec fn spec_violation(s: Seq<u8>) -> bool {
    &&& spec_residue(s).len() >= FRAME_HEADER_LEN
    &&& spec_declared_len(spec_residue(s)) as int > MAX_FRAMED_TCP_PAYLOAD_LEN as int
}

/// Errors of the framing codec.
#[derive(Clone, Copy, PartialEq, Eq, Debug, Structural)]
pub enum FrameError {
    /// The payload handed to the encoder exceeds the ceiling; nothing is
    /// written.
    OversizedPayload,
    /// A received header declares a payload beyond the ceiling; the
    /// connection cannot be resynchronized.
    OversizedHeader,
}

/// Reading the declared length back from a header gives the encoded value.
pub proof fn lemma_header_round_trip(len: u32)
    ensures
        spec_declared_len(spec_header(len)) == len,
{
    let b0 = (len >> 24) as u8;
    let b1 = (len >> 16) as u8;
    let b2 = (len >> 8) as u8;
    let b3 = len as u8;
    assert((((b0 as u32) << 24) | ((b1 as u32) << 16) | ((b2 as u32) << 8) | (b3 as u32))
        == len) by (bit_vector)
        requires
            b0 == (len >> 24) as u8,
            b1 == (len >> 16) as u8,
            b2 == (len >> 8) as u8,
            b3 == len as u8,
    ;
}

/// The declared length reads only the first four bytes, so it is the same
/// for any two streams agreeing on them.
pub proof fn lemma_declared_len_depends_on_prefix(s: Seq<u8>, t: Seq<u8>)
    requires
        s.len() >= FRAME_HEADER_LEN,
        t.len() >= FRAME_HEADER_LEN,
        forall|i: int| 0 <= i < FRAME_HEADER_LEN ==> s[i] == t[i],
    ensures
        spec_declared_len(s) == spec_declared_len(t),
{
}

/// Encodes one frame: the 4-byte big-endian length prefix followed by the
/// payload, as one logical unit.  A payload beyond the ceiling is rejected,
/// never truncated.
pub fn encode_frame(payload: &Vec<u8>) -> (r: Result<Vec<u8>, FrameError>)
    ensures
        payload@.len() <= MAX_FRAMED_TCP_PAYLOAD_LEN ==> {
            &&& r is Ok
            &&& r->Ok_0@ == spec_encode(payload@)
        },
        payload@.len() > MAX_FRAMED_TCP_PAYLOAD_LEN ==> r == Err::<Vec<u8>, FrameError>(
            FrameError::OversizedPayload,
        ),
{
    if payload.len() > MAX_FRAMED_TCP_PAYLOAD_LEN {
        return Err(FrameError::OversizedPayload);
    }
    let len: u32 = payload.len() as u32;
    let mut out: Vec<u8> = Vec::new();
    out.push((len >> 24) as u8);
    out.push((len >> 16) as u8);
    out.push((len >> 8) as u8);
    out.push(len as u8);
    assert(out@ =~= spec_header(payload@.len() as u32) + payload@.take(0));
    let mut i: usize = 0;
    while i < payload.len()
        invariant
            i <= payload@.len(),
            out@ == spec_header(payload@.len() as u32) + payload@.take(i as int),
        decreases payload@.len() - i,
    {
        out.push(payload[i]);
        i += 1;
        assert(out@ =~= spec_header(payload@.len() as u32) + payload@.take(i as int));
    }
    assert(out@ =~= spec_encode(payload@));
    Ok(out)
}

/// The views of a list of decoded messages.
pub open spec fn views_of(ms: Seq<Vec<u8>>) -> Seq<Seq<u8>> {
    ms.map_values(|m: Vec<u8>| m@)
}

/// A stream with no complete, in-bounds leading frame parses to no messages
/// and stands as its own residue.
pub proof fn lemma_no_leading_frame(s: Seq<u8>)
    requires
        !starts_with_frame(s),
    ensures
        spec_frames(s) == Seq::<Seq<u8>>::empty(),
        spec_residue(s) == s,
{
}

/// Prepending one complete, in-bounds frame to a stream contributes exactly
/// its payload, once, at the front of the parse, and changes neither the
/// residue nor whether the stream ends in violation.
pub proof fn lemma_frame_round_trip(p: Seq<u8>, rest: Seq<u8>)
    requires
        p.len() <= MAX_FRAMED_TCP_PAYLOAD_LEN,
    ensures
        spec_frames(spec_encode(p) + rest) == seq![p] + spec_frames(rest),
        spec_residue(spec_encode(p) + rest) == spec_residue(rest),
        spec_violation(spec_encode(p) + rest) == spec_violation(rest),
{
    let s = spec_encode(p) + rest;
    lemma_header_round_trip(p.len() as u32);
    assert(spec_encode(p).len() == FRAME_HEADER_LEN + p.len());
    lemma_declared_len_depends_on_prefix(s, spec_encode(p));
    assert(spec_declared_len(s) == p.len() as u32);
    assert(starts_with_frame(s));
    assert(s.subrange(FRAME_HEADER_LEN as int, FRAME_HEADER_LEN + p.len() as int) =~= p);
    assert(s.skip(FRAME_HEADER_LEN + p.len() as int) =~= rest);
    assert(spec_frames(s) == seq![p] + spec_frames(rest));
    assert(spec_residue(s) == spec_residue(rest));
}

/// Framing round-trip: one encoded frame decodes to exactly one message
/// holding the original payload, leaves nothing pending, and is never taken
/// for a violation.  Chunk boundaries cannot matter: the parse is a function
/// of the concatenated stream alone.
pub proof fn lemma_encode_decode_round_trip(p: Seq<u8>)
    requires
        p.len() <= MAX_FRAMED_TCP_PAYLOAD_LEN,
    ensures
        spec_frames(spec_encode(p)) == seq![p],
        spec_residue(spec_encode(p)) == Seq::<u8>::empty(),
        !spec_violation(spec_encode(p)),
{
    let e = spec_encode(p);
    assert(e + Seq::<u8>::empty() =~= e);
    lemma_frame_round_trip(p, Seq::<u8>::empty());
    assert(!starts_with_frame(Seq::<u8>::empty()));
    lemma_no_leading_frame(Seq::<u8>::empty());
    assert(spec_frames(e) =~= seq![p]);
}

/// No spurious messages from a cut-off frame: any strict prefix of one
/// encoded frame — a partial header or a partial body — parses to no
/// messages and is no violation.
pub proof fn lemma_partial_frame_silent(p: Seq<u8>, k: int)
    requires
        p.len() <= MAX_FRAMED_TCP_PAYLOAD_LEN,
        0 <= k < spec_encode(p).len(),
    ensures
        spec_frames(spec_encode(p).take(k)) == Seq::<Seq<u8>>::empty(),
        !spec_violation(spec_encode(p).take(k)),
{
    let s = spec_encode(p).take(k);
    assert(s.len() == k);
    if k >= FRAME_HEADER_LEN {
        lemma_header_round_trip(p.len() as u32);
        lemma_declared_len_depends_on_prefix(s, spec_encode(p));
        assert(spec_declared_len(s) == p.len() as u32);
        assert(!starts_with_frame(s));
    } else {
        assert(!starts_with_frame(s));
    }
    lemma_no_leading_frame(s);
}

/// Phase of the decoder's state machine.
#[derive(Clone, Copy, PartialEq, Eq, Debug, Structural)]
pub enum DecoderPhase {
    /// Fewer pending bytes than one length prefix: the header is still
    /// being accumulated.
    AwaitingHeader,
    /// The header is complete and declares an in-bounds length; the body is
    /// still being accumulated.
    AwaitingBody,
}

/// Incremental decoder turning an arbitrarily chunked byte stream into
/// framed messages.
///
/// Its state is the pending bytes not yet part of an emitted message: fewer
/// than a header's worth while awaiting a header, a complete in-bounds
/// header plus a partial body while awaiting a body.  Bytes fed in carry
/// over across calls without loss or duplication.
pub struct FrameDecoder {
    pending: Vec<u8>,
}

impl View for FrameDecoder {
    type V = Seq<u8>;

    closed spec fn view(&self) -> Seq<u8> {
        self.pending@
    }
}

impl FrameDecoder {
    /// The pending bytes never contain a complete frame nor an oversize
    /// header: every complete frame was emitted, and an oversize header
    /// ended the connection.
    pub open spec fn wf(&self) -> bool {
        &&& spec_residue(self@) == self@
        &&& !spec_violation(self@)
    }

    /// A fresh decoder awaiting a header with nothing pending.
    pub fn new() -> (r: FrameDecoder)
        ensures
            r@ == Seq::<u8>::empty(),
            r.wf(),
    {
        let r = FrameDecoder { pending: Vec::new() };
        proof {
            lemma_no_leading_frame(r@);
        }
        r
    }

    /// Number of bytes pending.
    pub fn pending_len(&self) -> (r: usize)
        ensures
            r == self@.len(),
    {
        self.pending.len()
    }

    /// The state the decoder is in: still reading a length prefix, or
    /// reading the body the prefix declared.
    pub fn phase(&self) -> (r: DecoderPhase)
        requires
            self.wf(),
        ensures
            r == DecoderPhase::AwaitingHeader <==> self@.len() < FRAME_HEADER_LEN,
    {
        if self.pending.len() < FRAME_HEADER_LEN {
            DecoderPhase::AwaitingHeader
        } else {
            DecoderPhase::AwaitingBody
        }
    }

    /// Consumes one incoming chunk of arbitrary size and returns the
    /// messages it completes, in stream order, with the codec's verdict.
    ///
    /// Exactly the complete, in-bounds frames of the stream fed so far come
    /// out, each once, whatever the chunk boundaries were; the residue stays
    /// pending for the next chunk.  The verdict is an error if and only if
    /// the stream then ends in a complete header declaring a payload beyond
    /// the ceiling: the caller must close the connection, for the stream
    /// cannot be resynchronized, and no message is emitted for that frame.
    pub fn decode_chunk(&mut self, chunk: &Vec<u8>) -> (r: (Vec<Vec<u8>>, Result<
        (),
        FrameError,
    >))
        requires
            old(self).wf(),
        ensures
            views_of(r.0@) == spec_frames(old(self)@ + chunk@),
            final(self)@ == spec_residue(old(self)@ + chunk@),
            (r.1 is Err) <==> spec_violation(old(self)@ + chunk@),
            r.1 is Err ==> r.1->Err_0 == FrameError::OversizedHeader,
            r.1 is Ok ==> final(self).wf(),
    {
        let ghost total: Seq<u8> = old(self)@ + chunk@;
        assert(self@ =~= old(self)@ + chunk@.take(0));
        let mut i: usize = 0;
        while i < chunk.len()
            invariant
                i <= chunk@.len(),
                self@ == old(self)@ + chunk@.take(i as int),
            decreases chunk@.len() - i,
        {
            let b = chunk[i];
            self.pending.push(b);
            i += 1;
            assert(self@ =~= old(self)@ + chunk@.take(i as int));
        }
        assert(self@ =~= total);
        let mut out: Vec<Vec<u8>> = Vec::new();
        assert(views_of(out@) + spec_frames(self@) =~= spec_frames(total));
        let mut done: bool = false;
        while !done
            invariant
                total == old(self)@ + chunk@,
                views_of(out@) + spec_frames(self@) == spec_frames(total),
                spec_residue(self@) == spec_residue(total),
                spec_violation(self@) == spec_violation(total),
                done ==> !starts_with_frame(self@) && !spec_violation(self@),
            decreases self@.len() + (if done { 0int } else { 1int }),
        {
            if self.pending.len() < FRAME_HEADER_LEN {
                proof {
                    lemma_no_leading_frame(self@);
                }
                done = true;
            } else {
                let d: u32 = ((self.pending[0] as u32) << 24) | ((self.pending[1] as u32) << 16)
                    | ((self.pending[2] as u32) << 8) | (self.pending[3] as u32);
                assert(d == spec_declared_len(self@));
                if d > (MAX_FRAMED_TCP_PAYLOAD_LEN as u32) {
                    proof {
                        assert((MAX_FRAMED_TCP_PAYLOAD_LEN as u32) as int
                            == MAX_FRAMED_TCP_PAYLOAD_LEN as int);
                        assert(spec_declared_len(self@) as int > MAX_FRAMED_TCP_PAYLOAD_LEN as int);
                        assert(!starts_with_frame(self@));
                        lemma_no_leading_frame(self@);
                        assert(spec_violation(self@));
                        assert(views_of(out@) + spec_frames(self@) =~= views_of(out@));
                    }
                    return (out, Err(FrameError::OversizedHeader));
                }
                let flen: usize = FRAME_HEADER_LEN + (d as usize);
                if self.pending.len() < flen {
                    proof {
                        lemma_no_leading_frame(self@);
                    }
                    done = true;
                } else {
                    assert(starts_with_frame(self@));
                    let ghost before: Seq<u8> = self@;
                    let mut payload: Vec<u8> = Vec::new();
                    let mut j: usize = FRAME_HEADER_LEN;
                    while j < flen
                        invariant
                            FRAME_HEADER_LEN <= j <= flen,
                            flen <= self@.len(),
                            self@ == before,
                            payload@ == before.subrange(FRAME_HEADER_LEN as int, j as int),
                        decreases flen - j,
                    {
                        let b = self.pending[j];
                        payload.push(b);
                        j += 1;
                        assert(payload@ =~= before.subrange(FRAME_HEADER_LEN as int, j as int));
                    }
                    let mut rest: Vec<u8> = Vec::new();
                    let mut k: usize = flen;
                    while k < self.pending.len()
                        invariant
                            flen <= k <= self@.len(),
                            self@ == before,
                            rest@ == before.subrange(flen as int, k as int),
                        decreases self@.len() - k,
                    {
                        let b = self.pending[k];
                        rest.push(b);
                        k += 1;
                        assert(rest@ =~= before.subrange(flen as int, k as int));
                    }
                    proof {
                        assert(rest@ =~= before.skip(flen as int));
                        assert(payload@ =~= before.subrange(
                            FRAME_HEADER_LEN as int,
                            FRAME_HEADER_LEN + spec_declared_len(before) as int,
                        ));
                        assert(spec_frames(before) == seq![payload@] + spec_frames(
                            before.skip(FRAME_HEADER_LEN + spec_declared_len(before) as int),
                        ));
                    }
                    let ghost out_before: Seq<Vec<u8>> = out@;
                    self.pending = rest;
                    out.push(payload);
                    proof {
                        assert(spec_residue(before) == spec_residue(self@));
                        assert(spec_violation(before) == spec_violation(self@));
                        assert(views_of(out@) =~= views_of(out_before).push(payload@));
                        assert(views_of(out@) + spec_frames(self@) =~= views_of(out_before) + (
                        seq![payload@] + spec_frames(self@)));
                        assert(views_of(out@) + spec_frames(self@) =~= views_of(out_before)
                            + spec_frames(before));
                    }
                }
            }
        }
        proof {
            lemma_no_leading_frame(self@);
            assert(views_of(out@) + spec_frames(self@) =~= views_of(out@));
        }
        (out, Ok(()))
    }
}

} // verus!
