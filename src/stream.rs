//! Properties of the decoder over byte streams: decisions are final, chunking does
//! not matter, text is rejected early, control frames are checked.
use vstd::prelude::*;
use crate::codec::{
    CodecError, Parse, parse, fin_bit, op_field, header_ok, length_ok, ext_len, header_len,
    payload_len, available, payload_prefix, text_ok, frame_of, mask_bit, mask_key,
    lemma_prefix_fields, MAX_CONTROL_PAYLOAD,
};
use crate::frame::{FrameView, OpCode, is_control_op};
use crate::utf8::{Utf8Status, utf8_status, lemma_invalid_prefix};

verus! {

/// The first `k` unmasked payload bytes do not change when more bytes arrive.
proof fn lemma_payload_prefix_stable(s: Seq<u8>, t: Seq<u8>, k: nat)
    requires
        s.len() >= 2,
        header_len(s) + k <= s.len(),
    ensures
        payload_prefix(s + t, k) == payload_prefix(s, k),
{
    lemma_prefix_fields(s, t);
    let st = s + t;
    let h = header_len(s);
    assert(st.subrange(h, h + k) =~= s.subrange(h, h + k));
    if mask_bit(s) {
        assert(mask_key(st) == mask_key(s));
    }
}

/// Unmasked payload bytes read further extend those read before.
proof fn lemma_payload_prefix_grows(s: Seq<u8>, j: nat, k: nat)
    requires
        s.len() >= 2,
        j <= k,
        header_len(s) + k <= s.len(),
    ensures
        payload_prefix(s, k).subrange(0, j as int) == payload_prefix(s, j),
{
    let h = header_len(s);
    assert(s.subrange(h, h + k).subrange(0, j as int) =~= s.subrange(h, h + j));
    assert(payload_prefix(s, k).subrange(0, j as int) =~= payload_prefix(s, j));
}

/// Once `parse` has decided (a frame or a failure), more bytes do not change the decision.
#[verifier::rlimit(40)]
pub proof fn lemma_decision_final(client: bool, rb: u8, s: Seq<u8>, t: Seq<u8>)
    requires
        !(parse(client, rb, s) is Incomplete),
    ensures
        parse(client, rb, s + t) == parse(client, rb, s),
{
    let st = s + t;
    lemma_prefix_fields(s, t);
    if s.len() >= 2 + ext_len(s) && header_ok(client, rb, s) && length_ok(s) && s.len()
        >= header_len(s) {
        let a = available(s);
        let a2 = available(st);
        lemma_payload_prefix_stable(s, t, a);
        if s.len() >= header_len(s) + payload_len(s) {
            assert(a == a2);
            lemma_payload_prefix_stable(s, t, payload_len(s));
            assert(frame_of(st) == frame_of(s));
        } else if op_field(s) == OpCode::Text && !text_ok(s) {
            lemma_payload_prefix_grows(st, a, a2);
            let p = payload_prefix(st, a2);
            assert(p =~= p.subrange(0, a as int) + p.subrange(a as int, p.len() as int));
            lemma_invalid_prefix(p.subrange(0, a as int), p.subrange(a as int, p.len() as int));
        }
    }
}

/// Frames read one after another from `s`, the failure that stopped the reading if
/// any, and the bytes left over (a frame begun but not finished).
pub open spec fn decode_all(client: bool, rb: u8, s: Seq<u8>) -> (Seq<FrameView>, Option<
    CodecError,
>, Seq<u8>)
    decreases s.len(),
{
    match parse(client, rb, s) {
        Parse::Incomplete => (Seq::empty(), None, s),
        Parse::Failed(e) => (Seq::empty(), Some(e), Seq::empty()),
        Parse::Done(f, n) => if 0 < n <= s.len() {
            let r = decode_all(client, rb, s.subrange(n as int, s.len() as int));
            (seq![f] + r.0, r.1, r.2)
        } else {
            (Seq::empty(), None, s)
        },
    }
}

/// One call of `decode` is one step of `decode_all`: a frame read from the bytes
/// is followed by the frames of what remains after it, a failure ends the reading,
/// and an unfinished frame is left over whole.
pub proof fn lemma_decode_all_step(client: bool, rb: u8, s: Seq<u8>)
    ensures
        match parse(client, rb, s) {
            Parse::Incomplete => decode_all(client, rb, s) == (
                Seq::<FrameView>::empty(),
                None::<CodecError>,
                s,
            ),
            Parse::Failed(e) => decode_all(client, rb, s) == (
                Seq::<FrameView>::empty(),
                Some(e),
                Seq::<u8>::empty(),
            ),
            Parse::Done(f, n) => {
                let r = decode_all(client, rb, s.subrange(n as int, s.len() as int));
                &&& 0 < n <= s.len()
                &&& decode_all(client, rb, s) == (seq![f] + r.0, r.1, r.2)
            },
        },
{
    if parse(client, rb, s) is Done {
        assert(s.len() >= 2);
    }
}

/// Splitting a stream in two: reading `a`, then what was left of it followed by `b`,
/// gives the frames (and failure) of reading `a + b` at once.
pub proof fn lemma_two_chunks(client: bool, rb: u8, a: Seq<u8>, b: Seq<u8>)
    ensures
        ({
            let first = decode_all(client, rb, a);
            let second = decode_all(client, rb, first.2 + b);
            let whole = decode_all(client, rb, a + b);
            &&& first.1 is None ==> whole == (first.0 + second.0, second.1, second.2)
            &&& first.1 is Some ==> whole == first
        }),
    decreases a.len(),
{
    let first = decode_all(client, rb, a);
    match parse(client, rb, a) {
        Parse::Incomplete => {
            assert(first.0 + decode_all(client, rb, a + b).0 =~= decode_all(client, rb, a + b).0);
        },
        Parse::Failed(e) => {
            lemma_decision_final(client, rb, a, b);
        },
        Parse::Done(f, n) => {
            lemma_decision_final(client, rb, a, b);
            if 0 < n <= a.len() {
                let rest = a.subrange(n as int, a.len() as int);
                lemma_two_chunks(client, rb, rest, b);
                assert((a + b).subrange(n as int, (a + b).len() as int) =~= rest + b);
                let r = decode_all(client, rb, rest);
                let second = decode_all(client, rb, first.2 + b);
                if r.1 is None {
                    assert(seq![f] + (r.0 + second.0) =~= (seq![f] + r.0) + second.0);
                }
            } else {
                assert(n <= a.len());
            }
        },
    }
}

/// The bytes of all chunks, in order.
pub open spec fn concat_chunks(chunks: Seq<Seq<u8>>) -> Seq<u8>
    decreases chunks.len(),
{
    if chunks.len() == 0 {
        Seq::empty()
    } else {
        chunks[0] + concat_chunks(chunks.drop_first())
    }
}

/// Feeding `chunks` one at a time to a decoder that holds `pending`: each time, the
/// frames that are complete are read, and what is left waits for the next chunk.
pub open spec fn feed_chunks(client: bool, rb: u8, pending: Seq<u8>, chunks: Seq<Seq<u8>>) -> (
    Seq<FrameView>,
    Option<CodecError>,
)
    decreases chunks.len(),
{
    if chunks.len() == 0 {
        (Seq::empty(), None)
    } else {
        let r = decode_all(client, rb, pending + chunks[0]);
        if r.1 is Some {
            (r.0, r.1)
        } else {
            let later = feed_chunks(client, rb, r.2, chunks.drop_first());
            (r.0 + later.0, later.1)
        }
    }
}

/// However a byte stream is cut into chunks, feeding them one at a time yields the
/// same frames, and the same failure, as feeding all the bytes at once.
pub proof fn lemma_chunking_independence(
    client: bool,
    rb: u8,
    pending: Seq<u8>,
    chunks: Seq<Seq<u8>>,
)
    ensures
        ({
            let whole = decode_all(client, rb, pending + concat_chunks(chunks));
            chunks.len() > 0 ==> feed_chunks(client, rb, pending, chunks) == (whole.0, whole.1)
        }),
    decreases chunks.len(),
{
    if chunks.len() > 0 {
        let c0 = chunks[0];
        let tail = chunks.drop_first();
        let r = decode_all(client, rb, pending + c0);
        lemma_two_chunks(client, rb, pending + c0, concat_chunks(tail));
        assert(pending + c0 + concat_chunks(tail) =~= pending + concat_chunks(chunks));
        let second = decode_all(client, rb, r.2 + concat_chunks(tail));
        if r.1 is None {
            if tail.len() > 0 {
                lemma_chunking_independence(client, rb, r.2, tail);
                assert(feed_chunks(client, rb, r.2, tail) == (second.0, second.1));
            } else {
                assert(concat_chunks(tail) =~= Seq::<u8>::empty());
                assert(r.2 + Seq::<u8>::empty() =~= r.2);
                lemma_leftover_quiet(client, rb, pending + c0);
                assert(second == (Seq::<FrameView>::empty(), None::<CodecError>, r.2));
                assert(r.0 + Seq::<FrameView>::empty() =~= r.0);
                assert(feed_chunks(client, rb, r.2, tail) == (
                    Seq::<FrameView>::empty(),
                    None::<CodecError>,
                ));
            }
        }
    }
}

/// What is left after reading all complete frames holds no decision of its own.
proof fn lemma_leftover_quiet(client: bool, rb: u8, s: Seq<u8>)
    requires
        decode_all(client, rb, s).1 is None,
    ensures
        parse(client, rb, decode_all(client, rb, s).2) is Incomplete,
        decode_all(client, rb, decode_all(client, rb, s).2) == (
            Seq::<FrameView>::empty(),
            None::<CodecError>,
            decode_all(client, rb, s).2,
        ),
    decreases s.len(),
{
    match parse(client, rb, s) {
        Parse::Done(f, n) => {
            if 0 < n <= s.len() {
                lemma_leftover_quiet(client, rb, s.subrange(n as int, s.len() as int));
            } else {
                assert(n <= s.len());
            }
        },
        _ => {},
    }
}

/// A text frame whose payload read so far is ill-formed UTF-8 fails with
/// `InvalidUtf8` at once, before the rest of its payload arrives; and so it does
/// whatever bytes follow.
pub proof fn lemma_early_utf8_rejection(
    client: bool,
    rb: u8,
    s: Seq<u8>,
    k: nat,
    more: Seq<u8>,
)
    requires
        s.len() >= 2,
        header_ok(client, rb, s),
        s.len() >= 2 + ext_len(s),
        length_ok(s),
        op_field(s) == OpCode::Text,
        k <= payload_len(s),
        header_len(s) + k <= s.len(),
        utf8_status(payload_prefix(s, k)) == Utf8Status::Invalid,
    ensures
        parse(client, rb, s) == Parse::Failed(CodecError::InvalidUtf8),
        parse(client, rb, s + more) == Parse::Failed(CodecError::InvalidUtf8),
{
    let a = available(s);
    lemma_payload_prefix_grows(s, k, a);
    let p = payload_prefix(s, a);
    assert(p =~= p.subrange(0, k as int) + p.subrange(k as int, p.len() as int));
    lemma_invalid_prefix(p.subrange(0, k as int), p.subrange(k as int, p.len() as int));
    lemma_decision_final(client, rb, s, more);
}

/// A control frame that is fragmented, or announces more than 125 bytes of payload,
/// always fails to decode, once its length is known.
pub proof fn lemma_control_rules(client: bool, rb: u8, s: Seq<u8>)
    requires
        s.len() >= 2,
        is_control_op(op_field(s)),
    ensures
        !fin_bit(s) ==> parse(client, rb, s) == Parse::Failed(CodecError::ProtocolViolation),
        s.len() >= 2 + ext_len(s) && payload_len(s) > MAX_CONTROL_PAYLOAD ==> parse(client, rb, s)
            == Parse::Failed(CodecError::ProtocolViolation),
{
}

} // verus!
