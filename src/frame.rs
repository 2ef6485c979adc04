//! The request frame: a five-byte big-endian length prefix followed by the
//! envelope that carries the transcript and the model name.

use crate::flatten::{flatten_messages, transcript};
use crate::model::Message;
use vstd::prelude::*;
use vstd::string::StringSliceAdditionalSpecFns;
use vstd::utf8::encode_utf8;

verus! {

/// Base-128 variable-length encoding of `n`: seven bits per byte, least
/// significant group first, the high bit set on every byte but the last.
pub open spec fn varint(n: nat) -> Seq<u8>
    decreases n,
{
    if n < 128 {
        seq![n as u8]
    } else {
        seq![(n % 128 + 128) as u8] + varint(n / 128)
    }
}

/// One or two bytes are spent on a length exactly as the two-group scheme
/// says: one below 128, two from 128 up to 16383.
pub proof fn lemma_length_field_width(n: nat)
    ensures
        varint(n).len() == 1 <==> n < 128,
        128 <= n < 16384 ==> varint(n).len() == 2,
        128 <= n < 16384 ==> varint(n) == seq![(n % 128 + 128) as u8, (n / 128) as u8],
{
    if n >= 128 {
        assert(varint(n / 128).len() >= 1) by {
            reveal_with_fuel(varint, 1);
        }
    }
}

/// Appends the variable-length encoding of `n` to `out`.
pub fn push_varint(out: &mut Vec<u8>, n: u64)
    ensures
        final(out)@ == old(out)@ + varint(n as nat),
{
    let mut rest: u64 = n;
    while rest >= 128
        invariant
            out@ + varint(rest as nat) == old(out)@ + varint(n as nat),
        decreases rest,
    {
        let byte: u8 = (rest % 128 + 128) as u8;
        out.push(byte);
        assert(varint(rest as nat) == seq![byte] + varint((rest / 128) as nat));
        assert(out@ + varint((rest / 128) as nat) == old(out)@ + varint(n as nat)) by {
            assert(out@ + varint((rest / 128) as nat) =~= (out@.drop_last() + seq![byte]) + varint((rest / 128) as nat));
        }
        rest = rest / 128;
    }
    out.push(rest as u8);
}

/// Appends every byte of `bytes` to `out`, in order.
pub fn push_bytes(out: &mut Vec<u8>, bytes: &[u8])
    ensures
        final(out)@ == old(out)@ + bytes@,
{
    let mut i: usize = 0;
    while i < bytes.len()
        invariant
            i <= bytes@.len(),
            out@ == old(out)@ + bytes@.subrange(0, i as int),
        decreases bytes@.len() - i,
    {
        out.push(bytes[i]);
        assert(bytes@.subrange(0, i + 1) =~= bytes@.subrange(0, i as int).push(bytes@[i as int]));
        i = i + 1;
    }
    assert(bytes@.subrange(0, bytes@.len() as int) =~= bytes@);
}

/// The value of one ASCII hex digit, either case.
pub open spec fn hex_digit_value(b: u8) -> Option<u8> {
    if 0x30 <= b <= 0x39 {
        Some((b - 0x30) as u8)
    } else if 0x41 <= b <= 0x46 {
        Some((b - 0x41 + 10) as u8)
    } else if 0x61 <= b <= 0x66 {
        Some((b - 0x61 + 10) as u8)
    } else {
        None
    }
}

/// Hex text as bytes: an even number of hex digits, one byte per pair with
/// the first digit as the high nibble; `None` for any other text.
pub open spec fn hex_decoded(text: Seq<u8>) -> Option<Seq<u8>> {
    if text.len() % 2 == 0 && forall|i: int|
        0 <= i < text.len() ==> #[trigger] hex_digit_value(text[i]) is Some {
        Some(
            Seq::new(
                text.len() / 2,
                |i: int|
                    (hex_digit_value(text[2 * i])->0 * 16 + hex_digit_value(text[2 * i + 1])->0) as u8,
            ),
        )
    } else {
        None
    }
}

#[verifier::external_type_specification]
#[verifier::external_body]
pub struct ExFromHexError(hex::FromHexError);

/// Relies on `hex::decode`: an even count of hex digits, upper or lower
/// case, gives one byte per pair, high nibble first; other text is an error.
#[verifier::external_body]
fn decode_hex(text: &str) -> (r: Result<Vec<u8>, hex::FromHexError>)
    ensures
        r is Ok <==> hex_decoded(text.spec_bytes()) is Some,
        r is Ok ==> r->Ok_0@ == hex_decoded(text.spec_bytes())->0,
{
    hex::decode(text)
}

/// Fields of the envelope between the transcript and the model name: the
/// backend's session and workspace markers. Opaque to this library.
pub const SESSION_FIELDS_HEX: &'static str = "10016A2432343163636435662D393162612D343131382D393239612D39366263303136316264326122002A132F643A2F6964656150726F2F656475626F73733A1E0A";

/// Fields of the envelope after the model name: request identifiers and
/// protocol flags. Opaque to this library.
pub const CLOSING_FIELDS_HEX: &'static str = "22004A2461383761396133342D323164642D343863372D623434662D616636633365636536663765680070007A2436393337376535612D386332642D343835342D623564392D653062623232336163303061800101B00100C00100E00100E80100";

/// The bytes that a block of fixed fields written in hex stands for; a
/// block that is not hex text contributes nothing.
pub open spec fn fixed_field_bytes(hex_text: &str) -> Seq<u8> {
    match hex_decoded(hex_text.spec_bytes()) {
        Some(bytes) => bytes,
        None => Seq::empty(),
    }
}

/// Decodes a block of fixed fields written in hex.
pub fn fixed_fields(hex_text: &str) -> (r: Vec<u8>)
    ensures
        r@ == fixed_field_bytes(hex_text),
{
    match decode_hex(hex_text) {
        Ok(bytes) => bytes,
        Err(_) => Vec::new(),
    }
}

/// Tag byte of the message that carries the transcript.
pub const MESSAGE_TAG: u8 = 0x12;

/// Tag byte of the transcript text inside that message.
pub const TEXT_TAG: u8 = 0x0A;

/// The declared size of the transcript message exceeds the transcript by
/// this many bytes, as the backend's envelope requires.
pub const MESSAGE_SIZE_OFFSET: u64 = 0x2A;

/// Width in bytes of the total-length prefix.
pub const PREFIX_WIDTH: usize = 5;

/// Lengths that the prefix can state.
pub const PREFIX_LIMIT: u64 = 0x100_0000_0000;

/// Everything after the length prefix, for transcript bytes `t` and model
/// name bytes `m`.
pub open spec fn envelope(t: Seq<u8>, m: Seq<u8>) -> Seq<u8> {
    seq![MESSAGE_TAG] + varint((t.len() + MESSAGE_SIZE_OFFSET) as nat) + seq![TEXT_TAG] + varint(t.len())
        + t + fixed_field_bytes(SESSION_FIELDS_HEX) + varint(m.len()) + m + fixed_field_bytes(
        CLOSING_FIELDS_HEX,
    )
}

/// `n` as five big-endian bytes.
pub open spec fn length_prefix(n: nat) -> Seq<u8> {
    seq![
        (n / 0x1_0000_0000 % 256) as u8,
        (n / 0x100_0000 % 256) as u8,
        (n / 0x1_0000 % 256) as u8,
        (n / 0x100 % 256) as u8,
        (n % 256) as u8,
    ]
}

/// The length that the first five bytes of a frame declare.
pub open spec fn declared_length(frame: Seq<u8>) -> nat
    recommends
        frame.len() >= 5,
{
    (frame[0] as nat) * 0x1_0000_0000 + (frame[1] as nat) * 0x100_0000 + (frame[2] as nat)
        * 0x1_0000 + (frame[3] as nat) * 0x100 + (frame[4] as nat)
}

/// The whole frame for transcript bytes `t` and model name bytes `m`.
pub open spec fn frame(t: Seq<u8>, m: Seq<u8>) -> Seq<u8> {
    length_prefix(envelope(t, m).len()) + envelope(t, m)
}

proof fn lemma_varint_nonempty(n: nat)
    ensures
        varint(n).len() >= 1,
    decreases n,
{
    if n >= 128 {
        lemma_varint_nonempty(n / 128);
    }
}

/// Reading the prefix back gives the number it was written from.
pub proof fn lemma_length_prefix_round_trip(n: nat)
    requires
        n < PREFIX_LIMIT,
    ensures
        length_prefix(n).len() == PREFIX_WIDTH,
        declared_length(length_prefix(n)) == n,
{
    let p = length_prefix(n);
    assert(p[0] as nat == n / 0x1_0000_0000 % 256);
    assert(p[1] as nat == n / 0x100_0000 % 256);
    assert(p[2] as nat == n / 0x1_0000 % 256);
    assert(p[3] as nat == n / 0x100 % 256);
    assert(p[4] as nat == n % 256);
    assert(declared_length(p) == n) by (nonlinear_arith)
        requires
            n < 0x100_0000_0000,
            p[0] as nat == n / 0x1_0000_0000 % 256,
            p[1] as nat == n / 0x100_0000 % 256,
            p[2] as nat == n / 0x1_0000 % 256,
            p[3] as nat == n / 0x100 % 256,
            p[4] as nat == n % 256,
            declared_length(p) == (p[0] as nat) * 0x1_0000_0000 + (p[1] as nat) * 0x100_0000
                + (p[2] as nat) * 0x1_0000 + (p[3] as nat) * 0x100 + (p[4] as nat),
    ;
}

/// Every frame declares its own length: the prefix, read back, counts the
/// bytes that follow it.
pub proof fn lemma_frame_declares_its_length(t: Seq<u8>, m: Seq<u8>)
    requires
        envelope(t, m).len() < PREFIX_LIMIT,
    ensures
        frame(t, m).len() >= PREFIX_WIDTH,
        declared_length(frame(t, m)) == frame(t, m).len() - PREFIX_WIDTH,
{
    let n = envelope(t, m).len();
    lemma_length_prefix_round_trip(n);
    assert(frame(t, m).subrange(0, 5) =~= length_prefix(n));
}

/// The number of bytes that the variable-length encoding of `n` takes.
pub fn varint_len(n: u64) -> (r: u64)
    ensures
        r == varint(n as nat).len(),
        1 <= r <= 10,
{
    let mut rest: u64 = n;
    let mut count: u64 = 1;
    assert(pow2_7(1) == 1);
    while rest >= 128
        invariant
            1 <= count <= 10,
            count + varint(rest as nat).len() - 1 == varint(n as nat).len(),
            rest as nat * pow2_7(count) <= u64::MAX as nat,
        decreases rest,
    {
        assert(varint(rest as nat).len() == 1 + varint((rest / 128) as nat).len());
        proof {
            lemma_pow2_7_step(count, rest as nat);
        }
        rest = rest / 128;
        count = count + 1;
    }
    count
}

spec fn pow2_7(k: u64) -> nat
    decreases k,
{
    if k <= 1 {
        1
    } else {
        128 * pow2_7((k - 1) as u64)
    }
}

proof fn lemma_pow2_7_step(count: u64, rest: nat)
    requires
        1 <= count <= 10,
        rest >= 128,
        rest * pow2_7(count) <= u64::MAX as nat,
    ensures
        count < 10,
        (rest / 128) * pow2_7((count + 1) as u64) <= u64::MAX as nat,
{
    reveal_with_fuel(pow2_7, 11);
    assert((rest / 128) * 128 <= rest) by (nonlinear_arith);
    assert((rest / 128) * pow2_7((count + 1) as u64) == (rest / 128) * 128 * pow2_7(count))
        by (nonlinear_arith)
        requires
            pow2_7((count + 1) as u64) == 128 * pow2_7(count),
    ;
    assert((rest / 128) * 128 * pow2_7(count) <= rest * pow2_7(count)) by (nonlinear_arith)
        requires
            (rest / 128) * 128 <= rest,
    ;
    if count >= 10 {
        assert(pow2_7(10) == 0x8000_0000_0000_0000);
        assert(rest * pow2_7(count) >= 128 * pow2_7(10)) by (nonlinear_arith)
            requires
                rest >= 128,
                count == 10,
        ;
    }
}

/// Whether the frame for `text` and `model_name` is short enough for its
/// length prefix.
pub fn frame_fits(text: &str, model_name: &str) -> (r: bool)
    ensures
        r == (envelope(text.spec_bytes(), model_name.spec_bytes()).len() < PREFIX_LIMIT),
{
    let t: u64 = text.as_bytes().len() as u64;
    let m: u64 = model_name.as_bytes().len() as u64;
    let session = fixed_fields(SESSION_FIELDS_HEX);
    let closing = fixed_fields(CLOSING_FIELDS_HEX);
    let s: u64 = session.len() as u64;
    let c: u64 = closing.len() as u64;
    if t >= PREFIX_LIMIT || m >= PREFIX_LIMIT || s >= PREFIX_LIMIT || c >= PREFIX_LIMIT {
        proof {
            lemma_varint_nonempty((t + MESSAGE_SIZE_OFFSET) as nat);
            lemma_varint_nonempty(t as nat);
            lemma_varint_nonempty(m as nat);
        }
        return false;
    }
    let a: u64 = varint_len(t + MESSAGE_SIZE_OFFSET);
    let b: u64 = varint_len(t);
    let d: u64 = varint_len(m);
    let total: u64 = 2 + a + b + t + s + d + m + c;
    assert(envelope(text.spec_bytes(), model_name.spec_bytes()).len() == total);
    total < PREFIX_LIMIT
}

/// Builds the frame that carries the transcript `text` for the model
/// `model_name`: a five-byte big-endian count of the bytes that follow, then
/// the envelope.
pub fn string_to_hex(text: &str, model_name: &str) -> (r: Vec<u8>)
    requires
        envelope(text.spec_bytes(), model_name.spec_bytes()).len() < PREFIX_LIMIT,
    ensures
        r@ == frame(text.spec_bytes(), model_name.spec_bytes()),
        r@.len() >= PREFIX_WIDTH,
        declared_length(r@) == r@.len() - PREFIX_WIDTH,
{
    let t = text.as_bytes();
    let m = model_name.as_bytes();
    let ghost env = envelope(t@, m@);
    proof {
        lemma_varint_nonempty((t@.len() + MESSAGE_SIZE_OFFSET) as nat);
        lemma_varint_nonempty(t@.len() as nat);
        lemma_varint_nonempty(m@.len() as nat);
    }
    let t_len: u64 = t.len() as u64;
    let mut body: Vec<u8> = Vec::new();
    body.push(MESSAGE_TAG);
    push_varint(&mut body, t_len + MESSAGE_SIZE_OFFSET);
    body.push(TEXT_TAG);
    push_varint(&mut body, t_len);
    push_bytes(&mut body, t);
    let mut session = fixed_fields(SESSION_FIELDS_HEX);
    body.append(&mut session);
    push_varint(&mut body, m.len() as u64);
    push_bytes(&mut body, m);
    let mut closing = fixed_fields(CLOSING_FIELDS_HEX);
    body.append(&mut closing);
    assert(body@ =~= env);
    let total: u64 = body.len() as u64;
    let mut out: Vec<u8> = Vec::new();
    out.push((total / 0x1_0000_0000 % 256) as u8);
    out.push((total / 0x100_0000 % 256) as u8);
    out.push((total / 0x1_0000 % 256) as u8);
    out.push((total / 0x100 % 256) as u8);
    out.push((total % 256) as u8);
    assert(out@ =~= length_prefix(total as nat));
    out.append(&mut body);
    proof {
        lemma_length_prefix_round_trip(total as nat);
        assert(out@.subrange(0, 5) =~= length_prefix(total as nat));
    }
    out
}

/// The frame for a whole conversation: its transcript, framed for `model`;
/// `None` when the frame would be too long for its length prefix.
pub fn conversation_frame(messages: &Vec<Message>, model: &str) -> (r: Option<Vec<u8>>)
    ensures
        r is Some <==> envelope(encode_utf8(transcript(messages@)), model.spec_bytes()).len()
            < PREFIX_LIMIT,
        r is Some ==> r->0@ == frame(encode_utf8(transcript(messages@)), model.spec_bytes()),
{
    let text = flatten_messages(messages);
    if frame_fits(text.as_str(), model) {
        Some(string_to_hex(text.as_str(), model))
    } else {
        None
    }
}

/// Reads the length that a frame's prefix declares; `None` for fewer than
/// five bytes.
pub fn frame_declared_length(frame: &[u8]) -> (r: Option<u64>)
    ensures
        frame@.len() < PREFIX_WIDTH ==> r is None,
        frame@.len() >= PREFIX_WIDTH ==> r == Some(declared_length(frame@) as u64),
        r is Some ==> r->0 < PREFIX_LIMIT,
{
    if frame.len() < PREFIX_WIDTH {
        return None;
    }
    let n: u64 = (frame[0] as u64) * 0x1_0000_0000 + (frame[1] as u64) * 0x100_0000 + (frame[2] as u64)
        * 0x1_0000 + (frame[3] as u64) * 0x100 + (frame[4] as u64);
    Some(n)
}

} // verus!
