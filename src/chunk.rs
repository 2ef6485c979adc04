//! The chunk normalizer: recovers the text that one raw backend chunk
//! carries, dropping envelope metadata and control sub-frames.

use crate::text::{chars_of, string_of, trim_chars, trimmed};
use vstd::prelude::*;
use vstd::utf8::{
    decode_utf8, encode_utf8, encode_utf8_decode_utf8, encode_utf8_valid_utf8,
    is_ascii_chars_encode_utf8, valid_utf8,
};

verus! {

/// First byte of a chunk that carries only control information.
pub const CONTROL_ONLY_FIRST: u8 = 0x01;

/// Another first byte of a chunk that carries only control information.
pub const CONTROL_ONLY_SECOND: u8 = 0x02;

/// First byte of the two-byte control-only marker.
pub const STATUS_MARKER_FIRST: u8 = 0x60;

/// The frame-boundary byte; also the second byte of the two-byte
/// control-only marker.
pub const BOUNDARY: u8 = 0x0C;

/// The byte that ends the envelope metadata at the head of a chunk, and
/// that trails a frame boundary.
pub const LINE_FEED: u8 = 0x0A;

/// The largest byte that a control sub-frame may continue with.
pub const SUB_FRAME_TAIL_MAX: u8 = 0x0F;

/// Whether a chunk of at least two bytes carries control information only.
pub open spec fn is_control_only(c: Seq<u8>) -> bool {
    ||| c[0] == CONTROL_ONLY_FIRST
    ||| c[0] == CONTROL_ONLY_SECOND
    ||| c[0] == STATUS_MARKER_FIRST && c[1] == BOUNDARY
}

/// The index of the first `b` in `s` at or after `from`, or `s.len()`.
pub open spec fn first_index(s: Seq<u8>, b: u8, from: int) -> int
    decreases s.len() - from,
{
    if from < 0 || from >= s.len() {
        s.len() as int
    } else if s[from] == b {
        from
    } else {
        first_index(s, b, from + 1)
    }
}

/// The bytes after the first line feed, or all of `s` if it has none.
pub open spec fn after_envelope(s: Seq<u8>) -> Seq<u8> {
    let k = first_index(s, LINE_FEED, 0);
    if k < s.len() {
        s.subrange(k + 1, s.len() as int)
    } else {
        s
    }
}

/// The first index at or after `i` that does not hold a byte up to 0x0F.
pub open spec fn skip_low(s: Seq<u8>, i: int) -> int
    decreases s.len() - i,
{
    if 0 <= i < s.len() && s[i] <= SUB_FRAME_TAIL_MAX {
        skip_low(s, i + 1)
    } else {
        i
    }
}

/// The first index at or after `i` that does not hold a line feed.
pub open spec fn skip_line_feeds(s: Seq<u8>, i: int) -> int
    decreases s.len() - i,
{
    if 0 <= i < s.len() && s[i] == LINE_FEED {
        skip_line_feeds(s, i + 1)
    } else {
        i
    }
}

/// The skips never move backwards.
pub proof fn lemma_skips_advance(s: Seq<u8>, i: int)
    ensures
        skip_low(s, i) >= i,
        skip_line_feeds(s, i) >= i,
        i <= s.len() ==> skip_low(s, i) <= s.len(),
        i <= s.len() ==> skip_line_feeds(s, i) <= s.len(),
    decreases s.len() - i,
{
    if 0 <= i < s.len() {
        lemma_skips_advance(s, i + 1);
    }
}

/// Four zero bytes starting at `i`.
pub open spec fn zero_run_at(s: Seq<u8>, i: int) -> bool {
    &&& 0 <= i
    &&& i + 4 <= s.len()
    &&& s[i] == 0
    &&& s[i + 1] == 0
    &&& s[i + 2] == 0
    &&& s[i + 3] == 0
}

/// The bytes of `s` from `i` on, without control sub-frames (four zero
/// bytes and the bytes up to 0x0F after them) and frame boundaries (0x0C
/// and the line feeds after it).
pub open spec fn collapse_from(s: Seq<u8>, i: int) -> Seq<u8>
    decreases s.len() - i,
{
    if i < 0 || i >= s.len() {
        Seq::empty()
    } else if zero_run_at(s, i) {
        proof {
            lemma_skips_advance(s, i + 4);
        }
        collapse_from(s, skip_low(s, i + 4))
    } else if s[i] == BOUNDARY {
        proof {
            lemma_skips_advance(s, i + 1);
        }
        collapse_from(s, skip_line_feeds(s, i + 1))
    } else {
        seq![s[i]] + collapse_from(s, i + 1)
    }
}

/// `s` without any zero byte or 0x0C.
pub open spec fn strip_markers(s: Seq<u8>) -> Seq<u8>
    decreases s.len(),
{
    if s.len() == 0 {
        s
    } else if s.last() == 0 || s.last() == BOUNDARY {
        strip_markers(s.drop_last())
    } else {
        strip_markers(s.drop_last()).push(s.last())
    }
}

/// The payload bytes of a chunk: nothing for a chunk under two bytes or a
/// control-only chunk; otherwise the bytes after the envelope, with control
/// sub-frames, boundaries and stray marker bytes taken out.
pub open spec fn payload(c: Seq<u8>) -> Seq<u8> {
    if c.len() < 2 || is_control_only(c) {
        Seq::empty()
    } else {
        strip_markers(collapse_from(after_envelope(c), 0))
    }
}

/// What `String::from_utf8_lossy` makes of bytes that are not valid UTF-8.
pub uninterp spec fn lossy_text(bytes: Seq<u8>) -> Seq<char>;

/// Bytes read as UTF-8: valid input decodes to its characters; invalid input
/// has its bad sequences replaced.
pub open spec fn utf8_text(bytes: Seq<u8>) -> Seq<char> {
    if valid_utf8(bytes) {
        decode_utf8(bytes)
    } else {
        lossy_text(bytes)
    }
}

/// Relies on `String::from_utf8_lossy`: valid UTF-8 comes back as the same
/// text; the result depends on the bytes alone.
#[verifier::external_body]
fn decode_lossy(bytes: &[u8]) -> (r: String)
    ensures
        valid_utf8(bytes@) ==> r@ == decode_utf8(bytes@),
        !valid_utf8(bytes@) ==> r@ == lossy_text(bytes@),
{
    String::from_utf8_lossy(bytes).into_owned()
}

/// The text that a chunk carries: empty without payload, else the payload
/// read as UTF-8 and trimmed.
pub open spec fn normalized_text(c: Seq<u8>) -> Seq<char> {
    let p = payload(c);
    if p.len() == 0 {
        Seq::empty()
    } else {
        trimmed(utf8_text(p))
    }
}

/// The bytes of `chunk` after its first line feed, or all of it.
pub fn skip_envelope(chunk: &[u8]) -> (r: Vec<u8>)
    ensures
        r@ == after_envelope(chunk@),
{
    let n = chunk.len();
    let mut k: usize = 0;
    while k < n && chunk[k] != LINE_FEED
        invariant
            k <= n == chunk@.len(),
            first_index(chunk@, LINE_FEED, 0) == first_index(chunk@, LINE_FEED, k as int),
        decreases n - k,
    {
        k = k + 1;
    }
    let start: usize = if k < n {
        k + 1
    } else {
        0
    };
    let mut out: Vec<u8> = Vec::new();
    let mut i: usize = start;
    while i < n
        invariant
            start <= i <= n == chunk@.len(),
            out@ == chunk@.subrange(start as int, i as int),
        decreases n - i,
    {
        out.push(chunk[i]);
        assert(chunk@.subrange(start as int, i + 1) =~= chunk@.subrange(start as int, i as int).push(
            chunk@[i as int],
        ));
        i = i + 1;
    }
    assert(chunk@.subrange(0, n as int) =~= chunk@);
    out
}

/// The bytes of `s` without control sub-frames and frame boundaries.
pub fn collapse_control(s: &Vec<u8>) -> (r: Vec<u8>)
    ensures
        r@ == collapse_from(s@, 0),
{
    let n = s.len();
    let mut out: Vec<u8> = Vec::new();
    let mut i: usize = 0;
    while i < n
        invariant
            i <= n == s@.len(),
            out@ + collapse_from(s@, i as int) == collapse_from(s@, 0),
        decreases n - i,
    {
        if n - i >= 4 && s[i] == 0 && s[i + 1] == 0 && s[i + 2] == 0 && s[i + 3] == 0 {
            let mut j: usize = i + 4;
            while j < n && s[j] <= SUB_FRAME_TAIL_MAX
                invariant
                    i + 4 <= j <= n == s@.len(),
                    skip_low(s@, j as int) == skip_low(s@, i + 4),
                decreases n - j,
            {
                j = j + 1;
            }
            i = j;
        } else if s[i] == BOUNDARY {
            let mut j: usize = i + 1;
            while j < n && s[j] == LINE_FEED
                invariant
                    i + 1 <= j <= n == s@.len(),
                    skip_line_feeds(s@, j as int) == skip_line_feeds(s@, i + 1),
                decreases n - j,
            {
                j = j + 1;
            }
            i = j;
        } else {
            let ghost before = out@;
            out.push(s[i]);
            assert(out@ + collapse_from(s@, i + 1) =~= before + collapse_from(s@, i as int));
            i = i + 1;
        }
    }
    assert(out@ =~= out@ + collapse_from(s@, i as int));
    out
}

/// The bytes of `s` without zero bytes and 0x0C.
pub fn drop_marker_bytes(s: &Vec<u8>) -> (r: Vec<u8>)
    ensures
        r@ == strip_markers(s@),
{
    let mut out: Vec<u8> = Vec::new();
    let mut i: usize = 0;
    while i < s.len()
        invariant
            i <= s@.len(),
            out@ == strip_markers(s@.subrange(0, i as int)),
        decreases s@.len() - i,
    {
        assert(s@.subrange(0, i + 1).drop_last() =~= s@.subrange(0, i as int));
        let b = s[i];
        if b != 0 && b != BOUNDARY {
            out.push(b);
        }
        i = i + 1;
    }
    assert(s@.subrange(0, s@.len() as int) =~= s@);
    out
}

/// The payload bytes of a raw chunk.
pub fn payload_bytes(chunk: &[u8]) -> (r: Vec<u8>)
    ensures
        r@ == payload(chunk@),
{
    if chunk.len() < 2 {
        return Vec::new();
    }
    if chunk[0] == CONTROL_ONLY_FIRST || chunk[0] == CONTROL_ONLY_SECOND || (chunk[0]
        == STATUS_MARKER_FIRST && chunk[1] == BOUNDARY) {
        return Vec::new();
    }
    let body = skip_envelope(chunk);
    let collapsed = collapse_control(&body);
    drop_marker_bytes(&collapsed)
}

/// The text that one raw backend chunk carries, possibly empty.
pub fn chunk_to_utf8_string(chunk: &[u8]) -> (r: String)
    ensures
        r@ == normalized_text(chunk@),
{
    let p = payload_bytes(chunk);
    if p.len() == 0 {
        return String::new();
    }
    let decoded = decode_lossy(p.as_slice());
    let chars = chars_of(decoded.as_str());
    let text = trim_chars(&chars);
    string_of(&text)
}

/// A printable ASCII character, U+0020 to U+007E: no control character and
/// none of the bytes that the envelope reserves.
pub open spec fn is_printable_ascii(c: char) -> bool {
    ' ' <= c <= '~'
}

/// Bytes of printable ASCII.
spec fn printable_bytes(s: Seq<u8>) -> bool {
    forall|i: int| 0 <= i < s.len() ==> 0x20 <= #[trigger] s[i] <= 0x7e
}

proof fn lemma_no_line_feed(s: Seq<u8>, from: int)
    requires
        printable_bytes(s),
        0 <= from <= s.len(),
    ensures
        first_index(s, LINE_FEED, from) == s.len(),
    decreases s.len() - from,
{
    if from < s.len() {
        lemma_no_line_feed(s, from + 1);
    }
}

proof fn lemma_collapse_printable(s: Seq<u8>, i: int)
    requires
        printable_bytes(s),
        0 <= i <= s.len(),
    ensures
        collapse_from(s, i) == s.subrange(i, s.len() as int),
    decreases s.len() - i,
{
    if i < s.len() {
        lemma_collapse_printable(s, i + 1);
        assert(s.subrange(i, s.len() as int) =~= seq![s[i]] + s.subrange(i + 1, s.len() as int));
    } else {
        assert(s.subrange(i, s.len() as int) =~= Seq::<u8>::empty());
    }
}

proof fn lemma_strip_printable(s: Seq<u8>)
    requires
        printable_bytes(s),
    ensures
        strip_markers(s) == s,
    decreases s.len(),
{
    if s.len() > 0 {
        assert(printable_bytes(s.drop_last()));
        lemma_strip_printable(s.drop_last());
        assert(s.drop_last().push(s.last()) =~= s);
    }
}

/// Clean text passes the normalizer unchanged but for trimming: the UTF-8
/// bytes of at least two printable ASCII characters normalize to the same
/// characters with surrounding whitespace taken off.
pub proof fn lemma_clean_text_unchanged(text: Seq<char>)
    requires
        text.len() >= 2,
        forall|i: int| 0 <= i < text.len() ==> is_printable_ascii(#[trigger] text[i]),
    ensures
        normalized_text(encode_utf8(text)) == trimmed(text),
{
    let b = encode_utf8(text);
    is_ascii_chars_encode_utf8(text);
    assert(printable_bytes(b)) by {
        assert forall|i: int| 0 <= i < b.len() implies 0x20 <= #[trigger] b[i] <= 0x7e by {
            assert(is_printable_ascii(text[i]));
            assert(text[i] as u8 == b[i]);
        }
    }
    assert(!is_control_only(b));
    lemma_no_line_feed(b, 0);
    assert(after_envelope(b) == b);
    lemma_collapse_printable(b, 0);
    assert(b.subrange(0, b.len() as int) =~= b);
    lemma_strip_printable(b);
    assert(payload(b) == b);
    encode_utf8_valid_utf8(text);
    encode_utf8_decode_utf8(text);
}

} // verus!
