//! The stream reassembler: turns the chunks of one backend response into a
//! single cleaned completion text, or into an ordered run of non-empty text
//! deltas closed by one completion marker.

use crate::chunk::{
    chunk_to_utf8_string, is_printable_ascii, lemma_clean_text_unchanged, normalized_text,
};
use crate::text::{
    chars_of, find_pattern, is_control, lemma_pattern_search_found, pattern_at, pattern_search,
    slice_chars, string_of, trim_chars, trim_end, trim_start, trimmed,
};
use vstd::utf8::{encode_utf8, is_ascii_chars_encode_utf8};
use vstd::prelude::*;
use vstd::string::StringExecFns;

verus! {

broadcast use vstd::string::group_string_axioms;

/// The marker that ends the backend's echo of the prompt: `<|END_USER|>`.
pub open spec fn end_marker() -> Seq<char> {
    seq!['<', '|', 'E', 'N', 'D', '_', 'U', 'S', 'E', 'R', '|', '>']
}

/// The index of the first line feed in `s`, or `s.len()`.
pub open spec fn first_line_end(s: Seq<char>, from: int) -> int
    decreases s.len() - from,
{
    if from < 0 || from >= s.len() {
        s.len() as int
    } else if s[from] == '\n' {
        from
    } else {
        first_line_end(s, from + 1)
    }
}

/// The last index at or below `k` where the end marker starts.
pub open spec fn marker_search_back(s: Seq<char>, k: int) -> Option<int>
    decreases k + 1,
{
    if k < 0 {
        None
    } else if pattern_at(s, end_marker(), k) {
        Some(k)
    } else {
        marker_search_back(s, k - 1)
    }
}

/// `s` without the prompt echo: everything up to and including the last end
/// marker that ends on the first line, if there is one.
pub open spec fn strip_echo(s: Seq<char>) -> Seq<char> {
    match marker_search_back(s, first_line_end(s, 0)) {
        Some(i) => s.subrange(i + end_marker().len(), s.len() as int),
        None => s,
    }
}

/// An ASCII letter.
pub open spec fn is_ascii_letter(c: char) -> bool {
    ('a' <= c <= 'z') || ('A' <= c <= 'Z')
}

/// `s` without a leading line feed and the one ASCII letter that may follow
/// it.
pub open spec fn strip_leading_break(s: Seq<char>) -> Seq<char> {
    if s.len() > 0 && s[0] == '\n' {
        if s.len() > 1 && is_ascii_letter(s[1]) {
            s.subrange(2, s.len() as int)
        } else {
            s.subrange(1, s.len() as int)
        }
    } else {
        s
    }
}

/// `s` without its ASCII control characters.
pub open spec fn strip_controls(s: Seq<char>) -> Seq<char>
    decreases s.len(),
{
    if s.len() == 0 {
        s
    } else if is_control(s.last()) {
        strip_controls(s.drop_last())
    } else {
        strip_controls(s.drop_last()).push(s.last())
    }
}

/// The pattern that matches the prompt echo at the start of a response.
pub const ECHO_PATTERN: &'static str = r"^.*<\|END_USER\|>";

/// The pattern that matches a leading line feed and an optional letter.
pub const LEADING_BREAK_PATTERN: &'static str = r"^\n[a-zA-Z]?";

/// The pattern that matches one ASCII control character.
pub const CONTROL_PATTERN: &'static str = r"[\x00-\x1F\x7F]";

#[verifier::external_type_specification]
#[verifier::external_body]
pub struct ExRegexError(regex::Error);

/// Relies on `regex::Regex::new` and `Regex::replace`: the leftmost-first
/// match of the pattern, if any, gives way to the replacement. `.` matches
/// any character but a line feed, and `.*` takes as much as it can.
#[verifier::external_body]
fn replace_first(pattern: &str, text: &str, replacement: &str) -> (r: Result<String, regex::Error>)
    ensures
        pattern@ == ECHO_PATTERN@ && replacement@.len() == 0 ==> r is Ok && r->Ok_0@
            == strip_echo(text@),
        pattern@ == LEADING_BREAK_PATTERN@ && replacement@.len() == 0 ==> r is Ok && r->Ok_0@
            == strip_leading_break(text@),
{
    match regex::Regex::new(pattern) {
        Ok(re) => Ok(re.replace(text, replacement).into_owned()),
        Err(e) => Err(e),
    }
}

/// Relies on `regex::Regex::new` and `Regex::replace_all`: every match of
/// the pattern gives way to the replacement; the class of the ASCII control
/// characters matches each of them alone.
#[verifier::external_body]
fn replace_every(pattern: &str, text: &str, replacement: &str) -> (r: Result<String, regex::Error>)
    ensures
        pattern@ == CONTROL_PATTERN@ && replacement@.len() == 0 ==> r is Ok && r->Ok_0@
            == strip_controls(text@),
{
    match regex::Regex::new(pattern) {
        Ok(re) => Ok(re.replace_all(text, replacement).into_owned()),
        Err(e) => Err(e),
    }
}

/// `text` without its ASCII control characters.
pub fn remove_controls(text: &str) -> (r: String)
    ensures
        r@ == strip_controls(text@),
{
    proof {
        reveal_strlit("");
    }
    match replace_every(CONTROL_PATTERN, text, "") {
        Ok(s) => s,
        Err(_) => String::from_str(text),
    }
}

/// The completion text that the joined chunk texts `t` clean up to: the
/// prompt echo goes, then a leading line break and its letter, then the
/// surrounding whitespace, then every ASCII control character.
pub open spec fn cleaned(t: Seq<char>) -> Seq<char> {
    strip_controls(trimmed(strip_leading_break(strip_echo(t))))
}

/// The texts of `ts` joined in order.
pub open spec fn concat_all(ts: Seq<Seq<char>>) -> Seq<char>
    decreases ts.len(),
{
    if ts.len() == 0 {
        Seq::empty()
    } else {
        concat_all(ts.drop_last()) + ts.last()
    }
}

/// The cleaned completion for the joined chunk texts `text`.
pub fn clean_completion(text: &str) -> (r: String)
    ensures
        r@ == cleaned(text@),
{
    proof {
        reveal_strlit("");
    }
    let without_echo = match replace_first(ECHO_PATTERN, text, "") {
        Ok(s) => s,
        Err(_) => String::from_str(text),
    };
    let without_break = match replace_first(LEADING_BREAK_PATTERN, without_echo.as_str(), "") {
        Ok(s) => s,
        Err(_) => without_echo,
    };
    let chars = chars_of(without_break.as_str());
    let trimmed_text = string_of(&trim_chars(&chars));
    remove_controls(trimmed_text.as_str())
}

/// The views of a list of strings.
pub open spec fn string_views(ss: Seq<String>) -> Seq<Seq<char>> {
    ss.map_values(|s: String| s@)
}

/// The cleaned completion for chunk texts that were already normalized.
pub fn aggregate_texts(texts: &Vec<String>) -> (r: String)
    ensures
        r@ == cleaned(concat_all(string_views(texts@))),
{
    let mut joined = String::new();
    let mut i: usize = 0;
    while i < texts.len()
        invariant
            i <= texts@.len(),
            joined@ == concat_all(string_views(texts@.subrange(0, i as int))),
        decreases texts@.len() - i,
    {
        joined.append(texts[i].as_str());
        assert(string_views(texts@.subrange(0, i + 1)).drop_last() =~= string_views(
            texts@.subrange(0, i as int),
        ));
        i = i + 1;
    }
    assert(texts@.subrange(0, texts@.len() as int) =~= texts@);
    clean_completion(joined.as_str())
}

/// The texts that chunks carry, in order.
pub open spec fn chunk_texts(chunks: Seq<Seq<u8>>) -> Seq<Seq<char>> {
    chunks.map_values(|c: Seq<u8>| normalized_text(c))
}

/// The byte views of a list of chunks.
pub open spec fn chunk_views(chunks: Seq<Vec<u8>>) -> Seq<Seq<u8>> {
    chunks.map_values(|c: Vec<u8>| c@)
}

/// The single completion text for a whole response.
pub open spec fn aggregated(chunks: Seq<Seq<u8>>) -> Seq<char> {
    cleaned(concat_all(chunk_texts(chunks)))
}

/// Non-streaming mode: the cleaned completion text of all chunks, in
/// arrival order.
pub fn aggregate_chunks(chunks: &Vec<Vec<u8>>) -> (r: String)
    ensures
        r@ == aggregated(chunk_views(chunks@)),
{
    let mut texts: Vec<String> = Vec::new();
    let mut i: usize = 0;
    while i < chunks.len()
        invariant
            i <= chunks@.len(),
            texts@.len() == i,
            string_views(texts@) == chunk_texts(chunk_views(chunks@.subrange(0, i as int))),
        decreases chunks@.len() - i,
    {
        let text = chunk_to_utf8_string(chunks[i].as_slice());
        let ghost before = texts@;
        texts.push(text);
        let ghost done = chunks@.subrange(0, i + 1);
        assert forall|j: int| 0 <= j < i + 1 implies #[trigger] string_views(texts@)[j]
            == chunk_texts(chunk_views(done))[j] by {
            if j < i {
                assert(texts@[j] == before[j]);
                assert(done[j] == chunks@.subrange(0, i as int)[j]);
                assert(string_views(before)[j] == chunk_texts(
                    chunk_views(chunks@.subrange(0, i as int)),
                )[j]);
            } else {
                assert(done[j] == chunks@[j]);
            }
        }
        assert(string_views(texts@) =~= chunk_texts(chunk_views(done)));
        i = i + 1;
    }
    assert(chunks@.subrange(0, chunks@.len() as int) =~= chunks@);
    aggregate_texts(&texts)
}

/// A chunk that the normalizer hands back as it is: at least two bytes, all
/// printable ASCII, neither the first nor the last a space.
pub open spec fn is_plain_chunk(c: Seq<u8>) -> bool {
    &&& c.len() >= 2
    &&& forall|i: int| 0 <= i < c.len() ==> 0x20 <= #[trigger] c[i] <= 0x7e
    &&& c[0] != 0x20
    &&& c.last() != 0x20
}

/// ASCII bytes read as characters.
pub open spec fn ascii_text(bytes: Seq<u8>) -> Seq<char> {
    bytes.map_values(|b: u8| b as char)
}

/// The bytes of `chunks` joined in order.
pub open spec fn concat_bytes(chunks: Seq<Seq<u8>>) -> Seq<u8>
    decreases chunks.len(),
{
    if chunks.len() == 0 {
        Seq::empty()
    } else {
        concat_bytes(chunks.drop_last()) + chunks.last()
    }
}

proof fn lemma_plain_chunk_text(c: Seq<u8>)
    requires
        is_plain_chunk(c),
    ensures
        normalized_text(c) == ascii_text(c),
{
    let t = ascii_text(c);
    assert forall|i: int| 0 <= i < t.len() implies is_printable_ascii(#[trigger] t[i]) by {
        assert(0x20 <= c[i] <= 0x7e);
    }
    assert(vstd::utf8::is_ascii_chars(t));
    is_ascii_chars_encode_utf8(t);
    assert(encode_utf8(t) =~= c) by {
        assert forall|i: int| 0 <= i < c.len() implies encode_utf8(t)[i] == c[i] by {
            assert(t[i] as u8 == encode_utf8(t)[i]);
            assert(0x20 <= c[i] <= 0x7e);
        }
    }
    lemma_clean_text_unchanged(t);
    assert(0x20 < c[0] <= 0x7e);
    assert(trim_start(t) == t);
    assert(0x20 < c[c.len() - 1] <= 0x7e);
    assert(t.last() == c.last() as char);
    assert(trim_end(t) == t);
}

proof fn lemma_plain_texts_join(chunks: Seq<Seq<u8>>)
    requires
        forall|i: int| 0 <= i < chunks.len() ==> is_plain_chunk(#[trigger] chunks[i]),
    ensures
        concat_all(chunk_texts(chunks)) == ascii_text(concat_bytes(chunks)),
    decreases chunks.len(),
{
    if chunks.len() > 0 {
        let rest = chunks.drop_last();
        assert forall|i: int| 0 <= i < rest.len() implies is_plain_chunk(#[trigger] rest[i]) by {
            assert(rest[i] == chunks[i]);
        }
        lemma_plain_texts_join(rest);
        assert(chunk_texts(chunks).drop_last() =~= chunk_texts(rest));
        assert(is_plain_chunk(chunks[chunks.len() - 1]));
        lemma_plain_chunk_text(chunks.last());
        assert(ascii_text(concat_bytes(chunks)) =~= ascii_text(concat_bytes(rest)) + ascii_text(
            chunks.last(),
        ));
    }
}

/// Chunk boundaries do not matter to aggregation when every chunk comes
/// through the normalizer unchanged: two runs of plain chunks with the same
/// bytes in the same order aggregate to the same text.
pub proof fn lemma_rechunking_plain_output(a: Seq<Seq<u8>>, b: Seq<Seq<u8>>)
    requires
        forall|i: int| 0 <= i < a.len() ==> is_plain_chunk(#[trigger] a[i]),
        forall|i: int| 0 <= i < b.len() ==> is_plain_chunk(#[trigger] b[i]),
        concat_bytes(a) == concat_bytes(b),
    ensures
        aggregated(a) == aggregated(b),
{
    lemma_plain_texts_join(a);
    lemma_plain_texts_join(b);
}

/// What `char::is_alphabetic` says of a character: whether it has the
/// Unicode `Alphabetic` property.
pub uninterp spec fn alphabetic(c: char) -> bool;

/// Relies on `char::is_alphabetic`: the answer depends on the character
/// alone.
#[verifier::external_body]
fn is_alphabetic(c: char) -> (r: bool)
    ensures
        r == alphabetic(c),
{
    c.is_alphabetic()
}

/// The characters of the end marker.
pub fn end_marker_chars() -> (r: Vec<char>)
    ensures
        r@ == end_marker(),
{
    let r: Vec<char> = vec!['<', '|', 'E', 'N', 'D', '_', 'U', 'S', 'E', 'R', '|', '>'];
    assert(r@ =~= end_marker());
    r
}

/// The first index of `s` where the end marker starts.
pub fn find_marker(s: &Vec<char>) -> (r: Option<usize>)
    ensures
        match r {
            Some(i) => pattern_search(s@, end_marker(), 0) == Some(i as int),
            None => pattern_search(s@, end_marker(), 0) is None,
        },
{
    let marker = end_marker_chars();
    find_pattern(s, &marker, 0)
}

/// The delta that one chunk's text `t` gives in streaming mode: trimmed;
/// cut after the first end marker and trimmed again; stripped of one
/// leading alphabetic character and trimmed again; then rid of ASCII control
/// characters.
pub open spec fn delta_text(t: Seq<char>) -> Seq<char> {
    let t0 = trimmed(t);
    let t1 = match pattern_search(t0, end_marker(), 0) {
        Some(i) => trimmed(t0.subrange(i + end_marker().len(), t0.len() as int)),
        None => t0,
    };
    let t2 = if t1.len() > 0 && alphabetic(t1[0]) {
        trimmed(t1.drop_first())
    } else {
        t1
    };
    strip_controls(t2)
}

/// The delta for the normalized text of one chunk; `None` when nothing is
/// left of it.
pub fn stream_delta_text(text: &str) -> (r: Option<String>)
    ensures
        r is Some <==> delta_text(text@).len() > 0,
        r is Some ==> r->0@ == delta_text(text@),
{
    let chars = chars_of(text);
    let t0 = trim_chars(&chars);
    let t0_len = t0.len();
    let t1 = match find_marker(&t0) {
        Some(i) => {
            proof {
                lemma_pattern_search_found(t0@, end_marker(), 0);
            }
            trim_chars(&slice_chars(&t0, i + 12, t0_len))
        },
        None => t0,
    };
    let t1_len = t1.len();
    let t2 = if t1_len > 0 && is_alphabetic(t1[0]) {
        trim_chars(&slice_chars(&t1, 1, t1_len))
    } else {
        t1
    };
    assert(t1@.len() > 0 ==> t1@.subrange(1, t1@.len() as int) =~= t1@.drop_first());
    let delta = remove_controls(string_of(&t2).as_str());
    if delta.as_str().is_empty() {
        None
    } else {
        Some(delta)
    }
}

/// The delta that a raw chunk gives in streaming mode.
pub open spec fn chunk_delta_text(chunk: Seq<u8>) -> Seq<char> {
    delta_text(normalized_text(chunk))
}

/// The delta for one raw chunk; `None` when the chunk gives no text.
pub fn chunk_delta(chunk: &[u8]) -> (r: Option<String>)
    ensures
        r is Some <==> chunk_delta_text(chunk@).len() > 0,
        r is Some ==> r->0@ == chunk_delta_text(chunk@),
{
    let text = chunk_to_utf8_string(chunk);
    stream_delta_text(text.as_str())
}

/// One piece of streamed text, numbered from zero in the order of the
/// pieces.
pub struct TextDelta {
    pub index: u64,
    pub text: String,
}

/// What a stream emits: a text delta, or the marker that closes it.
pub enum StreamEvent {
    Delta(TextDelta),
    Done,
}

/// The state of one streamed response: how many deltas went out, and
/// whether the stream was closed.
pub struct StreamReassembler {
    next_index: u64,
    finished: bool,
}

impl StreamReassembler {
    /// The number of deltas emitted so far.
    pub closed spec fn emitted(&self) -> nat {
        self.next_index as nat
    }

    /// Whether the completion marker went out.
    pub closed spec fn is_closed(&self) -> bool {
        self.finished
    }

    /// A stream that has emitted nothing.
    pub fn new() -> (r: Self)
        ensures
            r.emitted() == 0,
            !r.is_closed(),
    {
        StreamReassembler { next_index: 0, finished: false }
    }

    /// Takes the next chunk in arrival order and gives its delta, if it has
    /// one, numbered after the deltas before it.
    pub fn push_chunk(&mut self, chunk: &[u8]) -> (r: Option<TextDelta>)
        requires
            !old(self).is_closed(),
            old(self).emitted() < u64::MAX,
        ensures
            !final(self).is_closed(),
            r is Some <==> chunk_delta_text(chunk@).len() > 0,
            r matches Some(d) ==> d.text@ == chunk_delta_text(chunk@) && d.index == old(
                self,
            ).emitted() && final(self).emitted() == old(self).emitted() + 1,
            r is None ==> final(self).emitted() == old(self).emitted(),
    {
        match chunk_delta(chunk) {
            Some(text) => {
                let delta = TextDelta { index: self.next_index, text };
                self.next_index = self.next_index + 1;
                Some(delta)
            },
            None => None,
        }
    }

    /// Closes the stream with the completion marker.
    pub fn finish(&mut self) -> (r: StreamEvent)
        requires
            !old(self).is_closed(),
        ensures
            r is Done,
            final(self).is_closed(),
            final(self).emitted() == old(self).emitted(),
    {
        self.finished = true;
        StreamEvent::Done
    }

    /// Whether the completion marker went out.
    pub fn is_finished(&self) -> (r: bool)
        ensures
            r == self.is_closed(),
    {
        self.finished
    }

    /// The number of deltas emitted so far.
    pub fn emitted_count(&self) -> (r: u64)
        ensures
            r == self.emitted(),
    {
        self.next_index
    }
}

/// The deltas that a run of chunks gives, in order, with the chunks that
/// give none left out.
pub open spec fn stream_texts(chunks: Seq<Seq<u8>>) -> Seq<Seq<char>>
    decreases chunks.len(),
{
    if chunks.len() == 0 {
        Seq::empty()
    } else {
        let rest = stream_texts(chunks.drop_last());
        let d = chunk_delta_text(chunks.last());
        if d.len() > 0 {
            rest.push(d)
        } else {
            rest
        }
    }
}

/// Whether `e` is the non-empty delta `text` with number `k`.
pub open spec fn is_delta(e: StreamEvent, k: int, text: Seq<char>) -> bool {
    &&& e matches StreamEvent::Delta(d)
    &&& d.index == k
    &&& d.text@ == text
    &&& text.len() > 0
}

/// Streaming mode over a whole run of chunks: one delta for each chunk that
/// gives text, in arrival order and numbered from zero, then the completion
/// marker, once, at the end.
pub fn stream_events(chunks: &Vec<Vec<u8>>) -> (r: Vec<StreamEvent>)
    ensures
        r@.len() == stream_texts(chunk_views(chunks@)).len() + 1,
        r@.last() is Done,
        forall|k: int|
            0 <= k < r@.len() - 1 ==> is_delta(
                #[trigger] r@[k],
                k,
                stream_texts(chunk_views(chunks@))[k],
            ),
{
    let mut machine = StreamReassembler::new();
    let mut events: Vec<StreamEvent> = Vec::new();
    let n = chunks.len();
    let mut i: usize = 0;
    while i < n
        invariant
            i <= n == chunks@.len(),
            !machine.is_closed(),
            machine.emitted() == events@.len() <= i,
            events@.len() == stream_texts(chunk_views(chunks@.subrange(0, i as int))).len(),
            forall|k: int|
                0 <= k < events@.len() ==> is_delta(
                    #[trigger] events@[k],
                    k,
                    stream_texts(chunk_views(chunks@.subrange(0, i as int)))[k],
                ),
        decreases n - i,
    {
        let ghost done = chunk_views(chunks@.subrange(0, i + 1));
        assert(done.drop_last() =~= chunk_views(chunks@.subrange(0, i as int)));
        assert(done.last() == chunks@[i as int]@);
        match machine.push_chunk(chunks[i].as_slice()) {
            Some(delta) => {
                events.push(StreamEvent::Delta(delta));
            },
            None => {},
        }
        i = i + 1;
    }
    assert(chunks@.subrange(0, n as int) =~= chunks@);
    let done = machine.finish();
    events.push(done);
    events
}

} // verus!
