//! Checks made on a request before any encoding work, and the errors that
//! end a request.

use crate::text::{
    chars_of, find_pattern, lemma_pattern_search_found, matches_at, pattern_at, pattern_search,
    slice_chars, string_of, trim_chars, trimmed,
};
use vstd::prelude::*;

verus! {

/// Why a request was turned down or failed.
#[derive(Debug, Clone, Copy, PartialEq, Eq, Structural)]
pub enum BridgeError {
    /// The request body or the shape of its content is not valid.
    MalformedRequest,
    /// Streaming was asked of a model that only answers in one piece.
    UnsupportedStreamingMode,
    /// The backend could not be reached, timed out, or refused.
    BackendTransportFailure,
}

impl BridgeError {
    /// The HTTP status that reports this error to the client.
    pub fn status_code(&self) -> (r: u16)
        ensures
            *self == BridgeError::BackendTransportFailure ==> r == 500,
            *self != BridgeError::BackendTransportFailure ==> r == 400,
    {
        match self {
            BridgeError::MalformedRequest => 400,
            BridgeError::UnsupportedStreamingMode => 400,
            BridgeError::BackendTransportFailure => 500,
        }
    }
}

/// The prefix of the model family that answers only in one piece: `o1-`.
pub open spec fn reasoning_prefix() -> Seq<char> {
    seq!['o', '1', '-']
}

/// Whether `model` names a model of the reasoning-only family.
pub open spec fn is_reasoning_only(model: Seq<char>) -> bool {
    model.len() >= 3 && model.subrange(0, 3) == reasoning_prefix()
}

/// Whether `model` names a model of the reasoning-only family.
pub fn reasoning_only(model: &str) -> (r: bool)
    ensures
        r == is_reasoning_only(model@),
{
    let chars = chars_of(model);
    if chars.len() < 3 {
        return false;
    }
    let r = chars[0] == 'o' && chars[1] == '1' && chars[2] == '-';
    assert(r ==> chars@.subrange(0, 3) =~= reasoning_prefix());
    assert(chars@.subrange(0, 3) == reasoning_prefix() ==> chars@.subrange(0, 3)[0] == 'o'
        && chars@.subrange(0, 3)[1] == '1' && chars@.subrange(0, 3)[2] == '-');
    r
}

/// Turns down streaming for reasoning-only models; any other combination
/// may go on.
pub fn check_stream_mode(model: &str, stream: bool) -> (r: Result<(), BridgeError>)
    ensures
        r is Err <==> stream && is_reasoning_only(model@),
        r is Err ==> r == Err::<(), BridgeError>(BridgeError::UnsupportedStreamingMode),
{
    if stream && reasoning_only(model) {
        Err(BridgeError::UnsupportedStreamingMode)
    } else {
        Ok(())
    }
}

/// `Bearer `, the scheme that an authorization header starts with.
pub open spec fn bearer_prefix() -> Seq<char> {
    seq!['B', 'e', 'a', 'r', 'e', 'r', ' ']
}

/// `%3A%3A`, the encoded separator in front of the key proper.
pub open spec fn key_separator() -> Seq<char> {
    seq!['%', '3', 'A', '%', '3', 'A']
}

/// `s` from index `i` on, with every occurrence of `p` taken out, left to
/// right.
pub open spec fn remove_from(s: Seq<char>, p: Seq<char>, i: int) -> Seq<char>
    decreases s.len() - i,
{
    if i < 0 || i >= s.len() {
        Seq::empty()
    } else if pattern_at(s, p, i) {
        remove_from(s, p, i + p.len())
    } else {
        seq![s[i]] + remove_from(s, p, i + 1)
    }
}

/// `s` up to the first occurrence of `p`, or all of `s`.
pub open spec fn before_pattern(s: Seq<char>, p: Seq<char>) -> Seq<char> {
    match pattern_search(s, p, 0) {
        Some(i) => s.subrange(0, i),
        None => s,
    }
}

/// The credential in an authorization header: none unless the header starts
/// with `Bearer `. Every `Bearer ` is taken out; of a comma-separated list
/// the first entry counts, trimmed; where the encoded separator occurs, the
/// piece after its first occurrence, up to the next one, is the key.
pub open spec fn credential(header: Seq<char>) -> Option<Seq<char>> {
    if !pattern_at(header, bearer_prefix(), 0) {
        None
    } else {
        let t0 = remove_from(header, bearer_prefix(), 0);
        let t1 = match pattern_search(t0, seq![','], 0) {
            Some(i) => trimmed(t0.subrange(0, i)),
            None => t0,
        };
        let t2 = match pattern_search(t1, key_separator(), 0) {
            Some(i) => before_pattern(t1.subrange(i + 6, t1.len() as int), key_separator()),
            None => t1,
        };
        Some(t2)
    }
}

/// `s` with every occurrence of the non-empty pattern `p` taken out.
pub fn remove_all(s: &Vec<char>, p: &Vec<char>) -> (r: Vec<char>)
    requires
        p@.len() > 0,
    ensures
        r@ == remove_from(s@, p@, 0),
{
    let n = s.len();
    let m = p.len();
    let mut out: Vec<char> = Vec::new();
    let mut i: usize = 0;
    while i < n
        invariant
            n == s@.len(),
            m == p@.len() > 0,
            i <= n,
            out@ + remove_from(s@, p@, i as int) == remove_from(s@, p@, 0),
        decreases n - i,
    {
        if matches_at(s, p, i) {
            i = i + m;
        } else {
            let ghost before = out@;
            out.push(s[i]);
            assert(out@ + remove_from(s@, p@, i + 1) =~= before + remove_from(s@, p@, i as int));
            i = i + 1;
        }
    }
    assert(out@ =~= out@ + remove_from(s@, p@, i as int));
    out
}

/// The credential in an authorization header; `None` when the header does
/// not start with `Bearer `.
pub fn bearer_token(header: &str) -> (r: Option<String>)
    ensures
        r is Some <==> credential(header@) is Some,
        r is Some ==> r->0@ == credential(header@)->0,
{
    let h = chars_of(header);
    let prefix: Vec<char> = vec!['B', 'e', 'a', 'r', 'e', 'r', ' '];
    assert(prefix@ =~= bearer_prefix());
    if !matches_at(&h, &prefix, 0) {
        return None;
    }
    let t0 = remove_all(&h, &prefix);
    let comma: Vec<char> = vec![','];
    assert(comma@ =~= seq![',']);
    let t1 = match find_pattern(&t0, &comma, 0) {
        Some(i) => {
            proof {
                lemma_pattern_search_found(t0@, comma@, 0);
            }
            trim_chars(&slice_chars(&t0, 0, i))
        },
        None => t0,
    };
    let t1_len = t1.len();
    let separator: Vec<char> = vec!['%', '3', 'A', '%', '3', 'A'];
    assert(separator@ =~= key_separator());
    let t2 = match find_pattern(&t1, &separator, 0) {
        Some(i) => {
            proof {
                lemma_pattern_search_found(t1@, separator@, 0);
            }
            let rest = slice_chars(&t1, i + 6, t1_len);
            match find_pattern(&rest, &separator, 0) {
                Some(j) => {
                    proof {
                        lemma_pattern_search_found(rest@, separator@, 0);
                    }
                    slice_chars(&rest, 0, j)
                },
                None => rest,
            }
        },
        None => t1,
    };
    Some(string_of(&t2))
}

} // verus!
