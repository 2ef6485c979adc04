//! The text flattener: a conversation as one transcript, one line per
//! message.

use crate::model::{rendered, ContentPart, Message};
use crate::text::push_char;
use vstd::prelude::*;
use vstd::string::StringExecFns;

verus! {

/// `parts` joined, with `sep` between each two.
pub open spec fn join(parts: Seq<Seq<char>>, sep: Seq<char>) -> Seq<char>
    decreases parts.len(),
{
    if parts.len() == 0 {
        Seq::empty()
    } else if parts.len() == 1 {
        parts[0]
    } else {
        join(parts.drop_last(), sep) + sep + parts.last()
    }
}

/// The separator between the parts of one message: a comma and a space.
pub open spec fn part_separator() -> Seq<char> {
    seq![',', ' ']
}

/// The content of a message as one text: its parts rendered and joined.
pub open spec fn content_text(parts: Seq<ContentPart>) -> Seq<char> {
    join(parts.map_values(|p: ContentPart| rendered(p)), part_separator())
}

/// The line of a message: its role, a colon, its content.
pub open spec fn message_line(m: Message) -> Seq<char> {
    m.role@ + seq![':'] + content_text(m.content@)
}

/// The transcript of a conversation: the lines of its messages joined by
/// line feeds.
pub open spec fn transcript(messages: Seq<Message>) -> Seq<char> {
    join(messages.map_values(|m: Message| message_line(m)), seq!['\n'])
}

/// The content of a message as one text.
pub fn join_content(parts: &Vec<ContentPart>) -> (r: String)
    ensures
        r@ == content_text(parts@),
{
    let mut out = String::new();
    let mut i: usize = 0;
    while i < parts.len()
        invariant
            i <= parts@.len(),
            out@ == content_text(parts@.subrange(0, i as int)),
        decreases parts@.len() - i,
    {
        let ghost done = parts@.subrange(0, i + 1).map_values(|p: ContentPart| rendered(p));
        assert(done.drop_last() =~= parts@.subrange(0, i as int).map_values(
            |p: ContentPart| rendered(p),
        ));
        if i > 0 {
            push_char(&mut out, ',');
            push_char(&mut out, ' ');
        }
        let piece = parts[i].render();
        out.append(piece.as_str());
        assert(i == 0 ==> out@ =~= done[0]);
        i = i + 1;
    }
    assert(parts@.subrange(0, parts@.len() as int) =~= parts@);
    out
}

/// The line of one message.
pub fn message_text(message: &Message) -> (r: String)
    ensures
        r@ == message_line(*message),
{
    let mut out = message.role.clone();
    push_char(&mut out, ':');
    let content = join_content(&message.content);
    out.append(content.as_str());
    out
}

/// The transcript of a conversation: one line per message, `role:content`,
/// joined by line feeds; empty for no messages.
pub fn flatten_messages(messages: &Vec<Message>) -> (r: String)
    ensures
        r@ == transcript(messages@),
{
    let mut out = String::new();
    let mut i: usize = 0;
    while i < messages.len()
        invariant
            i <= messages@.len(),
            out@ == transcript(messages@.subrange(0, i as int)),
        decreases messages@.len() - i,
    {
        let ghost done = messages@.subrange(0, i + 1).map_values(|m: Message| message_line(m));
        assert(done.drop_last() =~= messages@.subrange(0, i as int).map_values(
            |m: Message| message_line(m),
        ));
        if i > 0 {
            push_char(&mut out, '\n');
        }
        let line = message_text(&messages[i]);
        out.append(line.as_str());
        assert(i == 0 ==> out@ =~= done[0]);
        i = i + 1;
    }
    assert(messages@.subrange(0, messages@.len() as int) =~= messages@);
    out
}

/// How many times `c` occurs in `s`.
pub open spec fn occurrences(s: Seq<char>, c: char) -> nat
    decreases s.len(),
{
    if s.len() == 0 {
        0
    } else {
        occurrences(s.drop_last(), c) + if s.last() == c {
            1nat
        } else {
            0nat
        }
    }
}

proof fn lemma_occurrences_concat(a: Seq<char>, b: Seq<char>, c: char)
    ensures
        occurrences(a + b, c) == occurrences(a, c) + occurrences(b, c),
    decreases b.len(),
{
    if b.len() == 0 {
        assert(a + b =~= a);
    } else {
        assert((a + b).drop_last() =~= a + b.drop_last());
        lemma_occurrences_concat(a, b.drop_last(), c);
    }
}

proof fn lemma_join_lines(lines: Seq<Seq<char>>)
    requires
        lines.len() >= 1,
        forall|i: int| 0 <= i < lines.len() ==> occurrences(#[trigger] lines[i], '\n') == 0,
    ensures
        occurrences(join(lines, seq!['\n']), '\n') == lines.len() - 1,
        join(lines, seq!['\n']).len() >= lines.last().len(),
        lines.last().len() > 0 ==> join(lines, seq!['\n']).last() == lines.last().last(),
    decreases lines.len(),
{
    if lines.len() > 1 {
        let rest = lines.drop_last();
        assert(forall|i: int| 0 <= i < rest.len() ==> rest[i] == lines[i]);
        lemma_join_lines(rest);
        let j = join(rest, seq!['\n']);
        lemma_occurrences_concat(j, seq!['\n'], '\n');
        lemma_occurrences_concat(j + seq!['\n'], lines.last(), '\n');
        assert(occurrences(seq!['\n'], '\n') == 1) by {
            assert(seq!['\n'].drop_last() =~= Seq::<char>::empty());
            reveal_with_fuel(occurrences, 2);
        }
    }
}

/// One line per message: when no message line holds a line feed itself, the
/// transcript of a non-empty conversation holds one line feed fewer than
/// messages and does not end with one; a single message is its own line,
/// with no separator.
pub proof fn lemma_one_line_per_message(messages: Seq<Message>)
    requires
        messages.len() >= 1,
        forall|i: int|
            0 <= i < messages.len() ==> occurrences(#[trigger] message_line(messages[i]), '\n')
                == 0,
    ensures
        occurrences(transcript(messages), '\n') == messages.len() - 1,
        transcript(messages).last() != '\n',
        messages.len() == 1 ==> transcript(messages) == message_line(messages[0]),
{
    let lines = messages.map_values(|m: Message| message_line(m));
    assert forall|i: int| 0 <= i < lines.len() implies occurrences(#[trigger] lines[i], '\n')
        == 0 by {
        assert(lines[i] == message_line(messages[i]));
    }
    lemma_join_lines(lines);
    let last = lines.last();
    assert(last == message_line(messages[messages.len() - 1]));
    assert(last.len() > 0);
    if last.last() == '\n' {
        assert(occurrences(last, '\n') >= 1);
    }
}

} // verus!
