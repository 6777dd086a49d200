//! How the notes of a task tell to which event it belongs.
use scraper::{Html, Selector};
use vstd::prelude::*;
use vstd::utf8::encode_utf8;

use super::{linked_view, AsanaLinkedTask, AsanaTask, LinkedTaskView, TaskView};
use crate::text::{
    chars_of, count, find, first_occurrence, is_digit, lemma_first_occurrence_from,
    lemma_first_occurrence_is, lemma_trimmed_after, lemma_trimmed_between, no_occurrences,
    occurrences, occurs_at, trim_range, trimmed,
};

verus! {

/// What stands before the identifier of an event.
pub const START_MARKER: &'static str = ">>>>";

/// What stands behind the identifier of an event.
pub const END_MARKER: &'static str = "<<<<";

/// The element of the notes that holds the identifier of an event.
pub const ID_ELEMENT: &'static str = "code";

/// How many bytes a text may have that the parser puts together: the buffer in which it does so
/// cannot grow beyond that.
pub const LONGEST_TEXT: u32 = 2_147_483_648;

// ---------------------------------------------------------------------------
// Writing
// ---------------------------------------------------------------------------

/// The notes of a task that belongs to the event `id`.
pub open spec fn event_notes(id: Seq<char>) -> Seq<char> {
    "<body>\n<code>&gt;&gt;&gt;&gt; "@ + id + " &lt;&lt;&lt;&lt;</code></body>"@
}

/// The text of the element that holds the identifier `id` in the notes.
pub open spec fn marked_id(id: Seq<char>) -> Seq<char> {
    ">>>> "@ + id + " <<<<"@
}

/// The character at position `i` of a text that a space follows.
pub open spec fn char_at(text: Seq<char>, i: int) -> char {
    if 0 <= i < text.len() {
        text[i]
    } else {
        ' '
    }
}

/// The character is one of the letters of English.
pub open spec fn is_letter(c: char) -> bool {
    'a' <= c <= 'z' || 'A' <= c <= 'Z'
}

/// The character is a digit of a hexadecimal number.
pub open spec fn is_hex_digit(c: char) -> bool {
    is_digit(c) || 'a' <= c <= 'f' || 'A' <= c <= 'F'
}

/// In a document, a tag or a comment may start at position `i` of the text.
pub open spec fn opens_tag(text: Seq<char>, i: int) -> bool {
    let next = char_at(text, i + 1);
    &&& text[i] == '<'
    &&& is_letter(next) || next == '/' || next == '!' || next == '?'
}

/// In a document, a character reference may start at position `i` of the text.
pub open spec fn opens_reference(text: Seq<char>, i: int) -> bool {
    let next = char_at(text, i + 1);
    let second = char_at(text, i + 2);
    let third = char_at(text, i + 3);
    &&& text[i] == '&'
    &&& is_letter(next) || next == '#' && (is_digit(second) || (second == 'x' || second == 'X')
        && is_hex_digit(third))
}

/// The text means itself where it stands in a document, before a space: no tag and no character
/// reference starts in it, and it holds no character that reading a document changes or drops.
pub open spec fn plain_text(text: Seq<char>) -> bool {
    forall|i: int|
        0 <= i < text.len() ==> (#[trigger] text[i]) != '\r' && text[i] != '\0' && !opens_tag(
            text,
            i,
        ) && !opens_reference(text, i)
}

/// The marker that ends an identifier does not stand in the text.
pub open spec fn without_end_marker(text: Seq<char>) -> bool {
    forall|i: int| !#[trigger] occurs_at(text, END_MARKER@, i)
}

/// Writes the notes of a task that belongs to the event `id`.
pub fn write_event_notes(id: &str) -> (notes: String)
    ensures
        notes@ == event_notes(id@),
{
    "<body>\n<code>&gt;&gt;&gt;&gt; ".to_owned().concat(id).concat(
        " &lt;&lt;&lt;&lt;</code></body>",
    )
}

// ---------------------------------------------------------------------------
// Reading
// ---------------------------------------------------------------------------

/// The two markers stand in the wrong order, so that nothing can stand between them.
pub open spec fn markers_reversed(text: Seq<char>) -> bool {
    match (first_occurrence(text, START_MARKER@), first_occurrence(text, END_MARKER@)) {
        (Some(start), Some(end)) => end < start,
        _ => false,
    }
}

/// The identifier that stands between the markers, without white space around it.
pub open spec fn event_id_in(text: Seq<char>) -> Option<Seq<char>> {
    match (first_occurrence(text, START_MARKER@), first_occurrence(text, END_MARKER@)) {
        (Some(start), Some(end)) => {
            let id = trimmed(text.subrange(start + START_MARKER@.len(), end));
            if id.len() > 0 {
                Some(id)
            } else {
                None
            }
        },
        _ => None,
    }
}

/// Markers in the right order do not overlap.
proof fn lemma_markers_apart(text: Seq<char>, start: int, end: int)
    requires
        occurs_at(text, START_MARKER@, start),
        occurs_at(text, END_MARKER@, end),
        start <= end,
    ensures
        start + 4 <= end,
        START_MARKER@.len() == 4,
        END_MARKER@.len() == 4,
{
    reveal_strlit(">>>>");
    reveal_strlit("<<<<");
    if end < start + 4 {
        assert(text.subrange(start, start + 4)[end - start] == '>');
        assert(text.subrange(end, end + 4)[0] == '<');
    }
}

/// Whether the two markers stand in the wrong order.
pub fn has_reversed_markers(text: &str) -> (reversed: bool)
    ensures
        reversed == markers_reversed(text@),
{
    let chars = chars_of(text);
    let start_marker = chars_of(START_MARKER);
    let end_marker = chars_of(END_MARKER);
    match (find(&chars, &start_marker), find(&chars, &end_marker)) {
        (Some(start), Some(end)) => end < start,
        _ => false,
    }
}

/// The identifier that stands between the markers, without white space around it.
pub fn linked_event_id(text: &str) -> (id: Option<String>)
    requires
        !markers_reversed(text@),
    ensures
        id.deep_view() == event_id_in(text@),
{
    let chars = chars_of(text);
    let start_marker = chars_of(START_MARKER);
    let end_marker = chars_of(END_MARKER);
    let start: usize = match find(&chars, &start_marker) {
        Some(at) => at,
        None => return None,
    };
    let end: usize = match find(&chars, &end_marker) {
        Some(at) => at,
        None => return None,
    };
    proof {
        lemma_first_occurrence_from(text@, START_MARKER@, 0);
        lemma_first_occurrence_from(text@, END_MARKER@, 0);
        lemma_markers_apart(text@, start as int, end as int);
    }
    let (from, to) = trim_range(&chars, start + 4, end);
    if from == to {
        return None;
    }
    let id = text.substring_char(from, to).to_owned();
    Some(id)
}

/// The tag name of an element, as it can be asked for.
pub open spec fn tag_name(text: Seq<char>) -> bool {
    &&& text.len() > 0
    &&& forall|i: int| 0 <= i < text.len() ==> 'a' <= #[trigger] text[i] <= 'z'
}

/// How many bytes the parser can make of the notes: three of a null character, which it may
/// replace, and one more than it reads for a character reference.
pub open spec fn bytes_when_read(notes: Seq<char>) -> nat {
    encode_utf8(notes).len() + 2 * occurrences(notes, '\0') + occurrences(notes, '&')
}

/// The notes are not too long to be read.
pub open spec fn readable(notes: Seq<char>) -> bool {
    bytes_when_read(notes) <= LONGEST_TEXT
}

/// Whether the notes are not too long to be read.
pub fn is_readable(notes: &str) -> (is: bool)
    ensures
        is == readable(notes@),
{
    let chars = chars_of(notes);
    let nulls: usize = count(&chars, '\0');
    let ampersands: usize = count(&chars, '&');
    let bytes: u128 = notes.as_bytes().len() as u128 + 2 * (nulls as u128) + ampersands as u128;
    bytes <= LONGEST_TEXT as u128
}

/// The text within the first element with the tag name `element`, of the document fragment
/// `html`.
pub uninterp spec fn first_text(html: Seq<char>, element: Seq<char>) -> Option<Seq<char>>;

/// Calls `scraper::Html::parse_fragment`, selects the elements that `scraper::Selector::parse`
/// makes of the tag name, and collects the text of the first one. The contract claims that the
/// result is a function of the two arguments alone, and that the notes which
/// [`write_event_notes`] writes for a plain text are read as that text between the markers:
/// the parser drops the two `body` tags in a fragment, decodes the character references around
/// the text, and keeps the text as it is. Nothing is said of a text in which a letter follows
/// an ampersand, which means itself unless the parser knows a character of that name.
#[verifier::external_body]
fn text_of_first(html: &str, element: &str) -> (text: Option<String>)
    requires
        readable(html@),
        tag_name(element@),
    ensures
        text.deep_view() == first_text(html@, element@),
        forall|id: Seq<char>|
            html@ == #[trigger] event_notes(id) && element@ == ID_ELEMENT@ && plain_text(id)
                ==> text.deep_view() == Some(marked_id(id)),
{
    let selector = Selector::parse(element).unwrap();
    let document = Html::parse_fragment(html);
    let found = document.select(&selector).next()?;
    Some(found.text().collect::<String>())
}

/// What of an identifier stands before the marker that ends identifiers, where it holds that.
pub open spec fn before_end_marker(id: Seq<char>) -> Seq<char> {
    if without_end_marker(id) {
        id
    } else {
        id.take(first_occurrence(id, END_MARKER@)->0)
    }
}

/// What is read back of an identifier that was written between the markers.
pub open spec fn id_read_back(id: Seq<char>) -> Option<Seq<char>> {
    let read = trimmed(before_end_marker(id));
    if read.len() > 0 {
        Some(read)
    } else {
        None
    }
}

/// Between the markers that stand around it an identifier is found, without the white space
/// around it; of one that holds the marker that ends identifiers, what stands before that.
pub proof fn marked_id_is_found(id: Seq<char>)
    ensures
        !markers_reversed(marked_id(id)),
        event_id_in(marked_id(id)) == id_read_back(id),
{
    reveal_strlit(">>>>");
    reveal_strlit("<<<<");
    reveal_strlit(">>>> ");
    reveal_strlit(" <<<<");
    let text = marked_id(id);
    let last: int = id.len() + 6int;
    assert(text.subrange(0, 4) =~= START_MARKER@);
    lemma_first_occurrence_is(text, START_MARKER@, 0);
    assert(text.subrange(last, last + 4) =~= END_MARKER@);
    assert forall|i: int| 0 <= i < last && occurs_at(text, END_MARKER@, i) implies occurs_at(
        id,
        END_MARKER@,
        i - 5,
    ) by {
        let found = text.subrange(i, i + 4);
        assert(found[0] == '<' && found[1] == '<' && found[2] == '<' && found[3] == '<');
        assert(text[4] == ' ' && text[last - 1] == ' ');
        if i < 5 {
            assert(text[i] != '<');
        } else if i + 4 > last - 1 {
            assert(found[last - 1 - i] == ' ');
        } else {
            assert(id.subrange(i - 5, i - 1) =~= found);
        }
    }
    lemma_first_occurrence_from(id, END_MARKER@, 0);
    match first_occurrence(id, END_MARKER@) {
        Some(at) => {
            assert(text.subrange(at + 5, at + 9) =~= id.subrange(at, at + 4));
            lemma_first_occurrence_is(text, END_MARKER@, at + 5);
            assert(text.subrange(4, at + 5) =~= seq![' '] + id.take(at));
            lemma_trimmed_after(' ', id.take(at));
        },
        None => {
            assert(without_end_marker(id));
            lemma_first_occurrence_is(text, END_MARKER@, last);
            assert(text.subrange(4, last) =~= (seq![' '] + id).push(' '));
            lemma_trimmed_between(' ', id, ' ');
        },
    }
}

/// The notes name an event where the first element that can hold its identifier does.
pub open spec fn event_id_in_notes(notes: Seq<char>) -> Option<Seq<char>> {
    match first_text(notes, ID_ELEMENT@) {
        Some(text) => event_id_in(text),
        None => None,
    }
}

/// The notes can be read, and markers in them stand in the right order.
pub open spec fn linkable(notes: Seq<char>) -> bool {
    &&& readable(notes)
    &&& first_text(notes, ID_ELEMENT@) matches Some(text) ==> !markers_reversed(text)
}

/// `id` is the identifier of the event for which the notes were written, and stands in them as
/// it is.
pub open spec fn written_for(notes: Seq<char>, id: Seq<char>) -> bool {
    &&& notes == event_notes(id)
    &&& plain_text(id)
}

/// What the notes name is what is read back of the identifier `id` between the markers.
pub open spec fn names_event(notes: Seq<char>, id: Seq<char>) -> bool {
    &&& event_id_in_notes(notes) == event_id_in(marked_id(id))
    &&& event_id_in_notes(notes) == id_read_back(id)
}

fn read_id_element(notes: &str) -> (text: Option<String>)
    requires
        readable(notes@),
    ensures
        text.deep_view() == first_text(notes@, ID_ELEMENT@),
        forall|id: Seq<char>| #[trigger]
            written_for(notes@, id) ==> text.deep_view() == Some(marked_id(id)),
{
    proof {
        reveal_strlit("code");
    }
    text_of_first(notes, ID_ELEMENT)
}

impl AsanaTask {
    /// Links the task to the event that its notes name, if they name one. Notes that were
    /// written for an event name that event.
    pub fn into_linked_task(self) -> (linked: Option<AsanaLinkedTask>)
        requires
            linkable(self@.html_notes),
        ensures
            match linked {
                Some(link) => link.task == self && event_id_in_notes(self@.html_notes) == Some(
                    link.event_id@,
                ),
                None => event_id_in_notes(self@.html_notes) is None,
            },
            forall|id: Seq<char>| #[trigger]
                written_for(self@.html_notes, id) ==> names_event(self@.html_notes, id),
    {
        let text = read_id_element(self.html_notes.as_str());
        proof {
            assert forall|id: Seq<char>| #[trigger]
                written_for(self@.html_notes, id) implies names_event(self@.html_notes, id) by {
                marked_id_is_found(id);
            }
        }
        match text {
            Some(text) => match linked_event_id(text.as_str()) {
                Some(event_id) => Some(AsanaLinkedTask { task: self, event_id }),
                None => None,
            },
            None => None,
        }
    }

    /// Links the task to the event that its notes name, if they name one. A task with notes
    /// that cannot be read, or in which the markers stand in the wrong order, is handed back.
    pub fn try_into_linked_task(self) -> (linked: Result<Option<AsanaLinkedTask>, AsanaTask>)
        ensures
            match linked {
                Ok(Some(link)) => {
                    &&& linkable(self@.html_notes)
                    &&& link.task == self
                    &&& event_id_in_notes(self@.html_notes) == Some(link.event_id@)
                },
                Ok(None) => linkable(self@.html_notes) && event_id_in_notes(
                    self@.html_notes,
                ) is None,
                Err(task) => task == self && !linkable(self@.html_notes),
            },
            forall|id: Seq<char>| #[trigger]
                written_for(self@.html_notes, id) && readable(self@.html_notes) ==> linked is Ok
                    && names_event(self@.html_notes, id),
    {
        if !is_readable(self.html_notes.as_str()) {
            return Err(self);
        }
        let text = read_id_element(self.html_notes.as_str());
        proof {
            assert forall|id: Seq<char>| #[trigger]
                written_for(self@.html_notes, id) implies linkable(self@.html_notes) by {
                marked_id_is_found(id);
            }
        }
        if let Some(text) = text {
            if has_reversed_markers(text.as_str()) {
                return Err(self);
            }
        }
        Ok(self.into_linked_task())
    }
}

/// The task linked to the event that its notes name, if they name one.
pub open spec fn linked_task(task: TaskView) -> Option<LinkedTaskView> {
    match event_id_in_notes(task.html_notes) {
        Some(event_id) => Some(LinkedTaskView { task, event_id }),
        None => None,
    }
}

/// The first task of a list that cannot be linked stands at position `i`.
pub open spec fn first_unlinkable(tasks: Seq<AsanaTask>, i: int) -> bool {
    &&& 0 <= i < tasks.len()
    &&& !linkable(tasks[i]@.html_notes)
    &&& forall|k: int| 0 <= k < i ==> linkable((#[trigger] tasks[k])@.html_notes)
}

/// Links the tasks of a list to the events that their notes name, in their order. Tasks with
/// notes that name none are passed over, and notes that were written for an event name that
/// event. The first task that cannot be linked is handed back alone.
pub fn link_tasks(tasks: Vec<AsanaTask>) -> (linked: Result<Vec<AsanaLinkedTask>, AsanaTask>)
    ensures
        match linked {
            Ok(list) => {
                &&& forall|i: int|
                    0 <= i < tasks@.len() ==> linkable((#[trigger] tasks@[i])@.html_notes)
                &&& linked_view(list@) == tasks@.filter_map(|task: AsanaTask| linked_task(task@))
                &&& forall|i: int, id: Seq<char>|
                    0 <= i < tasks@.len() && #[trigger] written_for(tasks@[i]@.html_notes, id)
                        ==> names_event(tasks@[i]@.html_notes, id)
            },
            Err(task) => exists|i: int| #[trigger]
                first_unlinkable(tasks@, i) && tasks@[i] == task,
        },
{
    let ghost all = tasks@;
    let mut list: Vec<AsanaLinkedTask> = Vec::new();
    assert(linked_view(list@) =~= all.take(0).filter_map(|task: AsanaTask| linked_task(task@)));
    for task in it: tasks
        invariant
            it.seq() == all,
            forall|k: int|
                0 <= k < it.index() ==> linkable((#[trigger] all[k])@.html_notes),
            linked_view(list@) == all.take(it.index() as int).filter_map(
                |task: AsanaTask| linked_task(task@),
            ),
            forall|k: int, id: Seq<char>|
                0 <= k < it.index() && #[trigger] written_for(all[k]@.html_notes, id)
                    ==> names_event(all[k]@.html_notes, id),
    {
        let ghost i: int = it.index() as int;
        let ghost before = list@;
        proof {
            assert(all[i] == task);
            all.lemma_filter_map_take_succ(|task: AsanaTask| linked_task(task@), i);
        }
        match task.try_into_linked_task() {
            Ok(Some(link)) => {
                list.push(link);
                assert(linked_view(list@) =~= linked_view(before).push(link@));
            },
            Ok(None) => {},
            Err(task) => {
                assert(first_unlinkable(all, i));
                return Err(task);
            },
        }
    }
    assert(all.take(all.len() as int) =~= all);
    Ok(list)
}

// ---------------------------------------------------------------------------
// Laws
// ---------------------------------------------------------------------------

/// The notes of a task hold the identifier as it is, between the two written markers.
pub proof fn notes_hold_the_identifier(id: Seq<char>)
    ensures
        event_notes(id) == "<body>\n<code>&gt;&gt;&gt;&gt; "@ + id
            + " &lt;&lt;&lt;&lt;</code></body>"@,
        marked_id(id) == ">>>> "@ + id + " <<<<"@,
{
}

/// What is read is what stands between the first start marker and the first end marker, without
/// the white space around it, where these stand in this order; nothing, where only white space
/// does.
pub proof fn identifier_stands_between_the_first_markers(text: Seq<char>, start: int, end: int)
    requires
        occurs_at(text, ">>>>"@, start),
        forall|i: int| 0 <= i < start ==> !#[trigger] occurs_at(text, ">>>>"@, i),
        occurs_at(text, "<<<<"@, end),
        forall|i: int| 0 <= i < end ==> !#[trigger] occurs_at(text, "<<<<"@, i),
    ensures
        markers_reversed(text) <==> end < start,
        start <= end ==> start + 4 <= end && event_id_in(text) == if trimmed(
            text.subrange(start + 4, end),
        ).len() > 0 {
            Some(trimmed(text.subrange(start + 4, end)))
        } else {
            None
        },
{
    reveal_strlit(">>>>");
    reveal_strlit("<<<<");
    lemma_first_occurrence_is(text, ">>>>"@, start);
    lemma_first_occurrence_is(text, "<<<<"@, end);
    if start <= end {
        lemma_markers_apart(text, start, end);
    }
}

/// Without one of the two markers nothing is read, and no marker stands in the wrong place.
pub proof fn both_markers_are_needed(text: Seq<char>)
    requires
        (forall|i: int| !#[trigger] occurs_at(text, ">>>>"@, i)) || (forall|i: int|
            !#[trigger] occurs_at(text, "<<<<"@, i)),
    ensures
        event_id_in(text) is None,
        !markers_reversed(text),
{
    lemma_first_occurrence_from(text, ">>>>"@, 0);
    lemma_first_occurrence_from(text, "<<<<"@, 0);
}

/// What is read back of an identifier without an end marker is the identifier, without the white
/// space around it; of one with an end marker, what stands before the first of them.
pub proof fn identifier_is_read_back(id: Seq<char>, at: int)
    ensures
        (forall|i: int| !#[trigger] occurs_at(id, "<<<<"@, i)) ==> id_read_back(id) == if trimmed(
            id,
        ).len() > 0 {
            Some(trimmed(id))
        } else {
            None
        },
        occurs_at(id, "<<<<"@, at) && (forall|i: int|
            0 <= i < at ==> !#[trigger] occurs_at(id, "<<<<"@, i)) ==> id_read_back(id)
            == if trimmed(id.take(at)).len() > 0 {
            Some(trimmed(id.take(at)))
        } else {
            None
        },
{
    if occurs_at(id, "<<<<"@, at) && (forall|i: int|
        0 <= i < at ==> !#[trigger] occurs_at(id, "<<<<"@, i)) {
        lemma_first_occurrence_is(id, "<<<<"@, at);
        assert(!without_end_marker(id));
    }
}

/// A text without ampersands, opening angle brackets, carriage returns and null characters means
/// itself and holds no end marker, and the notes for it are written for it.
pub proof fn ordinary_text_is_plain(text: Seq<char>)
    requires
        forall|i: int|
            0 <= i < text.len() ==> (#[trigger] text[i]) != '&' && text[i] != '<' && text[i]
                != '\r' && text[i] != '\0',
    ensures
        plain_text(text),
        without_end_marker(text),
        written_for(event_notes(text), text),
{
    reveal_strlit("<<<<");
    assert forall|i: int| !#[trigger] occurs_at(text, END_MARKER@, i) by {
        if occurs_at(text, END_MARKER@, i) {
            assert(text.subrange(i, i + 4)[0] == '<');
        }
    }
}

/// Notes without null characters and ampersands are read up to a length of 2147483648 bytes.
pub proof fn notes_are_read_up_to_the_limit(notes: Seq<char>)
    requires
        forall|i: int| 0 <= i < notes.len() ==> (#[trigger] notes[i]) != '\0' && notes[i] != '&',
    ensures
        readable(notes) <==> encode_utf8(notes).len() <= 2147483648,
{
    no_occurrences(notes, '\0');
    no_occurrences(notes, '&');
}

/// Each null character takes the place of three bytes and each ampersand that of two in the
/// length up to which notes are read.
pub proof fn null_characters_and_ampersands_count_more(notes: Seq<char>)
    ensures
        readable(notes) <==> encode_utf8(notes).len() + 2 * occurrences(notes, '\0') + occurrences(
            notes,
            '&',
        ) <= 2147483648,
{
}

/// Notes that were written for a plain identifier name what is read back of it, which is what
/// stands between the markers around it.
pub proof fn written_notes_name_their_event(notes: Seq<char>, id: Seq<char>)
    ensures
        written_for(notes, id) <==> notes == "<body>\n<code>&gt;&gt;&gt;&gt; "@ + id
            + " &lt;&lt;&lt;&lt;</code></body>"@ && plain_text(id),
        names_event(notes, id) <==> event_id_in_notes(notes) == id_read_back(id),
        names_event(notes, id) <==> event_id_in_notes(notes) == event_id_in(
            ">>>> "@ + id + " <<<<"@,
        ),
{
    marked_id_is_found(id);
}

/// The first task that cannot be linked has only tasks before it that can.
pub proof fn earlier_tasks_can_be_linked(tasks: Seq<AsanaTask>, i: int)
    ensures
        first_unlinkable(tasks, i) <==> {
            &&& 0 <= i < tasks.len()
            &&& !linkable(tasks[i]@.html_notes)
            &&& forall|k: int| 0 <= k < i ==> linkable((#[trigger] tasks[k])@.html_notes)
        },
{
}

/// The notes name the event that stands in the text of their first `code` element, and none
/// where there is no such element; only markers in the wrong order keep notes that can be read
/// from being linked.
pub proof fn first_code_element_names_the_event(notes: Seq<char>)
    ensures
        first_text(notes, "code"@) matches Some(text) ==> event_id_in_notes(notes) == event_id_in(
            text,
        ) && (linkable(notes) <==> readable(notes) && !markers_reversed(text)),
        first_text(notes, "code"@) is None ==> event_id_in_notes(notes) is None && (linkable(notes)
            <==> readable(notes)),
{
}

/// A task is linked to the event that its notes name, and stays as it is.
pub proof fn tasks_are_linked_by_their_notes(task: TaskView, event_id: Seq<char>)
    ensures
        event_id_in_notes(task.html_notes) == Some(event_id) ==> linked_task(task) == Some(
            LinkedTaskView { task, event_id },
        ),
        event_id_in_notes(task.html_notes) is None ==> linked_task(task) is None,
{
}

} // verus!
