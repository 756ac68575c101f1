//! Incremental Server-Sent Events framing: event boundary detection across
//! every legal line terminator, with a CRLF split across packets handled and
//! the buffer capped.
//!
//! An undecodable event, or a buffer overflow, fails the splitter permanently:
//! the lost event might have been the one carrying the response id or the
//! final usage, so a caller must know the stream can no longer be relied on
//! for settlement.
use vstd::prelude::*;
use vstd::string::*;
use vstd::utf8::*;

use crate::tables::{text_view, views};
use crate::text::{chars_of, str_eq, string_of};

verus! {

/// Cap on an event still being assembled. An upstream that never emits a
/// blank line would otherwise grow the buffer for the life of the stream.
pub const MAX_EVENT_BYTES: usize = 1024 * 1024;

#[derive(Debug, PartialEq, Eq)]
pub struct Event {
    /// The `event:` field, when present.
    pub event: Option<String>,
    /// Every `data:` line of the event, joined with newlines.
    pub data: String,
}

pub struct EventView {
    pub event: Option<Seq<char>>,
    pub data: Seq<char>,
}

impl View for Event {
    type V = EventView;

    open spec fn view(&self) -> EventView {
        EventView { event: text_view(self.event), data: self.data@ }
    }
}

#[derive(Debug, Clone, Copy, PartialEq, Eq, Structural)]
pub enum FramingError {
    /// An event exceeded [`MAX_EVENT_BYTES`] without terminating.
    EventTooLarge,
    /// An event was not valid UTF-8.
    InvalidUtf8,
}

/// What a framing failure is, in words.
pub open spec fn framing_text(error: FramingError) -> Seq<char> {
    match error {
        FramingError::EventTooLarge => "an SSE event exceeded 1048576 bytes without terminating"@,
        FramingError::InvalidUtf8 => "an SSE event was not valid UTF-8"@,
    }
}

impl FramingError {
    pub fn message(self) -> (text: &'static str)
        ensures
            text@ == framing_text(self),
    {
        match self {
            FramingError::EventTooLarge => "an SSE event exceeded 1048576 bytes without terminating",
            FramingError::InvalidUtf8 => "an SSE event was not valid UTF-8",
        }
    }
}

/// Trusted: the error `str::from_utf8` returns. Nothing is read from it.
#[verifier::external_type_specification]
#[verifier::external_body]
pub struct ExUtf8Error(core::str::Utf8Error);

/// Trusted: `core::str::from_utf8` accepts exactly the valid UTF-8 byte
/// sequences, and returns them unchanged as text.
pub assume_specification[ core::str::from_utf8 ](v: &[u8]) -> (result: Result<
    &str,
    core::str::Utf8Error,
>)
    ensures
        match result {
            Ok(text) => valid_utf8(v@) && text.spec_bytes() == v@,
            Err(_) => !valid_utf8(v@),
        },
;

// ---------------------------------------------------------------------------
// Event boundaries.

/// One past the end of the first complete event of `buf` at or after `i`,
/// where `blank` says that a line has just ended at `i`.
///
/// A line ends with CRLF, LF, or CR, and an event ends at a blank line: two
/// consecutive terminators in any mix. A CR at the very end of the buffer
/// completes a blank line whether or not an LF follows in the next packet;
/// otherwise it only ends a line, and consuming it would split one event into
/// two.
pub open spec fn event_end(buf: Seq<u8>, i: int, blank: bool) -> Option<int>
    decreases buf.len() - i,
{
    if i < 0 || i >= buf.len() {
        None
    } else if buf[i] == 10 {
        if blank {
            Some(i + 1)
        } else {
            event_end(buf, i + 1, true)
        }
    } else if buf[i] == 13 {
        if i + 1 >= buf.len() {
            if blank {
                Some(i + 1)
            } else {
                None
            }
        } else {
            let next = if buf[i + 1] == 10 {
                i + 2
            } else {
                i + 1
            };
            if blank {
                Some(next)
            } else {
                event_end(buf, next, true)
            }
        }
    } else {
        event_end(buf, i + 1, false)
    }
}

/// Index one past the end of the first complete event in `buf`, or `None`
/// for a partial event.
pub fn find_event_end(buf: &[u8]) -> (end: Option<usize>)
    ensures
        match event_end(buf@, 0, false) {
            Some(e) => end matches Some(n) && n == e && 0 < e <= buf@.len(),
            None => end is None,
        },
{
    let mut i: usize = 0;
    let mut prev_was_terminator = false;
    while i < buf.len()
        invariant
            i <= buf@.len(),
            event_end(buf@, i as int, prev_was_terminator) == event_end(buf@, 0, false),
        decreases buf.len() - i,
    {
        let mut term_len: usize = 0;
        if buf[i] == 10 {
            term_len = 1;
        } else if buf[i] == 13 {
            if i + 1 >= buf.len() {
                return if prev_was_terminator {
                    Some(i + 1)
                } else {
                    None
                };
            }
            term_len = if buf[i + 1] == 10 {
                2
            } else {
                1
            };
        }
        if term_len == 0 {
            prev_was_terminator = false;
            i = i + 1;
        } else {
            i = i + term_len;
            if prev_was_terminator {
                return Some(i);
            }
            prev_was_terminator = true;
        }
    }
    None
}

proof fn lemma_event_end_in_bounds(buf: Seq<u8>, i: int, blank: bool)
    ensures
        event_end(buf, i, blank) matches Some(e) ==> i < e <= buf.len(),
    decreases buf.len() - i,
{
    if 0 <= i < buf.len() {
        if buf[i] == 10 {
            lemma_event_end_in_bounds(buf, i + 1, true);
        } else if buf[i] == 13 {
            if i + 1 < buf.len() {
                lemma_event_end_in_bounds(buf, i + 1, true);
                lemma_event_end_in_bounds(buf, i + 2, true);
            }
        } else {
            lemma_event_end_in_bounds(buf, i + 1, false);
        }
    }
}

/// One past the line terminator that starts at `i`: CRLF, LF or CR. An LF that
/// belongs to a CRLF starts none.
pub open spec fn terminator_end(buf: Seq<u8>, i: int) -> Option<int> {
    if i < 0 || i >= buf.len() {
        None
    } else if buf[i] == 13 {
        Some(
            if i + 1 < buf.len() && buf[i + 1] == 10 {
                i + 2
            } else {
                i + 1
            },
        )
    } else if buf[i] == 10 && !(i > 0 && buf[i - 1] == 13) {
        Some(i + 1)
    } else {
        None
    }
}

/// One past two line terminators of which the first starts at `i` and the
/// second where it ends.
pub open spec fn blank_line_end(buf: Seq<u8>, i: int) -> Option<int> {
    match terminator_end(buf, i) {
        Some(j) => terminator_end(buf, j),
        None => None,
    }
}

/// The first two adjacent line terminators start at `i` and end at `end`.
pub open spec fn is_first_blank_line(buf: Seq<u8>, i: int, end: int) -> bool {
    blank_line_end(buf, i) == Some(end) && forall|k: int|
        k < i ==> #[trigger] blank_line_end(buf, k) is None
}

/// The scan at `i`, where a terminator that starts at `last` ended at `i` if
/// `blank` says so, has passed no two adjacent terminators.
proof fn lemma_event_end(buf: Seq<u8>, i: int, blank: bool, last: int) -> (at: int)
    requires
        0 <= i <= buf.len(),
        0 < i < buf.len() && buf[i] == 10 ==> buf[i - 1] != 13,
        if blank {
            terminator_end(buf, last) == Some(i)
        } else {
            last == i
        },
        forall|k: int| k < last ==> #[trigger] blank_line_end(buf, k) is None,
    ensures
        match event_end(buf, i, blank) {
            Some(end) => is_first_blank_line(buf, at, end),
            None => forall|k: int| #[trigger] blank_line_end(buf, k) is None,
        },
    decreases buf.len() - i,
{
    if i >= buf.len() {
        last
    } else if buf[i] == 10 {
        if blank {
            last
        } else {
            lemma_event_end(buf, i + 1, true, i)
        }
    } else if buf[i] == 13 {
        let next = if i + 1 < buf.len() && buf[i + 1] == 10 {
            i + 2
        } else {
            i + 1
        };
        if blank || i + 1 >= buf.len() {
            last
        } else {
            lemma_event_end(buf, next, true, i)
        }
    } else {
        lemma_event_end(buf, i + 1, false, i + 1)
    }
}

/// Law: an event ends right after the second of the first two adjacent line
/// terminators, CRLF counted as one; and no event ends where no two are
/// adjacent.
pub proof fn an_event_ends_at_the_first_blank_line(buf: Seq<u8>)
    ensures
        match event_end(buf, 0, false) {
            Some(end) => exists|i: int| is_first_blank_line(buf, i, end),
            None => forall|i: int| #[trigger] blank_line_end(buf, i) is None,
        },
{
    let at = lemma_event_end(buf, 0, false, 0);
    if let Some(end) = event_end(buf, 0, false) {
        assert(is_first_blank_line(buf, at, end));
    }
}

// ---------------------------------------------------------------------------
// Events.

/// How many characters stand before the first line terminator.
pub open spec fn line_length(s: Seq<char>) -> nat
    decreases s.len(),
{
    if s.len() == 0 || s[0] == '\r' || s[0] == '\n' {
        0
    } else {
        1 + line_length(s.drop_first())
    }
}

pub proof fn lemma_line_length(s: Seq<char>)
    ensures
        line_length(s) <= s.len(),
        line_length(s) < s.len() ==> s[line_length(s) as int] == '\r' || s[line_length(s) as int]
            == '\n',
        forall|i: int| 0 <= i < line_length(s) ==> s[i] != '\r' && s[i] != '\n',
    decreases s.len(),
{
    if s.len() > 0 && s[0] != '\r' && s[0] != '\n' {
        lemma_line_length(s.drop_first());
        assert forall|i: int| 0 <= i < line_length(s) implies s[i] != '\r' && s[i] != '\n' by {
            if i > 0 {
                assert(s[i] == s.drop_first()[i - 1]);
            }
        }
    }
}

/// The position of the first colon.
pub open spec fn first_colon(line: Seq<char>) -> Option<int>
    decreases line.len(),
{
    if line.len() == 0 {
        None
    } else if line[0] == ':' {
        Some(0)
    } else {
        match first_colon(line.drop_first()) {
            Some(k) => Some(k + 1),
            None => None,
        }
    }
}

/// What has been read of an event: its name and its data.
pub struct Fields {
    pub event: Option<Seq<char>>,
    pub data: Option<Seq<char>>,
}

/// The value of a field: what follows the colon, without one leading space.
pub open spec fn field_value(line: Seq<char>, colon: int) -> Seq<char> {
    let value = line.skip(colon + 1);
    if value.len() > 0 && value[0] == ' ' {
        value.drop_first()
    } else {
        value
    }
}

/// An event with one more field. The last name counts; data lines add up.
pub open spec fn with_field(fields: Fields, name: Seq<char>, value: Seq<char>) -> Fields {
    if name == "event"@ {
        Fields { event: Some(value), ..fields }
    } else if name == "data"@ {
        Fields {
            data: match fields.data {
                None => Some(value),
                Some(data) => Some(data + "\n"@ + value),
            },
            ..fields
        }
    } else {
        fields
    }
}

/// An event with one more line. Empty lines and comments are ignored.
pub open spec fn with_line(fields: Fields, line: Seq<char>) -> Fields {
    if line.len() == 0 || line[0] == ':' {
        fields
    } else {
        match first_colon(line) {
            Some(k) => with_field(fields, line.take(k), field_value(line, k)),
            None => with_field(fields, line, Seq::empty()),
        }
    }
}

/// An event with the lines of a text added.
pub open spec fn with_lines(fields: Fields, text: Seq<char>) -> Fields
    decreases text.len(),
{
    let n = line_length(text);
    let after = with_line(fields, text.take(n as int));
    if n >= text.len() {
        after
    } else {
        with_lines(after, text.skip(n as int + 1))
    }
}

/// The event a text describes. It is dispatched only when it has at least one
/// data line.
pub open spec fn event_of(text: Seq<char>) -> Option<EventView> {
    let fields = with_lines(Fields { event: None, data: None }, text);
    match fields.data {
        Some(data) => Some(EventView { event: fields.event, data }),
        None => None,
    }
}

/// What an event's fields hold so far.
struct FieldTexts {
    event: Option<String>,
    data: Option<String>,
}

spec fn fields_view(fields: FieldTexts) -> Fields {
    Fields { event: text_view(fields.event), data: text_view(fields.data) }
}

fn add_field(fields: FieldTexts, name: &str, value: String) -> (out: FieldTexts)
    ensures
        fields_view(out) == with_field(fields_view(fields), name@, value@),
{
    if str_eq(name, "event") {
        FieldTexts { event: Some(value), data: fields.data }
    } else if str_eq(name, "data") {
        let data = match fields.data {
            None => value,
            Some(data) => {
                let mut joined = data;
                joined.push_str("\n");
                joined.push_str(value.as_str());
                joined
            },
        };
        FieldTexts { event: fields.event, data: Some(data) }
    } else {
        fields
    }
}

fn add_line(fields: FieldTexts, chars: &Vec<char>, from: usize, to: usize) -> (out: FieldTexts)
    requires
        from <= to <= chars@.len(),
    ensures
        fields_view(out) == with_line(
            fields_view(fields),
            chars@.subrange(from as int, to as int),
        ),
{
    let ghost line = chars@.subrange(from as int, to as int);
    if from == to || chars[from] == ':' {
        return fields;
    }
    let mut colon: usize = from;
    assert(line.skip(0) =~= line);
    while colon < to && chars[colon] != ':'
        invariant
            from <= colon <= to <= chars@.len(),
            line == chars@.subrange(from as int, to as int),
            first_colon(line) == match first_colon(line.skip(colon - from)) {
                Some(k) => Some(k + (colon - from)),
                None => None,
            },
        decreases to - colon,
    {
        assert(line.skip(colon - from).drop_first() =~= line.skip(colon + 1 - from));
        colon = colon + 1;
    }
    let name = string_of(chars, from, colon);
    assert(name@ =~= line.take(colon - from));
    if colon == to {
        assert(line.take(to - from) =~= line);
        let value = String::new();
        return add_field(fields, name.as_str(), value);
    }
    assert(first_colon(line) == Some(colon - from));
    let mut start: usize = colon + 1;
    assert(line.skip(colon + 1 - from) =~= chars@.subrange(start as int, to as int));
    if start < to && chars[start] == ' ' {
        start = start + 1;
    }
    let value = string_of(chars, start, to);
    assert(value@ =~= field_value(line, colon - from));
    add_field(fields, name.as_str(), value)
}

/// An event is dispatched only when it has at least one `data` line.
pub fn parse_event(text: &str) -> (event: Option<Event>)
    ensures
        match event_of(text@) {
            Some(found) => event matches Some(e) && e@ == found,
            None => event is None,
        },
{
    let chars = chars_of(text);
    let mut fields = FieldTexts { event: None, data: None };
    let mut start: usize = 0;
    let mut done = false;
    let ghost whole = with_lines(Fields { event: None, data: None }, text@);
    assert(chars@.subrange(0, chars@.len() as int) =~= text@);
    while !done
        invariant
            start <= chars@.len(),
            chars@ == text@,
            whole == with_lines(Fields { event: None, data: None }, text@),
            done ==> fields_view(fields) == whole,
            !done ==> with_lines(
                fields_view(fields),
                chars@.subrange(start as int, chars@.len() as int),
            ) == whole,
        decreases chars.len() - start, (if done { 0int } else { 1int }),
    {
        let ghost rest = chars@.subrange(start as int, chars@.len() as int);
        let mut end: usize = start;
        assert(rest.skip(0) =~= rest);
        while end < chars.len() && chars[end] != '\r' && chars[end] != '\n'
            invariant
                start <= end <= chars@.len(),
                rest == chars@.subrange(start as int, chars@.len() as int),
                line_length(rest) == (end - start) + line_length(rest.skip(end - start)),
            decreases chars.len() - end,
        {
            assert(rest.skip(end - start).drop_first() =~= rest.skip(end + 1 - start));
            end = end + 1;
        }
        assert(line_length(rest) == end - start);
        assert(rest.take(end - start) =~= chars@.subrange(start as int, end as int));
        fields = add_line(fields, &chars, start, end);
        if end < chars.len() {
            assert(rest.skip(end - start + 1) =~= chars@.subrange(end + 1, chars@.len() as int));
            start = end + 1;
        } else {
            done = true;
        }
    }
    match fields.data {
        Some(data) => Some(Event { event: fields.event, data }),
        None => None,
    }
}

// ---------------------------------------------------------------------------
// The splitter.

#[derive(Debug)]
pub struct EventSplitter {
    buf: Vec<u8>,
    /// The previous packet ended on a blank line whose last terminator was a
    /// bare CR. If the next packet starts with the LF completing that CRLF
    /// pair, it is swallowed rather than read as a second terminator.
    swallow_leading_lf: bool,
    failure: Option<FramingError>,
}

pub struct SplitterView {
    pub buf: Seq<u8>,
    pub swallow: bool,
    pub failure: Option<FramingError>,
}

/// What a buffer holds: the events it completes, what is left, whether the
/// last complete event ended on a CR, and whether one was no text.
pub struct Drained {
    pub events: Seq<EventView>,
    pub rest: Seq<u8>,
    pub ended_cr: bool,
    pub failed: bool,
}

pub open spec fn drained(buf: Seq<u8>) -> Drained
    decreases buf.len(),
{
    match event_end(buf, 0, false) {
        None => Drained { events: Seq::empty(), rest: buf, ended_cr: false, failed: false },
        Some(end) => if end <= 0 || end > buf.len() {
            Drained { events: Seq::empty(), rest: buf, ended_cr: false, failed: false }
        } else if !valid_utf8(buf.take(end)) {
            Drained { events: Seq::empty(), rest: Seq::empty(), ended_cr: false, failed: true }
        } else {
            let later = drained(buf.skip(end));
            let here = match event_of(decode_utf8(buf.take(end))) {
                Some(event) => seq![event],
                None => Seq::empty(),
            };
            Drained {
                events: here + later.events,
                ended_cr: if event_end(buf.skip(end), 0, false) is None {
                    buf[end - 1] == 13
                } else {
                    later.ended_cr
                },
                ..later
            }
        },
    }
}

/// What feeding a packet comes to, given what the buffer holds with it.
pub open spec fn finished(result: Drained) -> (Seq<EventView>, SplitterView) {
    if result.failed {
        (result.events, failed_splitter(FramingError::InvalidUtf8))
    } else if result.rest.len() > MAX_EVENT_BYTES {
        (result.events, failed_splitter(FramingError::EventTooLarge))
    } else {
        (
            result.events,
            SplitterView {
                buf: result.rest,
                swallow: result.ended_cr && result.rest.len() == 0,
                failure: None,
            },
        )
    }
}

/// What is left of a packet once the LF that completes a split CRLF pair has
/// been swallowed.
pub open spec fn fed(s: SplitterView, packet: Seq<u8>) -> Seq<u8> {
    if s.swallow && s.buf.len() == 0 && packet.len() > 0 && packet[0] == 10 {
        packet.drop_first()
    } else {
        packet
    }
}

/// Feeding one packet: the events it completes and the splitter after it. An
/// empty packet says nothing, so it changes nothing.
pub open spec fn push_outcome(s: SplitterView, packet: Seq<u8>) -> (Seq<EventView>, SplitterView) {
    if s.failure is Some || packet.len() == 0 {
        (Seq::empty(), s)
    } else {
        finished(drained(s.buf + fed(s, packet)))
    }
}

pub open spec fn failed_splitter(error: FramingError) -> SplitterView {
    SplitterView { buf: Seq::empty(), swallow: false, failure: Some(error) }
}

pub open spec fn new_splitter() -> SplitterView {
    SplitterView { buf: Seq::empty(), swallow: false, failure: None }
}

impl View for EventSplitter {
    type V = SplitterView;

    closed spec fn view(&self) -> SplitterView {
        SplitterView {
            buf: self.buf@,
            swallow: self.swallow_leading_lf,
            failure: self.failure,
        }
    }
}

impl Default for EventSplitter {
    fn default() -> (splitter: Self)
        ensures
            splitter@ == new_splitter(),
    {
        EventSplitter { buf: Vec::new(), swallow_leading_lf: false, failure: None }
    }
}

fn append_events(events: &mut Vec<Event>, event: Option<Event>)
    ensures
        views(final(events)@) == views(old(events)@) + match event {
            Some(e) => seq![e@],
            None => Seq::empty(),
        },
{
    let ghost before = views(events@);
    match event {
        Some(event) => {
            let ghost added = event@;
            events.push(event);
            assert(views(events@) =~= before + seq![added]);
        },
        None => {
            assert(before =~= before + Seq::<EventView>::empty());
        },
    }
}

impl EventSplitter {
    pub fn new() -> (splitter: Self)
        ensures
            splitter@ == new_splitter(),
    {
        Self::default()
    }

    /// Feeds one packet and returns the events it completed. A trailing
    /// partial event stays buffered. Events completed before a failure in the
    /// same packet are still returned; nothing is returned after it. An empty
    /// packet changes nothing.
    pub fn push(&mut self, packet: &[u8]) -> (events: Vec<Event>)
        ensures
            (views(events@), final(self)@) == push_outcome(old(self)@, packet@),
    {
        let ghost before = self@;
        let mut events: Vec<Event> = Vec::new();
        assert(views(events@) =~= Seq::<EventView>::empty());
        if self.failure.is_some() || packet.len() == 0 {
            return events;
        }
        let mut from: usize = 0;
        if self.swallow_leading_lf && self.buf.len() == 0 && packet.len() > 0 && packet[0] == 10 {
            from = 1;
        }
        let ghost kept = packet@.skip(from as int);
        assert(from == 0 ==> kept =~= packet@);
        assert(from == 1 ==> kept =~= packet@.drop_first());
        self.swallow_leading_lf = false;
        let mut i: usize = from;
        let ghost start = self.buf@;
        while i < packet.len()
            invariant
                from <= i <= packet@.len(),
                kept == packet@.skip(from as int),
                self.buf@ == start + kept.take(i - from),
                self.failure is None,
                !self.swallow_leading_lf,
                start == before.buf,
            decreases packet.len() - i,
        {
            assert(kept.take(i + 1 - from) =~= kept.take(i - from).push(packet@[i as int]));
            self.buf.push(packet[i]);
            i = i + 1;
        }
        assert(kept.take(i - from) =~= kept);
        assert(start + kept.take(0) =~= start);
        let ghost result = drained(before.buf + kept);
        let mut ended_cr = false;
        let mut next = find_event_end(self.buf.as_slice());
        proof {
            lemma_event_end_in_bounds(self.buf@, 0, false);
            assert(views(events@) + drained(self.buf@).events =~= drained(self.buf@).events);
        }
        while next.is_some()
            invariant
                self.failure is None,
                before.failure is None,
                !self.swallow_leading_lf,
                (next is Some) == (event_end(self.buf@, 0, false) is Some),
                next matches Some(e) ==> event_end(self.buf@, 0, false) == Some(e as int) && 0 < e
                    <= self.buf@.len(),
                result == drained(before.buf + kept),
                result.events == views(events@) + drained(self.buf@).events,
                result.rest == drained(self.buf@).rest,
                result.failed == drained(self.buf@).failed,
                result.ended_cr == if event_end(self.buf@, 0, false) is Some {
                    drained(self.buf@).ended_cr
                } else {
                    ended_cr
                },
                push_outcome(old(self)@, packet@) == finished(result),
            decreases self.buf@.len(),
        {
            let end: usize = match next {
                Some(end) => end,
                None => 0,
            };
            let ghost whole = self.buf@;
            let rest = self.buf.split_off(end);
            assert(self.buf@ =~= whole.take(end as int));
            assert(rest@ =~= whole.skip(end as int));
            ended_cr = self.buf[end - 1] == 13;
            match core::str::from_utf8(self.buf.as_slice()) {
                Ok(text) => {
                    proof {
                        encode_utf8_decode_utf8(text@);
                    }
                    let ghost so_far = views(events@);
                    append_events(&mut events, parse_event(text));
                    assert(views(events@) + drained(whole.skip(end as int)).events =~= so_far
                        + drained(whole).events);
                },
                Err(_) => {
                    assert(drained(whole).failed);
                    assert(views(events@) + Seq::<EventView>::empty() =~= views(events@));
                    self.fail(FramingError::InvalidUtf8);
                    return events;
                },
            }
            self.buf = rest;
            next = find_event_end(self.buf.as_slice());
            proof {
                lemma_event_end_in_bounds(self.buf@, 0, false);
            }
        }
        assert(views(events@) + Seq::<EventView>::empty() =~= views(events@));
        self.swallow_leading_lf = ended_cr && self.buf.len() == 0;
        if self.buf.len() > MAX_EVENT_BYTES {
            self.fail(FramingError::EventTooLarge);
        }
        events
    }

    /// Set once the splitter has lost track of the stream. Permanent.
    pub fn failure(&self) -> (failure: Option<FramingError>)
        ensures
            failure == self@.failure,
    {
        self.failure
    }

    /// True while the bytes seen so far end inside an unterminated event.
    pub fn is_mid_event(&self) -> (yes: bool)
        ensures
            yes == (self@.buf.len() > 0),
    {
        self.buf.len() > 0
    }

    /// How many bytes of an unterminated event are held.
    pub fn buffered(&self) -> (bytes: usize)
        ensures
            bytes == self@.buf.len(),
    {
        self.buf.len()
    }

    fn fail(&mut self, error: FramingError)
        ensures
            final(self)@ == failed_splitter(error),
    {
        self.failure = Some(error);
        self.buf = Vec::new();
        self.swallow_leading_lf = false;
    }
}

/// Law: a failure is permanent. Nothing comes after it.
pub proof fn a_failed_splitter_stays_failed(s: SplitterView, packet: Seq<u8>)
    requires
        s.failure is Some,
    ensures
        push_outcome(s, packet).0.len() == 0,
        push_outcome(s, packet).1 == s,
{
}

/// Law: the buffer never holds more than the cap.
pub proof fn the_buffer_is_bounded(s: SplitterView, packet: Seq<u8>)
    requires
        s.buf.len() <= MAX_EVENT_BYTES,
    ensures
        push_outcome(s, packet).1.buf.len() <= MAX_EVENT_BYTES,
{
}

// ---------------------------------------------------------------------------
// Packet boundaries.

/// An event's end is where it was once more bytes follow, but that a CR at the
/// very end takes an LF that follows with it.
proof fn lemma_event_end_extends(b: Seq<u8>, c: Seq<u8>, i: int, blank: bool)
    requires
        0 <= i <= b.len(),
        c.len() > 0,
        event_end(b, i, blank) is Some,
    ensures
        ({
            let e = event_end(b, i, blank)->0;
            event_end(b + c, i, blank) == Some(
                if e == b.len() && b[e - 1] == 13 && c[0] == 10 {
                    e + 1
                } else {
                    e
                },
            )
        }),
    decreases b.len() - i,
{
    let x = b + c;
    if i < b.len() {
        assert(x[i] == b[i]);
        if b[i] == 10 {
            if !blank {
                lemma_event_end_extends(b, c, i + 1, true);
            }
        } else if b[i] == 13 {
            if i + 1 < b.len() {
                assert(x[i + 1] == b[i + 1]);
                if !blank {
                    let next = if b[i + 1] == 10 {
                        i + 2
                    } else {
                        i + 1
                    };
                    lemma_event_end_extends(b, c, next, true);
                }
            } else {
                assert(x[i + 1] == c[0]);
            }
        } else {
            lemma_event_end_extends(b, c, i + 1, false);
        }
    }
}

/// Text stays text with a newline after it.
proof fn lemma_newline_keeps_utf8(raw: Seq<u8>)
    ensures
        valid_utf8(raw + seq![10u8]) == valid_utf8(raw),
        valid_utf8(raw) ==> decode_utf8(raw + seq![10u8]) == decode_utf8(raw) + seq!['\n'],
{
    let newline: Seq<u8> = seq![10u8];
    let longer = raw + newline;
    reveal_with_fuel(valid_utf8, 2);
    reveal_with_fuel(decode_utf8, 2);
    assert(pop_first_scalar(newline) =~= Seq::<u8>::empty());
    assert(valid_utf8(newline));
    if valid_utf8(raw) {
        valid_utf8_concat(raw, newline);
    }
    if valid_utf8(longer) {
        let n = raw.len() as int;
        assert(longer[n] == 10u8);
        assert(!is_continuation_byte(longer[n]));
        is_char_boundary_iff_not_is_continuation_byte(longer, n);
        valid_utf8_split(longer, n);
        assert(longer.subrange(0, n) =~= raw);
        assert(longer.subrange(n, longer.len() as int) =~= newline);
        decode_utf8_split(longer, n);
        assert(decode_utf8(newline) =~= seq!['\n']) by {
            assert(decode_first_scalar(newline) == 10u32) by {
                assert(codepoint_width_1(10u8) == 10u32) by (bit_vector);
            }
        }
    }
}

/// A newline at the end adds nothing to an event.
proof fn lemma_trailing_newline(fields: Fields, text: Seq<char>)
    ensures
        with_lines(fields, text + seq!['\n']) == with_lines(fields, text),
    decreases text.len(),
{
    let longer = text + seq!['\n'];
    lemma_line_length(text);
    lemma_line_length(longer);
    let n = line_length(text);
    let m = line_length(longer);
    if m < n {
        assert(longer[m as int] == text[m as int]);
    } else if n < m {
        if n < text.len() {
            assert(longer[n as int] == text[n as int]);
        } else {
            assert(longer[n as int] == '\n');
        }
    }
    assert(m == n);
    assert(longer.take(n as int) =~= text.take(n as int));
    let after = with_line(fields, text.take(n as int));
    if n < text.len() {
        assert(longer.skip(n as int + 1) =~= text.skip(n as int + 1) + seq!['\n']);
        lemma_trailing_newline(after, text.skip(n as int + 1));
    } else {
        let rest = longer.skip(n as int + 1);
        assert(rest =~= Seq::<char>::empty());
        assert(line_length(rest) == 0);
        assert(rest.take(0) =~= Seq::<char>::empty());
        assert(with_lines(after, rest) == after);
    }
}

/// What a buffer holds once more bytes follow.
proof fn lemma_drained_extends(b: Seq<u8>, c: Seq<u8>)
    requires
        c.len() > 0,
        !drained(b).failed,
    ensures
        ({
            let first = drained(b);
            let next = if first.ended_cr && first.rest.len() == 0 && c[0] == 10 {
                c.drop_first()
            } else {
                c
            };
            let second = drained(first.rest + next);
            let whole = drained(b + c);
            &&& whole.events == first.events + second.events
            &&& whole.rest == second.rest
            &&& whole.failed == second.failed
            &&& (whole.ended_cr && whole.rest.len() == 0) == (second.ended_cr
                && second.rest.len() == 0)
        }),
    decreases b.len(),
{
    let first = drained(b);
    let next = if first.ended_cr && first.rest.len() == 0 && c[0] == 10 {
        c.drop_first()
    } else {
        c
    };
    lemma_event_end_in_bounds(b, 0, false);
    match event_end(b, 0, false) {
        None => {
            assert(first.events + drained(b + c).events =~= drained(b + c).events);
        },
        Some(e) => {
            lemma_event_end_extends(b, c, 0, false);
            let x = b + c;
            let raw = b.take(e);
            if e == b.len() && b[e - 1] == 13 && c[0] == 10 {
                // The LF completes the CRLF pair that ended the event.
                assert(raw =~= b);
                assert(b.skip(e) =~= Seq::<u8>::empty());
                assert(event_end(b.skip(e), 0, false) is None);
                assert(drained(b.skip(e)).events =~= Seq::<EventView>::empty());
                assert(x.take(e + 1) =~= raw + seq![10u8]);
                assert(x.skip(e + 1) =~= c.drop_first());
                lemma_newline_keeps_utf8(raw);
                lemma_trailing_newline(
                    Fields { event: None, data: None },
                    decode_utf8(raw),
                );
                assert(first.rest =~= Seq::<u8>::empty());
                assert(first.rest + next =~= c.drop_first());
                let here = match event_of(decode_utf8(raw)) {
                    Some(event) => seq![event],
                    None => Seq::empty(),
                };
                assert(first.events =~= here);
                assert(x[e] == 10);
                if event_end(c.drop_first(), 0, false) is None {
                    assert(!drained(x).ended_cr);
                }
            } else {
                assert(x.take(e) =~= raw);
                assert(x.skip(e) =~= b.skip(e) + c);
                assert(x[e - 1] == b[e - 1]);
                lemma_drained_extends(b.skip(e), c);
                let later = drained(b.skip(e));
                let here = match event_of(decode_utf8(raw)) {
                    Some(event) => seq![event],
                    None => Seq::empty(),
                };
                let inner = if later.ended_cr && later.rest.len() == 0 && c[0] == 10 {
                    c.drop_first()
                } else {
                    c
                };
                if event_end(b.skip(e), 0, false) is None {
                    assert(later.rest == b.skip(e));
                    if b.skip(e).len() == 0 {
                        assert(e == b.len());
                    }
                }
                assert(inner == next);
                assert(here + (later.events + drained(later.rest + next).events) =~= (here
                    + later.events) + drained(later.rest + next).events);
                if event_end(x.skip(e), 0, false) is None {
                    assert(drained(x.skip(e)).rest == x.skip(e));
                    assert(x.skip(e).len() > 0);
                }
            }
        },
    }
}

/// A buffer with an event that is no text fails at that event, whatever
/// follows.
proof fn lemma_drained_stays_failed(b: Seq<u8>, c: Seq<u8>)
    requires
        c.len() > 0,
        drained(b).failed,
    ensures
        drained(b + c).failed,
        drained(b + c).events == drained(b).events,
    decreases b.len(),
{
    lemma_event_end_in_bounds(b, 0, false);
    lemma_event_end_extends(b, c, 0, false);
    let e = event_end(b, 0, false)->0;
    let x = b + c;
    let raw = b.take(e);
    if e == b.len() && b[e - 1] == 13 && c[0] == 10 {
        assert(raw =~= b);
        assert(b.skip(e) =~= Seq::<u8>::empty());
        assert(event_end(b.skip(e), 0, false) is None);
        assert(!valid_utf8(raw));
        assert(x.take(e + 1) =~= raw + seq![10u8]);
        lemma_newline_keeps_utf8(raw);
    } else {
        assert(x.take(e) =~= raw);
        if valid_utf8(raw) {
            assert(x.skip(e) =~= b.skip(e) + c);
            lemma_drained_stays_failed(b.skip(e), c);
        }
    }
}

/// Whatever follows a packet, the events it completed are still completed.
pub proof fn lemma_events_stay(s: SplitterView, a: Seq<u8>, b: Seq<u8>)
    ensures
        push_outcome(s, a).0.is_prefix_of(push_outcome(s, a + b).0),
{
    if s.failure is None && a.len() > 0 {
        if b.len() == 0 {
            assert(a + b =~= a);
        } else {
            let first = s.buf + fed(s, a);
            assert((a + b)[0] == a[0]);
            assert(s.buf + fed(s, a + b) =~= first + b);
            if drained(first).failed {
                lemma_drained_stays_failed(first, b);
            } else {
                lemma_drained_extends(first, b);
            }
        }
    }
}

/// Law: an empty packet changes nothing.
pub proof fn an_empty_packet_changes_nothing(s: SplitterView, packet: Seq<u8>)
    requires
        packet.len() == 0,
    ensures
        push_outcome(s, packet) == (Seq::<EventView>::empty(), s),
{
}

/// Law: packet boundaries do not matter. Feeding two packets, one after the
/// other, completes the same events and leaves the same splitter as feeding
/// their bytes at once, as long as the first does not trip the cap. (One that
/// does is cut off before the bytes that would have ended its event.)
pub proof fn packet_boundaries_do_not_matter(s: SplitterView, a: Seq<u8>, b: Seq<u8>)
    requires
        s.failure is Some || push_outcome(s, a).1.failure != Some(FramingError::EventTooLarge),
    ensures
        push_outcome(s, a + b).0 == push_outcome(s, a).0 + push_outcome(
            push_outcome(s, a).1,
            b,
        ).0,
        push_outcome(s, a + b).1 == push_outcome(push_outcome(s, a).1, b).1,
{
    let none = Seq::<EventView>::empty();
    let (events, mid) = push_outcome(s, a);
    assert(events + none =~= events);
    if s.failure is Some {
    } else if a.len() == 0 {
        assert(a + b =~= b);
        assert(none + push_outcome(s, b).0 =~= push_outcome(s, b).0);
    } else if b.len() == 0 {
        assert(a + b =~= a);
    } else {
        let first = s.buf + fed(s, a);
        assert((a + b)[0] == a[0]);
        assert(s.buf + fed(s, a + b) =~= first + b);
        if drained(first).failed {
            lemma_drained_stays_failed(first, b);
        } else {
            lemma_drained_extends(first, b);
        }
    }
}

// ---------------------------------------------------------------------------
// What lines say.

proof fn lemma_colon_at(line: Seq<char>, k: int)
    requires
        0 <= k < line.len(),
        line[k] == ':',
        forall|i: int| 0 <= i < k ==> #[trigger] line[i] != ':',
    ensures
        first_colon(line) == Some(k),
    decreases k,
{
    if k > 0 {
        assert(line[0] != ':');
        let rest = line.drop_first();
        assert forall|i: int| 0 <= i < k - 1 implies #[trigger] rest[i] != ':' by {
            assert(line[i + 1] != ':');
        }
        lemma_colon_at(rest, k - 1);
    }
}

/// A line that gives a field a value.
proof fn lemma_field_line(fields: Fields, name: Seq<char>, rest: Seq<char>)
    requires
        name.len() > 0,
        !name.contains(':'),
    ensures
        with_line(fields, name + seq![':'] + rest) == with_field(
            fields,
            name,
            if rest.len() > 0 && rest[0] == ' ' {
                rest.drop_first()
            } else {
                rest
            },
        ),
{
    let line = name + seq![':'] + rest;
    let k = name.len() as int;
    assert forall|i: int| 0 <= i < k implies #[trigger] line[i] != ':' by {
        assert(line[i] == name[i]);
        assert(name.contains(name[i]));
    }
    lemma_colon_at(line, k);
    assert(line.take(k) =~= name);
    assert(line.skip(k + 1) =~= rest);
    assert(line[0] == name[0]);
    assert(name.contains(name[0]));
}

/// Law: a `data` line adds its value to the data, on a line of its own, and an
/// `event` line names the event. A single space after the colon is not part of
/// the value.
pub proof fn a_line_gives_its_field_its_value(fields: Fields, value: Seq<char>)
    ensures
        ({
            let after = with_line(fields, seq!['d', 'a', 't', 'a', ':', ' '] + value);
            &&& after.event == fields.event
            &&& after.data == match fields.data {
                Some(data) => Some(data.push('\n') + value),
                None => Some(value),
            }
        }),
        ({
            let after = with_line(fields, seq!['e', 'v', 'e', 'n', 't', ':', ' '] + value);
            after.event == Some(value) && after.data == fields.data
        }),
        value.len() == 0 || value[0] != ' ' ==> {
            &&& with_line(fields, seq!['d', 'a', 't', 'a', ':'] + value) == with_line(
                fields,
                seq!['d', 'a', 't', 'a', ':', ' '] + value,
            )
            &&& with_line(fields, seq!['e', 'v', 'e', 'n', 't', ':'] + value) == with_line(
                fields,
                seq!['e', 'v', 'e', 'n', 't', ':', ' '] + value,
            )
        },
{
    reveal_strlit("data");
    reveal_strlit("event");
    reveal_strlit("\n");
    let data = seq!['d', 'a', 't', 'a'];
    let event = seq!['e', 'v', 'e', 'n', 't'];
    assert(data =~= "data"@);
    assert(event =~= "event"@);
    assert("data"@.len() == 4 && "event"@.len() == 5);
    let spaced = seq![' '] + value;
    assert(spaced.drop_first() =~= value);
    lemma_field_line(fields, data, spaced);
    lemma_field_line(fields, event, spaced);
    lemma_field_line(fields, data, value);
    lemma_field_line(fields, event, value);
    assert(data + seq![':'] + spaced =~= seq!['d', 'a', 't', 'a', ':', ' '] + value);
    assert(event + seq![':'] + spaced =~= seq!['e', 'v', 'e', 'n', 't', ':', ' '] + value);
    assert(data + seq![':'] + value =~= seq!['d', 'a', 't', 'a', ':'] + value);
    assert(event + seq![':'] + value =~= seq!['e', 'v', 'e', 'n', 't', ':'] + value);
    if let Some(held) = fields.data {
        assert(held + "\n"@ + value =~= held.push('\n') + value);
    }
}

/// Law: an empty line, a comment and a line of another field say nothing.
pub proof fn other_lines_say_nothing(fields: Fields, name: Seq<char>, rest: Seq<char>)
    requires
        name.len() > 0,
        !name.contains(':'),
        name != "data"@,
        name != "event"@,
    ensures
        with_line(fields, Seq::empty()) == fields,
        with_line(fields, seq![':'] + rest) == fields,
        with_line(fields, name + seq![':'] + rest) == fields,
{
    lemma_field_line(fields, name, rest);
}

/// Law: the lines of an event are read in turn, whichever terminator ends them.
pub proof fn the_lines_of_an_event_are_read_in_turn(
    fields: Fields,
    line: Seq<char>,
    end: char,
    rest: Seq<char>,
)
    requires
        end == '\r' || end == '\n',
        !line.contains('\r'),
        !line.contains('\n'),
    ensures
        with_lines(fields, line + seq![end] + rest) == with_lines(with_line(fields, line), rest),
        with_lines(fields, line) == with_line(fields, line),
{
    let text = line + seq![end] + rest;
    let n = line.len() as int;
    lemma_line_length(text);
    lemma_line_length(line);
    let found = line_length(text) as int;
    if found < n {
        assert(text[found] == line[found]);
        assert(line.contains(line[found]));
    }
    if n < found {
        assert(text[n] == end);
    }
    assert(text.take(n) =~= line);
    assert(text.skip(n + 1) =~= rest);
    let own = line_length(line) as int;
    if own < n {
        assert(line.contains(line[own]));
    }
    assert(line.take(n) =~= line);
}

/// Law: an event is dispatched exactly where it has data, with the data and the
/// name its lines gave it.
pub proof fn an_event_is_its_data(text: Seq<char>)
    ensures
        ({
            let fields = with_lines(Fields { event: None, data: None }, text);
            match event_of(text) {
                Some(event) => fields.data == Some(event.data) && event.event == fields.event,
                None => fields.data is None,
            }
        }),
{
}

/// Law: a splitter fails on an event that is not UTF-8, and on more than 1048576
/// bytes without the end of one, and on nothing else.
pub proof fn a_splitter_fails_on_what_it_cannot_hold(s: SplitterView, packet: Seq<u8>)
    requires
        s.failure is None,
        packet.len() > 0,
    ensures
        ({
            let result = drained(s.buf + fed(s, packet));
            let (events, after) = push_outcome(s, packet);
            &&& events == result.events
            &&& after.failure == Some(FramingError::InvalidUtf8) <==> result.failed
            &&& after.failure == Some(FramingError::EventTooLarge) <==> !result.failed
                && result.rest.len() > 1_048_576
            &&& after.failure is None ==> after.buf == result.rest
        }),
{
}

} // verus!
