//! The server-sent-events stream: line splitting, field parsing, event
//! assembly, and what the client does with each assembled event.

use vstd::prelude::*;
use vstd::utf8::{
    decode_first_scalar, decode_utf8, length_of_first_scalar, pop_first_scalar, valid_utf8,
    valid_utf8_concat,
};
use crate::models::{Notification, Priority};
use crate::text::{
    lemma_trim_end_char, push_char, push_str, str_equal, trim_end_char, trim_end_char_str,
};

verus! {

// ---------------------------------------------------------------------------
// One field line
// ---------------------------------------------------------------------------

/// The field name and value of an SSE line `name:value`: the name runs up to
/// the first `:`, and the value is the rest with one leading space removed.
/// A line without `:` has no field.
pub open spec fn spec_parse_sse_line(line: Seq<char>) -> Option<(Seq<char>, Seq<char>)> {
    match line.index_of_first(':') {
        Some(i) => {
            let rest = line.skip(i + 1);
            let value = if rest.len() > 0 && rest[0] == ' ' {
                rest.skip(1)
            } else {
                rest
            };
            Some((line.take(i), value))
        },
        None => None,
    }
}

/// Parses a single SSE field line into `(field_name, value)`.
pub fn parse_sse_line(line: &str) -> (res: Option<(&str, &str)>)
    ensures
        match spec_parse_sse_line(line@) {
            Some((field, value)) => res matches Some((f, v)) && f@ == field && v@ == value,
            None => res is None,
        },
{
    let len: usize = line.unicode_len();
    let mut colon: Option<usize> = None;
    let mut pos: usize = 0;
    for c in it: line.chars()
        invariant
            it.seq() == line@,
            len == line@.len(),
            pos == it.index(),
            pos <= len,
            match colon {
                Some(i) => i < pos && line@[i as int] == ':' && forall|j: int|
                    0 <= j < i ==> line@[j] != ':',
                None => forall|j: int| 0 <= j < pos ==> line@[j] != ':',
            },
    {
        assert(pos < len);
        if colon.is_none() && c == ':' {
            colon = Some(pos);
        }
        pos = pos + 1;
    }
    proof {
        line@.index_of_first_ensures(':');
    }
    match colon {
        None => None,
        Some(i) => {
            proof {
                assert(line@.index_of_first(':') == Some(i as int));
            }
            let field = line.substring_char(0, i);
            let rest = line.substring_char(i + 1, len);
            if i + 1 < len && line.get_char(i + 1) == ' ' {
                let value = line.substring_char(i + 2, len);
                assert(value@ =~= rest@.skip(1));
                Some((field, value))
            } else {
                Some((field, rest))
            }
        },
    }
}

// ---------------------------------------------------------------------------
// Event assembly
// ---------------------------------------------------------------------------

/// The fields of the event being assembled.
#[verifier::ext_equal]
pub struct SseFields {
    pub event_type: Seq<char>,
    pub data: Seq<char>,
    pub event_id: Seq<char>,
}

/// What the stream asks of the client, in the order it must be done.
pub enum SpecSseAction {
    Dispatch { event_type: Seq<char>, data: Seq<char> },
    LastEventId { id: Seq<char> },
}

/// The stream reader's whole state: the text after the last line break, and
/// the fields of the event being assembled.
#[verifier::ext_equal]
pub struct SseParserView {
    pub pending: Seq<char>,
    pub fields: SseFields,
}

/// No field set.
pub open spec fn empty_fields() -> SseFields {
    SseFields { event_type: seq![], data: seq![], event_id: seq![] }
}

/// The effect of one line (line break excluded) on the event being assembled.
/// Trailing carriage returns are ignored. An empty line ends the event: it is
/// dispatched when it has a type or data, its id becomes the last event id
/// when it has one, and the fields start over. `event`, `data` and `id` set
/// their field; further `data` lines are joined with a line feed; other
/// fields and lines without `:` are ignored.
pub open spec fn apply_line(f: SseFields, raw: Seq<char>) -> (SseFields, Seq<SpecSseAction>) {
    let line = trim_end_char(raw, '\r');
    if line.len() == 0 {
        let dispatched = if f.event_type.len() > 0 || f.data.len() > 0 {
            seq![SpecSseAction::Dispatch { event_type: f.event_type, data: f.data }]
        } else {
            seq![]
        };
        let remembered = if f.event_id.len() > 0 {
            seq![SpecSseAction::LastEventId { id: f.event_id }]
        } else {
            seq![]
        };
        (empty_fields(), dispatched + remembered)
    } else {
        match spec_parse_sse_line(line) {
            Some((field, value)) => {
                if field == "event"@ {
                    (SseFields { event_type: value, ..f }, seq![])
                } else if field == "data"@ {
                    let data = if f.data.len() > 0 {
                        f.data.push('\n') + value
                    } else {
                        value
                    };
                    (SseFields { data: data, ..f }, seq![])
                } else if field == "id"@ {
                    (SseFields { event_id: value, ..f }, seq![])
                } else {
                    (f, seq![])
                }
            },
            None => (f, seq![]),
        }
    }
}

/// The effect of a sequence of lines, in order.
pub open spec fn apply_lines(f: SseFields, lines: Seq<Seq<char>>) -> (SseFields, Seq<SpecSseAction>)
    decreases lines.len(),
{
    if lines.len() == 0 {
        (f, seq![])
    } else {
        let (f1, a1) = apply_lines(f, lines.drop_last());
        let (f2, a2) = apply_line(f1, lines.last());
        (f2, a1 + a2)
    }
}

/// Splits text at line feeds: the complete lines, and the text after the last
/// line feed.
pub open spec fn split_lines(text: Seq<char>) -> (Seq<Seq<char>>, Seq<char>)
    decreases text.len(),
{
    if text.len() == 0 {
        (seq![], seq![])
    } else {
        let (lines, tail) = split_lines(text.drop_last());
        if text.last() == '\n' {
            (lines.push(tail), seq![])
        } else {
            (lines, tail.push(text.last()))
        }
    }
}

/// The reader's state and the actions after it receives `chunk`: the pending
/// text and the chunk are split into lines, every complete line is applied,
/// and the rest stays pending.
pub open spec fn spec_feed(st: SseParserView, chunk: Seq<char>) -> (SseParserView, Seq<SpecSseAction>) {
    let (lines, tail) = split_lines(st.pending + chunk);
    let (f, acts) = apply_lines(st.fields, lines);
    (SseParserView { pending: tail, fields: f }, acts)
}

/// What the stream asks of the client.
#[derive(Debug, Clone)]
pub enum SseAction {
    /// An event is complete: hand it on.
    Dispatch { event_type: String, data: String },
    /// Remember this id, to resume from it on reconnection.
    LastEventId(String),
}

impl View for SseAction {
    type V = SpecSseAction;

    open spec fn view(&self) -> SpecSseAction {
        match self {
            SseAction::Dispatch { event_type, data } => SpecSseAction::Dispatch {
                event_type: event_type@,
                data: data@,
            },
            SseAction::LastEventId(id) => SpecSseAction::LastEventId { id: id@ },
        }
    }
}

/// The views of a list of actions.
pub open spec fn actions_view(actions: Seq<SseAction>) -> Seq<SpecSseAction> {
    actions.map_values(|a: SseAction| a@)
}

/// The text of a byte chunk, each invalid UTF-8 sequence replaced by U+FFFD.
pub uninterp spec fn utf8_lossy(bytes: Seq<u8>) -> Seq<char>;

/// Decodes a chunk of the stream.
///
/// Trusted: calls std's `String::from_utf8_lossy`. Claimed: the result is a
/// function of the bytes alone, and when the bytes are valid UTF-8 it is
/// their text, as the documentation of `from_utf8_lossy` says.
#[verifier::external_body]
fn decode_utf8_lossy(bytes: &[u8]) -> (s: String)
    ensures
        s@ == utf8_lossy(bytes@),
        valid_utf8(bytes@) ==> s@ == decode_utf8(bytes@),
{
    String::from_utf8_lossy(bytes).into_owned()
}

/// Reads a server-sent-events stream chunk by chunk and assembles its events.
pub struct SseParser {
    buffer: String,
    event_type: String,
    data: String,
    event_id: String,
}

impl View for SseParser {
    type V = SseParserView;

    closed spec fn view(&self) -> SseParserView {
        SseParserView {
            pending: self.buffer@,
            fields: SseFields {
                event_type: self.event_type@,
                data: self.data@,
                event_id: self.event_id@,
            },
        }
    }
}

proof fn lemma_split_lines_no_newline(t: Seq<char>)
    requires
        !t.contains('\n'),
    ensures
        split_lines(t) == (Seq::<Seq<char>>::empty(), t),
    decreases t.len(),
{
    if t.len() > 0 {
        assert(!t.drop_last().contains('\n')) by {
            if t.drop_last().contains('\n') {
                let i: int = choose|i: int| 0 <= i < t.drop_last().len() && t.drop_last()[i] == '\n';
                assert(t[i] == '\n');
            }
        }
        lemma_split_lines_no_newline(t.drop_last());
        assert(t.drop_last().push(t.last()) =~= t);
        assert(t[t.len() - 1] != '\n');
    } else {
        assert(t =~= Seq::<char>::empty());
    }
}

impl SseParser {
    /// Whether the pending text holds no line feed.
    pub closed spec fn well_formed(&self) -> bool {
        !self.buffer@.contains('\n')
    }

    /// A reader at the start of a stream.
    pub fn new() -> (p: SseParser)
        ensures
            p.well_formed(),
            p@.pending == Seq::<char>::empty(),
            p@.fields == empty_fields(),
    {
        SseParser {
            buffer: String::new(),
            event_type: String::new(),
            data: String::new(),
            event_id: String::new(),
        }
    }

    fn apply_one_line(&mut self, raw: &str, actions: &mut Vec<SseAction>)
        ensures
            final(self).buffer@ == old(self).buffer@,
            final(self)@.fields == apply_line(old(self)@.fields, raw@).0,
            actions_view(final(actions)@) == actions_view(old(actions)@) + apply_line(
                old(self)@.fields,
                raw@,
            ).1,
    {
        let ghost f0 = self@.fields;
        let ghost a0 = actions@;
        let line = trim_end_char_str(raw, '\r');
        if line.is_empty() {
            if !self.event_type.as_str().is_empty() || !self.data.as_str().is_empty() {
                actions.push(
                    SseAction::Dispatch {
                        event_type: self.event_type.clone(),
                        data: self.data.clone(),
                    },
                );
            }
            if !self.event_id.as_str().is_empty() {
                actions.push(SseAction::LastEventId(self.event_id.clone()));
            }
            self.event_type = String::new();
            self.data = String::new();
            self.event_id = String::new();
            proof {
                let acts = apply_line(f0, raw@).1;
                assert(actions_view(actions@) =~= actions_view(a0) + acts);
            }
        } else {
            match parse_sse_line(line) {
                Some((field, value)) => {
                    if str_equal(field, "event") {
                        self.event_type = String::from_str(value);
                    } else if str_equal(field, "data") {
                        if !self.data.as_str().is_empty() {
                            push_char(&mut self.data, '\n');
                        }
                        push_str(&mut self.data, value);
                    } else if str_equal(field, "id") {
                        self.event_id = String::from_str(value);
                    }
                },
                None => {},
            }
            assert(actions_view(actions@) =~= actions_view(a0) + apply_line(f0, raw@).1);
        }
    }

    /// Reads the next piece of the stream, and returns what the events
    /// completed by it ask for, in order.
    pub fn feed(&mut self, chunk: &str) -> (actions: Vec<SseAction>)
        requires
            old(self).well_formed(),
        ensures
            final(self).well_formed(),
            (final(self)@, actions_view(actions@)) == spec_feed(old(self)@, chunk@),
    {
        let ghost st0 = self@;
        let mut actions: Vec<SseAction> = Vec::new();
        proof {
            lemma_split_lines_no_newline(st0.pending);
            assert(st0.pending + chunk@.take(0) =~= st0.pending);
            assert(actions_view(actions@) =~= Seq::<SpecSseAction>::empty());
        }
        for c in it: chunk.chars()
            invariant
                it.seq() == chunk@,
                self.well_formed(),
                ({
                    let (lines, tail) = split_lines(st0.pending + chunk@.take(it.index() as int));
                    let (f, acts) = apply_lines(st0.fields, lines);
                    &&& self@.pending == tail
                    &&& self@.fields == f
                    &&& actions_view(actions@) == acts
                }),
        {
            let ghost k = it.index() as int;
            let ghost before = st0.pending + chunk@.take(k);
            let ghost after = st0.pending + chunk@.take(k + 1);
            proof {
                assert(chunk@[k] == c);
                assert(after =~= before.push(c));
                assert(after.drop_last() =~= before);
            }
            if c == '\n' {
                let mut line = String::new();
                std::mem::swap(&mut line, &mut self.buffer);
                self.apply_one_line(line.as_str(), &mut actions);
                proof {
                    let (lines, tail) = split_lines(before);
                    assert(split_lines(after).0 == lines.push(tail));
                    assert(lines.push(tail).drop_last() =~= lines);
                    assert(self.buffer@ =~= Seq::<char>::empty());
                }
            } else {
                let ghost prev = self.buffer@;
                push_char(&mut self.buffer, c);
                proof {
                    assert(!self.buffer@.contains('\n')) by {
                        if self.buffer@.contains('\n') {
                            let i: int = choose|i: int|
                                0 <= i < self.buffer@.len() && self.buffer@[i] == '\n';
                            if i < prev.len() {
                                assert(prev[i] == '\n');
                            }
                        }
                    }
                }
            }
        }
        proof {
            assert(chunk@.take(chunk@.len() as int) =~= chunk@);
        }
        actions
    }

    /// Reads the next piece of the stream as raw bytes, decoding them as
    /// UTF-8 with invalid sequences replaced.
    pub fn feed_bytes(&mut self, chunk: &[u8]) -> (actions: Vec<SseAction>)
        requires
            old(self).well_formed(),
        ensures
            final(self).well_formed(),
            (final(self)@, actions_view(actions@)) == spec_feed(old(self)@, utf8_lossy(chunk@)),
            valid_utf8(chunk@) ==> (final(self)@, actions_view(actions@)) == spec_feed(
                old(self)@,
                decode_utf8(chunk@),
            ),
    {
        let text = decode_utf8_lossy(chunk);
        self.feed(text.as_str())
    }
}

// ---------------------------------------------------------------------------
// Connecting and dispatching
// ---------------------------------------------------------------------------

/// The address of the event stream under `base_url`.
pub open spec fn spec_stream_url(base_url: Seq<char>) -> Seq<char> {
    base_url + "/api/notifications/stream"@
}

/// The address of the event stream under `base_url`.
pub fn stream_url(base_url: &str) -> (url: String)
    ensures
        url@ == spec_stream_url(base_url@),
        url@ == base_url@ + "/api/notifications/stream"@,
{
    let mut url = String::from_str(base_url);
    push_str(&mut url, "/api/notifications/stream");
    url
}

/// Why a connection to the stream ended.
#[derive(Debug, Clone)]
pub enum SseError {
    /// The request could not be sent.
    Connect(String),
    /// The server answered with a status other than success.
    Status(String),
    /// Reading the stream failed.
    Read(String),
    /// The server closed the stream.
    Ended,
}

impl SseError {
    /// The text that reports this failure.
    pub open spec fn spec_message(&self) -> Seq<char> {
        match self {
            SseError::Connect(e) => "SSE connect: "@ + e@,
            SseError::Status(s) => "SSE status: "@ + s@,
            SseError::Read(e) => "SSE read: "@ + e@,
            SseError::Ended => "SSE stream ended"@,
        }
    }

    /// The text that reports this failure.
    pub fn message(&self) -> (m: String)
        ensures
            m@ == self.spec_message(),
            self matches SseError::Connect(e) ==> m@ == "SSE connect: "@ + e@,
            self matches SseError::Status(s) ==> m@ == "SSE status: "@ + s@,
            self matches SseError::Read(e) ==> m@ == "SSE read: "@ + e@,
            self is Ended ==> m@ == "SSE stream ended"@,
    {
        match self {
            SseError::Connect(e) => {
                let mut m = String::from_str("SSE connect: ");
                push_str(&mut m, e.as_str());
                m
            },
            SseError::Status(s) => {
                let mut m = String::from_str("SSE status: ");
                push_str(&mut m, s.as_str());
                m
            },
            SseError::Read(e) => {
                let mut m = String::from_str("SSE read: ");
                push_str(&mut m, e.as_str());
                m
            },
            SseError::Ended => String::from_str("SSE stream ended"),
        }
    }
}

/// The kinds of event that the stream carries.
#[derive(Debug, Clone, Copy, PartialEq, Eq, Structural)]
pub enum EventKind {
    /// A new notification, as JSON in the data.
    Notification,
    /// A notification changed status, as JSON in the data.
    StatusChange,
    /// A keep-alive, to be ignored.
    Ping,
    /// Anything else, to be ignored.
    Other,
}

/// The kind of an event by its type.
pub open spec fn spec_event_kind(event_type: Seq<char>) -> EventKind {
    if event_type == "notification"@ {
        EventKind::Notification
    } else if event_type == "status_change"@ {
        EventKind::StatusChange
    } else if event_type == "ping"@ {
        EventKind::Ping
    } else {
        EventKind::Other
    }
}

/// Tells what a dispatched event is, by its type.
pub fn event_kind(event_type: &str) -> (kind: EventKind)
    ensures
        kind == spec_event_kind(event_type@),
        (kind == EventKind::Notification) <==> event_type@ == "notification"@,
        (kind == EventKind::StatusChange) <==> event_type@ == "status_change"@,
        (kind == EventKind::Ping) <==> event_type@ == "ping"@,
{
    proof {
        reveal_strlit("notification");
        reveal_strlit("status_change");
        reveal_strlit("ping");
        assert("notification"@.len() == 12);
        assert("status_change"@.len() == 13);
        assert("ping"@.len() == 4);
    }
    if str_equal(event_type, "notification") {
        EventKind::Notification
    } else if str_equal(event_type, "status_change") {
        EventKind::StatusChange
    } else if str_equal(event_type, "ping") {
        EventKind::Ping
    } else {
        EventKind::Other
    }
}

/// Whether a notification of this priority is also shown as a system
/// notification: only high and critical ones are.
pub open spec fn spec_is_urgent(priority: Priority) -> bool {
    priority == Priority::High || priority == Priority::Critical
}

/// Whether a notification of this priority is also shown as a system
/// notification.
pub fn should_fire_system_notification(priority: Priority) -> (fire: bool)
    ensures
        fire == spec_is_urgent(priority),
        fire <==> (priority == Priority::High || priority == Priority::Critical),
{
    match priority {
        Priority::High | Priority::Critical => true,
        Priority::Low | Priority::Medium => false,
    }
}

/// A notification to show on the device.
#[derive(Debug, Clone)]
pub struct SystemNotification {
    pub title: String,
    pub body: String,
}

/// The body shown for a notification: its message, or nothing.
pub open spec fn spec_alert_body(message: Option<String>) -> Seq<char> {
    match message {
        Some(m) => m@,
        None => Seq::<char>::empty(),
    }
}

/// What the device shows for a notification: its title, and its message as
/// the body (empty when it has none).
pub fn system_notification_content(notif: &Notification) -> (alert: SystemNotification)
    ensures
        alert.title@ == notif.title@,
        alert.body@ == spec_alert_body(notif.message),
        notif.message matches Some(m) ==> alert.body@ == m@,
        notif.message is None ==> alert.body@.len() == 0,
{
    let body = match &notif.message {
        Some(m) => m.clone(),
        None => String::new(),
    };
    SystemNotification { title: notif.title.clone(), body }
}

// ---------------------------------------------------------------------------
// Polling while the stream is unavailable
// ---------------------------------------------------------------------------

/// The address polled for notifications under `base_url`: the last fifty,
/// from `since` on when a notification was seen before.
pub open spec fn spec_poll_url(base_url: Seq<char>, since: Option<Seq<char>>) -> Seq<char> {
    let url = base_url + "/api/notifications/?limit=50"@;
    match since {
        Some(s) => url + "&since="@ + s,
        None => url,
    }
}

/// The address polled for notifications.
pub fn poll_url(base_url: &str, last_seen: &Option<String>) -> (url: String)
    ensures
        url@ == spec_poll_url(
            base_url@,
            match last_seen {
                Some(s) => Some(s@),
                None => None,
            },
        ),
        last_seen matches Some(s) ==> url@ == base_url@ + "/api/notifications/?limit=50&since="@
            + s@,
{
    proof {
        reveal_strlit("/api/notifications/?limit=50&since=");
        reveal_strlit("/api/notifications/?limit=50");
        reveal_strlit("&since=");
        assert("/api/notifications/?limit=50&since="@ =~= "/api/notifications/?limit=50"@
            + "&since="@);
    }
    let mut url = String::from_str(base_url);
    push_str(&mut url, "/api/notifications/?limit=50");
    match last_seen {
        Some(since) => {
            push_str(&mut url, "&since=");
            push_str(&mut url, since.as_str());
        },
        None => {},
    }
    url
}

/// Remembers the newest notification of a polled page: the server lists the
/// newest first, so its creation time becomes the point to poll from. An
/// empty page changes nothing.
pub fn record_newest(items: &Vec<Notification>, last_seen: &mut Option<String>)
    ensures
        items@.len() == 0 ==> *final(last_seen) == *old(last_seen),
        items@.len() > 0 ==> (*final(last_seen) matches Some(s) && s@ == items@[0].created_at@),
{
    if items.len() > 0 {
        *last_seen = Some(items[0].created_at.clone());
    }
}

// ---------------------------------------------------------------------------
// Laws of the stream reader
// ---------------------------------------------------------------------------

/// A parsed line is rebuilt from its parts: the field name holds no `:`, and
/// the line is the name, a `:`, possibly one space, and the value.
pub proof fn lemma_parse_sse_line_reconstructs(line: Seq<char>)
    ensures
        spec_parse_sse_line(line) is None <==> !line.contains(':'),
        spec_parse_sse_line(line) matches Some((field, value)) ==> {
            &&& !field.contains(':')
            &&& (line == field + seq![':'] + value || line == field + seq![':', ' '] + value)
            &&& (line.len() > field.len() + 1 && line[field.len() + 1int] == ' ') ==> line == field
                + seq![':', ' '] + value
            &&& !(line.len() > field.len() + 1 && line[field.len() + 1int] == ' ') ==> line == field
                + seq![':'] + value
        },
{
    line.index_of_first_ensures(':');
    if let Some(i) = line.index_of_first(':') {
        let rest = line.skip(i + 1);
        assert(line =~= line.take(i) + seq![':'] + rest);
        if rest.len() > 0 && rest[0] == ' ' {
            assert(line =~= line.take(i) + seq![':', ' '] + rest.skip(1));
        }
        let field = line.take(i);
        assert(!field.contains(':')) by {
            if field.contains(':') {
                let j: int = choose|j: int| 0 <= j < field.len() && field[j] == ':';
                assert(line[j] == ':');
            }
        }
    }
}

proof fn lemma_split_lines_concat(x: Seq<char>, y: Seq<char>)
    ensures
        ({
            let (l1, t1) = split_lines(x);
            let (l2, t2) = split_lines(t1 + y);
            split_lines(x + y) == (l1 + l2, t2)
        }),
    decreases y.len(),
{
    let (l1, t1) = split_lines(x);
    if y.len() == 0 {
        assert(x + y =~= x);
        lemma_split_lines_tail_has_no_newline(x);
        lemma_split_lines_no_newline(t1);
        assert(t1 + y =~= t1);
        assert(l1 + Seq::<Seq<char>>::empty() =~= l1);
    } else {
        let y0 = y.drop_last();
        let c = y.last();
        lemma_split_lines_concat(x, y0);
        assert((x + y).drop_last() =~= x + y0);
        assert((t1 + y).drop_last() =~= t1 + y0);
        assert((x + y).last() == c);
        assert((t1 + y).last() == c);
        let (l2, t2) = split_lines(t1 + y0);
        if c == '\n' {
            assert(l1 + l2.push(t2) =~= (l1 + l2).push(t2));
        }
    }
}

proof fn lemma_split_lines_tail_has_no_newline(x: Seq<char>)
    ensures
        !split_lines(x).1.contains('\n'),
    decreases x.len(),
{
    if x.len() > 0 {
        lemma_split_lines_tail_has_no_newline(x.drop_last());
        let t0 = split_lines(x.drop_last()).1;
        if x.last() != '\n' {
            assert(!t0.push(x.last()).contains('\n')) by {
                if t0.push(x.last()).contains('\n') {
                    let i: int = choose|i: int| 0 <= i < t0.push(x.last()).len() && t0.push(x.last())[i] == '\n';
                    if i < t0.len() {
                        assert(t0[i] == '\n');
                    }
                }
            }
        } else {
            assert(!Seq::<char>::empty().contains('\n'));
        }
    } else {
        assert(!Seq::<char>::empty().contains('\n'));
    }
}

proof fn lemma_apply_lines_concat(f: SseFields, l1: Seq<Seq<char>>, l2: Seq<Seq<char>>)
    ensures
        ({
            let (f1, a1) = apply_lines(f, l1);
            let (f2, a2) = apply_lines(f1, l2);
            apply_lines(f, l1 + l2) == (f2, a1 + a2)
        }),
    decreases l2.len(),
{
    let (f1, a1) = apply_lines(f, l1);
    if l2.len() == 0 {
        assert(l1 + l2 =~= l1);
        assert(a1 + Seq::<SpecSseAction>::empty() =~= a1);
    } else {
        lemma_apply_lines_concat(f, l1, l2.drop_last());
        assert((l1 + l2).drop_last() =~= l1 + l2.drop_last());
        assert((l1 + l2).last() == l2.last());
        let (g, b) = apply_lines(f1, l2.drop_last());
        let (h, c) = apply_line(g, l2.last());
        assert(a1 + b + c =~= a1 + (b + c));
    }
}

/// Where the stream is cut into chunks makes no difference: reading `a` and
/// then `b` leaves the reader as reading `a + b` at once does, and asks for
/// the same actions in the same order.
pub proof fn lemma_feed_chunking(st: SseParserView, a: Seq<char>, b: Seq<char>)
    ensures
        ({
            let (st1, acts1) = spec_feed(st, a);
            let (st2, acts2) = spec_feed(st1, b);
            let (st3, acts3) = spec_feed(st, a + b);
            st2 == st3 && acts1 + acts2 == acts3
        }),
{
    let x = st.pending + a;
    lemma_split_lines_concat(x, b);
    assert(st.pending + (a + b) =~= x + b);
    let (l1, t1) = split_lines(x);
    let (l2, t2) = split_lines(t1 + b);
    lemma_apply_lines_concat(st.fields, l1, l2);
}

proof fn lemma_split_lines_append_line(x: Seq<char>, line: Seq<char>)
    requires
        split_lines(x).1 == Seq::<char>::empty(),
        !line.contains('\n'),
    ensures
        split_lines(x + line.push('\n')) == (split_lines(x).0.push(line), Seq::<char>::empty()),
{
    lemma_split_lines_concat(x, line.push('\n'));
    let t1 = split_lines(x).1;
    assert(t1 + line.push('\n') =~= line.push('\n'));
    assert(line.push('\n').drop_last() =~= line);
    lemma_split_lines_no_newline(line);
    assert(split_lines(x).0 + seq![line] =~= split_lines(x).0.push(line));
}

proof fn lemma_field_line(name: Seq<char>, value: Seq<char>)
    requires
        !name.contains(':'),
    ensures
        spec_parse_sse_line(name + seq![':', ' '] + value) == Some((name, value)),
{
    let line = name + seq![':', ' '] + value;
    let k = name.len() as int;
    line.index_of_first_ensures(':');
    assert(line[k] == ':');
    let i = line.index_of_first(':')->0;
    assert(i == k) by {
        if i < k {
            assert(line[i] == name[i]);
        }
    }
    assert(line.take(k) =~= name);
    assert(line.skip(k + 1) =~= seq![' '] + value);
    assert((seq![' '] + value).skip(1) =~= value);
}

/// An event written out in the stream's format (`event: T`, `data: D`, a
/// blank line) is read back, by a reader at rest, as exactly that event; the
/// reader is at rest again afterwards.
pub proof fn lemma_written_event_is_read(event_type: Seq<char>, data: Seq<char>)
    requires
        !event_type.contains('\n'),
        !data.contains('\n'),
        event_type.len() > 0,
        event_type.last() != '\r',
        data.len() == 0 || data.last() != '\r',
    ensures
        ({
            let rest = SseParserView { pending: seq![], fields: empty_fields() };
            let text = "event: "@ + event_type + seq!['\n'] + "data: "@ + data + seq!['\n', '\n'];
            spec_feed(rest, text) == (rest, seq![SpecSseAction::Dispatch { event_type, data }])
        }),
{
    reveal_strlit("event: ");
    reveal_strlit("event");
    reveal_strlit("data: ");
    reveal_strlit("data");
    let ev = seq!['e', 'v', 'e', 'n', 't'];
    let da = seq!['d', 'a', 't', 'a'];
    assert("event: "@ =~= ev + seq![':', ' ']);
    assert("data: "@ =~= da + seq![':', ' ']);
    assert("event"@ =~= ev);
    assert("data"@ =~= da);
    let l1 = ev + seq![':', ' '] + event_type;
    let l2 = da + seq![':', ' '] + data;
    let l3 = Seq::<char>::empty();
    let rest = SseParserView { pending: seq![], fields: empty_fields() };
    let text = "event: "@ + event_type + seq!['\n'] + "data: "@ + data + seq!['\n', '\n'];
    assert(text =~= Seq::<char>::empty() + l1.push('\n') + l2.push('\n') + l3.push('\n'));
    // the three lines
    assert(!l1.contains('\n')) by {
        if l1.contains('\n') {
            let i: int = choose|i: int| 0 <= i < l1.len() && l1[i] == '\n';
            assert(event_type[i - 7] == '\n');
        }
    }
    assert(!l2.contains('\n')) by {
        if l2.contains('\n') {
            let i: int = choose|i: int| 0 <= i < l2.len() && l2[i] == '\n';
            assert(data[i - 6] == '\n');
        }
    }
    assert(!l3.contains('\n'));
    let e = Seq::<char>::empty();
    assert(split_lines(e) == (Seq::<Seq<char>>::empty(), e));
    lemma_split_lines_append_line(e, l1);
    assert(e + l1.push('\n') =~= l1.push('\n'));
    lemma_split_lines_append_line(l1.push('\n'), l2);
    lemma_split_lines_append_line(l1.push('\n') + l2.push('\n'), l3);
    assert(Seq::<Seq<char>>::empty().push(l1).push(l2).push(l3) =~= seq![l1, l2, l3]);
    assert(e + l1.push('\n') + l2.push('\n') + l3.push('\n') =~= l1.push('\n') + l2.push('\n') + l3.push('\n'));
    assert(split_lines(rest.pending + text) == (seq![l1, l2, l3], e)) by {
        assert(rest.pending + text =~= l1.push('\n') + l2.push('\n') + l3.push('\n'));
    }
    // their effect
    assert(!ev.contains(':'));
    assert(!da.contains(':'));
    lemma_field_line(ev, event_type);
    lemma_field_line(da, data);
    assert(l1.last() == event_type.last());
    assert(trim_end_char(l1, '\r') == l1);
    assert(trim_end_char(l2, '\r') == l2) by {
        if data.len() > 0 {
            assert(l2.last() == data.last());
        } else {
            assert(l2.last() == ' ');
        }
    }
    assert(trim_end_char(l3, '\r') == l3);
    let lines = seq![l1, l2, l3];
    assert(lines.drop_last() =~= seq![l1, l2]);
    assert(seq![l1, l2].drop_last() =~= seq![l1]);
    assert(seq![l1].drop_last() =~= Seq::<Seq<char>>::empty());
    let f0 = empty_fields();
    let f1 = SseFields { event_type: event_type, ..f0 };
    let f2 = SseFields { data: data, ..f1 };
    assert(apply_line(f0, l1) == (f1, Seq::<SpecSseAction>::empty()));
    assert(apply_line(f1, l2) == (f2, Seq::<SpecSseAction>::empty()));
    let acts = seq![SpecSseAction::Dispatch { event_type, data }];
    assert(apply_line(f2, l3).1 =~= acts);
    assert(apply_lines(f0, seq![l1]) == (f1, Seq::<SpecSseAction>::empty())) by {
        assert(seq![l1].last() == l1);
        assert(apply_lines(f0, Seq::<Seq<char>>::empty()) == (f0, Seq::<SpecSseAction>::empty()));
        assert(Seq::<SpecSseAction>::empty() + Seq::<SpecSseAction>::empty() =~= Seq::<SpecSseAction>::empty());
    }
    assert(apply_lines(f0, seq![l1, l2]) == (f2, Seq::<SpecSseAction>::empty())) by {
        assert(seq![l1, l2].last() == l2);
        assert(Seq::<SpecSseAction>::empty() + Seq::<SpecSseAction>::empty() =~= Seq::<SpecSseAction>::empty());
    }
    assert(apply_lines(f0, lines) == (empty_fields(), acts)) by {
        assert(lines.last() == l3);
        assert(Seq::<SpecSseAction>::empty() + acts =~= acts);
    }
}

proof fn lemma_decode_utf8_concat(b1: Seq<u8>, b2: Seq<u8>)
    requires
        valid_utf8(b1),
        valid_utf8(b2),
    ensures
        valid_utf8(b1 + b2),
        decode_utf8(b1 + b2) == decode_utf8(b1) + decode_utf8(b2),
    decreases b1.len(),
{
    valid_utf8_concat(b1, b2);
    if b1.len() == 0 {
        assert(b1 + b2 =~= b2);
        assert(decode_utf8(b1) =~= Seq::<char>::empty());
        assert(decode_utf8(b1) + decode_utf8(b2) =~= decode_utf8(b2));
    } else {
        let rest = pop_first_scalar(b1);
        let whole = b1 + b2;
        let n = length_of_first_scalar(b1);
        assert(whole[0] == b1[0]);
        assert(n <= b1.len());
        assert(forall|i: int| 0 <= i < b1.len() ==> whole[i] == b1[i]);
        assert(length_of_first_scalar(whole) == n);
        assert(decode_first_scalar(whole) == decode_first_scalar(b1));
        assert(pop_first_scalar(whole) =~= rest + b2);
        lemma_decode_utf8_concat(rest, b2);
        assert(decode_utf8(whole) == seq![decode_first_scalar(whole) as char] + decode_utf8(rest + b2));
        assert(decode_utf8(b1) == seq![decode_first_scalar(b1) as char] + decode_utf8(rest));
        assert(decode_utf8(whole) =~= decode_utf8(b1) + decode_utf8(b2));
    }
}

/// Where a byte stream of valid UTF-8 is cut into chunks makes no
/// difference, as long as each chunk is valid UTF-8 on its own: reading `a`
/// and then `b` leaves the reader as reading `a + b` at once does, and asks
/// for the same actions in the same order.
pub proof fn lemma_feed_bytes_chunking(st: SseParserView, a: Seq<u8>, b: Seq<u8>)
    requires
        valid_utf8(a),
        valid_utf8(b),
    ensures
        valid_utf8(a + b),
        ({
            let (st1, acts1) = spec_feed(st, decode_utf8(a));
            let (st2, acts2) = spec_feed(st1, decode_utf8(b));
            let (st3, acts3) = spec_feed(st, decode_utf8(a + b));
            st2 == st3 && acts1 + acts2 == acts3
        }),
{
    lemma_decode_utf8_concat(a, b);
    lemma_feed_chunking(st, decode_utf8(a), decode_utf8(b));
}

/// The chunks of a stream laid end to end.
pub open spec fn concat_chunks(chunks: Seq<Seq<char>>) -> Seq<char>
    decreases chunks.len(),
{
    if chunks.len() == 0 {
        seq![]
    } else {
        concat_chunks(chunks.drop_last()) + chunks.last()
    }
}

/// The reader's state and the actions after it receives the chunks one after
/// the other.
pub open spec fn spec_feed_all(st: SseParserView, chunks: Seq<Seq<char>>) -> (
    SseParserView,
    Seq<SpecSseAction>,
)
    decreases chunks.len(),
{
    if chunks.len() == 0 {
        (st, seq![])
    } else {
        let (st1, acts1) = spec_feed_all(st, chunks.drop_last());
        let (st2, acts2) = spec_feed(st1, chunks.last());
        (st2, acts1 + acts2)
    }
}

/// Where the stream is cut into any number of chunks makes no difference:
/// reading them one after the other leaves the reader as reading their
/// concatenation at once does, and asks for the same actions in the same
/// order.
pub proof fn lemma_feed_all_chunking(st: SseParserView, chunks: Seq<Seq<char>>)
    requires
        !st.pending.contains('\n'),
    ensures
        spec_feed_all(st, chunks) == spec_feed(st, concat_chunks(chunks)),
    decreases chunks.len(),
{
    if chunks.len() == 0 {
        lemma_split_lines_no_newline_of_pending(st);
    } else {
        let init = chunks.drop_last();
        lemma_feed_all_chunking(st, init);
        lemma_feed_chunking(st, concat_chunks(init), chunks.last());
    }
}

proof fn lemma_split_lines_no_newline_of_pending(st: SseParserView)
    ensures
        !st.pending.contains('\n') ==> spec_feed(st, Seq::<char>::empty()) == (
            st,
            Seq::<SpecSseAction>::empty(),
        ),
{
    if !st.pending.contains('\n') {
        assert(st.pending + Seq::<char>::empty() =~= st.pending);
        lemma_split_lines_no_newline(st.pending);
    }
}

/// Byte chunks laid end to end.
pub open spec fn concat_byte_chunks(chunks: Seq<Seq<u8>>) -> Seq<u8>
    decreases chunks.len(),
{
    if chunks.len() == 0 {
        seq![]
    } else {
        concat_byte_chunks(chunks.drop_last()) + chunks.last()
    }
}

/// The text of each byte chunk.
pub open spec fn decode_chunks(chunks: Seq<Seq<u8>>) -> Seq<Seq<char>> {
    chunks.map_values(|c: Seq<u8>| decode_utf8(c))
}

proof fn lemma_decode_concat_chunks(chunks: Seq<Seq<u8>>)
    requires
        forall|i: int| 0 <= i < chunks.len() ==> valid_utf8(#[trigger] chunks[i]),
    ensures
        valid_utf8(concat_byte_chunks(chunks)),
        decode_utf8(concat_byte_chunks(chunks)) == concat_chunks(decode_chunks(chunks)),
    decreases chunks.len(),
{
    if chunks.len() == 0 {
        assert(valid_utf8(Seq::<u8>::empty()));
        assert(decode_utf8(Seq::<u8>::empty()) =~= Seq::<char>::empty());
    } else {
        let init = chunks.drop_last();
        assert forall|i: int| 0 <= i < init.len() implies valid_utf8(#[trigger] init[i]) by {
            assert(init[i] == chunks[i]);
        }
        lemma_decode_concat_chunks(init);
        assert(valid_utf8(chunks[chunks.len() - 1]));
        lemma_decode_utf8_concat(concat_byte_chunks(init), chunks.last());
        assert(decode_chunks(chunks).drop_last() =~= decode_chunks(init));
        assert(decode_chunks(chunks).last() == decode_utf8(chunks.last()));
    }
}

/// Where a byte stream is cut into any number of chunks makes no difference,
/// as long as each chunk is valid UTF-8 on its own: reading the decoded
/// chunks one after the other leaves the reader as reading the decoded
/// whole at once does, and asks for the same actions in the same order.
pub proof fn lemma_feed_bytes_all_chunking(st: SseParserView, chunks: Seq<Seq<u8>>)
    requires
        !st.pending.contains('\n'),
        forall|i: int| 0 <= i < chunks.len() ==> valid_utf8(#[trigger] chunks[i]),
    ensures
        valid_utf8(concat_byte_chunks(chunks)),
        spec_feed_all(st, decode_chunks(chunks)) == spec_feed(
            st,
            decode_utf8(concat_byte_chunks(chunks)),
        ),
{
    lemma_decode_concat_chunks(chunks);
    lemma_feed_all_chunking(st, decode_chunks(chunks));
}

// ---------------------------------------------------------------------------
// Laws of event assembly, alerts and polling
// ---------------------------------------------------------------------------

/// A `data` line adds its value to the event being assembled: after data
/// already there, on a new line (joined by a line feed), whatever the event's
/// type or id are; as the first data, alone. The type and id stay, and
/// nothing is asked of the client yet.
pub proof fn lemma_data_line_appends(f: SseFields, value: Seq<char>)
    requires
        value.len() == 0 || value.last() != '\r',
    ensures
        ({
            let (g, acts) = apply_line(f, "data: "@ + value);
            &&& acts.len() == 0
            &&& g.event_type == f.event_type
            &&& g.event_id == f.event_id
            &&& f.data.len() > 0 ==> g.data == f.data + seq!['\n'] + value
            &&& f.data.len() == 0 ==> g.data == value
        }),
{
    reveal_strlit("data: ");
    reveal_strlit("data");
    reveal_strlit("event");
    reveal_strlit("id");
    let da = seq!['d', 'a', 't', 'a'];
    assert("data: "@ =~= da + seq![':', ' ']);
    assert("data"@ =~= da);
    let line = da + seq![':', ' '] + value;
    assert("data: "@ + value =~= line);
    assert(!da.contains(':'));
    lemma_field_line(da, value);
    assert(trim_end_char(line, '\r') == line) by {
        if value.len() > 0 {
            assert(line.last() == value.last());
        } else {
            assert(line.last() == ' ');
        }
    }
    assert(line.len() > 0);
    assert(da != "event"@) by {
        assert("event"@.len() == 5);
    }
    assert(f.data.push('\n') + value =~= f.data + seq!['\n'] + value);
}

/// An event whose data is written on two `data` lines is dispatched, by a
/// reader at rest, with the two values joined by a line feed, and with its
/// type.
pub proof fn lemma_two_data_lines_joined(event_type: Seq<char>, first: Seq<char>, second: Seq<char>)
    requires
        !event_type.contains('\n'),
        !first.contains('\n'),
        !second.contains('\n'),
        event_type.len() > 0,
        event_type.last() != '\r',
        first.len() > 0,
        first.last() != '\r',
        second.len() == 0 || second.last() != '\r',
    ensures
        ({
            let rest = SseParserView { pending: seq![], fields: empty_fields() };
            let text = "event: "@ + event_type + seq!['\n'] + "data: "@ + first + seq!['\n']
                + "data: "@ + second + seq!['\n', '\n'];
            spec_feed(rest, text) == (
                rest,
                seq![
                    SpecSseAction::Dispatch {
                        event_type,
                        data: first + seq!['\n'] + second,
                    },
                ],
            )
        }),
{
    reveal_strlit("event: ");
    reveal_strlit("event");
    reveal_strlit("data: ");
    let ev = seq!['e', 'v', 'e', 'n', 't'];
    let da = seq!['d', 'a', 't', 'a'];
    assert("event: "@ =~= ev + seq![':', ' ']);
    assert("data: "@ =~= da + seq![':', ' ']);
    assert("event"@ =~= ev);
    let l1 = ev + seq![':', ' '] + event_type;
    let l2 = "data: "@ + first;
    let l3 = "data: "@ + second;
    let l4 = Seq::<char>::empty();
    let rest = SseParserView { pending: seq![], fields: empty_fields() };
    let text = "event: "@ + event_type + seq!['\n'] + "data: "@ + first + seq!['\n'] + "data: "@
        + second + seq!['\n', '\n'];
    assert(!l1.contains('\n')) by {
        if l1.contains('\n') {
            let i: int = choose|i: int| 0 <= i < l1.len() && l1[i] == '\n';
            assert(event_type[i - 7] == '\n');
        }
    }
    assert(!l2.contains('\n')) by {
        if l2.contains('\n') {
            let i: int = choose|i: int| 0 <= i < l2.len() && l2[i] == '\n';
            assert(first[i - 6] == '\n');
        }
    }
    assert(!l3.contains('\n')) by {
        if l3.contains('\n') {
            let i: int = choose|i: int| 0 <= i < l3.len() && l3[i] == '\n';
            assert(second[i - 6] == '\n');
        }
    }
    let e = Seq::<char>::empty();
    assert(split_lines(e) == (Seq::<Seq<char>>::empty(), e));
    lemma_split_lines_append_line(e, l1);
    assert(e + l1.push('\n') =~= l1.push('\n'));
    lemma_split_lines_append_line(l1.push('\n'), l2);
    lemma_split_lines_append_line(l1.push('\n') + l2.push('\n'), l3);
    lemma_split_lines_append_line(l1.push('\n') + l2.push('\n') + l3.push('\n'), l4);
    assert(Seq::<Seq<char>>::empty().push(l1).push(l2).push(l3).push(l4) =~= seq![l1, l2, l3, l4]);
    assert(rest.pending + text =~= l1.push('\n') + l2.push('\n') + l3.push('\n') + l4.push('\n'));
    let lines = seq![l1, l2, l3, l4];
    assert(split_lines(rest.pending + text) == (lines, e));
    // their effect
    assert(!ev.contains(':'));
    lemma_field_line(ev, event_type);
    assert(l1.last() == event_type.last());
    assert(trim_end_char(l1, '\r') == l1);
    let f0 = empty_fields();
    let f1 = SseFields { event_type: event_type, ..f0 };
    assert(apply_line(f0, l1) == (f1, Seq::<SpecSseAction>::empty()));
    lemma_data_line_appends(f1, first);
    let f2 = SseFields { data: first, ..f1 };
    assert(apply_line(f1, l2).0 == f2);
    lemma_data_line_appends(f2, second);
    let f3 = SseFields { data: first + seq!['\n'] + second, ..f1 };
    assert(apply_line(f2, l3).0 == f3);
    assert(trim_end_char(l4, '\r') == l4);
    let acts = seq![SpecSseAction::Dispatch { event_type, data: first + seq!['\n'] + second }];
    assert(apply_line(f3, l4).1 =~= acts);
    let none = Seq::<SpecSseAction>::empty();
    assert(none + none =~= none);
    assert(none + acts =~= acts);
    assert(seq![l1].drop_last() =~= Seq::<Seq<char>>::empty());
    assert(seq![l1, l2].drop_last() =~= seq![l1]);
    assert(seq![l1, l2, l3].drop_last() =~= seq![l1, l2]);
    assert(lines.drop_last() =~= seq![l1, l2, l3]);
    assert(apply_lines(f0, seq![l1]) == (f1, none)) by {
        assert(seq![l1].last() == l1);
        assert(apply_lines(f0, Seq::<Seq<char>>::empty()) == (f0, none));
    }
    assert(apply_lines(f0, seq![l1, l2]) == (f2, none)) by {
        assert(seq![l1, l2].last() == l2);
    }
    assert(apply_lines(f0, seq![l1, l2, l3]) == (f3, none)) by {
        assert(seq![l1, l2, l3].last() == l3);
    }
    assert(apply_lines(f0, lines) == (empty_fields(), acts)) by {
        assert(lines.last() == l4);
    }
}

/// The body shown for a notification is its whole message, every character
/// of it, and empty when it has none.
pub proof fn lemma_alert_body_is_message(message: Option<String>)
    ensures
        message matches Some(m) ==> spec_alert_body(message) == m@,
        message matches Some(m) ==> spec_alert_body(message).len() == m@.len(),
        message is None ==> spec_alert_body(message).len() == 0,
{
}

/// The poll address with a last-seen time is the plain poll address followed
/// by `&since=` and that time, verbatim, whatever its length; the plain poll
/// address asks the collection for fifty notifications.
pub proof fn lemma_poll_url_since(base_url: Seq<char>, since: Seq<char>)
    ensures
        spec_poll_url(base_url, Some(since)) == spec_poll_url(base_url, None) + "&since="@ + since,
        spec_poll_url(base_url, None) == base_url + "/api/notifications/?limit=50"@,
        spec_poll_url(base_url, Some(since)).len() == spec_poll_url(base_url, None).len()
            + "&since="@.len() + since.len(),
        spec_poll_url(base_url, Some(since)).subrange(
            spec_poll_url(base_url, Some(since)).len() - since.len(),
            spec_poll_url(base_url, Some(since)).len() as int,
        ) == since,
{
    let u = spec_poll_url(base_url, Some(since));
    assert(u.subrange(u.len() - since.len(), u.len() as int) =~= since);
}

/// A field line `name: value` sets the field it names and leaves the others:
/// `event` sets the type, `id` the id, any other name (such as `retry`)
/// changes nothing; a line without `:` changes nothing either. No such line
/// asks anything of the client.
pub proof fn lemma_field_line_effect(f: SseFields, name: Seq<char>, value: Seq<char>, other: Seq<char>)
    requires
        !name.contains(':'),
        value.len() == 0 || value.last() != '\r',
        other.len() > 0,
        other.last() != '\r',
        !other.contains(':'),
    ensures
        ({
            let (g, acts) = apply_line(f, name + seq![':', ' '] + value);
            &&& acts.len() == 0
            &&& name == "event"@ ==> g == SseFields { event_type: value, ..f }
            &&& name == "id"@ ==> g == SseFields { event_id: value, ..f }
            &&& (name != "event"@ && name != "data"@ && name != "id"@) ==> g == f
        }),
        apply_line(f, other) == (f, Seq::<SpecSseAction>::empty()),
{
    let line = name + seq![':', ' '] + value;
    lemma_field_line(name, value);
    assert(trim_end_char(line, '\r') == line) by {
        if value.len() > 0 {
            assert(line.last() == value.last());
        } else {
            assert(line.last() == ' ');
        }
    }
    assert(line.len() > 0);
    reveal_strlit("event");
    reveal_strlit("id");
    reveal_strlit("data");
    assert("event"@.len() == 5 && "data"@.len() == 4 && "id"@.len() == 2);
    assert("event"@ != "id"@);
    assert("data"@ != "id"@);
    assert("event"@ != "data"@);
    assert(trim_end_char(other, '\r') == other);
    other.index_of_first_ensures(':');
}

/// A blank line ends the event being assembled: the fields start over, the
/// event is dispatched with its type and data when it has either, and then
/// its id is remembered when it has one; nothing else is asked.
pub proof fn lemma_blank_line_ends_event(f: SseFields, blank: Seq<char>)
    requires
        forall|i: int| 0 <= i < blank.len() ==> #[trigger] blank[i] == '\r',
    ensures
        ({
            let (g, acts) = apply_line(f, blank);
            let dispatches = f.event_type.len() > 0 || f.data.len() > 0;
            let remembers = f.event_id.len() > 0;
            &&& g == empty_fields()
            &&& acts.len() == (if dispatches { 1int } else { 0int }) + (if remembers { 1int } else { 0int })
            &&& dispatches ==> acts[0] == SpecSseAction::Dispatch { event_type: f.event_type, data: f.data }
            &&& remembers ==> acts.last() == SpecSseAction::LastEventId { id: f.event_id }
        }),
{
    lemma_trim_end_char(blank, '\r');
    let tr = trim_end_char(blank, '\r');
    if tr.len() > 0 {
        assert(tr.last() == blank[tr.len() - 1]);
    }
}

/// The text after the last line feed, and the lines, rebuild the text: each
/// line followed by a line feed, then the rest.
pub open spec fn unsplit(lines: Seq<Seq<char>>, tail: Seq<char>) -> Seq<char>
    decreases lines.len(),
{
    if lines.len() == 0 {
        tail
    } else {
        unsplit(lines.drop_last(), seq![]) + lines.last().push('\n') + tail
    }
}

/// Splitting a text at line feeds loses nothing and cuts only there: no line
/// and not the rest holds a line feed, and the lines, each followed by a line
/// feed, then the rest, make up the text again.
pub proof fn lemma_split_lines_reassembles(text: Seq<char>)
    ensures
        unsplit(split_lines(text).0, split_lines(text).1) == text,
        !split_lines(text).1.contains('\n'),
        forall|i: int| 0 <= i < split_lines(text).0.len() ==> !(#[trigger] split_lines(text).0[i]).contains('\n'),
    decreases text.len(),
{
    lemma_split_lines_tail_has_no_newline(text);
    if text.len() > 0 {
        let t0 = text.drop_last();
        lemma_split_lines_reassembles(t0);
        let (lines, tail) = split_lines(t0);
        let c = text.last();
        assert(t0.push(c) =~= text);
        if c == '\n' {
            let nl = lines.push(tail);
            assert(nl.drop_last() =~= lines);
            assert(nl.last() == tail);
            lemma_unsplit_tail(lines, tail);
            assert(unsplit(nl, seq![]) =~= unsplit(lines, seq![]) + tail.push('\n') + Seq::<char>::empty());
            assert(unsplit(lines, seq![]) + tail.push('\n') + Seq::<char>::empty() =~= unsplit(lines, tail).push('\n'));
            assert forall|i: int| 0 <= i < nl.len() implies !(#[trigger] nl[i]).contains('\n') by {
                if i < lines.len() {
                    assert(nl[i] == lines[i]);
                }
            }
        } else {
            lemma_unsplit_tail(lines, tail);
            lemma_unsplit_tail(lines, tail.push(c));
            assert(unsplit(lines, tail.push(c)) =~= unsplit(lines, tail).push(c));
        }
    }
}

proof fn lemma_unsplit_tail(lines: Seq<Seq<char>>, tail: Seq<char>)
    ensures
        unsplit(lines, tail) == unsplit(lines, seq![]) + tail,
    decreases lines.len(),
{
    if lines.len() == 0 {
        assert(Seq::<char>::empty() + tail =~= tail);
    } else {
        assert(unsplit(lines, seq![]) =~= unsplit(lines.drop_last(), seq![]) + lines.last().push('\n') + Seq::<char>::empty());
        assert(unsplit(lines, tail) =~= unsplit(lines.drop_last(), seq![]) + lines.last().push('\n') + tail);
    }
}

} // verus!
