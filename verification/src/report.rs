//! What is shown to the operator: the lines under a node of the tree, and
//! the rows of the live table of events.

use crate::ingest::{decode_failure, payload_bytes, read_utf8};
use crate::timestamp::Timestamp;
use crate::topic_node::TopicNode;
use crate::tree::{Entry, Tree};
use vstd::prelude::*;
use vstd::string::StringExecFns;
use vstd::utf8::{decode_utf8, valid_utf8};
use zenoh::bytes::ZBytes;

verus! {

/// `count` copies of `fill`.
pub open spec fn repeated(fill: char, count: int) -> Seq<char> {
    Seq::new(if count > 0 { count as nat } else { 0 }, |i: int| fill)
}

/// `text`, followed by as many spaces as it takes to reach `width`
/// characters; `text` itself where it is that long or longer.
pub open spec fn padded(text: Seq<char>, width: int) -> Seq<char> {
    text + repeated(' ', width - text.len())
}

/// A row of the table: three padded columns and the payload, with a bar
/// between neighbours.
pub open spec fn row(
    time: Seq<char>,
    kind: Seq<char>,
    topic: Seq<char>,
    payload: Seq<char>,
) -> Seq<char> {
    padded(time, 25) + " | "@ + padded(kind, 10) + " | "@ + padded(topic, 30) + " | "@ + payload
}

/// `text` padded with spaces on the right to `width` characters.
pub fn pad_right(text: &str, width: usize) -> (out: String)
    ensures
        out@ == padded(text@, width as int),
{
    let mut out = String::from_str(text);
    let mut have = text.unicode_len();
    proof {
        reveal_strlit(" ");
    }
    while have < width
        invariant
            have >= text@.len(),
            have == text@.len() || have <= width,
            out@ == text@ + repeated(' ', have - text@.len()),
            " "@ == seq![' '],
        decreases width - have,
    {
        out.append(" ");
        have = have + 1;
    }
    out
}

/// One row of the table.
pub fn table_row(time: &str, kind: &str, topic: &str, payload: &str) -> (line: String)
    ensures
        line@ == row(time@, kind@, topic@, payload@),
{
    let mut line = pad_right(time, 25);
    line.append(" | ");
    line.append(pad_right(kind, 10).as_str());
    line.append(" | ");
    line.append(pad_right(topic, 30).as_str());
    line.append(" | ");
    line.append(payload);
    line
}

/// The heading of the table.
pub fn table_header() -> (line: String)
    ensures
        line@ == row("Time"@, "Kind"@, "Topic"@, "Payload"@),
{
    table_row("Time", "Kind", "Topic", "Payload")
}

/// The rule below the heading: a hundred dashes.
pub fn table_rule() -> (line: String)
    ensures
        line@ == repeated('-', 100),
{
    let mut line = String::new();
    let mut have: usize = 0;
    proof {
        reveal_strlit("-");
    }
    while have < 100
        invariant
            have <= 100,
            line@ == repeated('-', have as int),
            "-"@ == seq!['-'],
        decreases 100 - have,
    {
        line.append("-");
        have = have + 1;
    }
    line
}

/// What became of a key: a value was put under it, the key was deleted, or
/// something this library has no word for.
#[derive(Clone, Copy, Debug, PartialEq, Eq, Structural)]
pub enum EventKind {
    Put,
    Delete,
    Other,
}

impl EventKind {
    /// The word that stands for the kind in the table.
    pub open spec fn label_text(self) -> Seq<char> {
        match self {
            EventKind::Put => "PUT"@,
            EventKind::Delete => "DEL"@,
            EventKind::Other => "OTHER"@,
        }
    }

    /// The word that stands for the kind in the table.
    pub fn label(&self) -> (word: &'static str)
        ensures
            word@ == self.label_text(),
    {
        match self {
            EventKind::Put => "PUT",
            EventKind::Delete => "DEL",
            EventKind::Other => "OTHER",
        }
    }
}

/// The payload column of the table: the payload itself where it is UTF-8,
/// and a note with the description of the failure where it is not.
pub open spec fn payload_cell(bytes: Seq<u8>) -> Seq<char> {
    if valid_utf8(bytes) {
        decode_utf8(bytes)
    } else {
        "(invalid UTF-8: "@ + decode_failure(bytes) + ")"@
    }
}

/// The text of the payload column for a payload.
pub fn payload_column(payload: &ZBytes) -> (text: String)
    ensures
        text@ == payload_cell(payload_bytes(*payload)),
{
    match read_utf8(payload) {
        Ok(text) => text,
        Err(why) => {
            let mut text = String::from_str("(invalid UTF-8: ");
            text.append(why.as_str());
            text.append(")");
            text
        },
    }
}

/// The date and time of an instant as the table shows it; blank for an
/// instant that the library does not render.
pub open spec fn time_cell(at: Timestamp) -> Seq<char> {
    if at.wf() {
        at.date_time_text()
    } else {
        Seq::empty()
    }
}

/// The row of the table for one event that arrived at the instant `at`.
pub fn report_line(at: &Timestamp, kind: EventKind, topic: &str, payload: &ZBytes) -> (line:
    String)
    ensures
        line@ == row(
            time_cell(*at),
            kind.label_text(),
            topic@,
            payload_cell(payload_bytes(*payload)),
        ),
{
    let time = match at.date_time() {
        Some(text) => text,
        None => String::new(),
    };
    let cell = payload_column(payload);
    table_row(time.as_str(), kind.label(), topic, cell.as_str())
}

/// The line that stands for one message under its node: the time of day at
/// which it arrived, a colon and the payload. The time is blank for an
/// instant that the library does not render.
pub open spec fn label_of(entry: Entry) -> Seq<char> {
    (if entry.0.wf() {
        entry.0.clock_text()
    } else {
        Seq::empty()
    }) + ": "@ + entry.1
}

/// The lines under a node that has no children: one per message, in arrival
/// order, or a single line that says that there is none.
pub open spec fn lines_of(node: Tree) -> Seq<Seq<char>> {
    if node.messages.len() == 0 {
        seq!["No message received"@]
    } else {
        Seq::new(node.messages.len(), |i: int| label_of(node.messages[i]))
    }
}

/// The line that stands for a message that arrived at `at` with the text
/// `content`.
pub fn message_label(at: &Timestamp, content: &str) -> (line: String)
    ensures
        line@ == label_of((*at, content@)),
{
    let mut line = match at.clock() {
        Some(text) => text,
        None => String::new(),
    };
    line.append(": ");
    line.append(content);
    line
}

impl TopicNode {
    /// The lines to show under this node. A node with children shows those
    /// and no lines of its own: for it the answer is `None`.
    pub fn lines(&self) -> (lines: Option<Vec<String>>)
        ensures
            lines is None <==> self@.children.len() > 0,
            lines matches Some(shown) ==> shown.deep_view() == lines_of(self@),
    {
        if self.children.len() > 0 {
            return None;
        }
        let mut shown: Vec<String> = Vec::new();
        if self.messages.len() == 0 {
            shown.push(String::from_str("No message received"));
            return Some(shown);
        }
        let mut at: usize = 0;
        while at < self.messages.len()
            invariant
                at <= self.messages.len(),
                shown.len() == at,
                forall|i: int| 0 <= i < at ==> shown[i]@ == label_of(self@.messages[i]),
            decreases self.messages.len() - at,
        {
            let line = message_label(&self.messages[at].0, self.messages[at].1.as_str());
            shown.push(line);
            at = at + 1;
        }
        Some(shown)
    }
}

} // verus!
