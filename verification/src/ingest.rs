//! From events to the registry: topic strings are split into paths, payload
//! bytes are read as text, and each event is recorded where it belongs.

use crate::timestamp::Timestamp;
use crate::topic_node::TopicNode;
use crate::tree::Path;
use vstd::prelude::*;
use vstd::utf8::{decode_utf8, valid_utf8};
use zenoh::bytes::ZBytes;

verus! {

/// The separator between the segments of a topic.
pub const SEPARATOR: char = '/';

/// The segments of `topic`, read from left to right: every separator closes
/// the segment before it and opens a new, empty one; every other character
/// extends the last segment. Nothing is dropped and nothing is merged: an
/// empty topic has one empty segment, and two separators in a row have an
/// empty segment between them.
pub open spec fn split(topic: Seq<char>) -> Path
    decreases topic.len(),
{
    if topic.len() == 0 {
        seq![Seq::empty()]
    } else {
        let before = split(topic.drop_last());
        if topic.last() == SEPARATOR {
            before.push(Seq::empty())
        } else {
            before.drop_last().push(before.last().push(topic.last()))
        }
    }
}

/// Splits a topic string into its segments.
pub fn split_topic<'a>(topic: &'a str) -> (parts: Vec<&'a str>)
    ensures
        parts.deep_view() == split(topic@),
{
    let mut parts: Vec<&'a str> = Vec::new();
    let mut start: usize = 0;
    let mut at: usize = 0;
    let total = topic.unicode_len();
    proof {
        assert(topic@.take(0) =~= Seq::empty());
    }
    for c in it: topic.chars()
        invariant
            total == topic@.len(),
            it.seq() == topic@,
            at == it.index(),
            start <= at <= total,
            parts.deep_view().push(topic@.subrange(start as int, at as int)) == split(
                topic@.take(at as int),
            ),
    {
        let ghost open = topic@.subrange(start as int, at as int);
        proof {
            assert(topic@.take(at + 1).drop_last() =~= topic@.take(at as int));
        }
        if c == SEPARATOR {
            parts.push(topic.substring_char(start, at));
            start = at + 1;
            proof {
                assert(topic@.subrange(start as int, at + 1) =~= Seq::empty());
            }
        } else {
            proof {
                assert(topic@.subrange(start as int, at + 1) =~= open.push(c));
            }
        }
        at = at + 1;
    }
    parts.push(topic.substring_char(start, at));
    proof {
        assert(topic@.take(at as int) =~= topic@);
    }
    parts
}

/// The segments joined again, with one separator between neighbours.
pub open spec fn join(parts: Path) -> Seq<char>
    decreases parts.len(),
{
    if parts.len() == 0 {
        Seq::empty()
    } else if parts.len() == 1 {
        parts[0]
    } else {
        join(parts.drop_last()) + seq![SEPARATOR] + parts.last()
    }
}

/// Splitting loses nothing: there is at least one segment, no segment holds
/// a separator, and the segments joined by separators are the topic again.
pub proof fn law_split_joins(topic: Seq<char>)
    ensures
        split(topic).len() >= 1,
        forall|i: int, j: int|
            0 <= i < split(topic).len() && 0 <= j < split(topic)[i].len() ==> split(
                topic,
            )[i][j] != SEPARATOR,
        join(split(topic)) == topic,
    decreases topic.len(),
{
    if topic.len() > 0 {
        let shorter = topic.drop_last();
        let before = split(shorter);
        law_split_joins(shorter);
        if topic.last() == SEPARATOR {
            let parts = before.push(Seq::empty());
            assert(parts.drop_last() =~= before);
        } else {
            let grown = before.last().push(topic.last());
            let parts = before.drop_last().push(grown);
            assert(parts.drop_last() =~= before.drop_last());
            assert(join(parts) =~= join(before).push(topic.last()));
        }
    }
}

/// A payload as it comes off the network: zenoh's buffer of bytes.
#[verifier::external_type_specification]
#[verifier::external_body]
pub struct ExZBytes(zenoh::bytes::ZBytes);

/// The bytes that a payload holds, in their order.
pub uninterp spec fn payload_bytes(payload: ZBytes) -> Seq<u8>;

/// What the description of the failure reads when `bytes`, which are not
/// UTF-8, are asked for as a string.
pub uninterp spec fn decode_failure(bytes: Seq<u8>) -> Seq<char>;

/// The text shown for a payload of these bytes: the string they encode where
/// they are UTF-8, the description of the failure to read them where they
/// are not.
pub open spec fn shown_payload(bytes: Seq<u8>) -> Seq<char> {
    if valid_utf8(bytes) {
        decode_utf8(bytes)
    } else {
        decode_failure(bytes)
    }
}

/// `ZBytes::try_to_string`, with both outcomes as owned text: the string
/// that the payload holds, or the error's own description.
///
/// Trusted: zenoh puts the payload's bytes to std's UTF-8 check, so the call
/// succeeds exactly when they are well-formed UTF-8, the string it gives
/// consists of those bytes, and the description of a failure depends on the
/// bytes alone.
#[verifier::external_body]
pub(crate) fn read_utf8(payload: &ZBytes) -> (read: Result<String, String>)
    ensures
        match read {
            Ok(text) => valid_utf8(payload_bytes(*payload)) && text@ == decode_utf8(
                payload_bytes(*payload),
            ),
            Err(why) => !valid_utf8(payload_bytes(*payload)) && why@ == decode_failure(
                payload_bytes(*payload),
            ),
        },
{
    match payload.try_to_string() {
        Ok(text) => Ok(text.into_owned()),
        Err(flaw) => Err(flaw.to_string()),
    }
}

/// The text to record for a payload. A payload that is not UTF-8 is not
/// dropped: the description of the failure stands in its place.
pub fn payload_text(payload: &ZBytes) -> (text: String)
    ensures
        text@ == shown_payload(payload_bytes(*payload)),
{
    match read_utf8(payload) {
        Ok(text) => text,
        Err(why) => why,
    }
}

impl TopicNode {
    /// Records one event that arrived at the instant `at`: the topic is
    /// split into its path, the payload is read as text, and the message is
    /// added at the path.
    ///
    /// No event is turned away. A topic with empty segments, the empty topic
    /// among them, is recorded under nodes without a name, and a payload
    /// that is not text is recorded as the description of what is wrong
    /// with it.
    pub fn ingest_at(&mut self, topic: &str, payload: &ZBytes, at: Timestamp)
        ensures
            final(self)@ == old(self)@.add_message(
                split(topic@),
                (at, shown_payload(payload_bytes(*payload))),
            ),
            old(self)@.unique_names() ==> final(self)@.unique_names(),
    {
        let parts = split_topic(topic);
        let content = payload_text(payload);
        self.add_message_at(parts.as_slice(), content, at);
    }

    /// Records one event that arrives now.
    pub fn ingest(&mut self, topic: &str, payload: &ZBytes)
        ensures
            exists|at: Timestamp|
                at.from_clock() && final(self)@ == #[trigger] old(self)@.add_message(
                    split(topic@),
                    (at, shown_payload(payload_bytes(*payload))),
                ),
            old(self)@.unique_names() ==> final(self)@.unique_names(),
    {
        let at = Timestamp::now();
        self.ingest_at(topic, payload, at);
    }
}

} // verus!
