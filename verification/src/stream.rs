//! The reply to a conversation message arrives as an event stream in which
//! each event's data is a JSON snapshot of the message so far. `ReplyStream`
//! holds the state between chunks: the text of the incomplete event, and
//! the last part shown, so that only what is new gets shown.
use vstd::prelude::*;
use vstd::utf8::{
    decode_utf8, is_char_boundary, is_char_boundary_iff_not_is_continuation_byte,
    is_char_boundary_start_end_of_seq, decode_utf8_split, valid_utf8, valid_utf8_concat,
};

use crate::sse::{EventView, completed_events, lemma_chunked_feeding, pending_text, parse_sse_chunk, views};
use crate::text::{remove_all, remove_all_exec, lemma_remove_empty_pattern, lemma_remove_self};

verus! {

/// What `String::from_utf8_lossy` makes of a byte sequence.
pub uninterp spec fn utf8_lossy_text(bytes: Seq<u8>) -> Seq<char>;

/// Calls `String::from_utf8_lossy`. The result is named by
/// `utf8_lossy_text`; the documentation promises that valid UTF-8 comes
/// back unchanged, which the second clause states.
#[verifier::external_body]
fn decode_lossy(bytes: &[u8]) -> (r: String)
    ensures
        r@ == utf8_lossy_text(bytes@),
        valid_utf8(bytes@) ==> r@ == decode_utf8(bytes@),
{
    String::from_utf8_lossy(bytes).into_owned()
}

/// The text a chunk of the body stands for: its UTF-8 decoding when it is
/// valid UTF-8, else what `from_utf8_lossy` makes of it.
pub open spec fn received_text(chunk: Seq<u8>) -> Seq<char> {
    if valid_utf8(chunk) {
        decode_utf8(chunk)
    } else {
        utf8_lossy_text(chunk)
    }
}

/// The data of the events that carry data, in order.
pub open spec fn event_payloads(events: Seq<EventView>) -> Seq<Seq<char>>
    decreases events.len(),
{
    if events.len() == 0 {
        Seq::empty()
    } else {
        event_payloads(events.drop_last()) + match events.last().data {
            Some(d) => seq![d],
            None => Seq::<Seq<char>>::empty(),
        }
    }
}

/// State of one streamed reply.
pub struct ReplyStream {
    /// Text received after the last blank line.
    pub buffer: String,
    /// The last part of the message that was shown.
    pub last: String,
}

impl ReplyStream {
    pub fn new() -> (r: ReplyStream)
        ensures
            r.buffer@ == Seq::<char>::empty(),
            r.last@ == Seq::<char>::empty(),
    {
        ReplyStream { buffer: String::new(), last: String::new() }
    }

    /// Takes one chunk of the response body, decoded leniently as UTF-8, and
    /// returns the data of every event the chunk completes, in order.
    pub fn receive(&mut self, chunk: &[u8]) -> (payloads: Vec<String>)
        ensures
            payloads@.map_values(|p: String| p@) == event_payloads(
                completed_events(old(self).buffer@, received_text(chunk@)),
            ),
            final(self).buffer@ == pending_text(old(self).buffer@, received_text(chunk@)),
            final(self).last == old(self).last,
    {
        let text = decode_lossy(chunk);
        assert(text@ == received_text(chunk@));
        let events = parse_sse_chunk(text.as_str(), &mut self.buffer);
        let ghost evs = views(events@);
        let mut payloads: Vec<String> = Vec::new();
        let n = events.len();
        for i in 0..n
            invariant
                n == events@.len(),
                evs == views(events@),
                payloads@.map_values(|p: String| p@) == event_payloads(evs.take(i as int)),
        {
            let ghost before = evs.take(i as int);
            assert(evs.take(i + 1).drop_last() =~= before);
            assert(evs.take(i + 1).last() == events@[i as int]@);
            match &events[i].data {
                Some(d) => {
                    payloads.push(d.clone());
                    assert(payloads@.map_values(|p: String| p@) =~= event_payloads(
                        evs.take(i + 1),
                    ));
                },
                None => {
                    assert(payloads@.map_values(|p: String| p@) =~= event_payloads(
                        evs.take(i + 1),
                    ));
                },
            }
        }
        assert(evs.take(n as int) =~= evs);
        payloads
    }

    /// Takes the next snapshot of a part of the message and returns what to
    /// show: the part with every occurrence of the previous part removed.
    pub fn show_part(&mut self, part: String) -> (shown: String)
        ensures
            shown@ == remove_all(part@, old(self).last@),
            final(self).last@ == part@,
            final(self).buffer == old(self).buffer,
    {
        let shown = remove_all_exec(part.as_str(), self.last.as_str());
        self.last = part;
        shown
    }
}

/// A fresh stream shows the first part whole.
pub proof fn lemma_first_part_shown_whole(part: Seq<char>)
    ensures
        remove_all(part, Seq::<char>::empty()) == part,
{
    lemma_remove_empty_pattern(part);
}

/// A non-empty part shown again unchanged shows nothing.
pub proof fn lemma_repeated_part_shows_nothing(part: Seq<char>)
    requires
        part.len() > 0,
    ensures
        remove_all(part, part) == Seq::<char>::empty(),
{
    lemma_remove_self(part);
}

/// The payloads of two runs of events, one after the other.
pub proof fn lemma_payloads_concat(a: Seq<EventView>, b: Seq<EventView>)
    ensures
        event_payloads(a + b) == event_payloads(a) + event_payloads(b),
    decreases b.len(),
{
    if b.len() == 0 {
        assert(a + b =~= a);
        assert(event_payloads(a) + event_payloads(b) =~= event_payloads(a));
    } else {
        lemma_payloads_concat(a, b.drop_last());
        assert((a + b).drop_last() =~= a + b.drop_last());
        assert((a + b).last() == b.last());
        let tail = match b.last().data {
            Some(d) => seq![d],
            None => Seq::<Seq<char>>::empty(),
        };
        assert(event_payloads(a) + event_payloads(b.drop_last()) + tail =~= event_payloads(a)
            + (event_payloads(b.drop_last()) + tail));
    }
}

/// An event's payload is its data, whole, whatever its other fields (name,
/// id, retry) hold; an event without data has none.
pub proof fn lemma_single_event_payload(e: EventView)
    ensures
        event_payloads(seq![e]) == match e.data {
            Some(d) => seq![d],
            None => Seq::<Seq<char>>::empty(),
        },
{
    let empty = Seq::<EventView>::empty();
    assert(seq![e].drop_last() =~= empty);
    assert(seq![e].last() == e);
    assert(event_payloads(empty) == Seq::<Seq<char>>::empty());
    let tail = match e.data {
        Some(d) => seq![d],
        None => Seq::<Seq<char>>::empty(),
    };
    assert(Seq::<Seq<char>>::empty() + tail =~= tail);
}

/// Every event that carries data contributes exactly that data, in its
/// place: the payloads of `before + [e] + after` are those of `before`, then
/// `e`'s data, then those of `after`.
pub proof fn lemma_data_event_in_place(
    before: Seq<EventView>,
    e: EventView,
    after: Seq<EventView>,
    d: Seq<char>,
)
    requires
        e.data == Some(d),
    ensures
        event_payloads(before + seq![e] + after) == event_payloads(before) + seq![d]
            + event_payloads(after),
{
    lemma_payloads_concat(before + seq![e], after);
    lemma_payloads_concat(before, seq![e]);
    lemma_single_event_payload(e);
}

/// An event without data, wherever it stands among the events, adds no
/// payload and changes none of the others.
pub proof fn lemma_dataless_event_adds_nothing(
    before: Seq<EventView>,
    e: EventView,
    after: Seq<EventView>,
)
    requires
        e.data is None,
    ensures
        event_payloads(before + seq![e] + after) == event_payloads(before + after),
{
    lemma_payloads_concat(before + seq![e], after);
    lemma_payloads_concat(before, after);
    lemma_payloads_concat(before, seq![e]);
    let empty = Seq::<EventView>::empty();
    assert(seq![e].drop_last() =~= empty);
    assert(event_payloads(empty) =~= Seq::<Seq<char>>::empty());
    assert(event_payloads(seq![e]) =~= Seq::<Seq<char>>::empty());
    assert(event_payloads(before) + event_payloads(seq![e]) =~= event_payloads(before));
}

/// Valid UTF-8 decodes piecewise: two valid chunks make a valid whole whose
/// text is the two texts in order.
pub proof fn lemma_decode_concat(c1: Seq<u8>, c2: Seq<u8>)
    requires
        valid_utf8(c1),
        valid_utf8(c2),
    ensures
        valid_utf8(c1 + c2),
        decode_utf8(c1 + c2) == decode_utf8(c1) + decode_utf8(c2),
{
    let b = c1 + c2;
    valid_utf8_concat(c1, c2);
    let k = c1.len() as int;
    if c2.len() == 0 {
        is_char_boundary_start_end_of_seq(b);
        assert(b.len() == k);
    } else {
        is_char_boundary_start_end_of_seq(c2);
        is_char_boundary_iff_not_is_continuation_byte(c2, 0);
        is_char_boundary_iff_not_is_continuation_byte(b, k);
        assert(b[k] == c2[0]);
    }
    assert(is_char_boundary(b, k));
    decode_utf8_split(b, k);
    assert(b.subrange(0, k) =~= c1);
    assert(b.subrange(k, b.len() as int) =~= c2);
}

/// A body received in two chunks, each valid UTF-8 (so cut at a character
/// boundary), yields the same payloads, in the same order, and leaves the
/// same pending text as the body received at once.
pub proof fn lemma_receive_in_two_chunks(buffer: Seq<char>, c1: Seq<u8>, c2: Seq<u8>)
    requires
        valid_utf8(c1),
        valid_utf8(c2),
    ensures
        event_payloads(completed_events(buffer, received_text(c1))) + event_payloads(
            completed_events(pending_text(buffer, received_text(c1)), received_text(c2)),
        ) == event_payloads(completed_events(buffer, received_text(c1 + c2))),
        pending_text(pending_text(buffer, received_text(c1)), received_text(c2)) == pending_text(
            buffer,
            received_text(c1 + c2),
        ),
{
    lemma_decode_concat(c1, c2);
    let t1 = decode_utf8(c1);
    let t2 = decode_utf8(c2);
    lemma_chunked_feeding(buffer, t1, t2);
    lemma_payloads_concat(
        completed_events(buffer, t1),
        completed_events(pending_text(buffer, t1), t2),
    );
}

} // verus!
