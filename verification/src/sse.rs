//! Server-sent events: a text stream in which events are separated by a
//! blank line and each line of an event is `field: value`.
use vstd::prelude::*;
use vstd::string::StrSliceExecFns;

use crate::text::{
    chars_of, find_in_window, first_occurrence, is_first_occurrence, join_with,
    lemma_first_occurrence, lemma_first_occurrence_append, lemma_first_occurrence_unique,
    lemma_split_on_no_occurrence, lemma_split_on_nonempty, lemma_split_on_step, occurs_at,
    is_white_space, lemma_trim_is_window,
    occurs_at_exec, parse_u32, parse_u32_window, split_on, trim, trim_bounds,
};

verus! {

broadcast use vstd::string::group_string_axioms;

/// One event of the stream; a field that no line named is `None`.
#[derive(Debug)]
pub struct SSEvent {
    pub id: Option<String>,
    pub event: Option<String>,
    pub data: Option<String>,
    pub retry: Option<u32>,
}

/// What an event holds, as character sequences.
pub struct EventView {
    pub id: Option<Seq<char>>,
    pub event: Option<Seq<char>>,
    pub data: Option<Seq<char>>,
    pub retry: Option<u32>,
}

pub open spec fn opt_text(o: Option<String>) -> Option<Seq<char>> {
    match o {
        Some(s) => Some(s@),
        None => None,
    }
}

impl View for SSEvent {
    type V = EventView;

    open spec fn view(&self) -> EventView {
        EventView {
            id: opt_text(self.id),
            event: opt_text(self.event),
            data: opt_text(self.data),
            retry: self.retry,
        }
    }
}

/// The separator between events.
pub open spec fn blank_line() -> Seq<char> {
    seq!['\n', '\n']
}

/// The separator between the lines of an event.
pub open spec fn line_break() -> Seq<char> {
    seq!['\n']
}

/// The separator between a field's name and its value.
pub open spec fn colon() -> Seq<char> {
    seq![':']
}

/// The name of the field a line sets: what precedes the first colon, trimmed.
pub open spec fn line_field(line: Seq<char>) -> Seq<char> {
    match first_occurrence(line, colon()) {
        Some(i) => trim(line.take(i)),
        None => trim(line),
    }
}

/// The value a line gives: what follows the first colon, trimmed; empty
/// when the line has no colon.
pub open spec fn line_value(line: Seq<char>) -> Seq<char> {
    match first_occurrence(line, colon()) {
        Some(i) => trim(line.skip(i + 1)),
        None => trim(Seq::<char>::empty()),
    }
}

pub open spec fn empty_event() -> EventView {
    EventView { id: None, event: None, data: None, retry: None }
}

/// The event after one more line: the four known fields are set from the
/// line (`retry` to the line's value read as a `u32`, or `None` when it is
/// not one); a line naming any other field changes nothing.
pub open spec fn apply_line(ev: EventView, line: Seq<char>) -> EventView {
    let f = line_field(line);
    let v = line_value(line);
    if f == seq!['i', 'd'] {
        EventView { id: Some(v), ..ev }
    } else if f == seq!['e', 'v', 'e', 'n', 't'] {
        EventView { event: Some(v), ..ev }
    } else if f == seq!['d', 'a', 't', 'a'] {
        EventView { data: Some(v), ..ev }
    } else if f == seq!['r', 'e', 't', 'r', 'y'] {
        EventView { retry: parse_u32(v), ..ev }
    } else {
        ev
    }
}

/// The event that the lines set, in order, so that a later line wins.
pub open spec fn apply_lines(lines: Seq<Seq<char>>) -> EventView
    decreases lines.len(),
{
    if lines.len() == 0 {
        empty_event()
    } else {
        apply_line(apply_lines(lines.drop_last()), lines.last())
    }
}

/// The event one block of text describes.
pub open spec fn event_of_block(block: Seq<char>) -> EventView {
    apply_lines(split_on(block, line_break()))
}

/// The events a text describes: one per block between blank lines.
pub open spec fn events_of(text: Seq<char>) -> Seq<EventView> {
    split_on(text, blank_line()).map_values(|b: Seq<char>| event_of_block(b))
}

/// The blocks of `buffer + data` that a blank line closes.
pub open spec fn completed_blocks(buffer: Seq<char>, data: Seq<char>) -> Seq<Seq<char>> {
    split_on(buffer + data, blank_line()).drop_last()
}

/// The events of the blocks of `buffer + data` that a blank line closes.
pub open spec fn completed_events(buffer: Seq<char>, data: Seq<char>) -> Seq<EventView> {
    completed_blocks(buffer, data).map_values(|b: Seq<char>| event_of_block(b))
}

/// What is left of `buffer + data` after the last blank line.
pub open spec fn pending_text(buffer: Seq<char>, data: Seq<char>) -> Seq<char> {
    split_on(buffer + data, blank_line()).last()
}

pub open spec fn views(events: Seq<SSEvent>) -> Seq<EventView> {
    events.map_values(|e: SSEvent| e@)
}

// ---------------------------------------------------------------------------
// Lemmas on blocks
// ---------------------------------------------------------------------------

/// The text before the leftmost occurrence of a pattern holds no occurrence.
pub proof fn lemma_before_first_occurrence(s: Seq<char>, pat: Seq<char>, j: int)
    requires
        pat.len() > 0,
        is_first_occurrence(s, pat, j),
    ensures
        first_occurrence(s.take(j), pat) is None,
{
    lemma_first_occurrence(s.take(j), pat);
    if let Some(m) = first_occurrence(s.take(j), pat) {
        assert(s.take(j).subrange(m, m + pat.len()) =~= s.subrange(m, m + pat.len()));
        assert(occurs_at(s, pat, m));
    }
}

/// The last piece of a split holds no occurrence of the pattern.
pub proof fn lemma_split_last_no_occurrence(s: Seq<char>, pat: Seq<char>)
    requires
        pat.len() > 0,
    ensures
        split_on(s, pat).len() >= 1,
        first_occurrence(split_on(s, pat).last(), pat) is None,
    decreases s.len(),
{
    lemma_split_on_nonempty(s, pat);
    lemma_first_occurrence(s, pat);
    if let Some(i) = first_occurrence(s, pat) {
        let rest = s.skip(i + pat.len());
        lemma_split_last_no_occurrence(rest, pat);
        assert(split_on(s, pat).last() == split_on(rest, pat).last());
    }
}

/// Every piece but the last of a split holds no occurrence of the pattern.
pub proof fn lemma_split_pieces_no_occurrence(s: Seq<char>, pat: Seq<char>, k: int)
    requires
        pat.len() > 0,
        0 <= k < split_on(s, pat).len(),
    ensures
        first_occurrence(split_on(s, pat)[k], pat) is None,
    decreases s.len(),
{
    lemma_first_occurrence(s, pat);
    if let Some(i) = first_occurrence(s, pat) {
        let rest = s.skip(i + pat.len());
        if k == 0 {
            lemma_before_first_occurrence(s, pat, i);
        } else {
            lemma_split_pieces_no_occurrence(rest, pat, k - 1);
        }
    }
}

/// Splitting `s + t` splits `s`, then splits the last piece of `s` with `t`.
pub proof fn lemma_split_on_append(s: Seq<char>, t: Seq<char>, pat: Seq<char>)
    requires
        pat.len() > 0,
    ensures
        split_on(s, pat).len() >= 1,
        split_on(s + t, pat) == split_on(s, pat).drop_last() + split_on(
            split_on(s, pat).last() + t,
            pat,
        ),
    decreases s.len(),
{
    lemma_split_on_nonempty(s, pat);
    lemma_first_occurrence(s, pat);
    match first_occurrence(s, pat) {
        Some(i) => {
            let rest = s.skip(i + pat.len());
            lemma_first_occurrence_append(s, pat, t);
            lemma_split_on_append(rest, t, pat);
            lemma_split_on_nonempty(rest, pat);
            assert((s + t).take(i) =~= s.take(i));
            assert((s + t).skip(i + pat.len()) =~= rest + t);
            let pr = split_on(rest, pat);
            assert(split_on(s, pat) == seq![s.take(i)] + pr);
            assert(split_on(s, pat).drop_last() =~= seq![s.take(i)] + pr.drop_last());
            assert(split_on(s, pat).last() == pr.last());
            assert(split_on(s + t, pat) == seq![s.take(i)] + split_on(rest + t, pat));
            assert(split_on(s + t, pat) =~= split_on(s, pat).drop_last() + split_on(
                split_on(s, pat).last() + t,
                pat,
            ));
        },
        None => {
            assert(split_on(s, pat).drop_last() =~= Seq::<Seq<char>>::empty());
            assert(split_on(s, pat).drop_last() + split_on(s + t, pat) =~= split_on(s + t, pat));
        },
    }
}

// ---------------------------------------------------------------------------
// Laws
// ---------------------------------------------------------------------------

/// Splitting a text at a separator and joining the pieces with that
/// separator gives back the text: the blocks and the pending rest lose and
/// add nothing.
pub proof fn lemma_split_join(s: Seq<char>, pat: Seq<char>)
    requires
        pat.len() > 0,
    ensures
        join_with(split_on(s, pat), pat) == s,
    decreases s.len(),
{
    lemma_first_occurrence(s, pat);
    if let Some(i) = first_occurrence(s, pat) {
        let rest = s.skip(i + pat.len());
        lemma_split_join(rest, pat);
        lemma_split_on_nonempty(rest, pat);
        let pieces = split_on(s, pat);
        assert(pieces.drop_first() =~= split_on(rest, pat));
        assert(pieces.len() >= 2);
        assert(s.take(i) + pat + rest =~= s);
    }
}

/// Feeding a stream in two chunks yields the same events, and leaves the
/// same pending text, as feeding the two chunks at once.
pub proof fn lemma_chunked_feeding(buffer: Seq<char>, a: Seq<char>, b: Seq<char>)
    ensures
        completed_events(buffer, a) + completed_events(pending_text(buffer, a), b)
            == completed_events(buffer, a + b),
        pending_text(pending_text(buffer, a), b) == pending_text(buffer, a + b),
{
    let bl = blank_line();
    lemma_split_on_append(buffer + a, b, bl);
    assert(buffer + a + b =~= buffer + (a + b));
    let whole = split_on(buffer + (a + b), bl);
    let first = split_on(buffer + a, bl);
    let second = split_on(first.last() + b, bl);
    lemma_split_on_nonempty(first.last() + b, bl);
    assert(whole == first.drop_last() + second);
    assert(whole.drop_last() =~= first.drop_last() + second.drop_last());
    assert(whole.last() == second.last());
    let f = |x: Seq<char>| event_of_block(x);
    assert(whole.drop_last().map_values(f) =~= first.drop_last().map_values(f)
        + second.drop_last().map_values(f));
}

/// The text a feed leaves pending never holds a blank line.
pub proof fn lemma_pending_has_no_blank_line(buffer: Seq<char>, data: Seq<char>)
    ensures
        first_occurrence(pending_text(buffer, data), blank_line()) is None,
{
    lemma_split_last_no_occurrence(buffer + data, blank_line());
}

/// A line `name:v`, with a name free of colons and of white space, names
/// the field `name` and gives the value `v` trimmed, whole.
pub proof fn lemma_named_line(name: Seq<char>, v: Seq<char>)
    requires
        name.len() > 0,
        forall|i: int| 0 <= i < name.len() ==> #[trigger] name[i] != ':' && !is_white_space(
            name[i],
        ),
    ensures
        line_field(name + colon() + v) == name,
        line_value(name + colon() + v) == trim(v),
{
    let line = name + colon() + v;
    let k = name.len() as int;
    assert(line.subrange(k, k + 1) =~= colon());
    assert forall|j: int| 0 <= j < k implies !occurs_at(line, colon(), j) by {
        if occurs_at(line, colon(), j) {
            assert(line.subrange(j, j + 1)[0] == line[j]);
            assert(line[j] == name[j]);
        }
    }
    assert(is_first_occurrence(line, colon(), k));
    lemma_first_occurrence_unique(line, colon(), k);
    assert(line.take(k) =~= name);
    assert(line.skip(k + 1) =~= v);
    let r = lemma_trim_is_window(name);
    assert(!is_white_space(name[0]));
    assert(!is_white_space(name[k - 1]));
    assert(name.subrange(r.0, r.1) =~= name);
}

/// A `data` line sets the event's data to the text after the first colon,
/// trimmed, in full, whatever its length; the other fields stay.
pub proof fn lemma_data_line(ev: EventView, v: Seq<char>)
    ensures
        apply_line(ev, seq!['d', 'a', 't', 'a', ':'] + v) == (EventView { data: Some(trim(v)), ..ev }),
{
    let name = seq!['d', 'a', 't', 'a'];
    assert(seq!['d', 'a', 't', 'a', ':'] =~= name + colon());
    lemma_named_line(name, v);
}

/// An `event` line sets the event's name to the trimmed text after the colon.
pub proof fn lemma_event_line(ev: EventView, v: Seq<char>)
    ensures
        apply_line(ev, seq!['e', 'v', 'e', 'n', 't', ':'] + v) == (EventView {
            event: Some(trim(v)),
            ..ev
        }),
{
    let name = seq!['e', 'v', 'e', 'n', 't'];
    assert(seq!['e', 'v', 'e', 'n', 't', ':'] =~= name + colon());
    lemma_named_line(name, v);
}

/// An `id` line sets the event's id to the trimmed text after the colon.
pub proof fn lemma_id_line(ev: EventView, v: Seq<char>)
    ensures
        apply_line(ev, seq!['i', 'd', ':'] + v) == (EventView { id: Some(trim(v)), ..ev }),
{
    let name = seq!['i', 'd'];
    assert(seq!['i', 'd', ':'] =~= name + colon());
    lemma_named_line(name, v);
}

/// A `retry` line sets the retry time to the trimmed text after the colon
/// read as a `u32`.
pub proof fn lemma_retry_line(ev: EventView, v: Seq<char>)
    ensures
        apply_line(ev, seq!['r', 'e', 't', 'r', 'y', ':'] + v) == (EventView {
            retry: parse_u32(trim(v)),
            ..ev
        }),
{
    let name = seq!['r', 'e', 't', 'r', 'y'];
    assert(seq!['r', 'e', 't', 'r', 'y', ':'] =~= name + colon());
    lemma_named_line(name, v);
}

/// A text made of one `data` line describes exactly one event, whose data is
/// the rest of the line trimmed, in full, and whose other fields are unset.
pub proof fn lemma_single_data_line_event(v: Seq<char>)
    requires
        forall|i: int| 0 <= i < v.len() ==> #[trigger] v[i] != '\n',
    ensures
        events_of(seq!['d', 'a', 't', 'a', ':'] + v) == seq![
            EventView { id: None, event: None, data: Some(trim(v)), retry: None },
        ],
{
    let line = seq!['d', 'a', 't', 'a', ':'] + v;
    assert forall|j: int| !occurs_at(line, line_break(), j) by {
        if occurs_at(line, line_break(), j) {
            assert(line.subrange(j, j + 1)[0] == line[j]);
            if j >= 5 {
                assert(line[j] == v[j - 5]);
            }
        }
    }
    assert forall|j: int| !occurs_at(line, blank_line(), j) by {
        if occurs_at(line, blank_line(), j) {
            assert(line.subrange(j, j + 2)[0] == line[j]);
            if j >= 5 {
                assert(line[j] == v[j - 5]);
            }
        }
    }
    lemma_first_occurrence(line, line_break());
    lemma_first_occurrence(line, blank_line());
    lemma_split_on_no_occurrence(line, line_break());
    lemma_split_on_no_occurrence(line, blank_line());
    assert(seq![line].drop_last() =~= Seq::<Seq<char>>::empty());
    lemma_data_line(empty_event(), v);
    assert(apply_lines(Seq::<Seq<char>>::empty()) == empty_event());
    assert(seq![line].last() == line);
    assert(apply_lines(seq![line]) == apply_line(empty_event(), line));
    assert(event_of_block(line) == apply_line(empty_event(), line));
    assert(events_of(line) =~= seq![event_of_block(line)]);
}

// ---------------------------------------------------------------------------
// Executable parser
// ---------------------------------------------------------------------------

fn literal_id() -> (r: Vec<char>)
    ensures
        r@ == seq!['i', 'd'],
{
    vec!['i', 'd']
}

fn literal_event() -> (r: Vec<char>)
    ensures
        r@ == seq!['e', 'v', 'e', 'n', 't'],
{
    vec!['e', 'v', 'e', 'n', 't']
}

fn literal_data() -> (r: Vec<char>)
    ensures
        r@ == seq!['d', 'a', 't', 'a'],
{
    vec!['d', 'a', 't', 'a']
}

fn literal_retry() -> (r: Vec<char>)
    ensures
        r@ == seq!['r', 'e', 't', 'r', 'y'],
{
    vec!['r', 'e', 't', 'r', 'y']
}

/// Does the window `s[lo..hi]` hold exactly `name`?
fn window_is(s: &Vec<char>, lo: usize, hi: usize, name: &Vec<char>) -> (b: bool)
    requires
        lo <= hi <= s@.len(),
    ensures
        b == (s@.subrange(lo as int, hi as int) == name@),
{
    if hi - lo != name.len() {
        assert(s@.subrange(lo as int, hi as int).len() != name@.len());
        return false;
    }
    occurs_at_exec(s, name, lo)
}

/// Applies the line `s[a..e]` to the event.
fn apply_line_exec(ev: &mut SSEvent, text: &str, s: &Vec<char>, a: usize, e: usize)
    requires
        text@ == s@,
        a <= e <= s@.len(),
    ensures
        final(ev)@ == apply_line(old(ev)@, s@.subrange(a as int, e as int)),
{
    let ghost line = s@.subrange(a as int, e as int);
    let colon_v = vec![':'];
    assert(colon_v@ =~= colon());
    let (fa, fb, va, vb) = match find_in_window(s, &colon_v, a, e) {
        Some(c) => {
            let (fa, fb) = trim_bounds(s, a, c);
            let (va, vb) = trim_bounds(s, c + 1, e);
            proof {
                lemma_first_occurrence_unique(line, colon(), c - a);
                assert(line.take(c - a) =~= s@.subrange(a as int, c as int));
                assert(line.skip(c - a + 1) =~= s@.subrange(c + 1, e as int));
            }
            (fa, fb, va, vb)
        },
        None => {
            let (fa, fb) = trim_bounds(s, a, e);
            let (va, vb) = trim_bounds(s, e, e);
            assert(s@.subrange(e as int, e as int) =~= Seq::<char>::empty());
            (fa, fb, va, vb)
        },
    };
    assert(s@.subrange(fa as int, fb as int) == line_field(line));
    assert(s@.subrange(va as int, vb as int) == line_value(line));
    if window_is(s, fa, fb, &literal_id()) {
        ev.id = Some(text.substring_char(va, vb).to_owned());
    } else if window_is(s, fa, fb, &literal_event()) {
        ev.event = Some(text.substring_char(va, vb).to_owned());
    } else if window_is(s, fa, fb, &literal_data()) {
        ev.data = Some(text.substring_char(va, vb).to_owned());
    } else if window_is(s, fa, fb, &literal_retry()) {
        ev.retry = parse_u32_window(s, va, vb);
    }
}

/// The event that the block `s[lo..hi]` describes.
fn event_of_window(text: &str, s: &Vec<char>, lo: usize, hi: usize) -> (ev: SSEvent)
    requires
        text@ == s@,
        lo <= hi <= s@.len(),
    ensures
        ev@ == event_of_block(s@.subrange(lo as int, hi as int)),
{
    let ghost block = s@.subrange(lo as int, hi as int);
    let nl = vec!['\n'];
    let mut ev = SSEvent { id: None, event: None, data: None, retry: None };
    let ghost mut done: Seq<Seq<char>> = Seq::empty();
    let mut pos = lo;
    assert(s@.subrange(pos as int, hi as int) =~= block);
    loop
        invariant
            text@ == s@,
            lo <= pos <= hi <= s@.len(),
            nl@ == line_break(),
            block == s@.subrange(lo as int, hi as int),
            split_on(block, line_break()) == done + split_on(
                s@.subrange(pos as int, hi as int),
                line_break(),
            ),
            ev@ == apply_lines(done),
        decreases hi - pos,
    {
        let ghost w = s@.subrange(pos as int, hi as int);
        match find_in_window(s, &nl, pos, hi) {
            Some(i) => {
                let ghost line = s@.subrange(pos as int, i as int);
                proof {
                    lemma_split_on_step(w, line_break(), i - pos);
                    assert(w.take(i - pos) =~= line);
                    assert(w.skip(i - pos + 1) =~= s@.subrange(i + 1, hi as int));
                    assert(done + split_on(w, line_break()) =~= done.push(line) + split_on(
                        s@.subrange(i + 1, hi as int),
                        line_break(),
                    ));
                    assert(done.push(line).drop_last() =~= done);
                }
                apply_line_exec(&mut ev, text, s, pos, i);
                proof {
                    done = done.push(line);
                }
                pos = i + 1;
            },
            None => {
                proof {
                    lemma_split_on_no_occurrence(w, line_break());
                    assert(done + seq![w] =~= done.push(w));
                    assert(done.push(w).drop_last() =~= done);
                }
                apply_line_exec(&mut ev, text, s, pos, hi);
                return ev;
            },
        }
    }
}

/// The events of `data`, one per block of text between blank lines.
pub fn parse_sse(data: &str) -> (events: Vec<SSEvent>)
    ensures
        views(events@) == events_of(data@),
{
    let s = chars_of(data);
    let blank = vec!['\n', '\n'];
    let mut events: Vec<SSEvent> = Vec::new();
    let ghost mut done: Seq<Seq<char>> = Seq::empty();
    let mut pos: usize = 0;
    let n = s.len();
    assert(s@.subrange(0, n as int) =~= s@);
    loop
        invariant
            data@ == s@,
            n == s@.len(),
            pos <= n,
            blank@ == blank_line(),
            split_on(s@, blank_line()) == done + split_on(
                s@.subrange(pos as int, n as int),
                blank_line(),
            ),
            events@.len() == done.len(),
            forall|k: int| 0 <= k < done.len() ==> events@[k]@ == event_of_block(#[trigger] done[k]),
        decreases n - pos,
    {
        let ghost w = s@.subrange(pos as int, n as int);
        match find_in_window(&s, &blank, pos, n) {
            Some(i) => {
                let ghost block = s@.subrange(pos as int, i as int);
                proof {
                    lemma_split_on_step(w, blank_line(), i - pos);
                    assert(w.take(i - pos) =~= block);
                    assert(w.skip(i - pos + 2) =~= s@.subrange(i + 2, n as int));
                    assert(done + split_on(w, blank_line()) =~= done.push(block) + split_on(
                        s@.subrange(i + 2, n as int),
                        blank_line(),
                    ));
                }
                let ev = event_of_window(data, &s, pos, i);
                events.push(ev);
                proof {
                    done = done.push(block);
                }
                pos = i + 2;
            },
            None => {
                proof {
                    lemma_split_on_no_occurrence(w, blank_line());
                }
                let ev = event_of_window(data, &s, pos, n);
                events.push(ev);
                proof {
                    let all = done.push(w);
                    assert(split_on(s@, blank_line()) =~= all);
                    assert(views(events@) =~= events_of(data@));
                }
                return events;
            },
        }
    }
}

/// Appends `data` to `buffer`, takes every event that a blank line completes
/// out of it, and returns those events in order; the buffer keeps the text
/// after the last blank line.
pub fn parse_sse_chunk(data: &str, buffer: &mut String) -> (events: Vec<SSEvent>)
    ensures
        views(events@) == completed_events(old(buffer)@, data@),
        final(buffer)@ == pending_text(old(buffer)@, data@),
{
    let ghost all_text = old(buffer)@ + data@;
    buffer.append(data);
    let mut events: Vec<SSEvent> = Vec::new();
    let rest = {
        let all: &str = buffer.as_str();
        let s = chars_of(all);
        let blank = vec!['\n', '\n'];
        let ghost mut done: Seq<Seq<char>> = Seq::empty();
        let mut pos: usize = 0;
        let n = s.len();
        assert(s@.subrange(0, n as int) =~= s@);
        loop
            invariant_except_break
                split_on(s@, blank_line()) == done + split_on(
                    s@.subrange(pos as int, n as int),
                    blank_line(),
                ),
            invariant
                all@ == s@,
                s@ == all_text,
                n == s@.len(),
                pos <= n,
                blank@ == blank_line(),
                events@.len() == done.len(),
                forall|k: int|
                    0 <= k < done.len() ==> events@[k]@ == event_of_block(#[trigger] done[k]),
            ensures
                split_on(s@, blank_line()) == done + seq![s@.subrange(pos as int, n as int)],
            decreases n - pos,
        {
            let ghost w = s@.subrange(pos as int, n as int);
            match find_in_window(&s, &blank, pos, n) {
                Some(i) => {
                    let ghost block = s@.subrange(pos as int, i as int);
                    proof {
                        lemma_split_on_step(w, blank_line(), i - pos);
                        assert(w.take(i - pos) =~= block);
                        assert(w.skip(i - pos + 2) =~= s@.subrange(i + 2, n as int));
                        assert(done + split_on(w, blank_line()) =~= done.push(block) + split_on(
                            s@.subrange(i + 2, n as int),
                            blank_line(),
                        ));
                        lemma_before_first_occurrence(w, blank_line(), i - pos);
                        lemma_split_on_no_occurrence(block, blank_line());
                    }
                    let segment = all.substring_char(pos, i).to_owned();
                    let mut found = parse_sse(segment.as_str());
                    proof {
                        assert(events_of(segment@) =~= seq![event_of_block(block)]);
                        assert(found@.len() == 1);
                        assert(views(found@)[0] == found@[0]@);
                    }
                    events.append(&mut found);
                    proof {
                        done = done.push(block);
                    }
                    pos = i + 2;
                },
                None => {
                    proof {
                        lemma_split_on_no_occurrence(w, blank_line());
                    }
                    break ;
                },
            }
        }
        proof {
            assert(views(events@) =~= completed_events(old(buffer)@, data@));
        }
        all.substring_char(pos, n).to_owned()
    };
    *buffer = rest;
    events
}

} // verus!
