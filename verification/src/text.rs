//! Character-level text model shared by the event-stream parser and the
//! request builders: occurrences of a pattern, splitting, trimming, removal
//! and decimal numbers, each with a spec function and a verified executable.
use vstd::prelude::*;
use vstd::string::{StrSliceExecFns, StringExecFns};

verus! {

broadcast use vstd::string::group_string_axioms;

// ---------------------------------------------------------------------------
// Occurrences of a pattern
// ---------------------------------------------------------------------------

/// `pat` occurs in `s` starting at index `i`.
pub open spec fn occurs_at(s: Seq<char>, pat: Seq<char>, i: int) -> bool {
    &&& 0 <= i
    &&& i + pat.len() <= s.len()
    &&& s.subrange(i, i + pat.len()) == pat
}

/// `i` is the leftmost occurrence of `pat` in `s`.
pub open spec fn is_first_occurrence(s: Seq<char>, pat: Seq<char>, i: int) -> bool {
    &&& occurs_at(s, pat, i)
    &&& forall|j: int| 0 <= j < i ==> !occurs_at(s, pat, j)
}

/// The leftmost occurrence of `pat` in `s` at or after index `k`.
pub open spec fn first_occurrence_from(s: Seq<char>, pat: Seq<char>, k: int) -> Option<int>
    decreases s.len() - k,
{
    if k < 0 || k >= s.len() || k + pat.len() > s.len() {
        None
    } else if occurs_at(s, pat, k) {
        Some(k)
    } else {
        first_occurrence_from(s, pat, k + 1)
    }
}

/// The leftmost occurrence of `pat` in `s`, if any.
pub open spec fn first_occurrence(s: Seq<char>, pat: Seq<char>) -> Option<int> {
    first_occurrence_from(s, pat, 0)
}

proof fn lemma_first_occurrence_from(s: Seq<char>, pat: Seq<char>, k: int)
    requires
        pat.len() > 0,
        0 <= k,
    ensures
        match first_occurrence_from(s, pat, k) {
            Some(i) => k <= i && occurs_at(s, pat, i) && forall|j: int|
                k <= j < i ==> !occurs_at(s, pat, j),
            None => forall|j: int| k <= j ==> !occurs_at(s, pat, j),
        },
    decreases s.len() - k,
{
    if k >= s.len() || k + pat.len() > s.len() {
    } else if occurs_at(s, pat, k) {
    } else {
        lemma_first_occurrence_from(s, pat, k + 1);
    }
}

/// The leftmost occurrence is exactly what `first_occurrence` returns.
pub proof fn lemma_first_occurrence(s: Seq<char>, pat: Seq<char>)
    requires
        pat.len() > 0,
    ensures
        match first_occurrence(s, pat) {
            Some(i) => is_first_occurrence(s, pat, i),
            None => forall|j: int| !occurs_at(s, pat, j),
        },
{
    lemma_first_occurrence_from(s, pat, 0);
}

/// Any leftmost occurrence is the one `first_occurrence` returns.
pub proof fn lemma_first_occurrence_unique(s: Seq<char>, pat: Seq<char>, i: int)
    requires
        pat.len() > 0,
        is_first_occurrence(s, pat, i),
    ensures
        first_occurrence(s, pat) == Some(i),
{
    lemma_first_occurrence(s, pat);
    match first_occurrence(s, pat) {
        Some(i2) => {
            if i2 < i {
                assert(!occurs_at(s, pat, i2));
            } else if i < i2 {
                assert(!occurs_at(s, pat, i));
            }
        },
        None => {
            assert(!occurs_at(s, pat, i));
        },
    }
}

/// Occurrences in a suffix are occurrences in the whole, shifted.
pub proof fn lemma_occurs_in_suffix(s: Seq<char>, pat: Seq<char>, k: int, j: int)
    requires
        0 <= k <= s.len(),
    ensures
        occurs_at(s.skip(k), pat, j) <==> (0 <= j && occurs_at(s, pat, j + k)),
{
    if 0 <= j && j + pat.len() <= s.len() - k {
        assert(s.skip(k).subrange(j, j + pat.len()) =~= s.subrange(j + k, j + k + pat.len()));
    }
}

/// Occurrences in a window of `s` are occurrences in `s`, shifted.
pub proof fn lemma_occurs_in_window(s: Seq<char>, pat: Seq<char>, lo: int, hi: int, j: int)
    requires
        0 <= lo <= hi <= s.len(),
    ensures
        occurs_at(s.subrange(lo, hi), pat, j) <==> (0 <= j && j + lo + pat.len() <= hi
            && occurs_at(s, pat, j + lo)),
{
    if 0 <= j && j + pat.len() <= hi - lo {
        assert(s.subrange(lo, hi).subrange(j, j + pat.len()) =~= s.subrange(
            j + lo,
            j + lo + pat.len(),
        ));
    }
}

/// An occurrence found in a prefix stays the first occurrence whatever follows.
pub proof fn lemma_first_occurrence_append(s: Seq<char>, pat: Seq<char>, t: Seq<char>)
    requires
        pat.len() > 0,
        first_occurrence(s, pat) is Some,
    ensures
        first_occurrence(s + t, pat) == first_occurrence(s, pat),
{
    lemma_first_occurrence(s, pat);
    let i = first_occurrence(s, pat)->0;
    assert((s + t).subrange(i, i + pat.len()) =~= s.subrange(i, i + pat.len()));
    assert forall|j: int| 0 <= j < i implies !occurs_at(s + t, pat, j) by {
        if occurs_at(s + t, pat, j) {
            assert((s + t).subrange(j, j + pat.len()) =~= s.subrange(j, j + pat.len()));
            assert(occurs_at(s, pat, j));
        }
    }
    lemma_first_occurrence_unique(s + t, pat, i);
}

// ---------------------------------------------------------------------------
// Splitting and joining
// ---------------------------------------------------------------------------

/// The pieces of `s` between the non-overlapping occurrences of `pat`, found
/// from left to right: what `str::split` with a non-empty string pattern
/// yields. An empty pattern leaves `s` as a single piece.
pub open spec fn split_on(s: Seq<char>, pat: Seq<char>) -> Seq<Seq<char>>
    decreases s.len(),
{
    if pat.len() == 0 {
        seq![s]
    } else {
        match first_occurrence(s, pat) {
            Some(i) => {
                proof {
                    lemma_first_occurrence(s, pat);
                }
                seq![s.take(i)] + split_on(s.skip(i + pat.len()), pat)
            },
            None => seq![s],
        }
    }
}

/// The pieces joined back together with `sep` between consecutive pieces.
pub open spec fn join_with(pieces: Seq<Seq<char>>, sep: Seq<char>) -> Seq<char>
    decreases pieces.len(),
{
    if pieces.len() == 0 {
        seq![]
    } else if pieces.len() == 1 {
        pieces[0]
    } else {
        pieces[0] + sep + join_with(pieces.drop_first(), sep)
    }
}

/// `s` with every occurrence of `pat` removed, the occurrences found as
/// `str::replace` finds them (leftmost first, non-overlapping).
pub open spec fn remove_all(s: Seq<char>, pat: Seq<char>) -> Seq<char> {
    split_on(s, pat).flatten()
}

/// Splitting never yields an empty list of pieces.
pub proof fn lemma_split_on_nonempty(s: Seq<char>, pat: Seq<char>)
    ensures
        split_on(s, pat).len() >= 1,
    decreases s.len(),
{
    if pat.len() > 0 {
        if let Some(i) = first_occurrence(s, pat) {
            lemma_first_occurrence(s, pat);
            lemma_split_on_nonempty(s.skip(i + pat.len()), pat);
        }
    }
}

/// A text in which `pat` does not occur is a single piece.
pub proof fn lemma_split_on_no_occurrence(s: Seq<char>, pat: Seq<char>)
    requires
        first_occurrence(s, pat) is None,
    ensures
        split_on(s, pat) == seq![s],
{
}

/// The first piece of a split is the text before the first occurrence.
pub proof fn lemma_split_on_step(s: Seq<char>, pat: Seq<char>, i: int)
    requires
        pat.len() > 0,
        is_first_occurrence(s, pat, i),
    ensures
        split_on(s, pat) == seq![s.take(i)] + split_on(s.skip(i + pat.len()), pat),
{
    lemma_first_occurrence_unique(s, pat, i);
}

// ---------------------------------------------------------------------------
// Whitespace and trimming
// ---------------------------------------------------------------------------

/// Unicode `White_Space`, the set `char::is_whitespace` tests.
pub open spec fn is_white_space(c: char) -> bool {
    let u = c as u32;
    ||| 0x09 <= u <= 0x0d
    ||| u == 0x20
    ||| u == 0x85
    ||| u == 0xa0
    ||| u == 0x1680
    ||| 0x2000 <= u <= 0x200a
    ||| u == 0x2028
    ||| u == 0x2029
    ||| u == 0x202f
    ||| u == 0x205f
    ||| u == 0x3000
}

/// `s` without its leading white space.
pub open spec fn trim_start(s: Seq<char>) -> Seq<char>
    decreases s.len(),
{
    if s.len() > 0 && is_white_space(s[0]) {
        trim_start(s.drop_first())
    } else {
        s
    }
}

/// `s` without its trailing white space.
pub open spec fn trim_end(s: Seq<char>) -> Seq<char>
    decreases s.len(),
{
    if s.len() > 0 && is_white_space(s.last()) {
        trim_end(s.drop_last())
    } else {
        s
    }
}

/// `s` without leading and trailing white space (`str::trim`).
pub open spec fn trim(s: Seq<char>) -> Seq<char> {
    trim_end(trim_start(s))
}

proof fn lemma_trim_start_index(s: Seq<char>) -> (a: int)
    ensures
        0 <= a <= s.len(),
        trim_start(s) == s.skip(a),
        forall|i: int| 0 <= i < a ==> is_white_space(#[trigger] s[i]),
        a < s.len() ==> !is_white_space(s[a]),
    decreases s.len(),
{
    if s.len() > 0 && is_white_space(s[0]) {
        let a1 = lemma_trim_start_index(s.drop_first());
        assert(s.drop_first().skip(a1) =~= s.skip(a1 + 1));
        assert forall|i: int| 0 <= i < a1 + 1 implies is_white_space(#[trigger] s[i]) by {
            if i > 0 {
                assert(s[i] == s.drop_first()[i - 1]);
            }
        }
        if a1 + 1 < s.len() {
            assert(s[a1 + 1] == s.drop_first()[a1]);
        }
        a1 + 1
    } else {
        assert(s.skip(0) =~= s);
        0
    }
}

proof fn lemma_trim_end_index(s: Seq<char>) -> (b: int)
    ensures
        0 <= b <= s.len(),
        trim_end(s) == s.take(b),
        forall|i: int| b <= i < s.len() ==> is_white_space(#[trigger] s[i]),
        b > 0 ==> !is_white_space(s[b - 1]),
    decreases s.len(),
{
    if s.len() > 0 && is_white_space(s.last()) {
        let b1 = lemma_trim_end_index(s.drop_last());
        assert(s.drop_last().take(b1) =~= s.take(b1));
        assert forall|i: int| b1 <= i < s.len() implies is_white_space(#[trigger] s[i]) by {
            if i < s.len() - 1 {
                assert(s[i] == s.drop_last()[i]);
            }
        }
        if b1 > 0 {
            assert(s[b1 - 1] == s.drop_last()[b1 - 1]);
        }
        b1
    } else {
        assert(s.take(s.len() as int) =~= s);
        s.len() as int
    }
}

/// Trimming keeps one window `s[a..b]` of the text whole: everything before
/// `a` and from `b` on is white space, and a non-empty window neither starts
/// nor ends with white space. Nothing else is dropped, whatever the length.
pub proof fn lemma_trim_is_window(s: Seq<char>) -> (r: (int, int))
    ensures
        0 <= r.0 <= r.1 <= s.len(),
        trim(s) == s.subrange(r.0, r.1),
        forall|i: int| 0 <= i < r.0 ==> is_white_space(#[trigger] s[i]),
        forall|i: int| r.1 <= i < s.len() ==> is_white_space(#[trigger] s[i]),
        r.0 < r.1 ==> !is_white_space(s[r.0]) && !is_white_space(s[r.1 - 1]),
{
    let a = lemma_trim_start_index(s);
    let t = s.skip(a);
    let b1 = lemma_trim_end_index(t);
    assert(t.take(b1) =~= s.subrange(a, a + b1));
    assert forall|i: int| a + b1 <= i < s.len() implies is_white_space(#[trigger] s[i]) by {
        assert(s[i] == t[i - a]);
    }
    if b1 > 0 {
        assert(s[a] == t[0]);
        assert(s[a + b1 - 1] == t[b1 - 1]);
    }
    (a, a + b1)
}

pub fn is_white_space_char(c: char) -> (b: bool)
    ensures
        b == is_white_space(c),
{
    let u = c as u32;
    (0x09 <= u && u <= 0x0d) || u == 0x20 || u == 0x85 || u == 0xa0 || u == 0x1680 || (0x2000
        <= u && u <= 0x200a) || u == 0x2028 || u == 0x2029 || u == 0x202f || u == 0x205f || u
        == 0x3000
}

/// The bounds of the trimmed window `s[lo..hi]`.
pub fn trim_bounds(s: &Vec<char>, lo: usize, hi: usize) -> (r: (usize, usize))
    requires
        lo <= hi <= s@.len(),
    ensures
        lo <= r.0 <= r.1 <= hi,
        s@.subrange(r.0 as int, r.1 as int) == trim(s@.subrange(lo as int, hi as int)),
{
    let mut a = lo;
    while a < hi && is_white_space_char(s[a])
        invariant
            lo <= a <= hi <= s@.len(),
            trim_start(s@.subrange(lo as int, hi as int)) == trim_start(
                s@.subrange(a as int, hi as int),
            ),
        decreases hi - a,
    {
        assert(s@.subrange(a as int, hi as int).drop_first() =~= s@.subrange(
            a + 1,
            hi as int,
        ));
        a = a + 1;
    }
    let mut b = hi;
    while b > a && is_white_space_char(s[b - 1])
        invariant
            lo <= a <= b <= hi <= s@.len(),
            trim_end(s@.subrange(a as int, hi as int)) == trim_end(
                s@.subrange(a as int, b as int),
            ),
        decreases b - a,
    {
        assert(s@.subrange(a as int, b as int).drop_last() =~= s@.subrange(
            a as int,
            b - 1,
        ));
        b = b - 1;
    }
    (a, b)
}

// ---------------------------------------------------------------------------
// Decimal numbers
// ---------------------------------------------------------------------------

pub open spec fn is_ascii_digit(c: char) -> bool {
    0x30 <= (c as u32) <= 0x39
}

pub open spec fn digit_value(c: char) -> nat {
    ((c as u32) - 0x30) as nat
}

/// The number that a string of decimal digits denotes.
pub open spec fn decimal_value(d: Seq<char>) -> nat
    decreases d.len(),
{
    if d.len() == 0 {
        0
    } else {
        decimal_value(d.drop_last()) * 10 + digit_value(d.last())
    }
}

pub open spec fn all_ascii_digits(d: Seq<char>) -> bool {
    forall|i: int| 0 <= i < d.len() ==> is_ascii_digit(#[trigger] d[i])
}

/// What `str::parse::<u32>` accepts: an optional `+`, then at least one
/// ASCII digit, denoting a number that fits in 32 bits.
pub open spec fn parse_u32(s: Seq<char>) -> Option<u32> {
    let digits = if s.len() > 1 && s[0] == '+' {
        s.drop_first()
    } else {
        s
    };
    if digits.len() > 0 && all_ascii_digits(digits) && decimal_value(digits) <= u32::MAX {
        Some(decimal_value(digits) as u32)
    } else {
        None
    }
}

proof fn lemma_decimal_value_prefix(d: Seq<char>, k: int)
    requires
        0 <= k <= d.len(),
        all_ascii_digits(d),
    ensures
        decimal_value(d.take(k)) <= decimal_value(d),
    decreases d.len(),
{
    if k < d.len() {
        assert(d.drop_last().take(k) =~= d.take(k));
        lemma_decimal_value_prefix(d.drop_last(), k);
    } else {
        assert(d.take(k) =~= d);
    }
}

/// `str::parse::<u32>` on the window `s[lo..hi]`.
pub fn parse_u32_window(s: &Vec<char>, lo: usize, hi: usize) -> (r: Option<u32>)
    requires
        lo <= hi <= s@.len(),
    ensures
        r == parse_u32(s@.subrange(lo as int, hi as int)),
{
    let ghost w = s@.subrange(lo as int, hi as int);
    let mut start = lo;
    if hi - lo > 1 && s[lo] == '+' {
        start = lo + 1;
    }
    let ghost digits = s@.subrange(start as int, hi as int);
    assert(digits =~= (if w.len() > 1 && w[0] == '+' {
        w.drop_first()
    } else {
        w
    }));
    if start == hi {
        return None;
    }
    let mut acc: u64 = 0;
    let mut k = start;
    while k < hi
        invariant
            start <= k <= hi <= s@.len(),
            w == s@.subrange(lo as int, hi as int),
            digits == s@.subrange(start as int, hi as int),
            digits == (if w.len() > 1 && w[0] == '+' {
                w.drop_first()
            } else {
                w
            }),
            digits.len() > 0,
            all_ascii_digits(digits.take(k - start)),
            acc == decimal_value(digits.take(k - start)),
            acc <= u32::MAX,
        decreases hi - k,
    {
        let c = s[k];
        let u = c as u32;
        if u < 0x30 || u > 0x39 {
            assert(!is_ascii_digit(digits[k - start]));
            return None;
        }
        let ghost prev = digits.take(k - start);
        let ghost next = digits.take(k + 1 - start);
        assert(next.drop_last() =~= prev);
        assert(next.last() == c);
        acc = acc * 10 + (u - 0x30) as u64;
        assert(all_ascii_digits(next));
        if acc > 0xffff_ffff {
            proof {
                if all_ascii_digits(digits) {
                    lemma_decimal_value_prefix(digits, k + 1 - start);
                }
            }
            return None;
        }
        k = k + 1;
    }
    assert(digits.take(hi - start) =~= digits);
    Some(acc as u32)
}

// ---------------------------------------------------------------------------
// Executable scanning
// ---------------------------------------------------------------------------

/// The characters of a string slice, in order.
pub fn chars_of(s: &str) -> (v: Vec<char>)
    ensures
        v@ == s@,
{
    let mut v: Vec<char> = Vec::new();
    for c in iter: s.chars()
        invariant
            v@ == iter.seq().take(iter.index()),
    {
        v.push(c);
        assert(v@ =~= iter.seq().take(iter.index() + 1));
    }
    assert(v@ =~= s@);
    v
}

/// Does `pat` occur in `s` at index `i`?
pub fn occurs_at_exec(s: &Vec<char>, pat: &Vec<char>, i: usize) -> (b: bool)
    ensures
        b == occurs_at(s@, pat@, i as int),
{
    if i > s.len() || pat.len() > s.len() - i {
        return false;
    }
    let n = pat.len();
    let slen = s.len();
    let mut k: usize = 0;
    while k < n
        invariant
            n == pat@.len(),
            slen == s@.len(),
            i + n <= s@.len(),
            k <= pat@.len(),
            forall|m: int| 0 <= m < k ==> s@[i + m] == pat@[m],
        decreases n - k,
    {
        let at = i + k;
        if s[at] != pat[k] {
            assert(s@.subrange(i as int, i + pat@.len())[k as int] != pat@[k as int]);
            return false;
        }
        k = k + 1;
    }
    assert(s@.subrange(i as int, i + pat@.len()) =~= pat@);
    true
}

/// The leftmost occurrence of `pat` lying entirely inside the window `s[from..to]`.
pub fn find_in_window(s: &Vec<char>, pat: &Vec<char>, from: usize, to: usize) -> (r: Option<
    usize,
>)
    requires
        pat@.len() > 0,
        from <= to <= s@.len(),
    ensures
        match r {
            Some(i) => from <= i && i + pat@.len() <= to && is_first_occurrence(
                s@.subrange(from as int, to as int),
                pat@,
                i - from,
            ),
            None => first_occurrence(s@.subrange(from as int, to as int), pat@) is None,
        },
{
    let ghost w = s@.subrange(from as int, to as int);
    let mut i = from;
    while i < to && pat.len() <= to - i
        invariant
            from <= i <= to <= s@.len(),
            w == s@.subrange(from as int, to as int),
            pat@.len() > 0,
            forall|j: int| 0 <= j < i - from ==> !occurs_at(w, pat@, j),
        decreases to - i,
    {
        let found = occurs_at_exec(s, pat, i);
        proof {
            lemma_occurs_in_window(s@, pat@, from as int, to as int, i - from);
        }
        if found {
            return Some(i);
        }
        i = i + 1;
    }
    proof {
        lemma_first_occurrence(w, pat@);
        assert forall|j: int| !occurs_at(w, pat@, j) by {
            if j >= i - from && occurs_at(w, pat@, j) {
                assert(j + pat@.len() <= w.len());
            }
        }
    }
    None
}


proof fn lemma_flatten_single(x: Seq<char>)
    ensures
        seq![x].flatten() == x,
{
    let e = Seq::<Seq<char>>::empty();
    assert(e.flatten() == Seq::<char>::empty());
    assert(seq![x].drop_first() =~= e);
    assert(seq![x].flatten() == x + e.flatten());
    assert(x + Seq::<char>::empty() =~= x);
}

/// Removing nothing leaves the text as it is.
pub proof fn lemma_remove_empty_pattern(s: Seq<char>)
    ensures
        remove_all(s, Seq::<char>::empty()) == s,
{
    assert(split_on(s, Seq::<char>::empty()) == seq![s]);
    lemma_flatten_single(s);
}

/// Removing a non-empty text from itself leaves nothing.
pub proof fn lemma_remove_self(s: Seq<char>)
    requires
        s.len() > 0,
    ensures
        remove_all(s, s) == Seq::<char>::empty(),
{
    assert(s.subrange(0, s.len() as int) =~= s);
    assert(is_first_occurrence(s, s, 0));
    lemma_split_on_step(s, s, 0);
    let e = Seq::<char>::empty();
    assert(s.skip(s.len() as int) =~= e);
    lemma_first_occurrence(e, s);
    lemma_split_on_no_occurrence(e, s);
    assert(s.take(0) =~= e);
    let pieces = seq![e, e];
    assert(split_on(s, s) =~= pieces);
    assert(pieces.drop_first() =~= seq![e]);
    lemma_flatten_single(e);
    assert(pieces.flatten() == e + seq![e].flatten());
    assert(e + e =~= e);
}

/// Removing a text that does not occur leaves the text as it is.
pub proof fn lemma_remove_absent(s: Seq<char>, pat: Seq<char>)
    requires
        first_occurrence(s, pat) is None,
    ensures
        remove_all(s, pat) == s,
{
    lemma_flatten_single(s);
}

/// Removing a non-empty text `p` from `p + t`, where `p` does not occur in
/// `t`, leaves exactly `t`, however long `p` and `t` are.
pub proof fn lemma_remove_leading(p: Seq<char>, t: Seq<char>)
    requires
        p.len() > 0,
        forall|j: int| !occurs_at(t, p, j),
    ensures
        remove_all(p + t, p) == t,
{
    let s = p + t;
    assert(s.subrange(0, p.len() as int) =~= p);
    assert(is_first_occurrence(s, p, 0));
    lemma_split_on_step(s, p, 0);
    assert(s.skip(p.len() as int) =~= t);
    lemma_first_occurrence(t, p);
    lemma_split_on_no_occurrence(t, p);
    let e = Seq::<char>::empty();
    assert(s.take(0) =~= e);
    let pieces = seq![e, t];
    assert(split_on(s, p) =~= pieces);
    assert(pieces.drop_first() =~= seq![t]);
    lemma_flatten_single(t);
    assert(pieces.flatten() == e + seq![t].flatten());
    assert(e + t =~= t);
}

/// Removing `p` keeps what precedes its leftmost occurrence, drops that
/// occurrence, and goes on with the rest: the text between occurrences is
/// kept whole, whatever the lengths.
pub proof fn lemma_remove_all_step(s: Seq<char>, p: Seq<char>, i: int)
    requires
        p.len() > 0,
        occurs_at(s, p, i),
        forall|j: int| 0 <= j < i ==> !occurs_at(s, p, j),
    ensures
        remove_all(s, p) == s.take(i) + remove_all(s.skip(i + p.len()), p),
{
    lemma_split_on_step(s, p, i);
    let rest = split_on(s.skip(i + p.len()), p);
    let pieces = seq![s.take(i)] + rest;
    assert(pieces.drop_first() =~= rest);
    assert(pieces.first() == s.take(i));
}

/// Removing `p` from a text in which it does not occur leaves the text whole.
pub proof fn lemma_remove_not_occurring(s: Seq<char>, p: Seq<char>)
    requires
        p.len() > 0,
        forall|j: int| !occurs_at(s, p, j),
    ensures
        remove_all(s, p) == s,
{
    lemma_first_occurrence(s, p);
    lemma_remove_absent(s, p);
}

/// `s` with every occurrence of `pat` removed (`str::replace(pat, "")`).
pub fn remove_all_exec(s: &str, pat: &str) -> (r: String)
    ensures
        r@ == remove_all(s@, pat@),
{
    let sv = chars_of(s);
    let pv = chars_of(pat);
    if pv.len() == 0 {
        proof {
            lemma_remove_empty_pattern(s@);
        }
        return s.to_owned();
    }
    let n = sv.len();
    let plen = pv.len();
    let mut out = String::new();
    let mut pos: usize = 0;
    assert(sv@.subrange(0, n as int) =~= sv@);
    loop
        invariant
            s@ == sv@,
            pat@ == pv@,
            plen == pv@.len(),
            plen > 0,
            n == sv@.len(),
            pos <= n,
            remove_all(s@, pat@) == out@ + remove_all(sv@.subrange(pos as int, n as int), pv@),
        decreases n - pos,
    {
        let ghost w = sv@.subrange(pos as int, n as int);
        match find_in_window(&sv, &pv, pos, n) {
            Some(i) => {
                proof {
                    lemma_split_on_step(w, pv@, i - pos);
                    assert(w.take(i - pos) =~= sv@.subrange(pos as int, i as int));
                    assert(w.skip(i - pos + plen) =~= sv@.subrange(i + plen, n as int));
                    let rest = split_on(sv@.subrange(i + plen, n as int), pv@);
                    let pieces = seq![sv@.subrange(pos as int, i as int)] + rest;
                    assert(pieces.drop_first() =~= rest);
                    assert(remove_all(w, pv@) == sv@.subrange(pos as int, i as int) + rest.flatten());
                }
                out.append(s.substring_char(pos, i));
                pos = i + plen;
                assert(remove_all(s@, pat@) =~= out@ + remove_all(
                    sv@.subrange(pos as int, n as int),
                    pv@,
                ));
            },
            None => {
                proof {
                    lemma_remove_absent(w, pv@);
                }
                out.append(s.substring_char(pos, n));
                return out;
            },
        }
    }
}

} // verus!
