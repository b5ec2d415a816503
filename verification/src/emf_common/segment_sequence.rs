//! EMF `SegmentSequence`: an immutable sequence of string segments together
//! with the delimiter that joins them, plus a builder.
//!
//! A value is split at every occurrence of the delimiter (left to right,
//! non-overlapping), so `"a//b"` gives an empty middle segment and `""` gives
//! one empty segment; with an empty delimiter every character is a segment.
use vstd::prelude::*;
use crate::text::{
    find_at, lemma_find_at, split_from, char_utf8_width, chars_of, join, lemma_utf8_len_add, slice_chars, split, split_chars, string_of,
    utf8_len,
};

verus! {

/// The character views of a sequence of strings.
pub open spec fn views(v: Seq<String>) -> Seq<Seq<char>> {
    v.map_values(|s: String| s@)
}

/// The segments that splitting `value` on `delimiter` gives.
pub open spec fn split_segments_spec(delimiter: Seq<char>, value: Seq<char>) -> Seq<Seq<char>> {
    if delimiter.len() == 0 {
        Seq::new(value.len(), |i: int| seq![value[i]])
    } else {
        split(value, delimiter)
    }
}

/// Pushing a string pushes its view.
pub proof fn lemma_views_push(v: Seq<String>, x: String)
    ensures
        views(v.push(x)) == views(v).push(x@),
{
    assert(views(v.push(x)) =~= views(v).push(x@));
}

/// Segments for a list of strings: each is split on the delimiter, or, with
/// an empty delimiter, kept whole unless it is empty.
pub open spec fn flat_segments(delimiter: Seq<char>, parts: Seq<Seq<char>>) -> Seq<Seq<char>>
    decreases parts.len(),
{
    if parts.len() == 0 {
        Seq::empty()
    } else {
        let last = parts.last();
        flat_segments(delimiter, parts.drop_last()) + if delimiter.len() == 0 {
            if last.len() == 0 {
                Seq::empty()
            } else {
                seq![last]
            }
        } else {
            split(last, delimiter)
        }
    }
}

/// Strings holding the given character vectors.
fn strings_of(parts: Vec<Vec<char>>) -> (r: Vec<String>)
    ensures
        views(r@) == parts@.map_values(|v: Vec<char>| v@),
{
    let mut out: Vec<String> = Vec::new();
    let mut i: usize = 0;
    while i < parts.len()
        invariant
            i <= parts@.len(),
            views(out@) == parts@.map_values(|v: Vec<char>| v@).take(i as int),
        decreases parts@.len() - i,
    {
        let ghost prev = out@;
        let x = string_of(parts[i].as_slice());
        out.push(x);
        proof {
            lemma_views_push(prev, x);
        }
        assert(views(out@) =~= parts@.map_values(|v: Vec<char>| v@).take(i + 1));
        i += 1;
    }
    assert(parts@.map_values(|v: Vec<char>| v@).take(parts@.len() as int) =~= parts@.map_values(
        |v: Vec<char>| v@,
    ));
    out
}

/// Copies of the given strings.
fn copy_strings(parts: &[String]) -> (r: Vec<String>)
    ensures
        views(r@) == views(parts@),
{
    let mut out: Vec<String> = Vec::new();
    let mut i: usize = 0;
    while i < parts.len()
        invariant
            i <= parts@.len(),
            views(out@) == views(parts@).take(i as int),
        decreases parts@.len() - i,
    {
        let ghost prev = out@;
        let x = parts[i].clone();
        out.push(x);
        proof {
            lemma_views_push(prev, x);
        }
        assert(views(out@) =~= views(parts@).take(i + 1));
        i += 1;
    }
    assert(views(parts@).take(parts@.len() as int) =~= views(parts@));
    out
}

/// Split `value` on `delimiter` (each character when the delimiter is empty).
fn split_segments(delimiter: &str, value: &str) -> (r: Vec<String>)
    ensures
        views(r@) == split_segments_spec(delimiter@, value@),
{
    let d = chars_of(delimiter);
    let v = chars_of(value);
    if d.len() == 0 {
        let mut out: Vec<String> = Vec::new();
        let mut i: usize = 0;
        while i < v.len()
            invariant
                i <= v@.len(),
                views(out@) == Seq::new(i as nat, |j: int| seq![v@[j]]),
            decreases v@.len() - i,
        {
            let mut one: Vec<char> = Vec::new();
            one.push(v[i]);
            let ghost prev = out@;
            let x = string_of(one.as_slice());
            out.push(x);
            proof {
                lemma_views_push(prev, x);
                assert(x@ =~= seq![v@[i as int]]);
            }
            assert(views(out@) =~= Seq::new((i + 1) as nat, |j: int| seq![v@[j]]));
            i += 1;
        }
        return out;
    }
    strings_of(split_chars(v.as_slice(), d.as_slice()))
}

/// The characters of `parts` joined with `sep` (computed).
fn join_chars(parts: &[String], sep: &[char]) -> (r: Vec<char>)
    ensures
        r@ == join(views(parts@), sep@),
{
    let mut out: Vec<char> = Vec::new();
    let mut i: usize = 0;
    while i < parts.len()
        invariant
            i <= parts@.len(),
            out@ == join(views(parts@).take(i as int), sep@),
        decreases parts@.len() - i,
    {
        let ghost pv = views(parts@);
        let cs = chars_of(parts[i].as_str());
        if i > 0 {
            let mut k: usize = 0;
            let ghost base = out@;
            while k < sep.len()
                invariant
                    k <= sep@.len(),
                    out@ == base + sep@.take(k as int),
                decreases sep@.len() - k,
            {
                out.push(sep[k]);
                assert(sep@.take(k + 1) == sep@.take(k as int).push(sep@[k as int]));
                k += 1;
            }
            assert(sep@.take(sep@.len() as int) == sep@);
        }
        let ghost mid = out@;
        let mut k: usize = 0;
        while k < cs.len()
            invariant
                k <= cs@.len(),
                out@ == mid + cs@.take(k as int),
            decreases cs@.len() - k,
        {
            out.push(cs[k]);
            assert(cs@.take(k + 1) == cs@.take(k as int).push(cs@[k as int]));
            k += 1;
        }
        proof {
            assert(cs@.take(cs@.len() as int) == cs@);
            assert(pv.take(i + 1).drop_last() == pv.take(i as int));
            assert(pv.take(i + 1).last() == pv[i as int]);
            if i == 0 {
                assert(pv.take(1)[0] == pv[0]);
            }
        }
        i += 1;
    }
    assert(views(parts@).take(parts@.len() as int) == views(parts@));
    out
}

/// A sequence of delimited string segments.
#[derive(Debug, Clone, PartialEq, Eq, Hash)]
pub struct SegmentSequence {
    delimiter: String,
    segments: Vec<String>,
}

impl View for SegmentSequence {
    type V = (Seq<char>, Seq<Seq<char>>);

    /// The delimiter and the segments.
    closed spec fn view(&self) -> (Seq<char>, Seq<Seq<char>>) {
        (self.delimiter@, views(self.segments@))
    }
}

impl SegmentSequence {
    /// The joined representation: segments separated by the delimiter.
    pub open spec fn joined(&self) -> Seq<char> {
        join(self@.1, self@.0)
    }

    /// Split `value` on `delimiter`.
    pub fn create(delimiter: &str, value: &str) -> (r: SegmentSequence)
        ensures
            r@ == (delimiter@, split_segments_spec(delimiter@, value@)),
    {
        let segments = split_segments(delimiter, value);
        SegmentSequence { delimiter: delimiter.to_owned(), segments }
    }

    /// An empty sequence for the delimiter.
    pub fn empty(delimiter: &str) -> (r: SegmentSequence)
        ensures
            r@ == (delimiter@, Seq::<Seq<char>>::empty()),
    {
        let r = SegmentSequence { delimiter: delimiter.to_owned(), segments: Vec::new() };
        assert(views(r.segments@) =~= Seq::<Seq<char>>::empty());
        r
    }

    /// Build from explicit segments, each further split on the delimiter
    /// (with an empty delimiter, non-empty segments are kept whole).
    pub fn create_from_segments(delimiter: &str, segments: Vec<String>) -> (r: SegmentSequence)
        ensures
            r@ == (delimiter@, flat_segments(delimiter@, views(segments@))),
    {
        let d = chars_of(delimiter);
        let mut out: Vec<String> = Vec::new();
        let mut i: usize = 0;
        while i < segments.len()
            invariant
                i <= segments@.len(),
                d@ == delimiter@,
                views(out@) == flat_segments(delimiter@, views(segments@).take(i as int)),
            decreases segments@.len() - i,
        {
            let ghost before = views(out@);
            let s = &segments[i];
            if d.len() == 0 {
                if !s.as_str().is_empty() {
                    let ghost prev = out@;
                    let x = s.clone();
                    out.push(x);
                    proof {
                        lemma_views_push(prev, x);
                    }
                    assert(views(out@) =~= before + seq![s@]);
                } else {
                    assert(views(out@) =~= before + Seq::<Seq<char>>::empty());
                }
            } else {
                let pieces = split_segments(delimiter, s.as_str());
                let mut k: usize = 0;
                while k < pieces.len()
                    invariant
                        k <= pieces@.len(),
                        views(out@) == before + views(pieces@).take(k as int),
                    decreases pieces@.len() - k,
                {
                    let ghost prev = out@;
                    let x = pieces[k].clone();
                    out.push(x);
                    proof {
                        lemma_views_push(prev, x);
                    }
                    assert(views(out@) =~= before + views(pieces@).take(k + 1));
                    k += 1;
                }
                assert(views(pieces@).take(pieces@.len() as int) =~= views(pieces@));
            }
            proof {
                let sv = views(segments@);
                assert(sv.take(i + 1).drop_last() =~= sv.take(i as int));
                assert(sv.take(i + 1).last() == s@);
            }
            i += 1;
        }
        assert(views(segments@).take(segments@.len() as int) =~= views(segments@));
        SegmentSequence { delimiter: delimiter.to_owned(), segments: out }
    }

    /// The delimiter.
    pub fn delimiter(&self) -> (r: &str)
        ensures
            r@ == self@.0,
    {
        self.delimiter.as_str()
    }

    /// The segments.
    pub fn segments(&self) -> (r: &[String])
        ensures
            views(r@) == self@.1,
    {
        self.segments.as_slice()
    }

    /// Number of segments.
    pub fn segment_count(&self) -> (r: usize)
        ensures
            r == self@.1.len(),
    {
        self.segments.len()
    }

    /// Segment at `index`, `None` when out of range.
    pub fn segment(&self, index: usize) -> (r: Option<&str>)
        ensures
            index < self@.1.len() ==> (r matches Some(x) && x@ == self@.1[index as int]),
            index >= self@.1.len() ==> r is None,
    {
        if index < self.segments.len() {
            Some(self.segments[index].as_str())
        } else {
            None
        }
    }

    /// Last segment, `None` when there is none.
    pub fn last_segment(&self) -> (r: Option<&str>)
        ensures
            self@.1.len() > 0 ==> (r matches Some(x) && x@ == self@.1.last()),
            self@.1.len() == 0 ==> r is None,
    {
        let n = self.segments.len();
        if n > 0 {
            Some(self.segments[n - 1].as_str())
        } else {
            None
        }
    }

    /// First segment, `None` when there is none.
    pub fn first_segment(&self) -> (r: Option<&str>)
        ensures
            self@.1.len() > 0 ==> (r matches Some(x) && x@ == self@.1[0]),
            self@.1.len() == 0 ==> r is None,
    {
        if self.segments.len() > 0 {
            Some(self.segments[0].as_str())
        } else {
            None
        }
    }

    /// The joined representation (segments separated by the delimiter).
    pub fn to_string(&self) -> (r: String)
        ensures
            r@ == self.joined(),
    {
        let d = chars_of(self.delimiter.as_str());
        let cs = join_chars(self.segments.as_slice(), d.as_slice());
        string_of(cs.as_slice())
    }

    /// Length, in UTF-8 bytes, of the joined representation.
    pub fn length(&self) -> (r: usize)
        requires
            utf8_len(self.joined()) <= usize::MAX,
        ensures
            r == utf8_len(self.joined()),
    {
        let d = chars_of(self.delimiter.as_str());
        let cs = join_chars(self.segments.as_slice(), d.as_slice());
        let mut total: usize = 0;
        let mut i: usize = 0;
        while i < cs.len()
            invariant
                i <= cs@.len(),
                total == utf8_len(cs@.take(i as int)),
                utf8_len(cs@) <= usize::MAX,
            decreases cs@.len() - i,
        {
            proof {
                assert(cs@.take(i + 1).drop_last() == cs@.take(i as int));
                lemma_utf8_len_add(cs@.take(i + 1), cs@.skip(i + 1));
                assert(cs@.take(i + 1) + cs@.skip(i + 1) == cs@);
            }
            total = total + char_utf8_width(cs[i]);
            i += 1;
        }
        assert(cs@.take(cs@.len() as int) == cs@);
        total
    }

    /// Character at position `index` of the joined representation.
    pub fn char_at(&self, index: usize) -> (r: Option<char>)
        ensures
            index < self.joined().len() ==> r == Some(self.joined()[index as int]),
            index >= self.joined().len() ==> r is None,
    {
        let d = chars_of(self.delimiter.as_str());
        let cs = join_chars(self.segments.as_slice(), d.as_slice());
        if index < cs.len() {
            Some(cs[index])
        } else {
            None
        }
    }

    /// Characters `[start, end)` of the joined representation.
    pub fn sub_sequence(&self, start: usize, end: usize) -> (r: String)
        requires
            start <= end <= self.joined().len(),
        ensures
            r@ == self.joined().subrange(start as int, end as int),
    {
        let d = chars_of(self.delimiter.as_str());
        let cs = join_chars(self.segments.as_slice(), d.as_slice());
        let part = slice_chars(cs.as_slice(), start, end);
        string_of(part.as_slice())
    }

    /// Segments `[start, end)`.
    pub fn sub_segments(&self, start: usize, end: usize) -> (r: Vec<String>)
        requires
            start <= end <= self@.1.len(),
        ensures
            views(r@) == self@.1.subrange(start as int, end as int),
    {
        let mut out: Vec<String> = Vec::new();
        let mut i = start;
        while i < end
            invariant
                start <= i <= end,
                end <= self.segments@.len(),
                views(out@) == views(self.segments@).subrange(start as int, i as int),
            decreases end - i,
        {
            let ghost prev = out@;
            let x = self.segments[i].clone();
            out.push(x);
            proof {
                lemma_views_push(prev, x);
            }
            assert(views(out@) =~= views(self.segments@).subrange(start as int, i + 1));
            i += 1;
        }
        out
    }

    /// Append `segment` (split on the delimiter), giving a new sequence; with
    /// an empty delimiter an empty segment leaves the sequence as it is.
    pub fn append_segment(&self, segment: &str) -> (r: SegmentSequence)
        ensures
            r@ == (self@.0, if self@.0.len() == 0 && segment@.len() == 0 {
                self@.1
            } else {
                self@.1 + split_segments_spec(self@.0, segment@)
            }),
    {
        let mut s = copy_strings(self.segments.as_slice());
        if self.delimiter.as_str().is_empty() && segment.is_empty() {
            return SegmentSequence { delimiter: self.delimiter.clone(), segments: s };
        }
        let extra = split_segments(self.delimiter.as_str(), segment);
        let ghost before = views(s@);
        let mut k: usize = 0;
        while k < extra.len()
            invariant
                k <= extra@.len(),
                views(s@) == before + views(extra@).take(k as int),
            decreases extra@.len() - k,
        {
            let ghost prev = s@;
            let x = extra[k].clone();
            s.push(x);
            proof {
                lemma_views_push(prev, x);
            }
            assert(views(s@) =~= before + views(extra@).take(k + 1));
            k += 1;
        }
        assert(views(extra@).take(extra@.len() as int) =~= views(extra@));
        SegmentSequence { delimiter: self.delimiter.clone(), segments: s }
    }

    /// Append every segment of `other` (keeping this sequence's delimiter).
    pub fn append(&self, other: &SegmentSequence) -> (r: SegmentSequence)
        ensures
            r@ == (self@.0, self@.1 + other@.1),
    {
        let mut s = copy_strings(self.segments.as_slice());
        let ghost before = views(s@);
        let mut k: usize = 0;
        while k < other.segments.len()
            invariant
                k <= other.segments@.len(),
                views(s@) == before + views(other.segments@).take(k as int),
            decreases other.segments@.len() - k,
        {
            let ghost prev = s@;
            let x = other.segments[k].clone();
            s.push(x);
            proof {
                lemma_views_push(prev, x);
            }
            assert(views(s@) =~= before + views(other.segments@).take(k + 1));
            k += 1;
        }
        assert(views(other.segments@).take(other.segments@.len() as int) =~= views(
            other.segments@,
        ));
        SegmentSequence { delimiter: self.delimiter.clone(), segments: s }
    }

    /// Append each of `segments` in turn, as `append_segment` does.
    pub fn append_segments(&self, segments: &[&str]) -> (r: SegmentSequence)
        ensures
            r@ == (self@.0, appended(self@.0, self@.1, segments@.map_values(|s: &str| s@))),
    {
        let mut cur = self.append(&SegmentSequence::empty(self.delimiter.as_str()));
        assert(self@.1 + Seq::<Seq<char>>::empty() == self@.1);
        let mut i: usize = 0;
        while i < segments.len()
            invariant
                i <= segments@.len(),
                cur@ == (self@.0, appended(
                    self@.0,
                    self@.1,
                    segments@.map_values(|s: &str| s@).take(i as int),
                )),
            decreases segments@.len() - i,
        {
            cur = cur.append_segment(segments[i]);
            proof {
                let sv = segments@.map_values(|s: &str| s@);
                assert(sv.take(i + 1).drop_last() =~= sv.take(i as int));
                assert(sv.take(i + 1).last() == segments@[i as int]@);
            }
            i += 1;
        }
        assert(segments@.map_values(|s: &str| s@).take(segments@.len() as int) =~= segments@.map_values(
            |s: &str| s@,
        ));
        cur
    }
}

/// Segments after appending `extra` one by one with `append_segment`.
pub open spec fn appended(delimiter: Seq<char>, segs: Seq<Seq<char>>, extra: Seq<Seq<char>>) -> Seq<
    Seq<char>,
>
    decreases extra.len(),
{
    if extra.len() == 0 {
        segs
    } else {
        let prev = appended(delimiter, segs, extra.drop_last());
        let e = extra.last();
        if delimiter.len() == 0 && e.len() == 0 {
            prev
        } else {
            prev + split_segments_spec(delimiter, e)
        }
    }
}

/// A builder collecting strings for a `SegmentSequence`.
#[derive(Debug, Clone)]
pub struct SegmentSequenceBuilder {
    delimiter: String,
    strings: Vec<String>,
}

impl View for SegmentSequenceBuilder {
    type V = (Seq<char>, Seq<Seq<char>>);

    /// The delimiter and the strings appended so far.
    closed spec fn view(&self) -> (Seq<char>, Seq<Seq<char>>) {
        (self.delimiter@, views(self.strings@))
    }
}

impl SegmentSequenceBuilder {
    /// New builder for the delimiter.
    pub fn new(delimiter: &str) -> (r: Self)
        ensures
            r@ == (delimiter@, Seq::<Seq<char>>::empty()),
    {
        let r = SegmentSequenceBuilder { delimiter: delimiter.to_owned(), strings: Vec::new() };
        assert(views(r.strings@) =~= Seq::<Seq<char>>::empty());
        r
    }

    /// Append a string.
    pub fn append(self, s: &str) -> (r: Self)
        ensures
            r@ == (self@.0, self@.1.push(s@)),
    {
        let mut b = self;
        let ghost prev = b.strings@;
        let x = s.to_owned();
        b.strings.push(x);
        proof {
            lemma_views_push(prev, x);
        }
        b
    }

    /// Reverse the order of the appended strings.
    pub fn reverse(self) -> (r: Self)
        ensures
            r@ == (self@.0, self@.1.reverse()),
    {
        let mut b = self;
        let ghost before = views(b.strings@);
        let ghost n0 = before.len();
        let mut rev: Vec<String> = Vec::new();
        proof {
            assert(before.take(n0 as int) =~= before);
            assert(views(rev@) =~= before.skip(n0 as int).reverse());
        }
        while b.strings.len() > 0
            invariant
                b.strings@.len() <= n0,
                n0 == before.len(),
                b.delimiter@ == self@.0,
                views(b.strings@) == before.take(b.strings@.len() as int),
                views(rev@) == before.skip(b.strings@.len() as int).reverse(),
            decreases b.strings@.len(),
        {
            let ghost n = b.strings@.len();
            let ghost full = b.strings@;
            let x = b.strings.pop().unwrap();
            proof {
                assert(full == b.strings@.push(x));
                lemma_views_push(b.strings@, x);
                assert(views(b.strings@) =~= before.take(n - 1)) by {
                    assert(views(full).drop_last() =~= views(b.strings@));
                }
                assert(before[n - 1] == x@) by {
                    assert(views(full)[n - 1] == x@);
                }
            }
            let ghost prev = rev@;
            rev.push(x);
            proof {
                lemma_views_push(prev, x);
                assert(views(rev@) =~= before.skip(n - 1).reverse());
            }
        }
        assert(before.skip(0) =~= before);
        assert(views(rev@) == before.reverse());
        SegmentSequenceBuilder { delimiter: b.delimiter, strings: rev }
    }

    /// Number of appended strings.
    pub fn len(&self) -> (r: usize)
        ensures
            r == self@.1.len(),
    {
        self.strings.len()
    }

    /// Whether nothing was appended.
    pub fn is_empty(&self) -> (r: bool)
        ensures
            r == (self@.1.len() == 0),
    {
        self.strings.len() == 0
    }

    /// The sequence of the appended strings, each split on the delimiter.
    pub fn build(self) -> (r: SegmentSequence)
        ensures
            r@ == (self@.0, flat_segments(self@.0, self@.1)),
    {
        SegmentSequence::create_from_segments(self.delimiter.as_str(), self.strings)
    }
}

/// Splitting a value on a delimiter and joining the segments back with it
/// gives the value: `create(d, v).to_string()` is `v`.
pub proof fn lemma_split_segments_join(delimiter: Seq<char>, value: Seq<char>)
    ensures
        join(split_segments_spec(delimiter, value), delimiter) == value,
{
    if delimiter.len() == 0 {
        crate::text::lemma_chars_join(value);
        assert(delimiter == Seq::<char>::empty());
    } else {
        crate::text::lemma_split_join(value, delimiter);
    }
}

/// The number of non-overlapping occurrences of the non-empty `pat` in `s`
/// found scanning from `start` left to right (`str::matches` counted).
pub open spec fn match_count_from(s: Seq<char>, pat: Seq<char>, start: int) -> nat
    decreases s.len() - start,
{
    if start < 0 || start > s.len() || pat.len() == 0 {
        0
    } else {
        match find_at(s, pat, start) {
            None => 0,
            Some(i) => {
                proof {
                    lemma_find_at(s, pat, start);
                }
                1 + match_count_from(s, pat, i + pat.len())
            },
        }
    }
}

/// Splitting from `start` gives one piece more than the occurrences found
/// from there.
proof fn lemma_split_from_len(s: Seq<char>, pat: Seq<char>, start: int)
    requires
        pat.len() > 0,
        0 <= start <= s.len(),
    ensures
        split_from(s, pat, start).len() == match_count_from(s, pat, start) + 1,
    decreases s.len() - start,
{
    lemma_find_at(s, pat, start);
    match find_at(s, pat, start) {
        None => {},
        Some(i) => {
            lemma_split_from_len(s, pat, i + pat.len());
        },
    }
}

/// `create(d, v)` with a non-empty delimiter: its text is `v` again, and it
/// has one segment more than `v` has occurrences of `d`.
pub proof fn lemma_create_segments(delimiter: Seq<char>, value: Seq<char>)
    requires
        delimiter.len() > 0,
    ensures
        join(split_segments_spec(delimiter, value), delimiter) == value,
        split_segments_spec(delimiter, value).len() == match_count_from(value, delimiter, 0) + 1,
{
    lemma_split_segments_join(delimiter, value);
    lemma_split_from_len(value, delimiter, 0);
}

/// The length of a segment sequence is the UTF-8 length of its text: what
/// `length` returns is the number of bytes of what `to_string` returns.
pub proof fn lemma_length_is_text_length(seq: SegmentSequence, text: Seq<char>, length: nat)
    requires
        text == seq.joined(),
        length == utf8_len(seq.joined()),
    ensures
        length == utf8_len(text),
        seq@.1.len() == 0 ==> length == 0,
{
    if seq@.1.len() == 0 {
        assert(seq.joined() == join(Seq::<Seq<char>>::empty(), seq@.0));
        assert(join(Seq::<Seq<char>>::empty(), seq@.0) =~= Seq::<char>::empty());
    }
}

} // verus!
