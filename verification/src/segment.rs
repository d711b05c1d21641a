use vstd::prelude::*;
use vstd::relations::sorted_by;

verus! {

/// A token of the transcribed text.
#[derive(Debug)]
pub struct Token {
    pub text: String,
    /// The bits (`f32::to_bits`) of the probability the model gave this token.
    pub probability_bits: u32,
}

/// A part of the transcibed text.
/// This is typically 1-2 sentence fragments.
#[derive(Debug)]
pub struct Segment {
    /// The text of the segment.
    /// This may or may not be a full sentence.
    pub text: String,
    pub tokens: Vec<Token>,
    /// The bits (`f32::to_bits`) of the mean probability of the segment's tokens.
    pub probability_bits: u32,
    pub timestamp: Timestamp,
}

/// A silent segment in the audio.
#[derive(Debug, Clone, Copy)]
pub struct Silence {
    pub timestamp: Timestamp,
}

/// A timestamp, counted in samples of the 16 kHz audio from the start of the stream.
#[derive(Debug, Clone, Copy)]
pub struct Timestamp {
    /// The start of the segment.
    pub start: i128,
    /// The end of the segment.
    pub end: i128,
}

impl Timestamp {
    /// The length of the segment, in samples.
    pub fn duration(&self) -> (res: i128)
        requires
            i128::MIN <= self.end - self.start <= i128::MAX,
        ensures
            res == self.end - self.start,
    {
        self.end - self.start
    }
}

impl DeepView for Token {
    type V = (Seq<char>, u32);

    open spec fn deep_view(&self) -> (Seq<char>, u32) {
        (self.text@, self.probability_bits)
    }
}

/// What a segment holds, as plain values.
#[verifier::ext_equal]
pub struct SegmentView {
    pub text: Seq<char>,
    pub tokens: Seq<(Seq<char>, u32)>,
    pub probability_bits: u32,
    pub timestamp: Timestamp,
}

impl DeepView for Segment {
    type V = SegmentView;

    open spec fn deep_view(&self) -> SegmentView {
        SegmentView {
            text: self.text@,
            tokens: self.tokens.deep_view(),
            probability_bits: self.probability_bits,
            timestamp: self.timestamp,
        }
    }
}

impl Clone for Token {
    fn clone(&self) -> (res: Self)
        ensures
            res == *self,
    {
        Token { text: self.text.clone(), probability_bits: self.probability_bits }
    }
}

/// A copy of `v`, element by element.
fn clone_tokens(v: &Vec<Token>) -> (res: Vec<Token>)
    ensures
        res@ == v@,
        res.deep_view() == v.deep_view(),
{
    let mut res: Vec<Token> = Vec::new();
    let mut i: usize = 0;
    while i < v.len()
        invariant
            i <= v.len(),
            res@ == v@.subrange(0, i as int),
        decreases v.len() - i,
    {
        res.push(v[i].clone());
        i = i + 1;
    }
    assert(v@.subrange(0, v.len() as int) =~= v@);
    assert(res.deep_view() =~= v.deep_view());
    res
}

impl Clone for Segment {
    fn clone(&self) -> (res: Self)
        ensures
            res.deep_view() == self.deep_view(),
    {
        Segment {
            text: self.text.clone(),
            tokens: clone_tokens(&self.tokens),
            probability_bits: self.probability_bits,
            timestamp: self.timestamp,
        }
    }
}

/// A copy of `v`, element by element.
fn clone_segments(v: &Vec<Segment>) -> (res: Vec<Segment>)
    ensures
        res.deep_view() == v.deep_view(),
{
    let mut res: Vec<Segment> = Vec::new();
    let mut i: usize = 0;
    while i < v.len()
        invariant
            i <= v.len(),
            res.deep_view() =~= v.deep_view().subrange(0, i as int),
        decreases v.len() - i,
    {
        let ghost before = res.deep_view();
        let c = v[i].clone();
        res.push(c);
        assert(res.deep_view() =~= before.push(v.deep_view()[i as int]));
        i = i + 1;
    }
    assert(res.deep_view() =~= v.deep_view());
    res
}

/// A copy of `v`, element by element.
fn clone_silences(v: &Vec<Silence>) -> (res: Vec<Silence>)
    ensures
        res@ == v@,
{
    let mut res: Vec<Silence> = Vec::new();
    let mut i: usize = 0;
    while i < v.len()
        invariant
            i <= v.len(),
            res@ == v@.subrange(0, i as int),
        decreases v.len() - i,
    {
        res.push(v[i].clone());
        i = i + 1;
    }
    assert(v@.subrange(0, v.len() as int) =~= v@);
    res
}

/// The transcription of a stream of audio so far.
#[derive(Debug)]
pub struct Transcription {
    /// Segments that will not change any more.
    pub finalized: Vec<Segment>,
    /// Silences that have ended.
    pub silences: Vec<Silence>,
    /// Segments that may still change as more audio arrives.
    pub processing: Vec<Segment>,
    /// The silence that is going on at the end of the audio, if any.
    pub current_silence: Option<Silence>,
    /// The text of the finalized segments.
    pub full_text: String,
    /// Whether the transcription has been finished.
    pub is_complete: bool,
}

/// What a transcription holds, as plain values.
#[verifier::ext_equal]
pub struct TranscriptionView {
    pub finalized: Seq<SegmentView>,
    pub silences: Seq<Silence>,
    pub processing: Seq<SegmentView>,
    pub current_silence: Option<Silence>,
    pub full_text: Seq<char>,
    pub is_complete: bool,
}

impl View for Transcription {
    type V = TranscriptionView;

    open spec fn view(&self) -> TranscriptionView {
        TranscriptionView {
            finalized: self.finalized.deep_view(),
            silences: self.silences@,
            processing: self.processing.deep_view(),
            current_silence: self.current_silence,
            full_text: self.full_text@,
            is_complete: self.is_complete,
        }
    }
}

impl Clone for Transcription {
    fn clone(&self) -> (res: Self)
        ensures
            res@ == self@,
    {
        let current_silence = match &self.current_silence {
            Some(s) => Some(s.clone()),
            None => None,
        };
        Transcription {
            finalized: clone_segments(&self.finalized),
            silences: clone_silences(&self.silences),
            processing: clone_segments(&self.processing),
            current_silence,
            full_text: self.full_text.clone(),
            is_complete: self.is_complete,
        }
    }
}

/// The transcription of no audio.
pub open spec fn empty_transcription() -> TranscriptionView {
    TranscriptionView {
        finalized: Seq::empty(),
        silences: Seq::empty(),
        processing: Seq::empty(),
        current_silence: None,
        full_text: Seq::empty(),
        is_complete: false,
    }
}

impl Default for Transcription {
    /// An empty transcription that is not complete.
    fn default() -> (res: Self)
        ensures
            res@ == empty_transcription(),
    {
        let res = Transcription {
            finalized: Vec::new(),
            silences: Vec::new(),
            processing: Vec::new(),
            current_silence: None,
            full_text: String::new(),
            is_complete: false,
        };
        assert(res@ =~= empty_transcription());
        res
    }
}

/// A line of a transcription: a segment, finalized or not, or a silence.
#[derive(Debug, Clone, Copy)]
pub enum Line<'a> {
    Complete(&'a Segment),
    Partial(&'a Segment),
    Silence(&'a Silence),
}

/// The text that stands for a silence.
pub open spec fn silence_text() -> Seq<char> {
    "[Silence]"@
}

impl<'a> Line<'a> {
    /// The timestamp of what the line shows.
    pub open spec fn stamp(self) -> Timestamp {
        match self {
            Line::Complete(segment) => segment.timestamp,
            Line::Partial(segment) => segment.timestamp,
            Line::Silence(silence) => silence.timestamp,
        }
    }

    /// The text of the line: that of its segment, or `[Silence]`.
    pub fn text(&self) -> (res: &'a str)
        ensures
            res@ == match *self {
                Line::Complete(segment) => segment.text@,
                Line::Partial(segment) => segment.text@,
                Line::Silence(_) => silence_text(),
            },
    {
        match *self {
            Line::Complete(segment) => segment.text.as_str(),
            Line::Partial(segment) => segment.text.as_str(),
            Line::Silence(_) => "[Silence]",
        }
    }

    /// The timestamp of what the line shows.
    pub fn timestamp(&self) -> (res: &'a Timestamp)
        ensures
            *res == self.stamp(),
    {
        match *self {
            Line::Complete(segment) => &segment.timestamp,
            Line::Partial(segment) => &segment.timestamp,
            Line::Silence(silence) => &silence.timestamp,
        }
    }
}

/// Orders lines by the start of their timestamps.
pub open spec fn starts_no_later<'a>(a: Line<'a>, b: Line<'a>) -> bool {
    a.stamp().start <= b.stamp().start
}

/// `x` inserted into `s` after every element that starts no later than `x`, scanning from
/// the back: where `s` is ordered by start, `x` goes after all lines that start with it or
/// before it.
pub open spec fn insert_by_start<'a>(s: Seq<Line<'a>>, x: Line<'a>) -> Seq<Line<'a>>
    decreases s.len(),
{
    if s.len() == 0 {
        seq![x]
    } else if starts_no_later(s.last(), x) {
        s.push(x)
    } else {
        insert_by_start(s.drop_last(), x).push(s.last())
    }
}

/// The lines of `s` in a stable order by start: lines that start together keep the order
/// they have in `s`.
pub open spec fn sort_by_start<'a>(s: Seq<Line<'a>>) -> Seq<Line<'a>>
    decreases s.len(),
{
    if s.len() == 0 {
        s
    } else {
        insert_by_start(sort_by_start(s.drop_last()), s.last())
    }
}

/// The finalized segments, the segments being processed and the past silences of `t`, in
/// that order, as lines.
pub open spec fn unordered_lines<'a>(t: &'a Transcription) -> Seq<Line<'a>> {
    Seq::new(t.finalized@.len(), |i: int| Line::Complete(&t.finalized@[i])) + Seq::new(
        t.processing@.len(),
        |i: int| Line::Partial(&t.processing@[i]),
    ) + Seq::new(t.silences@.len(), |i: int| Line::Silence(&t.silences@[i]))
}

/// The lines of `t`: its segments and past silences in a stable order by start, then the
/// silence that is going on, if any.
pub open spec fn transcription_lines<'a>(t: &'a Transcription) -> Seq<Line<'a>> {
    let ordered = sort_by_start(unordered_lines(t));
    match t.current_silence {
        Some(silence) => ordered.push(Line::Silence(&silence)),
        None => ordered,
    }
}

/// Inserting `x` at the place where every later element starts after `x` and the one before
/// does not is what `insert_by_start` does.
proof fn lemma_insert_at<'a>(s: Seq<Line<'a>>, x: Line<'a>, j: int)
    requires
        0 <= j <= s.len(),
        forall|k: int| j <= k < s.len() ==> !starts_no_later(#[trigger] s[k], x),
        j == 0 || starts_no_later(s[j - 1], x),
    ensures
        insert_by_start(s, x) == s.insert(j, x),
    decreases s.len(),
{
    if s.len() == 0 {
        assert(s.insert(j, x) =~= seq![x]);
    } else if j == s.len() {
        assert(s.insert(j, x) =~= s.push(x));
    } else {
        let last = s.last();
        assert(!starts_no_later(s[s.len() - 1], x));
        lemma_insert_at(s.drop_last(), x, j);
        assert(s.drop_last().insert(j, x).push(last) =~= s.insert(j, x));
    }
}

/// Inserting keeps every start at or below a bound that `x` and all of `s` keep.
proof fn lemma_insert_bounded<'a>(s: Seq<Line<'a>>, x: Line<'a>, bound: i128)
    requires
        forall|k: int| 0 <= k < s.len() ==> (#[trigger] s[k]).stamp().start <= bound,
        x.stamp().start <= bound,
    ensures
        forall|k: int|
            0 <= k < insert_by_start(s, x).len() ==> (#[trigger] insert_by_start(s, x)[k]).stamp().start
                <= bound,
    decreases s.len(),
{
    if s.len() == 0 {
        assert(insert_by_start(s, x) =~= seq![x]);
    } else if starts_no_later(s.last(), x) {
        assert(insert_by_start(s, x) =~= s.push(x));
    } else {
        lemma_insert_bounded(s.drop_last(), x, bound);
        let r0 = insert_by_start(s.drop_last(), x);
        assert(insert_by_start(s, x) =~= r0.push(s.last()));
        assert(s.last() == s[s.len() - 1]);
    }
}

/// Inserting into lines ordered by start keeps them ordered, and adds exactly `x`.
proof fn lemma_insert_sorted<'a>(s: Seq<Line<'a>>, x: Line<'a>)
    requires
        sorted_by(s, |a: Line<'a>, b: Line<'a>| starts_no_later(a, b)),
    ensures
        sorted_by(insert_by_start(s, x), |a: Line<'a>, b: Line<'a>| starts_no_later(a, b)),
        insert_by_start(s, x).to_multiset() =~= s.to_multiset().insert(x),
        insert_by_start(s, x).len() == s.len() + 1,
    decreases s.len(),
{
    broadcast use vstd::seq_lib::group_to_multiset_ensures;

    let leq = |a: Line<'a>, b: Line<'a>| starts_no_later(a, b);
    if s.len() == 0 {
        assert(seq![x] =~= Seq::<Line<'a>>::empty().push(x));
    } else if starts_no_later(s.last(), x) {
        let r = s.push(x);
        assert forall|i: int, j: int| 0 <= i < j < r.len() implies leq(r[i], r[j]) by {
            if j == s.len() {
                assert(leq(s[i], s[s.len() - 1]) || i == s.len() - 1);
            }
        }
    } else {
        let last = s.last();
        let init = s.drop_last();
        assert(sorted_by(init, leq));
        lemma_insert_sorted(init, x);
        assert forall|k: int| 0 <= k < init.len() implies (#[trigger] init[k]).stamp().start
            <= last.stamp().start by {
            assert(leq(s[k], s[s.len() - 1]));
        }
        lemma_insert_bounded(init, x, last.stamp().start);
        let r0 = insert_by_start(init, x);
        let r = r0.push(last);
        assert forall|i: int, j: int| 0 <= i < j < r.len() implies leq(r[i], r[j]) by {
            if j == r0.len() {
                assert(r0[i].stamp().start <= last.stamp().start);
            } else {
                assert(leq(r0[i], r0[j]));
            }
        }
        assert(s =~= init.push(last));
    }
}

/// The lines of `s` in a stable order by start are ordered by start and are exactly the
/// lines of `s`, each as often as there.
pub proof fn lemma_sort_by_start<'a>(s: Seq<Line<'a>>)
    ensures
        sorted_by(sort_by_start(s), |a: Line<'a>, b: Line<'a>| starts_no_later(a, b)),
        sort_by_start(s).to_multiset() =~= s.to_multiset(),
        sort_by_start(s).len() == s.len(),
    decreases s.len(),
{
    broadcast use vstd::seq_lib::group_to_multiset_ensures;

    if s.len() > 0 {
        lemma_sort_by_start(s.drop_last());
        lemma_insert_sorted(sort_by_start(s.drop_last()), s.last());
        assert(s =~= s.drop_last().push(s.last()));
    }
}

/// The lines of `s` that start at `start`, in the order they have in `s`.
pub open spec fn starting_at<'a>(s: Seq<Line<'a>>, start: i128) -> Seq<Line<'a>>
    decreases s.len(),
{
    if s.len() == 0 {
        s
    } else {
        let before = starting_at(s.drop_last(), start);
        if s.last().stamp().start == start {
            before.push(s.last())
        } else {
            before
        }
    }
}

/// Inserting `x` adds it after the lines that start with it, and changes nothing among the
/// lines that start elsewhere.
proof fn lemma_insert_stable<'a>(s: Seq<Line<'a>>, x: Line<'a>, start: i128)
    ensures
        starting_at(insert_by_start(s, x), start) == if x.stamp().start == start {
            starting_at(s, start).push(x)
        } else {
            starting_at(s, start)
        },
    decreases s.len(),
{
    if s.len() == 0 {
        assert(seq![x].drop_last() =~= s);
    } else if starts_no_later(s.last(), x) {
        assert(s.push(x).drop_last() =~= s);
    } else {
        let init = s.drop_last();
        lemma_insert_stable(init, x, start);
        let r0 = insert_by_start(init, x);
        assert(r0.push(s.last()).drop_last() =~= r0);
    }
}

/// The order by start is stable: the lines that start at the same time come out in the
/// order they have in `s`.
pub proof fn lemma_sort_by_start_stable<'a>(s: Seq<Line<'a>>, start: i128)
    ensures
        starting_at(sort_by_start(s), start) == starting_at(s, start),
    decreases s.len(),
{
    if s.len() > 0 {
        lemma_sort_by_start_stable(s.drop_last(), start);
        lemma_insert_stable(sort_by_start(s.drop_last()), s.last(), start);
    }
}

/// The lines of a transcription, but for the silence going on at the end, are ordered by
/// start and are exactly its segments and past silences; the silence going on, if any,
/// comes last. Lines that start at the same time keep the order of the finalized segments,
/// then the segments being processed, then the past silences.
pub proof fn lemma_lines_ordered<'a>(t: &'a Transcription)
    ensures
        forall|start: i128|
            #[trigger] starting_at(transcription_lines(t).subrange(0, unordered_lines(t).len() as int), start)
                == starting_at(unordered_lines(t), start),
        ({
            let lines = transcription_lines(t);
            let n = unordered_lines(t).len();
            &&& sorted_by(lines.subrange(0, n as int), |a: Line<'a>, b: Line<'a>| starts_no_later(a, b))
            &&& lines.subrange(0, n as int).to_multiset() =~= unordered_lines(t).to_multiset()
            &&& lines.len() == n + if t.current_silence is Some { 1int } else { 0int }
            &&& t.current_silence matches Some(s) ==> lines[n as int] == Line::Silence(&s)
        }),
{
    let ordered = sort_by_start(unordered_lines(t));
    lemma_sort_by_start(unordered_lines(t));
    let n = unordered_lines(t).len();
    assert forall|start: i128|
        #[trigger] starting_at(transcription_lines(t).subrange(0, n as int), start) == starting_at(
            unordered_lines(t),
            start,
        ) by {
        lemma_sort_by_start_stable(unordered_lines(t), start);
        if let Some(s) = t.current_silence {
            assert(ordered.push(Line::Silence(&s)).subrange(0, n as int) =~= ordered);
        } else {
            assert(ordered.subrange(0, n as int) =~= ordered);
        }
    }
    if let Some(s) = t.current_silence {
        assert(ordered.push(Line::Silence(&s)).subrange(0, n as int) =~= ordered);
    } else {
        assert(ordered.subrange(0, n as int) =~= ordered);
    }
}

impl Transcription {
    /// The lines of this transcription: the finalized segments, the segments being
    /// processed and the past silences in a stable order by start time, then the silence
    /// that is going on, if any.
    pub fn lines<'a>(&'a self) -> (res: Vec<Line<'a>>)
        ensures
            res@ == transcription_lines(self),
    {
        let mut all: Vec<Line<'a>> = Vec::new();
        let mut i: usize = 0;
        while i < self.finalized.len()
            invariant
                i <= self.finalized@.len(),
                all@ == Seq::new(i as nat, |k: int| Line::Complete(&self.finalized@[k])),
            decreases self.finalized.len() - i,
        {
            all.push(Line::Complete(&self.finalized[i]));
            i = i + 1;
            assert(all@ =~= Seq::new(i as nat, |k: int| Line::Complete(&self.finalized@[k])));
        }
        let ghost done = all@;
        let mut i: usize = 0;
        while i < self.processing.len()
            invariant
                i <= self.processing@.len(),
                all@ == done + Seq::new(i as nat, |k: int| Line::Partial(&self.processing@[k])),
            decreases self.processing.len() - i,
        {
            all.push(Line::Partial(&self.processing[i]));
            i = i + 1;
            assert(all@ =~= done + Seq::new(i as nat, |k: int| Line::Partial(&self.processing@[k])));
        }
        let ghost done = all@;
        let mut i: usize = 0;
        while i < self.silences.len()
            invariant
                i <= self.silences@.len(),
                all@ == done + Seq::new(i as nat, |k: int| Line::Silence(&self.silences@[k])),
            decreases self.silences.len() - i,
        {
            all.push(Line::Silence(&self.silences[i]));
            i = i + 1;
            assert(all@ =~= done + Seq::new(i as nat, |k: int| Line::Silence(&self.silences@[k])));
        }
        assert(all@ =~= unordered_lines(self));

        let mut lines: Vec<Line<'a>> = Vec::new();
        let mut i: usize = 0;
        while i < all.len()
            invariant
                i <= all@.len(),
                lines@ == sort_by_start(all@.subrange(0, i as int)),
            decreases all.len() - i,
        {
            let line = all[i];
            let start = line.timestamp().start;
            let mut j: usize = lines.len();
            while j > 0 && lines[j - 1].timestamp().start > start
                invariant
                    j <= lines@.len(),
                    start == line.stamp().start,
                    forall|k: int| j <= k < lines@.len() ==> !starts_no_later(#[trigger] lines@[k], line),
                decreases j,
            {
                j = j - 1;
            }
            proof {
                lemma_insert_at(lines@, line, j as int);
                let prefix = all@.subrange(0, i as int + 1);
                assert(prefix.drop_last() =~= all@.subrange(0, i as int));
            }
            lines.insert(j, line);
            i = i + 1;
        }
        assert(all@.subrange(0, all@.len() as int) =~= all@);
        if let Some(silence) = &self.current_silence {
            lines.push(Line::Silence(silence));
        }
        lines
    }
}

} // verus!
