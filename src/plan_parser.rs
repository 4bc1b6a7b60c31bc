//! Streaming classifier that splits assistant text into normal prose and
//! `<proposed_plan>` regions.
//!
//! The behaviour is stated character by character by [`classify_step`]; a call
//! of [`ProposedPlanParser::parse`] produces exactly the events that
//! [`classify`] gives for its chunk, grouped into coalesced segments.
use vstd::prelude::*;
use crate::text::{is_white_space, is_white_space_char, push_char, string_from_chars, trim_end, trim_start};

verus! {

pub const OPEN_TAG: &'static str = "<proposed_plan>";

pub const CLOSE_TAG: &'static str = "</proposed_plan>";

#[derive(Clone, Copy, Debug, PartialEq, Eq, Structural)]
pub enum AgentMessageDeltaSegment {
    Normal,
    ProposedPlanStart,
    ProposedPlanDelta,
    ProposedPlanEnd,
}

#[derive(Clone, Debug, PartialEq, Eq)]
pub struct ParsedAgentDelta {
    pub segment: AgentMessageDeltaSegment,
    pub delta: String,
}

/// One classified character of output, or a plan boundary.
pub enum DeltaEvent {
    /// A character of text, with whether it stands inside a plan.
    Text((bool, char)),
    PlanStart,
    PlanEnd,
}

/// The abstract state of the classifier.
pub struct PlanParserState {
    pub in_plan: bool,
    pub detect_tag: bool,
    pub line: Seq<char>,
}

pub open spec fn initial_state() -> PlanParserState {
    PlanParserState { in_plan: false, detect_tag: true, line: Seq::empty() }
}

pub open spec fn text_events(in_plan: bool, s: Seq<char>) -> Seq<DeltaEvent> {
    s.map_values(|c: char| DeltaEvent::Text((in_plan, c)))
}

pub open spec fn is_text_segment(k: AgentMessageDeltaSegment) -> bool {
    k == AgentMessageDeltaSegment::Normal || k == AgentMessageDeltaSegment::ProposedPlanDelta
}

/// The events that one emitted segment stands for.
pub open spec fn segment_events(k: AgentMessageDeltaSegment, delta: Seq<char>) -> Seq<DeltaEvent> {
    match k {
        AgentMessageDeltaSegment::Normal => text_events(false, delta),
        AgentMessageDeltaSegment::ProposedPlanDelta => text_events(true, delta),
        AgentMessageDeltaSegment::ProposedPlanStart => seq![DeltaEvent::PlanStart],
        AgentMessageDeltaSegment::ProposedPlanEnd => seq![DeltaEvent::PlanEnd],
    }
}

/// The events that a list of emitted segments stands for, in order.
pub open spec fn events_of(segs: Seq<ParsedAgentDelta>) -> Seq<DeltaEvent>
    decreases segs.len(),
{
    if segs.len() == 0 {
        Seq::empty()
    } else {
        events_of(segs.drop_last()) + segment_events(segs.last().segment, segs.last().delta@)
    }
}

/// Text segments are never empty, boundary segments always are, and no two
/// adjacent text segments share a classification.
#[verifier::opaque]
pub open spec fn coalesced(segs: Seq<ParsedAgentDelta>) -> bool {
    &&& forall|i: int|
        0 <= i < segs.len() ==> (is_text_segment(segs[i].segment) <==> segs[i].delta@.len() > 0)
    &&& forall|i: int|
        0 <= i < segs.len() - 1 ==> !(is_text_segment(segs[i].segment) && segs[i].segment
            == segs[i + 1].segment)
}

/// Whether `slug` can still grow into one of the two tags.
pub open spec fn is_tag_prefix_spec(slug: Seq<char>) -> bool {
    slug.is_prefix_of(OPEN_TAG@) || slug.is_prefix_of(CLOSE_TAG@)
}

/// What a completed buffered line (ending in a newline) turns into.
pub open spec fn classify_line(in_plan: bool, line: Seq<char>) -> (PlanParserState, Seq<DeltaEvent>) {
    let slug = trim_end(trim_start(line.drop_last()));
    if slug == OPEN_TAG@ {
        if in_plan {
            (PlanParserState { in_plan: true, detect_tag: true, line: Seq::empty() }, Seq::empty())
        } else {
            (
                PlanParserState { in_plan: true, detect_tag: true, line: Seq::empty() },
                seq![DeltaEvent::PlanStart],
            )
        }
    } else if slug == CLOSE_TAG@ {
        if in_plan {
            (
                PlanParserState { in_plan: false, detect_tag: true, line: Seq::empty() },
                seq![DeltaEvent::PlanEnd],
            )
        } else {
            (PlanParserState { in_plan: false, detect_tag: true, line: Seq::empty() }, Seq::empty())
        }
    } else {
        (PlanParserState { in_plan, detect_tag: true, line: Seq::empty() }, text_events(in_plan, line))
    }
}

/// One character fed to the classifier: the next state and the events it emits.
pub open spec fn classify_step(st: PlanParserState, c: char) -> (PlanParserState, Seq<DeltaEvent>) {
    if st.detect_tag {
        let line = st.line.push(c);
        if c == '\n' {
            classify_line(st.in_plan, line)
        } else {
            let slug = trim_start(line);
            if slug.len() == 0 || is_tag_prefix_spec(slug) {
                (PlanParserState { in_plan: st.in_plan, detect_tag: true, line }, Seq::empty())
            } else {
                (
                    PlanParserState { in_plan: st.in_plan, detect_tag: false, line: Seq::empty() },
                    text_events(st.in_plan, line),
                )
            }
        }
    } else {
        (
            PlanParserState { in_plan: st.in_plan, detect_tag: c == '\n', line: st.line },
            text_events(st.in_plan, seq![c]),
        )
    }
}

/// The characters of `s` fed one by one from `st`.
pub open spec fn classify(st: PlanParserState, s: Seq<char>) -> (PlanParserState, Seq<DeltaEvent>)
    decreases s.len(),
{
    if s.len() == 0 {
        (st, Seq::empty())
    } else {
        let (mid, first) = classify(st, s.drop_last());
        let (last_state, last) = classify_step(mid, s.last());
        (last_state, first + last)
    }
}

/// The end of the stream: the undecided line is text, and an open plan is closed.
pub open spec fn classify_finish(st: PlanParserState) -> Seq<DeltaEvent> {
    text_events(st.in_plan, st.line) + if st.in_plan {
        seq![DeltaEvent::PlanEnd]
    } else {
        Seq::empty()
    }
}

pub open spec fn state_wf(st: PlanParserState) -> bool {
    !st.detect_tag ==> st.line.len() == 0
}

pub struct ProposedPlanParser {
    in_plan: bool,
    detect_tag: bool,
    line_buffer: Vec<char>,
}

impl View for ProposedPlanParser {
    type V = PlanParserState;

    closed spec fn view(&self) -> PlanParserState {
        PlanParserState { in_plan: self.in_plan, detect_tag: self.detect_tag, line: self.line_buffer@ }
    }
}


/// The first index in `from..to` from which `line` holds no leading white space.
fn skip_leading_white_space(line: &Vec<char>, from: usize, to: usize) -> (k: usize)
    requires
        from <= to <= line@.len(),
    ensures
        from <= k <= to,
        trim_start(line@.subrange(from as int, to as int)) == line@.subrange(k as int, to as int),
{
    let mut i = from;
    while i < to && is_white_space_char(line[i])
        invariant
            from <= i <= to <= line@.len(),
            trim_start(line@.subrange(from as int, to as int)) == trim_start(
                line@.subrange(i as int, to as int),
            ),
        decreases to - i,
    {
        assert(line@.subrange(i as int, to as int).drop_first() =~= line@.subrange(
            i + 1,
            to as int,
        ));
        i = i + 1;
    }
    i
}

/// The end of `line[from..to]` once its trailing white space is dropped.
fn skip_trailing_white_space(line: &Vec<char>, from: usize, to: usize) -> (k: usize)
    requires
        from <= to <= line@.len(),
    ensures
        from <= k <= to,
        trim_end(line@.subrange(from as int, to as int)) == line@.subrange(from as int, k as int),
{
    let mut j = to;
    while j > from && is_white_space_char(line[j - 1])
        invariant
            from <= j <= to <= line@.len(),
            trim_end(line@.subrange(from as int, to as int)) == trim_end(
                line@.subrange(from as int, j as int),
            ),
        decreases j - from,
    {
        assert(line@.subrange(from as int, j as int).drop_last() =~= line@.subrange(
            from as int,
            j - 1,
        ));
        j = j - 1;
    }
    j
}

/// Whether `line[from..to]` is exactly `tag`.
fn equals_tag(line: &Vec<char>, from: usize, to: usize, tag: &str) -> (r: bool)
    requires
        from <= to <= line@.len(),
    ensures
        r == (line@.subrange(from as int, to as int) == tag@),
{
    let n = tag.unicode_len();
    if to - from != n {
        return false;
    }
    let mut i: usize = 0;
    while i < n
        invariant
            from <= to <= line@.len(),
            to - from == n == tag@.len(),
            i <= n,
            forall|j: int| 0 <= j < i ==> line@[from + j] == tag@[j],
        decreases n - i,
    {
        if line[from + i] != tag.get_char(i) {
            assert(line@.subrange(from as int, to as int)[i as int] != tag@[i as int]);
            return false;
        }
        i = i + 1;
    }
    assert(line@.subrange(from as int, to as int) =~= tag@);
    true
}

/// Whether `line[from..]` is a prefix of `tag`.
fn is_prefix_of_tag(line: &Vec<char>, from: usize, tag: &str) -> (r: bool)
    requires
        from <= line@.len(),
    ensures
        r == line@.subrange(from as int, line@.len() as int).is_prefix_of(tag@),
{
    let n = tag.unicode_len();
    let len = line.len() - from;
    if len > n {
        return false;
    }
    let mut i: usize = 0;
    while i < len
        invariant
            from <= line@.len(),
            len == line@.len() - from,
            from + len == line.len(),
            len <= n == tag@.len(),
            i <= len,
            forall|j: int| 0 <= j < i ==> line@[from + j] == tag@[j],
        decreases len - i,
    {
        if line[from + i] != tag.get_char(i) {
            assert(line@.subrange(from as int, line@.len() as int)[i as int] != tag@.subrange(
                0,
                len as int,
            )[i as int]);
            return false;
        }
        i = i + 1;
    }
    assert(line@.subrange(from as int, line@.len() as int) =~= tag@.subrange(0, len as int));
    true
}

/// Whether `a` is a prefix of `b`.
fn str_is_prefix_of(a: &str, b: &str) -> (r: bool)
    ensures
        r == a@.is_prefix_of(b@),
{
    let n = a.unicode_len();
    let m = b.unicode_len();
    if n > m {
        return false;
    }
    let mut i: usize = 0;
    while i < n
        invariant
            n == a@.len(),
            n <= m == b@.len(),
            i <= n,
            forall|j: int| 0 <= j < i ==> a@[j] == b@[j],
        decreases n - i,
    {
        if a.get_char(i) != b.get_char(i) {
            assert(a@[i as int] != b@.subrange(0, n as int)[i as int]);
            return false;
        }
        i = i + 1;
    }
    assert(a@ =~= b@.subrange(0, n as int));
    true
}

/// Whether `slug` can still grow into one of the two tags.
pub fn is_tag_prefix(slug: &str) -> (r: bool)
    ensures
        r == is_tag_prefix_spec(slug@),
{
    str_is_prefix_of(slug, OPEN_TAG) || str_is_prefix_of(slug, CLOSE_TAG)
}

proof fn lemma_text_events_concat(in_plan: bool, a: Seq<char>, b: Seq<char>)
    ensures
        text_events(in_plan, a + b) == text_events(in_plan, a) + text_events(in_plan, b),
{
    let l = text_events(in_plan, a + b);
    let r = text_events(in_plan, a) + text_events(in_plan, b);
    assert(text_events(in_plan, a).len() == a.len());
    assert((a + b).len() == a.len() + b.len());
    assert(l.len() == a.len() + b.len());
    assert forall|i: int| 0 <= i < l.len() implies l[i] == r[i] by {
        if i < a.len() {
            assert((a + b)[i] == a[i]);
        } else {
            assert(r[i] == text_events(in_plan, b)[i - a.len()]);
            assert((a + b)[i] == b[i - a.len()]);
        }
    }
    assert(l =~= r);
}

proof fn lemma_events_of_push(segs: Seq<ParsedAgentDelta>, x: ParsedAgentDelta)
    ensures
        events_of(segs.push(x)) == events_of(segs) + segment_events(x.segment, x.delta@),
{
    assert(segs.push(x).drop_last() =~= segs);
}

/// What appending `segment` with text `delta` does to `old`: empty text is
/// dropped, text of the same kind as the last segment extends it, anything
/// else is appended.
pub open spec fn segment_pushed(
    old: Seq<ParsedAgentDelta>,
    new: Seq<ParsedAgentDelta>,
    segment: AgentMessageDeltaSegment,
    delta: Seq<char>,
) -> bool {
    if is_text_segment(segment) && delta.len() == 0 {
        new == old
    } else if is_text_segment(segment) && old.len() > 0 && old.last().segment == segment {
        &&& new.len() == old.len()
        &&& new.drop_last() == old.drop_last()
        &&& new.last().segment == segment
        &&& new.last().delta@ == old.last().delta@ + delta
    } else {
        &&& new.len() == old.len() + 1
        &&& new.drop_last() == old
        &&& new.last().segment == segment
        &&& new.last().delta@ == delta
    }
}

/// Appending keeps a list coalesced and adds exactly the events of the
/// appended segment, as long as a boundary segment comes with no text.
proof fn lemma_segment_pushed(
    old: Seq<ParsedAgentDelta>,
    new: Seq<ParsedAgentDelta>,
    segment: AgentMessageDeltaSegment,
    delta: Seq<char>,
)
    requires
        segment_pushed(old, new, segment, delta),
        coalesced(old),
        is_text_segment(segment) || delta.len() == 0,
    ensures
        coalesced(new),
        events_of(new) == events_of(old) + segment_events(segment, delta),
{
    if is_text_segment(segment) && delta.len() == 0 {
        assert(segment_events(segment, delta) =~= Seq::empty());
        assert(events_of(old) + segment_events(segment, delta) =~= events_of(old));
    } else if is_text_segment(segment) && old.len() > 0 && old.last().segment == segment {
        lemma_segment_extended(old, new, segment, delta);
    } else {
        assert(new =~= old.push(new.last()));
        lemma_events_of_push(old, new.last());
        lemma_coalesced_push(old, new.last());
    }
}

#[verifier::rlimit(40)]
proof fn lemma_segment_extended(
    old: Seq<ParsedAgentDelta>,
    new: Seq<ParsedAgentDelta>,
    segment: AgentMessageDeltaSegment,
    delta: Seq<char>,
)
    requires
        coalesced(old),
        is_text_segment(segment),
        old.len() > 0,
        old.last().segment == segment,
        new.len() == old.len(),
        new.drop_last() == old.drop_last(),
        new.last().segment == segment,
        new.last().delta@ == old.last().delta@ + delta,
    ensures
        coalesced(new),
        events_of(new) == events_of(old) + segment_events(segment, delta),
{
    let prefix = old.drop_last();
    let last_old = old.last();
    let last = new.last();
    lemma_coalesced_tail(old);
    assert(old =~= prefix.push(last_old));
    assert(new =~= prefix.push(last));
    lemma_events_of_push(prefix, last_old);
    lemma_events_of_push(prefix, last);
    lemma_text_events_concat(
        segment == AgentMessageDeltaSegment::ProposedPlanDelta,
        last_old.delta@,
        delta,
    );
    assert(events_of(new) =~= events_of(old) + segment_events(segment, delta));
    lemma_coalesced_replace_last(old, last);
    assert(new =~= old.update(old.len() - 1, last));
}

/// Appends a segment, merging it into the last one when both are text of the
/// same classification; empty text is dropped.
fn push_segment(segments: &mut Vec<ParsedAgentDelta>, segment: AgentMessageDeltaSegment, delta: String)
    ensures
        segment_pushed(old(segments)@, final(segments)@, segment, delta@),
        coalesced(old(segments)@) && (is_text_segment(segment) || delta@.len() == 0) ==> coalesced(
            final(segments)@,
        ) && events_of(final(segments)@) == events_of(old(segments)@) + segment_events(
            segment,
            delta@,
        ),
{
    let ghost old_segs = segments@;
    let ghost d = delta@;
    let is_text = segment == AgentMessageDeltaSegment::Normal || segment
        == AgentMessageDeltaSegment::ProposedPlanDelta;
    if delta.as_str().is_empty() && is_text {
        return;
    }
    let n = segments.len();
    if n > 0 && is_text && segments[n - 1].segment == segment {
        let mut last = segments.pop().unwrap();
        last.delta.append(delta.as_str());
        segments.push(last);
        assert(segments@.drop_last() =~= old_segs.drop_last());
    } else {
        segments.push(ParsedAgentDelta { segment, delta });
        assert(segments@.drop_last() =~= old_segs);
    }
    proof {
        if coalesced(old_segs) && (is_text_segment(segment) || d.len() == 0) {
            lemma_segment_pushed(old_segs, segments@, segment, d);
        }
    }
}

proof fn lemma_coalesced_push(segs: Seq<ParsedAgentDelta>, x: ParsedAgentDelta)
    requires
        coalesced(segs),
        is_text_segment(x.segment) <==> x.delta@.len() > 0,
        segs.len() > 0 ==> !(is_text_segment(x.segment) && segs.last().segment == x.segment),
    ensures
        coalesced(segs.push(x)),
{
    reveal(coalesced);
    let t = segs.push(x);
    assert forall|i: int| 0 <= i < t.len() - 1 implies !(is_text_segment(t[i].segment)
        && t[i].segment == t[i + 1].segment) by {
        assert(t[i] == segs[i]);
    }
}

proof fn lemma_coalesced_replace_last(segs: Seq<ParsedAgentDelta>, x: ParsedAgentDelta)
    requires
        coalesced(segs),
        segs.len() > 0,
        x.segment == segs.last().segment,
        is_text_segment(x.segment),
        x.delta@.len() > 0,
    ensures
        coalesced(segs.update(segs.len() - 1, x)),
{
    reveal(coalesced);
    let t = segs.update(segs.len() - 1, x);
    assert forall|i: int| 0 <= i < t.len() implies (is_text_segment(t[i].segment)
        <==> t[i].delta@.len() > 0) by {
        if i < t.len() - 1 {
            assert(t[i] == segs[i]);
        }
    }
    assert forall|i: int| 0 <= i < t.len() - 1 implies !(is_text_segment(t[i].segment)
        && t[i].segment == t[i + 1].segment) by {
        assert(t[i] == segs[i]);
        assert(t[i + 1].segment == segs[i + 1].segment);
    }
}

impl ProposedPlanParser {
    pub closed spec fn wf(&self) -> bool {
        state_wf(self@)
    }

    pub fn new() -> (r: Self)
        ensures
            r.wf(),
            r@ == initial_state(),
    {
        ProposedPlanParser { in_plan: false, detect_tag: true, line_buffer: Vec::new() }
    }

    fn push_text(&self, text: String, segments: &mut Vec<ParsedAgentDelta>)
        requires
            coalesced(old(segments)@),
        ensures
            coalesced(final(segments)@),
            events_of(final(segments)@) == events_of(old(segments)@) + text_events(self.in_plan, text@),
    {
        let segment = if self.in_plan {
            AgentMessageDeltaSegment::ProposedPlanDelta
        } else {
            AgentMessageDeltaSegment::Normal
        };
        push_segment(segments, segment, text);
    }

    /// Resolves the buffered line, which ends in a newline: a bare tag line
    /// opens or closes a plan, anything else is text.
    fn finish_line(&mut self, segments: &mut Vec<ParsedAgentDelta>)
        requires
            old(self).detect_tag,
            old(self)@.line.len() > 0,
            coalesced(old(segments)@),
        ensures
            final(self).wf(),
            final(self)@ == classify_line(old(self)@.in_plan, old(self)@.line).0,
            coalesced(final(segments)@),
            events_of(final(segments)@) == events_of(old(segments)@) + classify_line(
                old(self)@.in_plan,
                old(self)@.line,
            ).1,
    {
        let mut line: Vec<char> = Vec::new();
        std::mem::swap(&mut line, &mut self.line_buffer);
        let end = line.len() - 1;
        let start = skip_leading_white_space(&line, 0, end);
        let stop = skip_trailing_white_space(&line, start, end);
        proof {
            assert(line@.drop_last() =~= line@.subrange(0, end as int));
        }
        if equals_tag(&line, start, stop, OPEN_TAG) {
            if !self.in_plan {
                push_segment(segments, AgentMessageDeltaSegment::ProposedPlanStart, String::new());
                self.in_plan = true;
            } else {
                assert(events_of(segments@) + Seq::empty() =~= events_of(segments@));
            }
            self.detect_tag = true;
            return;
        }
        if equals_tag(&line, start, stop, CLOSE_TAG) {
            if self.in_plan {
                push_segment(segments, AgentMessageDeltaSegment::ProposedPlanEnd, String::new());
                self.in_plan = false;
            } else {
                assert(events_of(segments@) + Seq::empty() =~= events_of(segments@));
            }
            self.detect_tag = true;
            return;
        }
        self.detect_tag = true;
        let text = string_from_chars(&line);
        self.push_text(text, segments);
    }

    /// Classifies one chunk of streamed text. Text segments of one call are
    /// coalesced; a line that may still be a tag line is held back.
    pub fn parse(&mut self, delta: &str) -> (segments: Vec<ParsedAgentDelta>)
        requires
            old(self).wf(),
        ensures
            final(self).wf(),
            final(self)@ == classify(old(self)@, delta@).0,
            events_of(segments@) == classify(old(self)@, delta@).1,
            coalesced(segments@),
    {
        let ghost st0 = self@;
        let mut segments: Vec<ParsedAgentDelta> = Vec::new();
        let mut run = String::new();
        proof {
            reveal(coalesced);
            assert(delta@.take(0) =~= Seq::<char>::empty());
            assert(events_of(segments@) + text_events(self.in_plan, run@) =~= Seq::empty());
        }
        for ch in it: delta.chars()
            invariant
                it.seq() == delta@,
                self.wf(),
                coalesced(segments@),
                run@.len() > 0 ==> !self.detect_tag,
                self@ == classify(st0, delta@.take(it.index() as int)).0,
                events_of(segments@) + text_events(self.in_plan, run@) == classify(
                    st0,
                    delta@.take(it.index() as int),
                ).1,
        {
            let ghost k = it.index() as int;
            let ghost before = classify(st0, delta@.take(k));
            proof {
                assert(delta@.take(k + 1).drop_last() =~= delta@.take(k));
                assert(delta@.take(k + 1).last() == ch);
            }
            if self.detect_tag {
                assert(run@ =~= Seq::<char>::empty());
                assert(events_of(segments@) + text_events(self.in_plan, run@) =~= events_of(segments@));
                self.line_buffer.push(ch);
                if ch == '\n' {
                    self.finish_line(&mut segments);
                } else {
                    let len = self.line_buffer.len();
                    let start = skip_leading_white_space(&self.line_buffer, 0, len);
                    proof {
                        assert(self.line_buffer@.subrange(0, len as int) =~= self.line_buffer@);
                    }
                    if start == len || is_prefix_of_tag(&self.line_buffer, start, OPEN_TAG)
                        || is_prefix_of_tag(&self.line_buffer, start, CLOSE_TAG) {
                        assert(events_of(segments@) + Seq::empty() =~= events_of(segments@));
                    } else {
                        let mut buffered: Vec<char> = Vec::new();
                        std::mem::swap(&mut buffered, &mut self.line_buffer);
                        self.detect_tag = false;
                        let text = string_from_chars(&buffered);
                        self.push_text(text, &mut segments);
                    }
                }
                assert(events_of(segments@) + text_events(self.in_plan, run@) =~= events_of(segments@));
            } else {
                let ghost run_old = run@;
                push_char(&mut run, ch);
                proof {
                    lemma_text_events_concat(self.in_plan, run_old, seq![ch]);
                    assert(run_old.push(ch) =~= run_old + seq![ch]);
                }
                if ch == '\n' {
                    let flushed = run;
                    run = String::new();
                    self.push_text(flushed, &mut segments);
                    self.detect_tag = true;
                    assert(events_of(segments@) + text_events(self.in_plan, run@) =~= events_of(segments@));
                }
            }
        }
        proof {
            assert(delta@.take(delta@.len() as int) =~= delta@);
        }
        if !run.as_str().is_empty() {
            self.push_text(run, &mut segments);
        } else {
            assert(events_of(segments@) + text_events(self.in_plan, run@) =~= events_of(segments@));
        }
        segments
    }

    /// Ends the stream: the undecided line is flushed as text and an open
    /// plan is closed. The parser is back in its initial state afterwards.
    pub fn finish(&mut self) -> (segments: Vec<ParsedAgentDelta>)
        requires
            old(self).wf(),
        ensures
            final(self).wf(),
            final(self)@ == initial_state(),
            events_of(segments@) == classify_finish(old(self)@),
            coalesced(segments@),
            old(self)@.in_plan ==> segments@.len() > 0 && segments@.last().segment
                == AgentMessageDeltaSegment::ProposedPlanEnd,
    {
        let mut segments: Vec<ParsedAgentDelta> = Vec::new();
        proof {
            reveal(coalesced);
            assert(events_of(segments@) =~= Seq::empty());
        }
        if self.line_buffer.len() > 0 {
            let mut buffered: Vec<char> = Vec::new();
            std::mem::swap(&mut buffered, &mut self.line_buffer);
            let text = string_from_chars(&buffered);
            self.push_text(text, &mut segments);
        } else {
            assert(text_events(self.in_plan, self.line_buffer@) =~= Seq::empty());
        }
        assert(events_of(segments@) =~= text_events(old(self)@.in_plan, old(self)@.line));
        if self.in_plan {
            push_segment(&mut segments, AgentMessageDeltaSegment::ProposedPlanEnd, String::new());
            self.in_plan = false;
        } else {
            assert(events_of(segments@) + Seq::empty() =~= events_of(segments@));
        }
        self.detect_tag = true;
        assert(self.line_buffer@ =~= Seq::<char>::empty());
        segments
    }
}


/// Whether the plan boundaries in `ev`, read from a position where a plan is
/// open or not (`open`), alternate properly and classify each character by
/// the region it stands in; if so, whether a plan is open at the end.
pub open spec fn plan_regions_from(open: bool, ev: Seq<DeltaEvent>) -> Option<bool>
    decreases ev.len(),
{
    if ev.len() == 0 {
        Some(open)
    } else {
        match plan_regions_from(open, ev.drop_last()) {
            None => None,
            Some(o) => match ev.last() {
                DeltaEvent::PlanStart => if o {
                    None
                } else {
                    Some(true)
                },
                DeltaEvent::PlanEnd => if o {
                    Some(false)
                } else {
                    None
                },
                DeltaEvent::Text((p, _)) => if p == o {
                    Some(o)
                } else {
                    None
                },
            },
        }
    }
}

proof fn lemma_plan_regions_concat(open: bool, a: Seq<DeltaEvent>, b: Seq<DeltaEvent>)
    ensures
        plan_regions_from(open, a + b) == match plan_regions_from(open, a) {
            None => None,
            Some(o) => plan_regions_from(o, b),
        },
    decreases b.len(),
{
    if b.len() == 0 {
        assert(a + b =~= a);
    } else {
        assert((a + b).drop_last() =~= a + b.drop_last());
        lemma_plan_regions_concat(open, a, b.drop_last());
    }
}

proof fn lemma_plan_regions_single(open: bool, e: DeltaEvent)
    ensures
        plan_regions_from(open, seq![e]) == match e {
            DeltaEvent::PlanStart => if open {
                None
            } else {
                Some(true)
            },
            DeltaEvent::PlanEnd => if open {
                Some(false)
            } else {
                None
            },
            DeltaEvent::Text((p, _)) => if p == open {
                Some(open)
            } else {
                None
            },
        },
{
    let s = seq![e];
    assert(s.drop_last() =~= Seq::<DeltaEvent>::empty());
    assert(s.last() == e);
    assert(plan_regions_from(open, s.drop_last()) == Some(open));
}

proof fn lemma_plan_regions_text(open: bool, s: Seq<char>)
    ensures
        plan_regions_from(open, text_events(open, s)) == Some(open),
    decreases s.len(),
{
    if s.len() > 0 {
        assert(text_events(open, s).drop_last() =~= text_events(open, s.drop_last()));
        lemma_plan_regions_text(open, s.drop_last());
    }
}

proof fn lemma_plan_regions_classify(st: PlanParserState, s: Seq<char>)
    ensures
        plan_regions_from(st.in_plan, classify(st, s).1) == Some(classify(st, s).0.in_plan),
    decreases s.len(),
{
    if s.len() == 0 {
    } else {
        let (mid, first) = classify(st, s.drop_last());
        lemma_plan_regions_classify(st, s.drop_last());
        let (end, last) = classify_step(mid, s.last());
        lemma_plan_regions_concat(st.in_plan, first, last);
        if mid.detect_tag {
            lemma_plan_regions_text(mid.in_plan, mid.line.push(s.last()));
        } else {
            lemma_plan_regions_text(mid.in_plan, seq![s.last()]);
        }
        assert(plan_regions_from(mid.in_plan, Seq::<DeltaEvent>::empty()) == Some(mid.in_plan));
        lemma_plan_regions_single(false, DeltaEvent::PlanStart);
        lemma_plan_regions_single(true, DeltaEvent::PlanEnd);
    }
}

/// Re-chunking does not change the output: feeding `a` and then `b` emits the
/// same events, in the same order, and leaves the same state as feeding
/// `a + b` at once.
pub proof fn lemma_classify_chunks(st: PlanParserState, a: Seq<char>, b: Seq<char>)
    ensures
        classify(st, a + b).0 == classify(classify(st, a).0, b).0,
        classify(st, a + b).1 == classify(st, a).1 + classify(classify(st, a).0, b).1,
    decreases b.len(),
{
    if b.len() == 0 {
        assert(a + b =~= a);
        assert(classify(st, a).1 + Seq::<DeltaEvent>::empty() =~= classify(st, a).1);
    } else {
        assert((a + b).drop_last() =~= a + b.drop_last());
        assert((a + b).last() == b.last());
        lemma_classify_chunks(st, a, b.drop_last());
        let mid = classify(st, a).0;
        assert(classify(st, a).1 + (classify(mid, b.drop_last()).1 + classify_step(
            classify(mid, b.drop_last()).0,
            b.last(),
        ).1) =~= (classify(st, a).1 + classify(mid, b.drop_last()).1) + classify_step(
            classify(mid, b.drop_last()).0,
            b.last(),
        ).1);
    }
}

/// Over a whole stream, fed from a fresh parser and then finished, plan
/// boundaries alternate, every opened plan is closed, and every character is
/// classified by the region it stands in.
pub proof fn lemma_stream_plans_closed(s: Seq<char>)
    ensures
        plan_regions_from(
            false,
            classify(initial_state(), s).1 + classify_finish(classify(initial_state(), s).0),
        ) == Some(false),
{
    let (end, ev) = classify(initial_state(), s);
    lemma_plan_regions_classify(initial_state(), s);
    lemma_plan_regions_concat(false, ev, classify_finish(end));
    lemma_plan_regions_text(end.in_plan, end.line);
    let close: Seq<DeltaEvent> = if end.in_plan {
        seq![DeltaEvent::PlanEnd]
    } else {
        Seq::empty()
    };
    lemma_plan_regions_concat(end.in_plan, text_events(end.in_plan, end.line), close);
    lemma_plan_regions_single(true, DeltaEvent::PlanEnd);
}

/// What a list of segments says, segment by segment.
pub open spec fn segments_view(segs: Seq<ParsedAgentDelta>) -> Seq<(AgentMessageDeltaSegment, Seq<char>)> {
    segs.map_values(|x: ParsedAgentDelta| (x.segment, x.delta@))
}

proof fn lemma_segment_events_shape(k: AgentMessageDeltaSegment, d: Seq<char>)
    requires
        is_text_segment(k) <==> d.len() > 0,
    ensures
        segment_events(k, d).len() > 0,
        is_text_segment(k) ==> segment_events(k, d).len() == d.len(),
        !is_text_segment(k) ==> segment_events(k, d).len() == 1,
        forall|i: int|
            0 <= i < segment_events(k, d).len() ==> #[trigger] segment_events(k, d)[i] == match k {
                AgentMessageDeltaSegment::Normal => DeltaEvent::Text((false, d[i])),
                AgentMessageDeltaSegment::ProposedPlanDelta => DeltaEvent::Text((true, d[i])),
                AgentMessageDeltaSegment::ProposedPlanStart => DeltaEvent::PlanStart,
                AgentMessageDeltaSegment::ProposedPlanEnd => DeltaEvent::PlanEnd,
            },
{
}

proof fn lemma_coalesced_prefix(s: Seq<ParsedAgentDelta>)
    requires
        coalesced(s),
        s.len() > 0,
    ensures
        coalesced(s.drop_last()),
{
    reveal(coalesced);
    let t = s.drop_last();
    assert forall|i: int| 0 <= i < t.len() implies (is_text_segment(t[i].segment) <==> t[i].delta@.len() > 0) by {
        assert(t[i] == s[i]);
    }
    assert forall|i: int| 0 <= i < t.len() - 1 implies !(is_text_segment(t[i].segment)
        && t[i].segment == t[i + 1].segment) by {
        assert(t[i] == s[i]);
        assert(t[i + 1] == s[i + 1]);
    }
}

/// The last event of a coalesced list comes from its last segment.
proof fn lemma_last_event(s: Seq<ParsedAgentDelta>)
    requires
        coalesced(s),
        s.len() > 0,
    ensures
        events_of(s).len() > 0,
        events_of(s).last() == segment_events(s.last().segment, s.last().delta@).last(),
{
    reveal(coalesced);
    let x = s.last();
    assert(is_text_segment(x.segment) <==> x.delta@.len() > 0);
    lemma_segment_events_shape(x.segment, x.delta@);
}

pub open spec fn segment_wf(x: ParsedAgentDelta) -> bool {
    is_text_segment(x.segment) <==> x.delta@.len() > 0
}

proof fn lemma_last_event_of(s: Seq<ParsedAgentDelta>)
    requires
        s.len() > 0,
        segment_wf(s.last()),
    ensures
        events_of(s).len() > 0,
        events_of(s) == events_of(s.drop_last()) + segment_events(s.last().segment, s.last().delta@),
        events_of(s).last() == segment_events(s.last().segment, s.last().delta@).last(),
{
    lemma_segment_events_shape(s.last().segment, s.last().delta@);
}

/// Of two lists with the same events, the last segment of `a` stands for no
/// fewer events than that of `b`, when the segment before it (if any) is not
/// text of the same kind.
#[verifier::rlimit(30)]
proof fn lemma_last_segment_not_shorter(a: Seq<ParsedAgentDelta>, b: Seq<ParsedAgentDelta>)
    requires
        a.len() > 0,
        b.len() > 0,
        events_of(a) == events_of(b),
        segment_wf(a.last()),
        segment_wf(b.last()),
        a.len() > 1 ==> segment_wf(a[a.len() - 2]) && !(is_text_segment(a[a.len() - 2].segment)
            && a[a.len() - 2].segment == a.last().segment),
    ensures
        segment_events(a.last().segment, a.last().delta@).len() >= segment_events(
            b.last().segment,
            b.last().delta@,
        ).len(),
{
    let xa = a.last();
    let xb = b.last();
    let ea = segment_events(xa.segment, xa.delta@);
    let eb = segment_events(xb.segment, xb.delta@);
    let pa = a.drop_last();
    let e = events_of(a);
    lemma_last_event_of(a);
    lemma_last_event_of(b);
    lemma_segment_events_shape(xa.segment, xa.delta@);
    lemma_segment_events_shape(xb.segment, xb.delta@);
    if ea.len() < eb.len() {
        assert(pa.len() > 0) by {
            if pa.len() == 0 {
                assert(events_of(pa).len() == 0);
            }
        }
        let xp = pa.last();
        assert(xp == a[a.len() - 2]);
        lemma_last_event_of(pa);
        assert(events_of(pa).last() == e[e.len() - ea.len() - 1]);
        assert(e[e.len() - ea.len() - 1] == eb[eb.len() - ea.len() - 1]);
        lemma_segment_events_shape(xp.segment, xp.delta@);
        assert(xp.segment == xa.segment);
    }
}

proof fn lemma_coalesced_tail(s: Seq<ParsedAgentDelta>)
    requires
        coalesced(s),
        s.len() > 0,
    ensures
        segment_wf(s.last()),
        s.len() > 1 ==> segment_wf(s[s.len() - 2]) && !(is_text_segment(s[s.len() - 2].segment)
            && s[s.len() - 2].segment == s.last().segment),
{
    reveal(coalesced);
}

/// Of two lists with the same events, each with a last segment that is not
/// preceded by text of its own kind, the last segments agree and so do the
/// events of what comes before them.
#[verifier::rlimit(30)]
proof fn lemma_last_segments_agree(a: Seq<ParsedAgentDelta>, b: Seq<ParsedAgentDelta>)
    requires
        a.len() > 0,
        b.len() > 0,
        events_of(a) == events_of(b),
        segment_wf(a.last()),
        segment_wf(b.last()),
        a.len() > 1 ==> segment_wf(a[a.len() - 2]) && !(is_text_segment(a[a.len() - 2].segment)
            && a[a.len() - 2].segment == a.last().segment),
        b.len() > 1 ==> segment_wf(b[b.len() - 2]) && !(is_text_segment(b[b.len() - 2].segment)
            && b[b.len() - 2].segment == b.last().segment),
    ensures
        a.last().segment == b.last().segment,
        a.last().delta@ == b.last().delta@,
        events_of(a.drop_last()) == events_of(b.drop_last()),
{
    let xa = a.last();
    let xb = b.last();
    let ea = segment_events(xa.segment, xa.delta@);
    let eb = segment_events(xb.segment, xb.delta@);
    let e = events_of(a);
    lemma_last_segment_not_shorter(a, b);
    lemma_last_segment_not_shorter(b, a);
    lemma_last_event_of(a);
    lemma_last_event_of(b);
    lemma_segment_events_shape(xa.segment, xa.delta@);
    lemma_segment_events_shape(xb.segment, xb.delta@);
    assert(e == events_of(a.drop_last()) + ea);
    assert(e == events_of(b.drop_last()) + eb);
    assert(ea =~= eb) by {
        assert forall|i: int| 0 <= i < ea.len() implies ea[i] == eb[i] by {
            assert(e[e.len() - ea.len() + i] == ea[i]);
            assert(e[e.len() - eb.len() + i] == eb[i]);
        }
    }
    assert(ea.last() == eb.last());
    assert(xa.segment == xb.segment);
    assert(xa.delta@ =~= xb.delta@) by {
        if is_text_segment(xa.segment) {
            assert forall|i: int| 0 <= i < xa.delta@.len() implies xa.delta@[i] == xb.delta@[i] by {
                assert(ea[i] == eb[i]);
            }
        }
    }
    assert(events_of(a.drop_last()) =~= e.subrange(0, e.len() - ea.len()));
    assert(events_of(b.drop_last()) =~= e.subrange(0, e.len() - eb.len()));
}

/// Coalesced lists of segments that stand for the same events are the same
/// segments: how a stream was chunked cannot show in a coalesced output.
#[verifier::rlimit(30)]
pub proof fn lemma_coalesced_segments_unique(a: Seq<ParsedAgentDelta>, b: Seq<ParsedAgentDelta>)
    requires
        coalesced(a),
        coalesced(b),
        events_of(a) == events_of(b),
    ensures
        segments_view(a) == segments_view(b),
    decreases a.len() + b.len(),
{
    if a.len() == 0 || b.len() == 0 {
        if a.len() > 0 {
            lemma_last_event(a);
        }
        if b.len() > 0 {
            lemma_last_event(b);
        }
        assert(segments_view(a) =~= segments_view(b));
    } else {
        lemma_coalesced_tail(a);
        lemma_coalesced_tail(b);
        lemma_last_segments_agree(a, b);
        lemma_coalesced_prefix(a);
        lemma_coalesced_prefix(b);
        lemma_coalesced_segments_unique(a.drop_last(), b.drop_last());
        assert(segments_view(a) =~= segments_view(a.drop_last()).push(
            (a.last().segment, a.last().delta@),
        ));
        assert(segments_view(b) =~= segments_view(b.drop_last()).push(
            (b.last().segment, b.last().delta@),
        ));
    }
}

/// Feeding `a` and then `b`, or `a + b` at once, gives the same segments
/// once adjacent text of one kind is merged: chunk boundaries do not show.
pub proof fn lemma_rechunking_same_segments(
    st: PlanParserState,
    a: Seq<char>,
    b: Seq<char>,
    split: Seq<ParsedAgentDelta>,
    whole: Seq<ParsedAgentDelta>,
)
    requires
        coalesced(split),
        coalesced(whole),
        events_of(split) == classify(st, a).1 + classify(classify(st, a).0, b).1,
        events_of(whole) == classify(st, a + b).1,
    ensures
        segments_view(split) == segments_view(whole),
{
    lemma_classify_chunks(st, a, b);
    lemma_coalesced_segments_unique(split, whole);
}

/// The state at the start of a line, inside a plan or not.
pub open spec fn line_start(in_plan: bool) -> PlanParserState {
    PlanParserState { in_plan, detect_tag: true, line: Seq::empty() }
}

/// Whether every non-empty prefix of `x` could still be the start of a tag line.
pub open spec fn still_undecided(x: Seq<char>) -> bool {
    forall|m: int|
        1 <= m <= x.len() ==> {
            let slug = #[trigger] trim_start(x.take(m));
            slug.len() == 0 || is_tag_prefix_spec(slug)
        }
}

proof fn lemma_line_prefix(in_plan: bool, l: Seq<char>, j: int)
    requires
        0 <= j <= l.len(),
        !l.contains('\n'),
    ensures
        classify(line_start(in_plan), l.take(j)) == if still_undecided(l.take(j)) {
            (PlanParserState { in_plan, detect_tag: true, line: l.take(j) }, Seq::<DeltaEvent>::empty())
        } else {
            (PlanParserState { in_plan, detect_tag: false, line: Seq::empty() }, text_events(in_plan, l.take(j)))
        },
    decreases j,
{
    let x = l.take(j);
    if j == 0 {
        assert(x =~= Seq::<char>::empty());
        assert(still_undecided(x));
    } else {
        let y = l.take(j - 1);
        let c = l[j - 1];
        assert(c != '\n') by {
            if c == '\n' {
                assert(l.contains('\n'));
            }
        }
        lemma_line_prefix(in_plan, l, j - 1);
        assert(x.drop_last() =~= y);
        assert(x.last() == c);
        assert(y.push(c) =~= x);
        assert forall|m: int| 1 <= m <= y.len() implies #[trigger] x.take(m) == y.take(m) by {
            assert(x.take(m) =~= y.take(m));
        }
        assert(x.take(j) =~= x);
        if still_undecided(y) {
            if still_undecided(x) {
                assert(x.take(x.len() as int) == x);
            } else {
                let m = choose|m: int|
                    1 <= m <= x.len() && !({
                        let slug = #[trigger] trim_start(x.take(m));
                        slug.len() == 0 || is_tag_prefix_spec(slug)
                    });
                if m < x.len() {
                    assert(x.take(m) == y.take(m));
                }
                assert(text_events(in_plan, x) == text_events(in_plan, y.push(c)));
            }
        } else {
            let m = choose|m: int|
                1 <= m <= y.len() && !({
                    let slug = #[trigger] trim_start(y.take(m));
                    slug.len() == 0 || is_tag_prefix_spec(slug)
                });
            assert(x.take(m) == y.take(m));
            assert(!still_undecided(x));
            lemma_text_events_concat(in_plan, y, seq![c]);
            assert(y + seq![c] =~= x);
        }
    }
}

/// A line that is not a bare tag line, fed from the start of a line, comes
/// out verbatim as text of the region it stands in, and the region does not
/// change.
pub proof fn lemma_non_tag_line_verbatim(in_plan: bool, l: Seq<char>)
    requires
        !l.contains('\n'),
        trim_end(trim_start(l)) != OPEN_TAG@,
        trim_end(trim_start(l)) != CLOSE_TAG@,
    ensures
        classify(line_start(in_plan), l.push('\n')) == (
            line_start(in_plan),
            text_events(in_plan, l.push('\n')),
        ),
{
    let s = l.push('\n');
    lemma_line_prefix(in_plan, l, l.len() as int);
    assert(l.take(l.len() as int) =~= l);
    assert(s.drop_last() =~= l);
    assert(s.last() == '\n');
    if !still_undecided(l) {
        lemma_text_events_concat(in_plan, l, seq!['\n']);
        assert(l + seq!['\n'] =~= s);
    } else {
        assert(l.push('\n').drop_last() =~= l);
    }
}

} // verus!
