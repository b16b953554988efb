//! The document pipeline: which texts of an event stream go to which
//! formatter, and how the formatted texts come back into the document.

use crate::annotation::{language_of, parse_codetitle, title_of};
use crate::events::{
    kinds, parse_events, parsed_events, serialize_events, serialized, MdEvent, MdEventView,
    StructuralEvent, StructuralEventView,
};
use crate::fence::{collapse_fences, collapsed};
use crate::frontmatter::{body_of, metadata_of, split_frontmatter_and_content};
use crate::resolve::{detect_lang, resolve};
use crate::settings::{Lang, LangView, Settings};
use crate::text::lowercase_of;
use vstd::prelude::*;
use vstd::string::*;

verus! {

/// The code block that was opened last: its byte range and its info-string.
#[derive(Debug, PartialEq)]
pub struct Cursor {
    pub start: usize,
    pub end: usize,
    pub info: String,
}

/// Mathematical content of a [`Cursor`].
pub struct CursorView {
    pub start: nat,
    pub end: nat,
    pub info: Seq<char>,
}

impl View for Cursor {
    type V = CursorView;

    open spec fn view(&self) -> CursorView {
        CursorView { start: self.start as nat, end: self.end as nat, info: self.info@ }
    }
}

/// One text to hand to a formatter.
#[derive(Debug, PartialEq)]
pub struct Job {
    /// Position in the event stream of the text event to format.
    pub index: usize,
    /// The text as it stands in the document.
    pub code: String,
    /// The formatter to run.
    pub lang: Lang,
    /// The title from the code block's annotation.
    pub title: Option<String>,
}

/// Mathematical content of a [`Job`].
pub struct JobView {
    pub index: nat,
    pub code: Seq<char>,
    pub lang: LangView,
    pub title: Option<Seq<char>>,
}

impl View for Job {
    type V = JobView;

    open spec fn view(&self) -> JobView {
        JobView {
            index: self.index as nat,
            code: self.code@,
            lang: self.lang@,
            title: self.title.deep_view(),
        }
    }
}

impl DeepView for Job {
    type V = JobView;

    open spec fn deep_view(&self) -> JobView {
        self@
    }
}

/// A new text for the text event at one position of the stream.
#[derive(Debug, PartialEq)]
pub struct Edit {
    pub index: usize,
    pub text: String,
}

/// Mathematical content of an [`Edit`].
pub struct EditView {
    pub index: nat,
    pub text: Seq<char>,
}

impl View for Edit {
    type V = EditView;

    open spec fn view(&self) -> EditView {
        EditView { index: self.index as nat, text: self.text@ }
    }
}

impl DeepView for Edit {
    type V = EditView;

    open spec fn deep_view(&self) -> EditView {
        self@
    }
}

/// The cursor before any event: an empty range at the start, an empty info-string.
pub open spec fn initial_cursor() -> CursorView {
    CursorView { start: 0, end: 0, info: Seq::empty() }
}

/// The cursor after `event`: a fence start moves it, nothing else does.
pub open spec fn advance(cursor: CursorView, event: StructuralEventView) -> CursorView {
    match event.event {
        MdEventView::FenceStart { info } => CursorView { start: event.start, end: event.end, info },
        _ => cursor,
    }
}

/// True when `event` is a text that lies within the cursor's range.
pub open spec fn is_code_text(cursor: CursorView, event: StructuralEventView) -> bool {
    &&& event.event is Text
    &&& cursor.start <= event.start
    &&& event.end <= cursor.end
}

/// The formatter that the cursor's annotation asks for, if the table has one.
pub open spec fn formatter_for(cursor: CursorView, settings: Seq<(Seq<char>, LangView)>) -> Option<
    LangView,
> {
    resolve(lowercase_of(language_of(cursor.info)), settings)
}

/// What to do with `event`, met at position `index` under `cursor`: the job to
/// run, or `None` where the event passes through as it is.
pub open spec fn job_for(
    cursor: CursorView,
    event: StructuralEventView,
    index: nat,
    settings: Seq<(Seq<char>, LangView)>,
) -> Option<JobView> {
    if is_code_text(cursor, event) {
        match formatter_for(cursor, settings) {
            Some(lang) => Some(
                JobView { index, code: event.event->text, lang, title: title_of(cursor.info) },
            ),
            None => None,
        }
    } else {
        None
    }
}

/// The cursor after the first `n` events of the stream.
pub open spec fn cursor_at(events: Seq<StructuralEventView>, n: int) -> CursorView
    decreases n,
{
    if n <= 0 {
        initial_cursor()
    } else {
        advance(cursor_at(events, n - 1), events[n - 1])
    }
}

/// The jobs that the first `n` events of the stream give rise to, in stream order.
pub open spec fn planned(
    events: Seq<StructuralEventView>,
    settings: Seq<(Seq<char>, LangView)>,
    n: int,
) -> Seq<JobView>
    decreases n,
{
    if n <= 0 {
        Seq::empty()
    } else {
        let before = planned(events, settings, n - 1);
        match job_for(cursor_at(events, n - 1), events[n - 1], (n - 1) as nat, settings) {
            Some(job) => before.push(job),
            None => before,
        }
    }
}

/// The text that `edits` hold for position `index`: that of the last edit
/// which names the position, or `None` where no edit does.
pub open spec fn edit_for(edits: Seq<EditView>, index: int) -> Option<Seq<char>>
    decreases edits.len(),
{
    if edits.len() == 0 {
        None
    } else if edits.last().index == index {
        Some(edits.last().text)
    } else {
        edit_for(edits.drop_last(), index)
    }
}

/// `event`, standing at position `index`, after `edits`: a text event that an
/// edit names takes the edit's text and keeps its range; any other event stays.
pub open spec fn edited(
    event: StructuralEventView,
    edits: Seq<EditView>,
    index: int,
) -> StructuralEventView {
    match edit_for(edits, index) {
        Some(text) if event.event is Text => StructuralEventView {
            event: MdEventView::Text { text },
            start: event.start,
            end: event.end,
        },
        _ => event,
    }
}

/// The stream after `edits`.
pub open spec fn spliced(events: Seq<StructuralEventView>, edits: Seq<EditView>) -> Seq<
    StructuralEventView,
> {
    Seq::new(events.len(), |i: int| edited(events[i], edits, i))
}

/// The finished document: the metadata block as it was, then the serialized
/// body with its fences collapsed.
pub open spec fn assembled(frontmatter: Option<Seq<char>>, body: Seq<char>) -> Seq<char> {
    match frontmatter {
        Some(metadata) => metadata + collapsed(body),
        None => collapsed(body),
    }
}

/// The edits that bring `texts` back to the events of `jobs`: edit `k` names
/// the event of job `k` and holds text `k`.
pub open spec fn paired(jobs: Seq<JobView>, texts: Seq<Seq<char>>) -> Seq<EditView> {
    Seq::new(jobs.len(), |k: int| EditView { index: jobs[k].index, text: texts[k] })
}

/// True when `edits` hold one new text for each of `jobs`, in the same order.
pub open spec fn answers(edits: Seq<EditView>, jobs: Seq<JobView>) -> bool {
    &&& edits.len() == jobs.len()
    &&& forall|k: int| 0 <= k < edits.len() ==> (#[trigger] edits[k]).index == jobs[k].index
}

/// Every planned job stands for an event of the stream that asks for it: the
/// job at place `m` is the one that its own position gives rise to.
pub proof fn lemma_planned_job(
    events: Seq<StructuralEventView>,
    settings: Seq<(Seq<char>, LangView)>,
    n: int,
    m: int,
)
    requires
        0 <= m < planned(events, settings, n).len(),
    ensures
        ({
            let job = planned(events, settings, n)[m];
            &&& job.index < n
            &&& job_for(
                cursor_at(events, job.index as int),
                events[job.index as int],
                job.index,
                settings,
            ) == Some(job)
        }),
    decreases n,
{
    if n > 0 {
        let before = planned(events, settings, n - 1);
        if m < before.len() {
            lemma_planned_job(events, settings, n - 1, m);
        }
    }
}

/// No event that asks for a job is passed over: the job that position `i`
/// gives rise to is among those planned.
pub proof fn lemma_planned_complete(
    events: Seq<StructuralEventView>,
    settings: Seq<(Seq<char>, LangView)>,
    n: int,
    i: int,
)
    requires
        0 <= i < n,
        job_for(cursor_at(events, i), events[i], i as nat, settings) is Some,
    ensures
        planned(events, settings, n).contains(
            job_for(cursor_at(events, i), events[i], i as nat, settings)->0,
        ),
    decreases n,
{
    let job = job_for(cursor_at(events, i), events[i], i as nat, settings)->0;
    let before = planned(events, settings, n - 1);
    let all = planned(events, settings, n);
    if i < n - 1 {
        lemma_planned_complete(events, settings, n - 1, i);
        let m = choose|m: int| 0 <= m < before.len() && before[m] == job;
        assert(all[m] == job);
    } else {
        assert(all[all.len() - 1] == job);
    }
}

/// Planned jobs stand in stream order: a later job names a later event.
pub proof fn lemma_planned_in_order(
    events: Seq<StructuralEventView>,
    settings: Seq<(Seq<char>, LangView)>,
    n: int,
    a: int,
    b: int,
)
    requires
        0 <= a < b < planned(events, settings, n).len(),
    ensures
        planned(events, settings, n)[a].index < planned(events, settings, n)[b].index,
    decreases n,
{
    if n > 0 {
        let before = planned(events, settings, n - 1);
        if b < before.len() {
            lemma_planned_in_order(events, settings, n - 1, a, b);
        } else {
            lemma_planned_job(events, settings, n - 1, a);
        }
    }
}

/// Among edits that name each position at most once, an edit's own text is
/// the one held for its position.
proof fn lemma_edit_for_own(edits: Seq<EditView>, k: int)
    requires
        0 <= k < edits.len(),
        forall|a: int, b: int|
            0 <= a < b < edits.len() ==> (#[trigger] edits[a]).index != (#[trigger] edits[b]).index,
    ensures
        edit_for(edits, edits[k].index as int) == Some(edits[k].text),
    decreases edits.len(),
{
    if k < edits.len() - 1 {
        let rest = edits.drop_last();
        assert(edits[k].index != edits[edits.len() - 1].index);
        assert forall|a: int, b: int| 0 <= a < b < rest.len() implies (#[trigger] rest[a]).index
            != (#[trigger] rest[b]).index by {
            assert(rest[a] == edits[a]);
            assert(rest[b] == edits[b]);
        }
        assert(rest[k] == edits[k]);
        lemma_edit_for_own(rest, k);
    }
}

/// A planned job's event takes the text that came back for that job: where
/// the edits answer the plan, the event that job `k` names is a text, holds
/// the job's code before, and holds edit `k`'s text after, its range unchanged.
pub proof fn lemma_planned_text_replaced(
    events: Seq<StructuralEventView>,
    settings: Seq<(Seq<char>, LangView)>,
    edits: Seq<EditView>,
    k: int,
)
    requires
        answers(edits, planned(events, settings, events.len() as int)),
        0 <= k < edits.len(),
    ensures
        ({
            let job = planned(events, settings, events.len() as int)[k];
            let at = job.index as int;
            &&& 0 <= at < events.len()
            &&& events[at].event == MdEventView::Text { text: job.code }
            &&& spliced(events, edits)[at] == StructuralEventView {
                event: MdEventView::Text { text: edits[k].text },
                start: events[at].start,
                end: events[at].end,
            }
        }),
{
    let n = events.len() as int;
    let jobs = planned(events, settings, n);
    lemma_planned_job(events, settings, n, k);
    assert forall|a: int, b: int| 0 <= a < b < edits.len() implies (#[trigger] edits[a]).index
        != (#[trigger] edits[b]).index by {
        lemma_planned_in_order(events, settings, n, a, b);
    }
    lemma_edit_for_own(edits, k);
}

/// An edit's text reaches a position only if some edit names that position.
pub proof fn lemma_edit_for_names(edits: Seq<EditView>, index: int)
    ensures
        edit_for(edits, index) is Some ==> exists|k: int|
            0 <= k < edits.len() && (#[trigger] edits[k]).index == index,
    decreases edits.len(),
{
    if edits.len() > 0 {
        if edits.last().index == index {
            assert(edits[edits.len() - 1].index == index);
        } else {
            lemma_edit_for_names(edits.drop_last(), index);
            if edit_for(edits, index) is Some {
                let k = choose|k: int|
                    0 <= k < edits.drop_last().len() && (#[trigger] edits.drop_last()[k]).index
                        == index;
                assert(edits[k].index == index);
            }
        }
    }
}

/// An event for which the plan holds no job comes out of the pipeline as it
/// went in, whatever the formatters returned for the others.
pub proof fn lemma_unplanned_event_passes(
    events: Seq<StructuralEventView>,
    settings: Seq<(Seq<char>, LangView)>,
    edits: Seq<EditView>,
    i: int,
)
    requires
        0 <= i < events.len(),
        answers(edits, planned(events, settings, events.len() as int)),
        job_for(cursor_at(events, i), events[i], i as nat, settings) is None,
    ensures
        spliced(events, edits)[i] == events[i],
{
    lemma_edit_for_names(edits, i);
    if edit_for(edits, i) is Some {
        let k = choose|k: int| 0 <= k < edits.len() && (#[trigger] edits[k]).index == i;
        lemma_planned_job(events, settings, events.len() as int, k);
    }
}

/// A code block whose language no formatter answers to keeps its text: a text
/// event under such an annotation comes out of the pipeline as it went in.
pub proof fn lemma_unknown_language_passes(
    events: Seq<StructuralEventView>,
    settings: Seq<(Seq<char>, LangView)>,
    edits: Seq<EditView>,
    i: int,
)
    requires
        0 <= i < events.len(),
        answers(edits, planned(events, settings, events.len() as int)),
        formatter_for(cursor_at(events, i), settings) is None,
    ensures
        spliced(events, edits)[i] == events[i],
{
    lemma_unplanned_event_passes(events, settings, edits, i);
}

/// A text outside the code block opened last, and any event that is no text,
/// comes out of the pipeline as it went in.
pub proof fn lemma_outside_code_passes(
    events: Seq<StructuralEventView>,
    settings: Seq<(Seq<char>, LangView)>,
    edits: Seq<EditView>,
    i: int,
)
    requires
        0 <= i < events.len(),
        answers(edits, planned(events, settings, events.len() as int)),
        !is_code_text(cursor_at(events, i), events[i]),
    ensures
        spliced(events, edits)[i] == events[i],
{
    lemma_unplanned_event_passes(events, settings, edits, i);
}

/// With an empty table nothing is planned, so nothing is edited: the stream
/// that is serialized is the stream that was parsed.
pub proof fn lemma_empty_settings_change_nothing(
    events: Seq<StructuralEventView>,
    settings: Seq<(Seq<char>, LangView)>,
    edits: Seq<EditView>,
    n: int,
)
    requires
        settings.len() == 0,
    ensures
        planned(events, settings, n) == Seq::<JobView>::empty(),
        answers(edits, planned(events, settings, n)) ==> spliced(events, edits) == events,
    decreases n,
{
    if n > 0 {
        lemma_empty_settings_change_nothing(events, settings, edits, n - 1);
    }
    if answers(edits, planned(events, settings, n)) {
        assert(edits.len() == 0);
        assert(spliced(events, edits) =~= events);
    }
}

/// The metadata block stands at the front of the finished document, unchanged.
pub proof fn lemma_metadata_verbatim(metadata: Seq<char>, body: Seq<char>)
    ensures
        assembled(Some(metadata), body).subrange(0, metadata.len() as int) == metadata,
        assembled(Some(metadata), body).subrange(
            metadata.len() as int,
            assembled(Some(metadata), body).len() as int,
        ) == collapsed(body),
{
    let whole = assembled(Some(metadata), body);
    assert(whole.subrange(0, metadata.len() as int) =~= metadata);
    assert(whole.subrange(metadata.len() as int, whole.len() as int) =~= collapsed(body));
}

impl Cursor {
    /// The cursor before any event.
    pub fn new() -> (res: Cursor)
        ensures
            res@ == initial_cursor(),
    {
        Cursor { start: 0, end: 0, info: String::new() }
    }

    /// Takes one event, met at position `index` of its stream: moves the cursor
    /// and says whether the event is a text to format, and by which formatter.
    pub fn step(&mut self, event: &StructuralEvent, index: usize, settings: &Settings) -> (job:
        Option<Job>)
        ensures
            final(self)@ == advance(old(self)@, event@),
            job.deep_view() == job_for(old(self)@, event@, index as nat, settings@),
    {
        match &event.event {
            MdEvent::FenceStart { info } => {
                self.start = event.start;
                self.end = event.end;
                self.info = info.clone();
                None
            },
            MdEvent::Text { text } => {
                if self.start <= event.start && event.end <= self.end {
                    let (lang_name, title) = parse_codetitle(self.info.as_str());
                    match detect_lang(&lang_name, settings) {
                        Some(lang) => Some(Job { index, code: text.clone(), lang, title }),
                        None => None,
                    }
                } else {
                    None
                }
            },
            MdEvent::Other { .. } => None,
        }
    }
}

/// Walks the stream and lists the texts to format, each with its formatter.
pub fn plan_jobs(events: &Vec<StructuralEvent>, settings: &Settings) -> (jobs: Vec<Job>)
    ensures
        jobs.deep_view() == planned(events.deep_view(), settings@, events.len() as int),
{
    let mut jobs: Vec<Job> = Vec::new();
    let mut cursor = Cursor::new();
    let mut i: usize = 0;
    assert(jobs.deep_view() =~= planned(events.deep_view(), settings@, 0));
    while i < events.len()
        invariant
            i <= events.len(),
            cursor@ == cursor_at(events.deep_view(), i as int),
            jobs.deep_view() == planned(events.deep_view(), settings@, i as int),
        decreases events.len() - i,
    {
        let ghost before = jobs.deep_view();
        assert(events.deep_view()[i as int] == events[i as int]@);
        match cursor.step(&events[i], i, settings) {
            Some(job) => {
                jobs.push(job);
                assert(jobs.deep_view() =~= before.push(job@));
            },
            None => {},
        }
        i += 1;
    }
    jobs
}

/// Pairs each job with the text that came back for it. There must be one
/// text for each job, in the order of the jobs; else the result is `None`.
pub fn edits_for(jobs: &Vec<Job>, texts: &Vec<String>) -> (res: Option<Vec<Edit>>)
    ensures
        match res {
            Some(edits) => {
                &&& texts.len() == jobs.len()
                &&& edits.deep_view() == paired(jobs.deep_view(), texts.deep_view())
                &&& answers(edits.deep_view(), jobs.deep_view())
            },
            None => texts.len() != jobs.len(),
        },
{
    if texts.len() != jobs.len() {
        return None;
    }
    let mut edits: Vec<Edit> = Vec::new();
    let mut k: usize = 0;
    while k < jobs.len()
        invariant
            k <= jobs.len(),
            texts.len() == jobs.len(),
            edits.len() == k,
            forall|m: int|
                0 <= m < k ==> (#[trigger] edits[m])@ == (EditView {
                    index: jobs[m].index as nat,
                    text: texts[m]@,
                }),
        decreases jobs.len() - k,
    {
        edits.push(Edit { index: jobs[k].index, text: texts[k].clone() });
        k += 1;
    }
    proof {
        let made = edits.deep_view();
        let wanted = paired(jobs.deep_view(), texts.deep_view());
        assert forall|m: int| 0 <= m < made.len() implies made[m] == wanted[m] by {
            assert(made[m] == edits[m]@);
            assert(jobs.deep_view()[m] == jobs[m]@);
            assert(texts.deep_view()[m] == texts[m]@);
        }
        assert(made =~= wanted);
    }
    Some(edits)
}

/// The text held for `index` by the edits before position `k`, and by those
/// before `k + 1`.
proof fn lemma_edit_for_step(edits: Seq<EditView>, k: int, index: int)
    requires
        0 <= k < edits.len(),
    ensures
        edit_for(edits.take(k + 1), index) == if edits[k].index == index {
            Some(edits[k].text)
        } else {
            edit_for(edits.take(k), index)
        },
{
    let upto = edits.take(k + 1);
    assert(upto.last() == edits[k]);
    assert(upto.drop_last() =~= edits.take(k));
}

/// Puts each edit's text in the place of the text event that the edit names.
pub fn apply_edits(events: Vec<StructuralEvent>, edits: &Vec<Edit>) -> (res: Vec<StructuralEvent>)
    ensures
        res.deep_view() == spliced(events.deep_view(), edits.deep_view()),
{
    let ghost given = events.deep_view();
    let mut events = events;
    let mut k: usize = 0;
    assert(events.deep_view() =~= spliced(given, edits.deep_view().take(0)));
    while k < edits.len()
        invariant
            k <= edits.len(),
            events.len() == given.len(),
            events.deep_view() == spliced(given, edits.deep_view().take(k as int)),
        decreases edits.len() - k,
    {
        let index: usize = edits[k].index;
        let ghost before = events.deep_view();
        let ghost done = edits.deep_view().take(k as int);
        let ghost next = edits.deep_view().take(k + 1);
        proof {
            assert(edits.deep_view()[k as int] == edits[k as int]@);
            assert forall|i: int| 0 <= i < given.len() implies edit_for(next, i) == if i
                == index {
                Some(edits[k as int]@.text)
            } else {
                edit_for(done, i)
            } by {
                lemma_edit_for_step(edits.deep_view(), k as int, i);
            }
        }
        if index < events.len() {
            assert(before[index as int] == events[index as int]@);
            assert(before[index as int] == edited(given[index as int], done, index as int));
            let is_text = match &events[index].event {
                MdEvent::Text { .. } => true,
                _ => false,
            };
            if is_text {
                let start: usize = events[index].start;
                let end: usize = events[index].end;
                let text = edits[k].text.clone();
                events.set(index, StructuralEvent { event: MdEvent::Text { text }, start, end });
            }
        }
        proof {
            let after = events.deep_view();
            assert forall|i: int| 0 <= i < given.len() implies after[i] == edited(
                given[i],
                next,
                i,
            ) by {
                assert(after[i] == events[i]@);
                assert(before[i] == edited(given[i], done, i));
                if i != index {
                    assert(after[i] == before[i]);
                }
            }
            assert(after =~= spliced(given, next));
        }
        k += 1;
    }
    assert(edits.deep_view().take(k as int) =~= edits.deep_view());
    events
}

/// Puts the metadata block in front of a serialized body and collapses the
/// body's four-backtick fences.
pub fn assemble(frontmatter: &Option<String>, body: &str) -> (res: String)
    ensures
        res@ == assembled(frontmatter.deep_view(), body@),
{
    let fixed = collapse_fences(body);
    match frontmatter {
        Some(metadata) => metadata.clone().concat(fixed.as_str()),
        None => fixed,
    }
}

/// Why a document could not be rendered.
#[derive(Debug)]
pub enum RenderError {
    /// The serializer rejected the event stream.
    Serialize(pulldown_cmark_to_cmark::Error),
}

/// Serializes the stream and assembles the finished document.
pub fn render(frontmatter: &Option<String>, events: &Vec<StructuralEvent>) -> (res: Result<
    String,
    RenderError,
>)
    ensures
        match res {
            Ok(text) => serialized(kinds(events.deep_view())) matches Some(body) && text@
                == assembled(frontmatter.deep_view(), body),
            Err(_) => serialized(kinds(events.deep_view())) is None,
        },
{
    match serialize_events(events) {
        Ok(body) => Ok(assemble(frontmatter, body.as_str())),
        Err(e) => Err(RenderError::Serialize(e)),
    }
}

/// A document taken apart: its metadata block and the events of its body.
#[derive(Debug)]
pub struct Document {
    pub frontmatter: Option<String>,
    pub events: Vec<StructuralEvent>,
}

/// Takes a document apart.
pub fn parse_document(text: &str) -> (doc: Document)
    ensures
        doc.frontmatter.deep_view() == metadata_of(text@),
        doc.events.deep_view() == parsed_events(body_of(text@)),
{
    let (metadata, body) = split_frontmatter_and_content(text);
    let frontmatter = match metadata {
        Some(m) => Some(m.to_owned()),
        None => None,
    };
    Document { frontmatter, events: parse_events(body) }
}

} // verus!
