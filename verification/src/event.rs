//! The engine's event stream. Each line of the engine's JSON output is
//! one event of four kinds: `begin` opens a file section, `match` reports
//! one matching line, `end` closes a file section, and `summary` carries
//! the run's aggregate statistics and terminates a well-formed stream.
//! Decoding a line is delegated to serde_json behind trusted wrappers
//! whose results are named, so what a line decodes to is a fixed
//! function of its characters; every decision taken on a decoded event
//! is verified.

use vstd::prelude::*;

use crate::options::{Options, OptionsView};
use crate::text::{contains_seq, str_contains};

verus! {

/// One decoded line of engine output. Events other than `end` keep the
/// raw line they were decoded from, so that the aggregated response can
/// reproduce the engine's own objects.
pub enum EngineEvent {
    /// Opens the section of one matched file.
    Begin { path: String, raw: String },
    /// One matching line; `has_text` says whether the engine could give
    /// the line as text.
    Match { path: String, line_number: Option<u64>, has_text: bool, raw: String },
    /// Closes a file section; never retained.
    End,
    /// Aggregate statistics; the final event of a well-formed run.
    Summary { raw: String },
}

/// Mathematical image of an [`EngineEvent`].
pub ghost enum EventView {
    Begin { path: Seq<char>, raw: Seq<char> },
    Match { path: Seq<char>, line_number: Option<u64>, has_text: bool, raw: Seq<char> },
    End,
    Summary { raw: Seq<char> },
}

impl View for EngineEvent {
    type V = EventView;

    open spec fn view(&self) -> EventView {
        match self {
            EngineEvent::Begin { path, raw } => EventView::Begin { path: path@, raw: raw@ },
            EngineEvent::Match { path, line_number, has_text, raw } => EventView::Match {
                path: path@,
                line_number: *line_number,
                has_text: *has_text,
                raw: raw@,
            },
            EngineEvent::End => EventView::End,
            EngineEvent::Summary { raw } => EventView::Summary { raw: raw@ },
        }
    }
}

/// The views of a vector of events.
pub open spec fn event_views(es: Seq<EngineEvent>) -> Seq<EventView> {
    es.map_values(|e: EngineEvent| e@)
}

/// The raw line an event was decoded from (`end` events keep none).
pub open spec fn raw_of(e: EventView) -> Seq<char> {
    match e {
        EventView::Begin { raw, .. } => raw,
        EventView::Match { raw, .. } => raw,
        EventView::Summary { raw } => raw,
        EventView::End => Seq::empty(),
    }
}

/// The view of an optional event.
pub open spec fn decoded_view(r: Option<EngineEvent>) -> Option<EventView> {
    match r {
        Some(e) => Some(e@),
        None => None,
    }
}

/// What one line of engine output decodes to: one of the four event
/// kinds, or nothing for a line that is not a well-formed event. The
/// result depends on the line's characters alone.
pub uninterp spec fn decoded_of(line: Seq<char>) -> Option<EventView>;

/// Relies on serde_json (`from_str`, `Value::get`, `Value::as_str`,
/// `Value::as_u64`): parses one line and projects it onto the four event
/// kinds. The `type` tag picks the kind; `begin` and `match` events
/// carry `data.path.text`; a `match` carries `data.line_number` and
/// whether `data.lines.text` is present; every event but `end` keeps the
/// whole line. A line that does not parse, or whose shape fits no kind,
/// is `None`. None of these calls can panic.
#[verifier::external_body]
fn decode_line(line: &str) -> (r: Option<EngineEvent>)
    ensures
        decoded_view(r) == decoded_of(line@),
        r matches Some(e) ==> (!(e@ is End) ==> raw_of(e@) == line@),
{
    let v: serde_json::Value = serde_json::from_str(line).ok()?;
    let (raw, d) = (line.to_string(), v.get("data"));
    match v.get("type")?.as_str()? {
        "end" => Some(EngineEvent::End),
        "summary" => Some(EngineEvent::Summary { raw }),
        tag @ ("begin" | "match") => {
            let path = d?.get("path")?.get("text")?.as_str()?.to_string();
            if tag == "begin" { return Some(EngineEvent::Begin { path, raw }); }
            let line_number = d?.get("line_number").and_then(|u| u.as_u64());
            let has_text = d?.get("lines").is_some_and(|l| l.get("text").is_some());
            Some(EngineEvent::Match { path, line_number, has_text, raw })
        },
        _ => None,
    }
}

/// Decodes one line of engine output into an event: exactly
/// [`decoded_of`] the line. `None` means the line is not a well-formed
/// event of one of the four kinds: partial or corrupt engine output is
/// not tolerated, so callers treat it as fatal.
pub fn classify_line(line: &str) -> (r: Option<EngineEvent>)
    ensures
        decoded_view(r) == decoded_of(line@),
        r matches Some(e) ==> (!(e@ is End) ==> raw_of(e@) == line@),
{
    decode_line(line)
}

/// Wall-clock duration as the engine reports it.
pub struct Elapsed {
    pub human: String,
    pub nanos: u64,
    pub secs: u64,
}

/// Mathematical image of an [`Elapsed`].
pub ghost struct ElapsedView {
    pub human: Seq<char>,
    pub nanos: u64,
    pub secs: u64,
}

impl View for Elapsed {
    type V = ElapsedView;

    open spec fn view(&self) -> ElapsedView {
        ElapsedView { human: self.human@, nanos: self.nanos, secs: self.secs }
    }
}

/// The statistics payload of a summary event.
pub struct StatsPayload {
    pub bytes_printed: u64,
    pub bytes_searched: u64,
    pub elapsed: Elapsed,
    pub matched_lines: u64,
    pub matches: u64,
    pub searches: u64,
    pub searches_with_match: u64,
}

/// Mathematical image of a [`StatsPayload`].
pub ghost struct StatsPayloadView {
    pub bytes_printed: u64,
    pub bytes_searched: u64,
    pub elapsed: ElapsedView,
    pub matched_lines: u64,
    pub matches: u64,
    pub searches: u64,
    pub searches_with_match: u64,
}

impl View for StatsPayload {
    type V = StatsPayloadView;

    open spec fn view(&self) -> StatsPayloadView {
        StatsPayloadView {
            bytes_printed: self.bytes_printed,
            bytes_searched: self.bytes_searched,
            elapsed: self.elapsed@,
            matched_lines: self.matched_lines,
            matches: self.matches,
            searches: self.searches,
            searches_with_match: self.searches_with_match,
        }
    }
}

/// A summary event's full data payload: total elapsed time and the
/// statistics object.
pub struct SummaryStats {
    pub elapsed_total: Elapsed,
    pub stats: StatsPayload,
}

/// Mathematical image of a [`SummaryStats`].
pub ghost struct SummaryStatsView {
    pub elapsed_total: ElapsedView,
    pub stats: StatsPayloadView,
}

impl View for SummaryStats {
    type V = SummaryStatsView;

    open spec fn view(&self) -> SummaryStatsView {
        SummaryStatsView { elapsed_total: self.elapsed_total@, stats: self.stats@ }
    }
}

/// The view of an optional duration.
pub open spec fn elapsed_opt_view(r: Option<Elapsed>) -> Option<ElapsedView> {
    match r {
        Some(e) => Some(e@),
        None => None,
    }
}

/// The view of an optional statistics payload.
pub open spec fn stats_opt_view(r: Option<StatsPayload>) -> Option<StatsPayloadView> {
    match r {
        Some(s) => Some(s@),
        None => None,
    }
}

/// The `data.elapsed_total` duration a line carries, or nothing when
/// that object is not there in full. A fixed function of the line's
/// characters; the pipeline reads it only off the stream's summary
/// line.
pub uninterp spec fn elapsed_total_of(line: Seq<char>) -> Option<ElapsedView>;

/// The `data.stats` payload a line carries, or nothing when that object
/// is not there in full. A fixed function of the line's characters; the
/// pipeline reads it only off the stream's summary line.
pub uninterp spec fn stats_of(line: Seq<char>) -> Option<StatsPayloadView>;

/// Relies on serde_json (`from_str`, `Value::get`, `Value::as_str`,
/// `Value::as_u64`): the line's `data.elapsed_total` object, `None`
/// when it is not there in full. None of these calls can panic.
#[verifier::external_body]
fn decode_elapsed_total(line: &str) -> (r: Option<Elapsed>)
    ensures
        elapsed_opt_view(r) == elapsed_total_of(line@),
{
    let v: serde_json::Value = serde_json::from_str(line).ok()?;
    let t = v.get("data")?.get("elapsed_total")?;
    let human = t.get("human")?.as_str()?.to_string();
    Some(Elapsed { human, nanos: t.get("nanos")?.as_u64()?, secs: t.get("secs")?.as_u64()? })
}

/// Relies on serde_json (`from_str`, `Value::get`, `Value::as_str`,
/// `Value::as_u64`): the line's `data.stats` object, field by field,
/// `None` when it is not there in full. None of these calls can panic.
#[verifier::external_body]
fn decode_stats(line: &str) -> (r: Option<StatsPayload>)
    ensures
        stats_opt_view(r) == stats_of(line@),
{
    let v: serde_json::Value = serde_json::from_str(line).ok()?;
    let s = v.get("data")?.get("stats")?;
    let e = s.get("elapsed")?;
    let human = e.get("human")?.as_str()?.to_string();
    Some(StatsPayload {
        bytes_printed: s.get("bytes_printed")?.as_u64()?,
        bytes_searched: s.get("bytes_searched")?.as_u64()?,
        elapsed: Elapsed { human, nanos: e.get("nanos")?.as_u64()?, secs: e.get("secs")?.as_u64()? },
        matched_lines: s.get("matched_lines")?.as_u64()?,
        matches: s.get("matches")?.as_u64()?,
        searches: s.get("searches")?.as_u64()?,
        searches_with_match: s.get("searches_with_match")?.as_u64()?,
    })
}

/// Decodes the statistics of a summary line: exactly the payloads the
/// two names give, together, or nothing when either is missing.
pub fn decode_summary(line: &str) -> (r: Option<SummaryStats>)
    ensures
        r is Some <==> (elapsed_total_of(line@) is Some && stats_of(line@) is Some),
        r matches Some(st) ==> st@ == (SummaryStatsView {
            elapsed_total: elapsed_total_of(line@)->0,
            stats: stats_of(line@)->0,
        }),
{
    match (decode_elapsed_total(line), decode_stats(line)) {
        (Some(elapsed_total), Some(stats)) => Some(SummaryStats { elapsed_total, stats }),
        _ => None,
    }
}

/// The retention rule applied to one event: `end` events are always
/// discarded; a `match` is kept only if the engine gave its line as text
/// and, when a path filter is set, its file path contains the filter as
/// a substring; `begin` and `summary` events are always kept.
pub open spec fn retained(e: EventView, o: OptionsView) -> bool {
    match e {
        EventView::End => false,
        EventView::Match { path, has_text, .. } => has_text && match o.path {
            None => true,
            Some(f) => contains_seq(path, f),
        },
        _ => true,
    }
}

/// Decides [`retained`] for one event.
pub fn event_retained(e: &EngineEvent, options: &Options) -> (r: bool)
    ensures
        r == retained(e@, options@),
{
    match e {
        EngineEvent::End => false,
        EngineEvent::Match { path, has_text, .. } => *has_text && match &options.path {
            None => true,
            Some(f) => str_contains(path.as_str(), f.as_str()),
        },
        _ => true,
    }
}

/// Decodes one line and applies the retention rule, as the aggregator
/// consumes the stream: an error for a line that is not a well-formed
/// event, `Ok(None)` for one whose event is discarded, and
/// `Ok(Some(event))` for one that is kept — exactly by [`decoded_of`]
/// and [`retained`].
pub fn parse_result(line: &str, options: &Options) -> (r: Result<
    Option<EngineEvent>,
    crate::errors::SearchError,
>)
    ensures
        match decoded_of(line@) {
            None => r matches Err(er) && er is MalformedEngineOutput,
            Some(ev) => if retained(ev, options@) {
                r matches Ok(Some(e)) && e@ == ev
            } else {
                r matches Ok(None::<EngineEvent>)
            },
        },
{
    match classify_line(line) {
        None => Err(crate::errors::SearchError::MalformedEngineOutput),
        Some(e) => {
            if event_retained(&e, options) {
                Ok(Some(e))
            } else {
                Ok(None)
            }
        },
    }
}

} // verus!
