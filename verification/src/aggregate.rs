//! The result aggregator: consumes the engine's decoded event stream in
//! order, applies the retention rule per event, elides file sections that
//! kept no match, stops at the configured match cap or at the summary,
//! and returns the retained events with the engine's summary last.

use vstd::prelude::*;

use crate::errors::SearchError;
use crate::event::{event_retained, event_views, EngineEvent, EventView, retained};
use crate::options::{Options, OptionsView};

verus! {

/// The aggregator's state while it scans the stream.
pub ghost struct AggState {
    /// Events retained so far, in stream order.
    pub results: Seq<EventView>,
    /// Number of retained `match` events.
    pub matches: nat,
    /// Whether the match cap cut the scan short.
    pub truncated: bool,
    /// Whether the scan has stopped (summary reached or cap hit).
    pub done: bool,
}

/// The state before any event is consumed.
pub open spec fn init_state() -> AggState {
    AggState { results: Seq::empty(), matches: 0, truncated: false, done: false }
}

/// Removes a trailing `begin` event: the file section it opened kept no
/// match, so it would be an empty header in the output.
pub open spec fn pop_begin_spec(rs: Seq<EventView>) -> Seq<EventView> {
    if rs.len() > 0 && rs.last() is Begin {
        rs.drop_last()
    } else {
        rs
    }
}

/// How one event changes the state. A discarded event changes nothing.
/// A retained event arriving once the cap is reached stops the scan and
/// records truncation. A summary stops the scan. A retained match is
/// appended and counted. A `begin` first elides a pending empty section,
/// then is appended.
pub open spec fn agg_step(st: AggState, e: EventView, o: OptionsView, cap: nat) -> AggState {
    if st.done || !retained(e, o) {
        st
    } else if st.matches >= cap {
        AggState { results: st.results, matches: st.matches, truncated: true, done: true }
    } else if e is Summary {
        AggState { results: st.results, matches: st.matches, truncated: st.truncated, done: true }
    } else if e is Match {
        AggState {
            results: st.results.push(e),
            matches: st.matches + 1,
            truncated: st.truncated,
            done: st.done,
        }
    } else {
        AggState {
            results: pop_begin_spec(st.results).push(e),
            matches: st.matches,
            truncated: st.truncated,
            done: st.done,
        }
    }
}

/// [`agg_step`] applied to each event of `evs` in order, from `st`.
pub open spec fn agg_fold(st: AggState, evs: Seq<EventView>, o: OptionsView, cap: nat) -> AggState
    decreases evs.len(),
{
    if evs.len() == 0 {
        st
    } else {
        agg_fold(agg_step(st, evs[0], o, cap), evs.drop_first(), o, cap)
    }
}

/// A stopped scan ignores the rest of the stream.
pub proof fn lemma_fold_done(st: AggState, evs: Seq<EventView>, o: OptionsView, cap: nat)
    requires
        st.done,
    ensures
        agg_fold(st, evs, o, cap) == st,
    decreases evs.len(),
{
    if evs.len() > 0 {
        lemma_fold_done(st, evs.drop_first(), o, cap);
    }
}

/// Folding over a stream with one more event at its end is one more step.
pub proof fn lemma_fold_snoc(
    st: AggState,
    evs: Seq<EventView>,
    e: EventView,
    o: OptionsView,
    cap: nat,
)
    ensures
        agg_fold(st, evs.push(e), o, cap) == agg_step(agg_fold(st, evs, o, cap), e, o, cap),
    decreases evs.len(),
{
    if evs.len() == 0 {
        assert(evs.push(e)[0] == e);
        assert(evs.push(e).drop_first() =~= Seq::<EventView>::empty());
        assert(agg_fold(st, evs.push(e), o, cap) == agg_fold(
            agg_step(st, e, o, cap),
            Seq::<EventView>::empty(),
            o,
            cap,
        ));
        assert(agg_fold(agg_step(st, e, o, cap), Seq::<EventView>::empty(), o, cap)
            == agg_step(st, e, o, cap));
        assert(agg_fold(st, evs, o, cap) == st);
    } else {
        assert(evs.push(e)[0] == evs[0]);
        assert(evs.push(e).drop_first() =~= evs.drop_first().push(e));
        assert(agg_fold(st, evs.push(e), o, cap) == agg_fold(
            agg_step(st, evs[0], o, cap),
            evs.drop_first().push(e),
            o,
            cap,
        ));
        lemma_fold_snoc(agg_step(st, evs[0], o, cap), evs.drop_first(), e, o, cap);
        assert(agg_fold(st, evs, o, cap) == agg_fold(
            agg_step(st, evs[0], o, cap),
            evs.drop_first(),
            o,
            cap,
        ));
    }
}

/// What aggregation yields on a decoded stream: an error when the stream
/// does not end with a summary event; otherwise the retained events with
/// a final pending empty section elided and the stream's summary appended
/// last, together with the truncation flag.
pub open spec fn spec_aggregate(evs: Seq<EventView>, o: OptionsView, cap: nat) -> Result<
    (Seq<EventView>, bool),
    SearchError,
> {
    if evs.len() == 0 || !(evs.last() is Summary) {
        Err(SearchError::MissingSummary)
    } else {
        let st = agg_fold(init_state(), evs, o, cap);
        Ok((pop_begin_spec(st.results).push(evs.last()), st.truncated))
    }
}

/// The aggregated response: the retained events, summary last, and
/// whether the match cap cut the stream short.
pub struct AggregatedResult {
    pub events: Vec<EngineEvent>,
    pub truncated: bool,
}

/// Mathematical image of an [`AggregatedResult`].
pub ghost struct AggregatedResultView {
    pub events: Seq<EventView>,
    pub truncated: bool,
}

impl View for AggregatedResult {
    type V = AggregatedResultView;

    open spec fn view(&self) -> AggregatedResultView {
        AggregatedResultView { events: event_views(self.events@), truncated: self.truncated }
    }
}

/// Removes the last retained event if it is a `begin` whose file section
/// kept no match, so no empty file header reaches the output.
pub fn pop_if_empty_begin(results: &mut Vec<EngineEvent>)
    ensures
        event_views(final(results)@) == pop_begin_spec(event_views(old(results)@)),
{
    let ghost pre = event_views(results@);
    let pop = match results.last() {
        Some(EngineEvent::Begin { .. }) => true,
        _ => false,
    };
    if pop {
        proof {
            assert(pre.last() is Begin);
        }
        results.pop();
        proof {
            assert(event_views(results@) =~= pre.drop_last());
        }
    }
}

/// Aggregates a decoded event stream, as [`spec_aggregate`] describes.
#[verifier::loop_isolation(false)]
pub fn aggregate(events: Vec<EngineEvent>, options: &Options, max_matches: usize) -> (r: Result<
    AggregatedResult,
    SearchError,
>)
    ensures
        match spec_aggregate(event_views(events@), options@, max_matches as nat) {
            Ok(res) => r matches Ok(a) && a@.events == res.0 && a@.truncated == res.1,
            Err(er) => r matches Err(e2) && e2 is MissingSummary && er is MissingSummary,
        },
{
    let ghost all = event_views(events@);
    let ghost o = options@;
    let ghost cap = max_matches as nat;
    let mut evs = events;
    if evs.len() == 0 {
        return Err(SearchError::MissingSummary);
    }
    let last = match evs.pop() {
        Some(e) => e,
        None => {
            return Err(SearchError::MissingSummary);
        },
    };
    proof {
        assert(event_views(evs@).push(last@) =~~= all);
        assert(all.last() == last@);
        assert(event_views(evs@) =~= all.drop_last());
    }
    let is_summary = match &last {
        EngineEvent::Summary { .. } => true,
        _ => false,
    };
    if !is_summary {
        return Err(SearchError::MissingSummary);
    }
    let ghost prefix = event_views(evs@);
    let mut results: Vec<EngineEvent> = Vec::new();
    let mut matches: usize = 0;
    let mut truncated = false;
    let mut done = false;
    let ghost mut seen: int = 0;
    proof {
        assert(prefix.take(0) =~= Seq::<EventView>::empty());
        assert(event_views(results@) =~= Seq::<EventView>::empty());
    }
    while evs.len() > 0 && !done
        invariant
            0 <= seen <= prefix.len(),
            event_views(evs@) =~= prefix.skip(seen),
            (AggState {
                results: event_views(results@),
                matches: matches as nat,
                truncated,
                done,
            }) == agg_fold(init_state(), prefix.take(seen), o, cap),
            matches <= max_matches,
        decreases evs.len(),
    {
        let ghost st = AggState {
            results: event_views(results@),
            matches: matches as nat,
            truncated,
            done,
        };
        let ghost evs_pre = evs@;
        let e = evs.remove(0);
        proof {
            assert(evs_pre.len() > 0);
            assert(event_views(evs_pre).len() == evs_pre.len());
            assert(prefix.skip(seen).len() == prefix.len() - seen);
            assert(seen < prefix.len());
            assert(event_views(evs_pre)[0] == evs_pre[0]@);
            assert(e@ == prefix.skip(seen)[0]);
            assert(prefix.skip(seen)[0] == prefix[seen]);
            assert(evs@ =~= evs_pre.drop_first());
            assert(event_views(evs@) =~= prefix.skip(seen + 1)) by {
                assert(forall|k: int|
                    0 <= k < evs@.len() ==> #[trigger] event_views(evs@)[k] == evs@[k]@
                        && evs@[k] == evs_pre[k + 1] && event_views(evs_pre)[k + 1]
                        == evs_pre[k + 1]@ && event_views(evs_pre)[k + 1] == prefix.skip(
                        seen,
                    )[k + 1] && prefix.skip(seen)[k + 1] == prefix[seen + 1 + k]
                        && prefix.skip(seen + 1)[k] == prefix[seen + 1 + k]);
            }
            assert(prefix.take(seen + 1) =~= prefix.take(seen).push(prefix[seen]));
            lemma_fold_snoc(init_state(), prefix.take(seen), prefix[seen], o, cap);
        }
        if event_retained(&e, options) {
            if matches >= max_matches {
                truncated = true;
                done = true;
            } else {
                match e {
                    EngineEvent::Summary { .. } => {
                        done = true;
                    },
                    EngineEvent::Match { .. } => {
                        matches += 1;
                        let ghost rs = event_views(results@);
                        results.push(e);
                        proof {
                            assert(event_views(results@) =~~= rs.push(prefix[seen]));
                        }
                    },
                    _ => {
                        pop_if_empty_begin(&mut results);
                        let ghost rs = event_views(results@);
                        results.push(e);
                        proof {
                            assert(event_views(results@) =~~= rs.push(prefix[seen]));
                        }
                    },
                }
            }
        }
        proof {
            seen = seen + 1;
        }
    }
    proof {
        if done {
            lemma_fold_done(
                agg_fold(init_state(), prefix.take(seen), o, cap),
                prefix.skip(seen),
                o,
                cap,
            );
            lemma_fold_split(init_state(), prefix, seen, o, cap);
        } else {
            assert(seen == prefix.len());
            assert(prefix.take(seen) =~= prefix);
        }
        assert(AggState {
            results: event_views(results@),
            matches: matches as nat,
            truncated,
            done,
        } == agg_fold(init_state(), prefix, o, cap));
        lemma_fold_snoc(init_state(), prefix, last@, o, cap);
        assert(prefix.push(last@) =~= all);
    }
    if !done && matches >= max_matches {
        truncated = true;
    }
    proof {
        let fin = agg_fold(init_state(), all, o, cap);
        assert(fin.results == event_views(results@));
        assert(fin.truncated == truncated);
    }
    pop_if_empty_begin(&mut results);
    let ghost popped = event_views(results@);
    results.push(last);
    proof {
        assert(event_views(results@) =~~= popped.push(last@));
    }
    Ok(AggregatedResult { events: results, truncated })
}

/// Number of `match` events in a sequence.
pub open spec fn count_matches(rs: Seq<EventView>) -> nat
    decreases rs.len(),
{
    if rs.len() == 0 {
        0
    } else {
        count_matches(rs.drop_last()) + if rs.last() is Match {
            1nat
        } else {
            0nat
        }
    }
}

/// No element is a summary event.
pub open spec fn no_summary(rs: Seq<EventView>) -> bool {
    forall|i: int| 0 <= i < rs.len() ==> !((#[trigger] rs[i]) is Summary)
}

/// Every `begin` that has a successor is immediately followed by a
/// `match`: no file section in the sequence is empty.
pub open spec fn begins_followed(rs: Seq<EventView>) -> bool {
    forall|i: int| 0 <= i < rs.len() - 1 && (#[trigger] rs[i]) is Begin ==> rs[i + 1] is Match
}

/// Every `match` in the sequence passes the retention rule.
pub open spec fn matches_filtered(rs: Seq<EventView>, o: OptionsView) -> bool {
    forall|i: int| 0 <= i < rs.len() && (#[trigger] rs[i]) is Match ==> retained(rs[i], o)
}

/// Number of matches the retention rule keeps, up to the first summary.
pub open spec fn retainable_matches(evs: Seq<EventView>, o: OptionsView) -> nat
    decreases evs.len(),
{
    if evs.len() == 0 {
        0
    } else if evs[0] is Summary {
        0
    } else if evs[0] is Match && retained(evs[0], o) {
        1 + retainable_matches(evs.drop_first(), o)
    } else {
        retainable_matches(evs.drop_first(), o)
    }
}

/// Appending one event raises the match count by one exactly when the
/// event is a `match`.
proof fn lemma_count_push(rs: Seq<EventView>, e: EventView)
    ensures
        count_matches(rs.push(e)) == count_matches(rs) + if e is Match {
            1nat
        } else {
            0nat
        },
{
    assert(rs.push(e).drop_last() =~= rs);
    assert(rs.push(e).last() == e);
}

/// Eliding a trailing `begin` keeps the match count, keeps the section
/// discipline, and leaves no `begin` at the end.
proof fn lemma_pop_begin(rs: Seq<EventView>)
    requires
        begins_followed(rs),
    ensures
        count_matches(pop_begin_spec(rs)) == count_matches(rs),
        begins_followed(pop_begin_spec(rs)),
        pop_begin_spec(rs).len() > 0 ==> !(pop_begin_spec(rs).last() is Begin),
        no_summary(rs) ==> no_summary(pop_begin_spec(rs)),
        forall|o: OptionsView| matches_filtered(rs, o) ==> matches_filtered(
            pop_begin_spec(rs),
            o,
        ),
{
    if rs.len() > 0 && rs.last() is Begin {
        let p = rs.drop_last();
        assert(forall|i: int| 0 <= i < p.len() ==> p[i] == rs[i]);
        if p.len() > 0 && p.last() is Begin {
            assert(rs[p.len() - 1] is Begin && rs[p.len() as int] is Match);
        }
    }
}

/// The aggregator's structural invariants, preserved by every step of
/// the fold: no summary is retained, no retained file section is empty,
/// and every retained `match` passed the retention rule.
proof fn lemma_fold_invariants(st: AggState, evs: Seq<EventView>, o: OptionsView, cap: nat)
    requires
        no_summary(st.results),
        begins_followed(st.results),
        matches_filtered(st.results, o),
    ensures
        no_summary(agg_fold(st, evs, o, cap).results),
        begins_followed(agg_fold(st, evs, o, cap).results),
        matches_filtered(agg_fold(st, evs, o, cap).results, o),
    decreases evs.len(),
{
    if evs.len() > 0 {
        let e = evs[0];
        let st2 = agg_step(st, e, o, cap);
        if !st.done && retained(e, o) && st.matches < cap && !(e is Summary) {
            if e is Match {
                let rs2 = st.results.push(e);
                assert(no_summary(rs2));
                assert(begins_followed(rs2)) by {
                    assert forall|i: int|
                        0 <= i < rs2.len() - 1 && (#[trigger] rs2[i]) is Begin implies rs2[i
                        + 1] is Match by {
                        if i < st.results.len() - 1 {
                            assert(rs2[i] == st.results[i]);
                            assert(rs2[i + 1] == st.results[i + 1]);
                        } else {
                            assert(rs2[i + 1] == e);
                        }
                    }
                }
                assert(matches_filtered(rs2, o));
            } else {
                lemma_pop_begin(st.results);
                let p = pop_begin_spec(st.results);
                let rs2 = p.push(e);
                assert(no_summary(rs2));
                assert(begins_followed(rs2)) by {
                    assert forall|i: int|
                        0 <= i < rs2.len() - 1 && (#[trigger] rs2[i]) is Begin implies rs2[i
                        + 1] is Match by {
                        if i < p.len() - 1 {
                            assert(rs2[i] == p[i]);
                            assert(rs2[i + 1] == p[i + 1]);
                        } else {
                            assert(rs2[i] == p.last());
                        }
                    }
                }
                assert(matches_filtered(rs2, o));
            }
        }
        lemma_fold_invariants(st2, evs.drop_first(), o, cap);
    }
}

/// The aggregator's counting invariant: starting from a live state whose
/// match counter equals the matches it retained, the fold retains
/// `min(counter + retainable, cap)` matches and reports truncation
/// exactly when `counter + retainable` reaches the cap. Needs a summary
/// somewhere in the stream, which stops a scan the cap does not stop.
proof fn lemma_fold_count(st: AggState, evs: Seq<EventView>, o: OptionsView, cap: nat)
    requires
        !st.done,
        !st.truncated,
        st.matches <= cap,
        count_matches(st.results) == st.matches,
        exists|i: int| 0 <= i < evs.len() && evs[i] is Summary,
    ensures
        count_matches(agg_fold(st, evs, o, cap).results) == if st.matches
            + retainable_matches(evs, o) >= cap {
            cap
        } else {
            st.matches + retainable_matches(evs, o)
        },
        agg_fold(st, evs, o, cap).truncated <==> st.matches + retainable_matches(evs, o)
            >= cap,
    decreases evs.len(),
{
    let i0 = choose|i: int| 0 <= i < evs.len() && evs[i] is Summary;
    let e = evs[0];
    let st2 = agg_step(st, e, o, cap);
    if e is Summary {
        lemma_fold_done(st2, evs.drop_first(), o, cap);
    } else {
        assert(0 <= i0 - 1 < evs.drop_first().len() && evs.drop_first()[i0 - 1]
            is Summary);
        if retained(e, o) {
            if st.matches >= cap {
                lemma_fold_done(st2, evs.drop_first(), o, cap);
            } else if e is Match {
                lemma_count_push(st.results, e);
                lemma_fold_count(st2, evs.drop_first(), o, cap);
            } else {
                lemma_pop_begin_count_weak(st.results);
                lemma_count_push(pop_begin_spec(st.results), e);
                lemma_fold_count(st2, evs.drop_first(), o, cap);
            }
        } else {
            lemma_fold_count(st2, evs.drop_first(), o, cap);
        }
    }
}

/// Eliding a trailing `begin` never changes the match count.
proof fn lemma_pop_begin_count_weak(rs: Seq<EventView>)
    ensures
        count_matches(pop_begin_spec(rs)) == count_matches(rs),
{
    if rs.len() > 0 && rs.last() is Begin {
    }
}

/// The output array always ends with a summary event, and that summary
/// is the only one in it.
pub proof fn lemma_summary_last(evs: Seq<EventView>, o: OptionsView, cap: nat)
    requires
        spec_aggregate(evs, o, cap) is Ok,
    ensures
        ({
            let rs = spec_aggregate(evs, o, cap)->Ok_0.0;
            rs.len() > 0 && rs.last() is Summary && forall|i: int|
                0 <= i < rs.len() - 1 ==> !(rs[i] is Summary)
        }),
{
    let st = agg_fold(init_state(), evs, o, cap);
    lemma_fold_invariants(init_state(), evs, o, cap);
    lemma_pop_begin(st.results);
    let p = pop_begin_spec(st.results);
    let rs = p.push(evs.last());
    assert(forall|i: int| 0 <= i < rs.len() - 1 ==> rs[i] == p[i]);
}

/// No empty file section reaches the output: every retained `begin` is
/// immediately followed by a retained `match`.
pub proof fn lemma_no_empty_begin(evs: Seq<EventView>, o: OptionsView, cap: nat)
    requires
        spec_aggregate(evs, o, cap) is Ok,
    ensures
        ({
            let rs = spec_aggregate(evs, o, cap)->Ok_0.0;
            forall|i: int| 0 <= i < rs.len() && (#[trigger] rs[i]) is Begin ==> i + 1
                < rs.len() && rs[i + 1] is Match
        }),
{
    let st = agg_fold(init_state(), evs, o, cap);
    lemma_fold_invariants(init_state(), evs, o, cap);
    lemma_pop_begin(st.results);
    let p = pop_begin_spec(st.results);
    let rs = p.push(evs.last());
    assert forall|i: int| 0 <= i < rs.len() && (#[trigger] rs[i]) is Begin implies i + 1
        < rs.len() && rs[i + 1] is Match by {
        assert(rs.last() is Summary);
        assert(i < rs.len() - 1);
        if i < p.len() - 1 {
            assert(rs[i] == p[i]);
            assert(rs[i + 1] == p[i + 1]);
        } else {
            assert(rs[i] == p.last());
        }
    }
}

/// Truncation is reported exactly: the output never retains more than
/// `cap` matches, it retains `cap` of them exactly when the stream had
/// at least `cap` retainable matches before its summary, and the
/// truncation flag is set exactly in that case. In particular, when the
/// retainable matches would exceed the cap the flag is set, and when
/// they stay under it the flag is clear.
pub proof fn lemma_truncation(evs: Seq<EventView>, o: OptionsView, cap: nat)
    requires
        spec_aggregate(evs, o, cap) is Ok,
    ensures
        ({
            let rs = spec_aggregate(evs, o, cap)->Ok_0.0;
            let truncated = spec_aggregate(evs, o, cap)->Ok_0.1;
            count_matches(rs) <= cap && (truncated <==> retainable_matches(evs, o) >= cap)
                && count_matches(rs) == if retainable_matches(evs, o) >= cap {
                cap
            } else {
                retainable_matches(evs, o)
            }
        }),
{
    let st = agg_fold(init_state(), evs, o, cap);
    assert(0 <= evs.len() - 1 < evs.len() && evs[evs.len() - 1] is Summary);
    lemma_fold_count(init_state(), evs, o, cap);
    lemma_pop_begin_count_weak(st.results);
    lemma_count_push(pop_begin_spec(st.results), evs.last());
}

/// The path filter is honoured: when a filter is set, every retained
/// `match` names a file path that contains it as a substring; filtered
/// or not, every retained `match` carries line text. When no filter is
/// set, no match is excluded on path grounds: the retention rule reduces
/// to the text check alone.
pub proof fn lemma_path_filter(evs: Seq<EventView>, o: OptionsView, cap: nat)
    requires
        spec_aggregate(evs, o, cap) is Ok,
    ensures
        ({
            let rs = spec_aggregate(evs, o, cap)->Ok_0.0;
            forall|i: int| 0 <= i < rs.len() ==> (#[trigger] rs[i] matches
                EventView::Match { path, has_text, .. } ==> has_text && (o.path matches Some(
                f,
            ) ==> crate::text::contains_seq(path, f)))
        }),
{
    let st = agg_fold(init_state(), evs, o, cap);
    lemma_fold_invariants(init_state(), evs, o, cap);
    lemma_pop_begin(st.results);
    let p = pop_begin_spec(st.results);
    let rs = p.push(evs.last());
    assert(matches_filtered(rs, o)) by {
        assert forall|i: int| 0 <= i < rs.len() && (#[trigger] rs[i]) is Match implies
            retained(rs[i], o) by {
            if i < p.len() {
                assert(rs[i] == p[i]);
            }
        }
    }
}

/// Every match lies in the section of the file it names: a `begin`
/// opens its file's section, an `end` closes it, and each match names
/// the file of the section open where it stands. `open_path` is the
/// section open at the stream's start. A well-formed engine run
/// satisfies this from the empty opening state.
pub open spec fn sections_ok(evs: Seq<EventView>, open_path: Option<Seq<char>>) -> bool
    decreases evs.len(),
{
    if evs.len() == 0 {
        true
    } else {
        let rest = evs.drop_first();
        match evs[0] {
            EventView::Begin { path, .. } => sections_ok(rest, Some(path)),
            EventView::End => sections_ok(rest, None),
            EventView::Match { path, .. } => open_path == Some(path) && sections_ok(
                rest,
                open_path,
            ),
            EventView::Summary { .. } => sections_ok(rest, open_path),
        }
    }
}

/// A `begin` immediately followed by a `match` names the same file.
pub open spec fn same_file_pairs(rs: Seq<EventView>) -> bool {
    forall|i: int| #![trigger rs[i]]
        0 <= i < rs.len() - 1 ==> match (rs[i], rs[i + 1]) {
            (EventView::Begin { path: p, .. }, EventView::Match { path: q, .. }) => p == q,
            _ => true,
        }
}

/// A trailing `begin` names the file of the open section, when one is
/// open.
spec fn begins_agree(rs: Seq<EventView>, open_path: Option<Seq<char>>) -> bool {
    rs.len() > 0 ==> match rs.last() {
        EventView::Begin { path: p, .. } => match open_path {
            Some(q) => q == p,
            None => true,
        },
        _ => true,
    }
}

proof fn lemma_fold_sections(
    st: AggState,
    evs: Seq<EventView>,
    o: OptionsView,
    cap: nat,
    open_path: Option<Seq<char>>,
)
    requires
        sections_ok(evs, open_path),
        begins_agree(st.results, open_path),
        same_file_pairs(st.results),
    ensures
        same_file_pairs(agg_fold(st, evs, o, cap).results),
    decreases evs.len(),
{
    if evs.len() == 0 {
        return ;
    }
    if st.done {
        lemma_fold_done(st, evs, o, cap);
        return ;
    }
    let e = evs[0];
    let st2 = agg_step(st, e, o, cap);
    let rest = evs.drop_first();
    if retained(e, o) && st.matches >= cap {
        lemma_fold_done(st2, rest, o, cap);
        return ;
    }
    if retained(e, o) && e is Summary {
        lemma_fold_done(st2, rest, o, cap);
        return ;
    }
    match e {
        EventView::Begin { path, .. } => {
            let p = pop_begin_spec(st.results);
            let rs2 = p.push(e);
            assert(same_file_pairs(p));
            assert(same_file_pairs(rs2)) by {
                assert(forall|i: int|
                    0 <= i < p.len() ==> #[trigger] rs2[i] == p[i]);
                assert(rs2[rs2.len() - 1] == e);
            }
            lemma_fold_sections(st2, rest, o, cap, Some(path));
        },
        EventView::End => {
            lemma_fold_sections(st2, rest, o, cap, None);
        },
        EventView::Match { path, .. } => {
            if retained(e, o) {
                let rs2 = st.results.push(e);
                assert(same_file_pairs(rs2)) by {
                    assert(forall|i: int|
                        0 <= i < st.results.len() ==> #[trigger] rs2[i]
                            == st.results[i]);
                    assert(rs2[rs2.len() - 1] == e);
                }
                lemma_fold_sections(st2, rest, o, cap, open_path);
            } else {
                lemma_fold_sections(st2, rest, o, cap, open_path);
            }
        },
        EventView::Summary { .. } => {
            lemma_fold_sections(st2, rest, o, cap, open_path);
        },
    }
}

/// On a well-formed stream, a retained `begin` and the retained `match`
/// right after it name the same file; with [`lemma_no_empty_begin`],
/// every retained `begin` is followed by at least one retained `match`
/// of its own file before the next `begin` or the summary.
pub proof fn lemma_begin_match_same_file(evs: Seq<EventView>, o: OptionsView, cap: nat)
    requires
        spec_aggregate(evs, o, cap) is Ok,
        sections_ok(evs, None),
    ensures
        ({
            let rs = spec_aggregate(evs, o, cap)->Ok_0.0;
            same_file_pairs(rs)
        }),
{
    let st = agg_fold(init_state(), evs, o, cap);
    lemma_fold_sections(init_state(), evs, o, cap, None);
    let p = pop_begin_spec(st.results);
    let rs = p.push(evs.last());
    assert(same_file_pairs(p));
    assert(same_file_pairs(rs)) by {
        assert(forall|i: int| 0 <= i < p.len() ==> #[trigger] rs[i] == p[i]);
        assert(rs[rs.len() - 1] == evs.last());
    }
}

/// The aggregated response is a function of the decoded stream, the
/// request and the cap alone: the same inputs always yield the same
/// output, so an unchanged stream aggregated twice gives identical
/// results.
pub proof fn lemma_aggregation_deterministic(
    evs1: Seq<EventView>,
    evs2: Seq<EventView>,
    o: OptionsView,
    cap: nat,
)
    requires
        evs1 == evs2,
    ensures
        spec_aggregate(evs1, o, cap) == spec_aggregate(evs2, o, cap),
{
}

/// Folding a stream is folding a prefix, then the rest.
pub proof fn lemma_fold_split(
    st: AggState,
    evs: Seq<EventView>,
    i: int,
    o: OptionsView,
    cap: nat,
)
    requires
        0 <= i <= evs.len(),
    ensures
        agg_fold(st, evs, o, cap) == agg_fold(
            agg_fold(st, evs.take(i), o, cap),
            evs.skip(i),
            o,
            cap,
        ),
    decreases i,
{
    if i == 0 {
        assert(evs.take(0) =~= Seq::<EventView>::empty());
        assert(evs.skip(0) =~= evs);
    } else {
        let j = i - 1;
        lemma_fold_split(st, evs, j, o, cap);
        assert(evs.take(i) =~= evs.take(j).push(evs[j]));
        lemma_fold_snoc(st, evs.take(j), evs[j], o, cap);
        assert(evs.skip(j)[0] == evs[j]);
        assert(evs.skip(j).drop_first() =~= evs.skip(i));
    }
}

} // verus!
