//! The engine invoker's verified half: process-wide configuration, the
//! exact argument list and working directory of an engine run, the
//! classification of its exit status, and the pipeline that turns its
//! captured output into the response body. Spawning the subprocess and
//! capturing its streams stay outside the library.

use vstd::prelude::*;

use crate::aggregate::{agg_step, aggregate, agg_fold, init_state, spec_aggregate, AggState};
use crate::errors::SearchError;
use crate::event::{
    classify_line, decode_summary, decoded_of, elapsed_total_of, event_retained, event_views,
    stats_of, EngineEvent, EventView, SummaryStatsView,
};
use crate::options::{views_of, Options, OptionsView};
use crate::render::{render_results, spec_render};
use crate::text::{lines_spec, split_char, split_lines, split_spec, string_views, str_eq};

verus! {

/// Process-wide configuration: read once at startup, never mutated.
pub struct Config {
    /// Cap on the number of retained matches per response.
    pub max_matches: usize,
    /// Directory whose immediate subdirectories are the searchable trees.
    pub code_dir: String,
    /// Exclusion glob patterns handed to the engine, one `--glob` each.
    pub globs: Vec<String>,
}

impl Config {
    /// The fixed configuration: a cap of 1000 matches and exclusion
    /// globs for the two translation-catalog file extensions.
    pub fn new(code_dir: String) -> (r: Config)
        ensures
            r.max_matches == 1000,
            r.code_dir@ == code_dir@,
            views_of(r.globs@) =~= seq!["!*.po"@, "!*.pot"@],
    {
        let mut globs: Vec<String> = Vec::new();
        globs.push(String::from_str("!*.po"));
        globs.push(String::from_str("!*.pot"));
        proof {
            assert(views_of(globs@) =~= seq!["!*.po"@, "!*.pot"@]);
        }
        Config { max_matches: 1000, code_dir, globs }
    }
}

/// Relies on `String::from_utf8`: succeeds exactly on valid UTF-8 input
/// and yields its decoding.
#[verifier::external_body]
pub fn convert_to_utf8(bytes: Vec<u8>) -> (r: Option<String>)
    ensures
        r is Some <==> vstd::utf8::valid_utf8(bytes@),
        r matches Some(s) ==> s@ == vstd::utf8::decode_utf8(bytes@),
{
    match String::from_utf8(bytes) {
        Ok(s) => Some(s),
        Err(_) => None,
    }
}

/// An engine exit status that means the run itself succeeded: the engine
/// found matches or found none. Any other status, a signal death
/// included, is a failure.
pub open spec fn exit_ok(code: Option<i32>) -> bool {
    code == Some(0i32) || code == Some(1i32)
}

/// Classifies a finished engine run: on a successful exit status the
/// captured standard output is handed on, on any other the captured
/// standard-error text is surfaced as an engine failure.
pub fn get_ripgrep_output(code: Option<i32>, stdout: Vec<u8>, stderr: String) -> (r: Result<
    Vec<u8>,
    SearchError,
>)
    ensures
        exit_ok(code) ==> (r matches Ok(b) && b@ == stdout@),
        !exit_ok(code) ==> (r matches Err(e) && (e matches SearchError::Engine { message }
            ==> message@ == stderr@) && e is Engine),
{
    let ok = match code {
        Some(c) => c == 0 || c == 1,
        None => false,
    };
    if ok {
        Ok(stdout)
    } else {
        Err(SearchError::Engine { message: stderr })
    }
}

/// The characters of a parent-directory path segment.
pub open spec fn dotdot() -> Seq<char> {
    seq!['.', '.']
}

/// A tree name is safe when none of its `/`-separated segments is a
/// parent-directory reference, so the working directory it selects stays
/// under the code root.
pub open spec fn tree_name_safe(t: Seq<char>) -> bool {
    forall|i: int|
        0 <= i < split_spec(t, '/').len() ==> #[trigger] split_spec(t, '/')[i] != dotdot()
}

/// Decides [`tree_name_safe`].
#[verifier::loop_isolation(false)]
pub fn tree_name_ok(tree: &str) -> (r: bool)
    ensures
        r == tree_name_safe(tree@),
{
    let segs = split_char(tree, '/');
    let n = segs.len();
    proof {
        reveal_strlit("..");
        assert(".."@ =~= dotdot());
    }
    let mut i: usize = 0;
    while i < n
        invariant
            0 <= i <= n,
            n == split_spec(tree@, '/').len(),
            forall|k: int|
                0 <= k < i ==> #[trigger] split_spec(tree@, '/')[k] != dotdot(),
        decreases n - i,
    {
        proof {
            assert(string_views(segs@)[i as int] == segs@[i as int]@);
        }
        if str_eq(segs[i].as_str(), "..") {
            assert(split_spec(tree@, '/')[i as int] == dotdot());
            return false;
        }
        i += 1;
    }
    true
}

/// The argument pairs naming the exclusion globs, in order.
pub open spec fn glob_args(globs: Seq<Seq<char>>) -> Seq<Seq<char>>
    decreases globs.len(),
{
    if globs.len() == 0 {
        Seq::empty()
    } else {
        glob_args(globs.drop_last()) + seq!["--glob"@, globs.last()]
    }
}

/// The engine's full argument list: JSON-lines output, one exclusion
/// argument per configured glob, a type restriction when one was
/// requested, and the literal pattern last.
pub open spec fn invocation_args(
    globs: Seq<Seq<char>>,
    filetype: Option<Seq<char>>,
    pattern: Seq<char>,
) -> Seq<Seq<char>> {
    seq!["--json"@] + glob_args(globs) + (match filetype {
        Some(t) => seq!["--type"@, t],
        None => Seq::empty(),
    }) + seq![pattern]
}

/// A fully described engine run: where it works and what it is passed.
pub struct Invocation {
    /// Working directory: the requested tree under the code root.
    pub working_dir: String,
    /// Arguments, in order, for the engine binary.
    pub args: Vec<String>,
}

/// Builds the engine invocation for a request: rejected as a caller
/// error when no pattern was supplied or the tree name is unsafe;
/// otherwise the working directory is the tree under the code root and
/// the arguments are exactly [`invocation_args`].
#[verifier::loop_isolation(false)]
pub fn build_invocation(config: &Config, tree: &str, options: &Options) -> (r: Result<
    Invocation,
    SearchError,
>)
    ensures
        r is Ok <==> options@.pattern is Some && tree_name_safe(tree@),
        r matches Ok(inv) ==> inv.working_dir@ == config.code_dir@ + seq!['/'] + tree@
            && views_of(inv.args@) == invocation_args(
            views_of(config.globs@),
            options@.filetype,
            options@.pattern->0,
        ),
        r matches Err(e) ==> e is Invocation,
{
    let pattern = match &options.pattern {
        Some(p) => p,
        None => {
            return Err(SearchError::Invocation);
        },
    };
    if !tree_name_ok(tree) {
        return Err(SearchError::Invocation);
    }
    proof {
        reveal_strlit("/");
        assert("/"@ =~= seq!['/']);
    }
    let working_dir = config.code_dir.clone().concat("/").concat(tree);
    let ghost gv = views_of(config.globs@);
    let mut args: Vec<String> = Vec::new();
    args.push(String::from_str("--json"));
    proof {
        assert(gv.take(0) =~= Seq::<Seq<char>>::empty());
        assert(glob_args(Seq::<Seq<char>>::empty()) =~= Seq::<Seq<char>>::empty());
        assert(views_of(args@) =~= seq!["--json"@] + glob_args(gv.take(0)));
    }
    let n = config.globs.len();
    let mut i: usize = 0;
    while i < n
        invariant
            0 <= i <= n,
            views_of(args@) == seq!["--json"@] + glob_args(gv.take(i as int)),
        decreases n - i,
    {
        let ghost pre = views_of(args@);
        args.push(String::from_str("--glob"));
        args.push(config.globs[i].clone());
        proof {
            assert(gv[i as int] == config.globs@[i as int]@);
            assert(views_of(args@) =~~= pre + seq!["--glob"@, gv[i as int]]);
            assert(gv.take(i + 1) =~= gv.take(i as int).push(gv[i as int]));
            assert(gv.take(i + 1).drop_last() =~= gv.take(i as int));
            assert(gv.take(i + 1).last() == gv[i as int]);
            assert(views_of(args@) =~= seq!["--json"@] + glob_args(gv.take(i + 1)));
        }
        i += 1;
    }
    proof {
        assert(gv.take(n as int) =~= gv);
    }
    let ghost base = views_of(args@);
    match &options.filetype {
        Some(t) => {
            args.push(String::from_str("--type"));
            args.push(t.clone());
            proof {
                assert(views_of(args@) =~~= base + seq!["--type"@, options@.filetype->0]);
            }
        },
        None => {
        },
    }
    let ghost with_type = views_of(args@);
    args.push(pattern.clone());
    proof {
        assert(views_of(args@) =~~= with_type.push(options@.pattern->0));
        assert(views_of(args@) =~~= invocation_args(
            gv,
            options@.filetype,
            options@.pattern->0,
        ));
    }
    Ok(Invocation { working_dir, args })
}

/// The events the scan decodes before it stops: starting from `st`,
/// lines are decoded in order, each decoded event is kept and stepped
/// over, and the scan stops once the state is done; `None` when a
/// scanned line fails to decode.
pub open spec fn scan_prefix(
    ls: Seq<Seq<char>>,
    st: AggState,
    o: OptionsView,
    cap: nat,
) -> Option<Seq<EventView>>
    decreases ls.len(),
{
    if ls.len() == 0 || st.done {
        Some(Seq::empty())
    } else {
        match decoded_of(ls[0]) {
            None => None,
            Some(e) => match scan_prefix(ls.drop_first(), agg_step(st, e, o, cap), o, cap) {
                None => None,
                Some(rest) => Some(seq![e] + rest),
            },
        }
    }
}

/// `f` prepended to a scan's result, when the scan succeeded.
pub open spec fn scan_concat(f: Seq<EventView>, rest: Option<Seq<EventView>>) -> Option<
    Seq<EventView>,
> {
    match rest {
        None => None,
        Some(r) => Some(f + r),
    }
}

/// What the whole output pipeline yields on the engine's captured
/// bytes: an encoding failure off invalid UTF-8; a missing-summary
/// failure on an empty output or one whose last line is no summary
/// event; a malformed-output failure when a scanned line or the last
/// line fails to decode, or the summary's statistics are not there in
/// full; and otherwise the rendering of the aggregation of the scanned
/// events with the last line's summary appended. A fixed function of
/// the bytes, the request and the cap.
pub open spec fn pipeline_spec(bytes: Seq<u8>, o: OptionsView, cap: nat) -> Result<
    Seq<char>,
    SearchError,
> {
    if !vstd::utf8::valid_utf8(bytes) {
        Err(SearchError::Encoding)
    } else {
        let ls = lines_spec(vstd::utf8::decode_utf8(bytes));
        if ls.len() == 0 {
            Err(SearchError::MissingSummary)
        } else {
            match scan_prefix(ls.drop_last(), init_state(), o, cap) {
                None => Err(SearchError::MalformedEngineOutput),
                Some(evs) => match decoded_of(ls.last()) {
                    None => Err(SearchError::MalformedEngineOutput),
                    Some(le) => if !(le is Summary) {
                        Err(SearchError::MissingSummary)
                    } else if elapsed_total_of(ls.last()) is None || stats_of(ls.last())
                        is None {
                        Err(SearchError::MalformedEngineOutput)
                    } else {
                        match spec_aggregate(evs.push(le), o, cap) {
                            Ok(p) => Ok(
                                spec_render(
                                    p.0,
                                    SummaryStatsView {
                                        elapsed_total: elapsed_total_of(ls.last())->0,
                                        stats: stats_of(ls.last())->0,
                                    },
                                    p.1,
                                ),
                            ),
                            Err(er) => Err(er),
                        }
                    },
                },
            }
        }
    }
}

/// The response is a function of the engine's captured bytes, the
/// request and the cap alone: identical captured output under the same
/// request and cap yields byte-identical responses, so searching an
/// unchanged tree twice differs at most where the engine's own summary
/// statistics differ.
pub proof fn lemma_pipeline_deterministic(b1: Seq<u8>, b2: Seq<u8>, o: OptionsView, cap: nat)
    requires
        b1 == b2,
    ensures
        pipeline_spec(b1, o, cap) == pipeline_spec(b2, o, cap),
{
}

/// Turns the engine's captured standard output into the response body,
/// exactly as [`pipeline_spec`] describes: the output is decoded as
/// text and split into lines; the lines are scanned in order, each
/// decoded into an event, until the scan stops at the configured match
/// cap or at a summary event — lines past that point are not decoded;
/// the last line is then decoded on its own: it must be the run's
/// summary, and its statistics close the aggregated response.
#[verifier::loop_isolation(false)]
pub fn aggregate_output(stdout: Vec<u8>, options: &Options, max_matches: usize) -> (r: Result<
    String,
    SearchError,
>)
    ensures
        match pipeline_spec(stdout@, options@, max_matches as nat) {
            Ok(body) => r matches Ok(s) && s@ == body,
            Err(er) => r matches Err(e2) && e2 == er,
        },
{
    let ghost o = options@;
    let ghost cap = max_matches as nat;
    let text = match convert_to_utf8(stdout) {
        Some(t) => t,
        None => {
            return Err(SearchError::Encoding);
        },
    };
    let lines = split_lines(text.as_str());
    let ghost ls = lines_spec(text@);
    let n = lines.len();
    proof {
        assert(string_views(lines@).len() == lines@.len());
        assert(ls.len() == n);
    }
    if n == 0 {
        return Err(SearchError::MissingSummary);
    }
    let ghost lsp = ls.drop_last();
    let mut events: Vec<EngineEvent> = Vec::new();
    let mut matches: usize = 0;
    let mut done = false;
    let ghost mut st: AggState = init_state();
    proof {
        assert(event_views(events@) =~= Seq::<EventView>::empty());
        assert(lsp.skip(0) =~= lsp);
        assert(scan_concat(event_views(events@), scan_prefix(lsp, init_state(), o, cap))
            == scan_prefix(lsp, init_state(), o, cap)) by {
            match scan_prefix(lsp, init_state(), o, cap) {
                Some(rest) => {
                    assert(event_views(events@) + rest =~= rest);
                },
                None => {
                },
            }
        }
    }
    let mut i: usize = 0;
    while i < n - 1 && !done
        invariant
            0 <= i <= n - 1,
            st == agg_fold(init_state(), event_views(events@), o, cap),
            st.matches == matches as nat,
            st.done == done,
            matches <= max_matches,
            scan_prefix(lsp, init_state(), o, cap) == scan_concat(
                event_views(events@),
                scan_prefix(lsp.skip(i as int), st, o, cap),
            ),
        decreases n - 1 - i,
    {
        proof {
            assert(string_views(lines@)[i as int] == lines@[i as int]@);
            assert(lsp[i as int] == ls[i as int]);
            assert(lsp.skip(i as int).len() == lsp.len() - i);
            assert(lsp.skip(i as int)[0] == lsp[i as int]);
            assert(lsp.skip(i as int).drop_first() =~= lsp.skip(i + 1));
        }
        let e = match classify_line(lines[i].as_str()) {
            Some(e) => e,
            None => {
                return Err(SearchError::MalformedEngineOutput);
            },
        };
        if event_retained(&e, options) {
            if matches >= max_matches {
                done = true;
            } else {
                match &e {
                    EngineEvent::Summary { .. } => {
                        done = true;
                    },
                    EngineEvent::Match { .. } => {
                        matches += 1;
                    },
                    _ => {
                    },
                }
            }
        }
        let ghost fed = event_views(events@);
        events.push(e);
        proof {
            assert(event_views(events@) =~~= fed.push(e@));
            lemma_fold_snoc_engine(fed, e@, o, cap);
            let st2 = agg_step(st, e@, o, cap);
            assert(scan_prefix(lsp, init_state(), o, cap) == scan_concat(
                event_views(events@),
                scan_prefix(lsp.skip(i + 1), st2, o, cap),
            )) by {
                match scan_prefix(lsp.skip(i + 1), st2, o, cap) {
                    None => {
                    },
                    Some(rest) => {
                        assert(fed + (seq![e@] + rest) =~= fed.push(e@) + rest);
                    },
                }
            }
            st = st2;
        }
        i += 1;
    }
    proof {
        if done {
            assert(scan_prefix(lsp.skip(i as int), st, o, cap) == Some(
                Seq::<EventView>::empty(),
            ));
        } else {
            assert(lsp.skip(i as int).len() == 0);
            assert(scan_prefix(lsp.skip(i as int), st, o, cap) == Some(
                Seq::<EventView>::empty(),
            ));
        }
        assert(event_views(events@) + Seq::<EventView>::empty() =~= event_views(events@));
        assert(scan_prefix(lsp, init_state(), o, cap) == Some(event_views(events@)));
        assert(string_views(lines@)[n - 1] == lines@[n - 1]@);
        assert(ls[n - 1] == ls.last());
    }
    let last = match classify_line(lines[n - 1].as_str()) {
        Some(e) => e,
        None => {
            return Err(SearchError::MalformedEngineOutput);
        },
    };
    let is_sum = match &last {
        EngineEvent::Summary { .. } => true,
        _ => false,
    };
    if !is_sum {
        return Err(SearchError::MissingSummary);
    }
    let stats = match decode_summary(lines[n - 1].as_str()) {
        Some(s) => s,
        None => {
            return Err(SearchError::MalformedEngineOutput);
        },
    };
    let ghost fed = event_views(events@);
    events.push(last);
    proof {
        assert(event_views(events@) =~~= fed.push(last@));
    }
    let agg = match aggregate(events, options, max_matches) {
        Ok(a) => a,
        Err(er2) => {
            return Err(er2);
        },
    };
    proof {
        assert(agg@.events.len() > 0);
    }
    let rendered = render_results(&agg, &stats);
    Ok(rendered)
}

/// Folding one more event at the stream's end is one more step.
proof fn lemma_fold_snoc_engine(evs: Seq<EventView>, e: EventView, o: OptionsView, cap: nat)
    ensures
        agg_fold(init_state(), evs.push(e), o, cap) == agg_step(
            agg_fold(init_state(), evs, o, cap),
            e,
            o,
            cap,
        ),
{
    crate::aggregate::lemma_fold_snoc(init_state(), evs, e, o, cap);
}

} // verus!
