//! Rendering the aggregated response: the retained events, each the raw
//! line the engine printed, joined into one JSON array, closed by a
//! summary object written from the decoded statistics with the
//! truncation flag in its payload. A verified JSON string encoder
//! serves the metadata endpoints.

use vstd::prelude::*;

use crate::aggregate::AggregatedResult;
use crate::event::{raw_of, Elapsed, ElapsedView, EngineEvent, EventView, SummaryStats, SummaryStatsView};
use crate::text::push_char;

verus! {

/// The raw lines of `items`, in order, each followed by a comma.
pub open spec fn cat_with_commas(items: Seq<Seq<char>>) -> Seq<char>
    decreases items.len(),
{
    if items.len() == 0 {
        Seq::empty()
    } else {
        cat_with_commas(items.drop_last()) + items.last() + seq![',']
    }
}

/// The raw lines of all the events of `items`.
pub open spec fn raws_of(items: Seq<EventView>) -> Seq<Seq<char>> {
    items.map_values(|e: EventView| raw_of(e))
}

/// The response body for an aggregated result: one JSON array holding
/// each retained event's raw line in order, closed by the summary
/// element written from the decoded statistics with the truncation flag
/// set in its payload (see [`summary_json`]).
pub open spec fn spec_render(events: Seq<EventView>, stats: SummaryStatsView, truncated: bool) -> Seq<
    char,
> {
    seq!['['] + cat_with_commas(raws_of(events.drop_last())) + summary_json(stats, truncated)
        + seq![']']
}

/// Serialises the aggregated result into the JSON array the caller
/// receives, as [`spec_render`] describes; `stats` is the decoded
/// payload of the stream's summary line.
#[verifier::loop_isolation(false)]
pub fn render_results(agg: &AggregatedResult, stats: &SummaryStats) -> (r: String)
    requires
        agg@.events.len() > 0,
    ensures
        r@ == spec_render(agg@.events, stats@, agg@.truncated),
{
    let ghost evs = agg@.events;
    let n = agg.events.len();
    let mut out = String::new();
    push_char(&mut out, '[');
    proof {
        assert(raws_of(evs.drop_last()).take(0) =~= Seq::<Seq<char>>::empty());
        assert(out@ =~= seq!['['] + cat_with_commas(Seq::<Seq<char>>::empty()));
    }
    let mut i: usize = 0;
    while i < n - 1
        invariant
            0 <= i <= n - 1,
            out@ == seq!['['] + cat_with_commas(raws_of(evs.drop_last()).take(i as int)),
        decreases n - 1 - i,
    {
        match &agg.events[i] {
            EngineEvent::Begin { raw, .. } => out.append(raw.as_str()),
            EngineEvent::Match { raw, .. } => out.append(raw.as_str()),
            EngineEvent::Summary { raw } => out.append(raw.as_str()),
            EngineEvent::End => {
            },
        }
        proof {
            assert(evs[i as int] == agg.events@[i as int]@);
            assert(out@ =~= seq!['['] + cat_with_commas(raws_of(evs.drop_last()).take(
                i as int,
            )) + raw_of(evs[i as int]));
        }
        push_char(&mut out, ',');
        proof {
            let rs = raws_of(evs.drop_last());
            assert(rs.take(i + 1) =~= rs.take(i as int).push(rs[i as int]));
            assert(rs.take(i + 1).drop_last() =~= rs.take(i as int));
            assert(rs[i as int] == raw_of(evs.drop_last()[i as int]));
            assert(evs.drop_last()[i as int] == evs[i as int]);
            assert(out@ =~= seq!['['] + cat_with_commas(rs.take(i + 1)));
        }
        i += 1;
    }
    proof {
        assert(raws_of(evs.drop_last()).take(n - 1) =~= raws_of(evs.drop_last()));
    }
    let summary = render_summary(stats, agg.truncated);
    out.append(summary.as_str());
    push_char(&mut out, ']');
    proof {
        assert(out@ =~= spec_render(evs, stats@, agg@.truncated));
    }
    out
}

/// One hexadecimal digit, lower case.
pub open spec fn hex_digit(n: u32) -> char {
    if n == 0 {
        '0'
    } else if n == 1 {
        '1'
    } else if n == 2 {
        '2'
    } else if n == 3 {
        '3'
    } else if n == 4 {
        '4'
    } else if n == 5 {
        '5'
    } else if n == 6 {
        '6'
    } else if n == 7 {
        '7'
    } else if n == 8 {
        '8'
    } else if n == 9 {
        '9'
    } else if n == 10 {
        'a'
    } else if n == 11 {
        'b'
    } else if n == 12 {
        'c'
    } else if n == 13 {
        'd'
    } else if n == 14 {
        'e'
    } else {
        'f'
    }
}

/// How one character appears inside a JSON string literal: quote and
/// backslash are escaped, control characters take their short escape or
/// a `\u00XX` escape, everything else stands as itself.
pub open spec fn escape_char(c: char) -> Seq<char> {
    if c == '"' {
        seq!['\\', '"']
    } else if c == '\\' {
        seq!['\\', '\\']
    } else if c == '\u{8}' {
        seq!['\\', 'b']
    } else if c == '\t' {
        seq!['\\', 't']
    } else if c == '\n' {
        seq!['\\', 'n']
    } else if c == '\u{c}' {
        seq!['\\', 'f']
    } else if c == '\r' {
        seq!['\\', 'r']
    } else if (c as u32) < 0x20 {
        seq!['\\', 'u', '0', '0', hex_digit((c as u32) / 16), hex_digit((c as u32) % 16)]
    } else {
        seq![c]
    }
}

/// Every character of `s` escaped for a JSON string literal.
pub open spec fn json_escape(s: Seq<char>) -> Seq<char>
    decreases s.len(),
{
    if s.len() == 0 {
        Seq::empty()
    } else {
        escape_char(s[0]) + json_escape(s.drop_first())
    }
}

/// `s` as a JSON string literal, quotes included.
pub open spec fn json_string(s: Seq<char>) -> Seq<char> {
    seq!['"'] + json_escape(s) + seq!['"']
}

/// Writes `s` as a JSON string literal, as [`json_string`] describes.
#[verifier::loop_isolation(false)]
pub fn json_quote(s: &str) -> (r: String)
    ensures
        r@ == json_string(s@),
{
    let h = s.unicode_len();
    let mut out = String::new();
    push_char(&mut out, '"');
    proof {
        assert(s@.skip(0) =~= s@);
        assert(out@ =~= seq!['"']);
    }
    let mut i: usize = 0;
    while i < h
        invariant
            0 <= i <= h,
            out@ + json_escape(s@.skip(i as int)) =~= seq!['"'] + json_escape(s@),
        decreases h - i,
    {
        let c = s.get_char(i);
        proof {
            assert(s@.skip(i as int)[0] == s@[i as int]);
            assert(s@.skip(i as int).drop_first() =~= s@.skip(i + 1));
        }
        if c == '"' {
            push_char(&mut out, '\\');
            push_char(&mut out, '"');
        } else if c == '\\' {
            push_char(&mut out, '\\');
            push_char(&mut out, '\\');
        } else if c == '\u{8}' {
            push_char(&mut out, '\\');
            push_char(&mut out, 'b');
        } else if c == '\t' {
            push_char(&mut out, '\\');
            push_char(&mut out, 't');
        } else if c == '\n' {
            push_char(&mut out, '\\');
            push_char(&mut out, 'n');
        } else if c == '\u{c}' {
            push_char(&mut out, '\\');
            push_char(&mut out, 'f');
        } else if c == '\r' {
            push_char(&mut out, '\\');
            push_char(&mut out, 'r');
        } else if (c as u32) < 0x20 {
            push_char(&mut out, '\\');
            push_char(&mut out, 'u');
            push_char(&mut out, '0');
            push_char(&mut out, '0');
            push_char(&mut out, hex_digit_exec((c as u32) / 16));
            push_char(&mut out, hex_digit_exec((c as u32) % 16));
        } else {
            push_char(&mut out, c);
        }
        proof {
            assert(out@ + json_escape(s@.skip(i + 1)) =~= seq!['"'] + json_escape(s@));
        }
        i += 1;
    }
    proof {
        assert(s@.skip(h as int) =~= Seq::<char>::empty());
    }
    push_char(&mut out, '"');
    proof {
        assert(out@ =~= json_string(s@));
    }
    out
}

/// Computes [`hex_digit`].
fn hex_digit_exec(n: u32) -> (r: char)
    ensures
        r == hex_digit(n),
{
    if n == 0 {
        '0'
    } else if n == 1 {
        '1'
    } else if n == 2 {
        '2'
    } else if n == 3 {
        '3'
    } else if n == 4 {
        '4'
    } else if n == 5 {
        '5'
    } else if n == 6 {
        '6'
    } else if n == 7 {
        '7'
    } else if n == 8 {
        '8'
    } else if n == 9 {
        '9'
    } else if n == 10 {
        'a'
    } else if n == 11 {
        'b'
    } else if n == 12 {
        'c'
    } else if n == 13 {
        'd'
    } else if n == 14 {
        'e'
    } else {
        'f'
    }
}

/// The decimal digits of `n`, most significant first.
pub open spec fn dec_spec(n: nat) -> Seq<char>
    decreases n,
{
    if n < 10 {
        seq![hex_digit(n as u32)]
    } else {
        dec_spec(n / 10).push(hex_digit((n % 10) as u32))
    }
}

/// Writes `n` in decimal, as [`dec_spec`] describes.
pub fn u64_dec(n: u64) -> (r: String)
    ensures
        r@ == dec_spec(n as nat),
    decreases n,
{
    if n < 10 {
        let mut s = String::new();
        push_char(&mut s, hex_digit_exec(n as u32));
        proof {
            assert(s@ =~= dec_spec(n as nat));
        }
        s
    } else {
        let mut s = u64_dec(n / 10);
        push_char(&mut s, hex_digit_exec((n % 10) as u32));
        s
    }
}

/// A duration object as the summary carries it, keys in sorted order.
pub open spec fn elapsed_json(e: ElapsedView) -> Seq<char> {
    "{\"human\":"@ + json_string(e.human) + ",\"nanos\":"@ + dec_spec(e.nanos as nat)
        + ",\"secs\":"@ + dec_spec(e.secs as nat) + "}"@
}

/// Writes a duration object, as [`elapsed_json`] describes.
fn render_elapsed(e: &Elapsed) -> (r: String)
    ensures
        r@ == elapsed_json(e@),
{
    let mut out = String::from_str("{\"human\":");
    let q = json_quote(e.human.as_str());
    out.append(q.as_str());
    out.append(",\"nanos\":");
    let n1 = u64_dec(e.nanos);
    out.append(n1.as_str());
    out.append(",\"secs\":");
    let n2 = u64_dec(e.secs);
    out.append(n2.as_str());
    out.append("}");
    proof {
        assert(out@ =~= elapsed_json(e@));
    }
    out
}

/// The aggregated response's final element: the summary's decoded
/// statistics as one JSON object, keys in sorted order, with the
/// boolean truncation flag set in its statistics payload.
pub open spec fn summary_json(st: SummaryStatsView, truncated: bool) -> Seq<char> {
    "{\"data\":{\"elapsed_total\":"@ + elapsed_json(st.elapsed_total)
        + ",\"stats\":{\"bytes_printed\":"@ + dec_spec(st.stats.bytes_printed as nat)
        + ",\"bytes_searched\":"@ + dec_spec(st.stats.bytes_searched as nat)
        + ",\"elapsed\":"@ + elapsed_json(st.stats.elapsed) + ",\"matched_lines\":"@
        + dec_spec(st.stats.matched_lines as nat) + ",\"matches\":"@ + dec_spec(
        st.stats.matches as nat,
    ) + ",\"searches\":"@ + dec_spec(st.stats.searches as nat)
        + ",\"searches_with_match\":"@ + dec_spec(st.stats.searches_with_match as nat)
        + ",\"truncated\":"@ + (if truncated {
        "true"@
    } else {
        "false"@
    }) + "}},\"type\":\"summary\"}"@
}

/// Writes the summary element, as [`summary_json`] describes.
pub fn render_summary(stats: &SummaryStats, truncated: bool) -> (r: String)
    ensures
        r@ == summary_json(stats@, truncated),
{
    let mut out = String::from_str("{\"data\":{\"elapsed_total\":");
    let et = render_elapsed(&stats.elapsed_total);
    out.append(et.as_str());
    out.append(",\"stats\":{\"bytes_printed\":");
    let d1 = u64_dec(stats.stats.bytes_printed);
    out.append(d1.as_str());
    out.append(",\"bytes_searched\":");
    let d2 = u64_dec(stats.stats.bytes_searched);
    out.append(d2.as_str());
    out.append(",\"elapsed\":");
    let el = render_elapsed(&stats.stats.elapsed);
    out.append(el.as_str());
    out.append(",\"matched_lines\":");
    let d3 = u64_dec(stats.stats.matched_lines);
    out.append(d3.as_str());
    out.append(",\"matches\":");
    let d4 = u64_dec(stats.stats.matches);
    out.append(d4.as_str());
    out.append(",\"searches\":");
    let d5 = u64_dec(stats.stats.searches);
    out.append(d5.as_str());
    out.append(",\"searches_with_match\":");
    let d6 = u64_dec(stats.stats.searches_with_match);
    out.append(d6.as_str());
    out.append(",\"truncated\":");
    if truncated {
        out.append("true");
    } else {
        out.append("false");
    }
    out.append("}},\"type\":\"summary\"}");
    proof {
        assert(out@ =~= summary_json(stats@, truncated));
    }
    out
}

/// A JSON array of string literals: each element of `items` quoted,
/// comma-separated, in brackets.
pub open spec fn json_string_array(items: Seq<Seq<char>>) -> Seq<char>
    decreases items.len(),
{
    if items.len() == 0 {
        seq!['[', ']']
    } else {
        seq!['['] + json_array_items(items) + seq![']']
    }
}

/// The quoted elements of `items`, comma-separated.
pub open spec fn json_array_items(items: Seq<Seq<char>>) -> Seq<char>
    decreases items.len(),
{
    if items.len() == 0 {
        Seq::empty()
    } else if items.len() == 1 {
        json_string(items[0])
    } else {
        json_array_items(items.drop_last()) + seq![','] + json_string(items.last())
    }
}

/// Writes a JSON array of string literals, as [`json_string_array`]
/// describes.
#[verifier::loop_isolation(false)]
pub fn render_string_array(items: &Vec<String>) -> (r: String)
    ensures
        r@ == json_string_array(crate::options::views_of(items@)),
{
    let ghost vs = crate::options::views_of(items@);
    let n = items.len();
    let mut out = String::new();
    push_char(&mut out, '[');
    let mut i: usize = 0;
    proof {
        assert(vs.take(0) =~= Seq::<Seq<char>>::empty());
        assert(out@ =~= seq!['['] + json_array_items(vs.take(0)));
    }
    while i < n
        invariant
            0 <= i <= n,
            out@ == seq!['['] + json_array_items(vs.take(i as int)),
        decreases n - i,
    {
        if i > 0 {
            push_char(&mut out, ',');
        }
        let q = json_quote(items[i].as_str());
        out.append(q.as_str());
        proof {
            assert(vs[i as int] == items@[i as int]@);
            assert(vs.take(i + 1) =~= vs.take(i as int).push(vs[i as int]));
            assert(vs.take(i + 1).drop_last() =~= vs.take(i as int));
            if i == 0 {
                assert(json_array_items(vs.take(1)) =~= json_string(vs[0]));
                assert(out@ =~= seq!['['] + json_array_items(vs.take(1)));
            } else {
                assert(out@ =~= seq!['['] + json_array_items(vs.take(i + 1)));
            }
        }
        i += 1;
    }
    proof {
        assert(vs.take(n as int) =~= vs);
    }
    push_char(&mut out, ']');
    proof {
        assert(out@ =~= json_string_array(vs));
    }
    out
}

} // verus!
