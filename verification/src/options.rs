//! The query parser: turns a free-text query string into a structured
//! search request. Tokens are read left to right; a `path:` token sets the
//! path filter, a `type:` or `ext:` token sets the file-type filter
//! (last one wins), and every other token joins the search pattern,
//! space-separated in the order encountered.

use vstd::prelude::*;

use crate::text::{is_ws, starts_with, strip_prefix_str, ws, push_char};

verus! {

/// A structured search request.
pub struct Options {
    /// Substring that a match's file path must contain.
    pub path: Option<String>,
    /// File-type restriction handed to the engine.
    pub filetype: Option<String>,
    /// The literal search pattern.
    pub pattern: Option<String>,
}

/// Mathematical image of an [`Options`] value.
pub ghost struct OptionsView {
    pub path: Option<Seq<char>>,
    pub filetype: Option<Seq<char>>,
    pub pattern: Option<Seq<char>>,
}

impl View for Options {
    type V = OptionsView;

    open spec fn view(&self) -> OptionsView {
        OptionsView {
            path: match self.path {
                Some(p) => Some(p@),
                None => None,
            },
            filetype: match self.filetype {
                Some(t) => Some(t@),
                None => None,
            },
            pattern: match self.pattern {
                Some(p) => Some(p@),
                None => None,
            },
        }
    }
}

/// The request with no filters and no pattern.
pub open spec fn empty_options() -> OptionsView {
    OptionsView { path: None, filetype: None, pattern: None }
}

/// Closes the token under construction: appends it to the token list
/// unless it is empty.
pub open spec fn close_tok(acc: Seq<Seq<char>>, cur: Seq<char>) -> Seq<Seq<char>> {
    if cur.len() == 0 {
        acc
    } else {
        acc.push(cur)
    }
}

/// One left-to-right pass over `s` splitting at whitespace, with the
/// tokens already found in `acc` and the token under construction in
/// `cur`.
pub open spec fn scan_tokens(s: Seq<char>, acc: Seq<Seq<char>>, cur: Seq<char>) -> Seq<
    Seq<char>,
>
    decreases s.len(),
{
    if s.len() == 0 {
        close_tok(acc, cur)
    } else if is_ws(s[0]) {
        scan_tokens(s.drop_first(), close_tok(acc, cur), Seq::empty())
    } else {
        scan_tokens(s.drop_first(), acc, cur.push(s[0]))
    }
}

/// The whitespace-delimited tokens of `s`, in order, each one nonempty.
pub open spec fn tokens(s: Seq<char>) -> Seq<Seq<char>> {
    scan_tokens(s, Seq::empty(), Seq::empty())
}

/// The views of a vector of strings.
pub open spec fn views_of(ts: Seq<String>) -> Seq<Seq<char>> {
    ts.map_values(|t: String| t@)
}

/// Splits `q` at whitespace into its tokens, as `str::split_whitespace`
/// yields them.
pub fn split_whitespace(q: &str) -> (r: Vec<String>)
    ensures
        views_of(r@) == tokens(q@),
{
    let h = q.unicode_len();
    let mut acc: Vec<String> = Vec::new();
    let mut cur = String::new();
    proof {
        assert(q@.skip(0) =~= q@);
        assert(views_of(acc@) =~= Seq::<Seq<char>>::empty());
    }
    let mut i: usize = 0;
    while i < h
        invariant
            h == q@.len(),
            0 <= i <= h,
            scan_tokens(q@.skip(i as int), views_of(acc@), cur@) == tokens(q@),
        decreases h - i,
    {
        let c = q.get_char(i);
        proof {
            assert(q@.skip(i as int)[0] == q@[i as int]);
            assert(q@.skip(i as int).drop_first() =~= q@.skip(i + 1));
        }
        if ws(c) {
            if !cur.as_str().is_empty() {
                proof {
                    assert(views_of(acc@.push(cur)) =~~= views_of(acc@).push(cur@));
                }
                acc.push(cur);
                cur = String::new();
                proof {
                    assert(scan_tokens(q@.skip(i + 1), views_of(acc@), cur@) == tokens(
                        q@,
                    ));
                }
            } else {
                proof {
                    assert(cur@ =~= Seq::<char>::empty());
                }
            }
        } else {
            push_char(&mut cur, c);
            proof {
                assert(scan_tokens(q@.skip(i + 1), views_of(acc@), cur@) == tokens(q@));
            }
        }
        i += 1;
    }
    proof {
        assert(q@.skip(h as int) =~= Seq::<char>::empty());
    }
    if !cur.as_str().is_empty() {
        proof {
            assert(views_of(acc@.push(cur)) =~~= views_of(acc@).push(cur@));
        }
        acc.push(cur);
    }
    acc
}

/// The characters of the token prefix `path:`.
pub open spec fn path_prefix() -> Seq<char> {
    seq!['p', 'a', 't', 'h', ':']
}

/// The characters of the token prefix `type:`.
pub open spec fn type_prefix() -> Seq<char> {
    seq!['t', 'y', 'p', 'e', ':']
}

/// The characters of the token prefix `ext:`.
pub open spec fn ext_prefix() -> Seq<char> {
    seq!['e', 'x', 't', ':']
}

/// How one token changes the request: `path:` and `type:`/`ext:` tokens
/// overwrite the respective filter with the token's remainder, and any
/// other token joins the pattern, space-separated.
pub open spec fn opts_step(o: OptionsView, t: Seq<char>) -> OptionsView {
    if starts_with(t, path_prefix()) {
        OptionsView { path: Some(t.skip(5)), filetype: o.filetype, pattern: o.pattern }
    } else if starts_with(t, type_prefix()) {
        OptionsView { path: o.path, filetype: Some(t.skip(5)), pattern: o.pattern }
    } else if starts_with(t, ext_prefix()) {
        OptionsView { path: o.path, filetype: Some(t.skip(4)), pattern: o.pattern }
    } else {
        let p = match o.pattern {
            Some(p) => p,
            None => Seq::empty(),
        };
        let joined = if p.len() == 0 {
            t
        } else {
            p + seq![' '] + t
        };
        OptionsView { path: o.path, filetype: o.filetype, pattern: Some(joined) }
    }
}

/// The request obtained by applying [`opts_step`] to each token in turn.
pub open spec fn opts_fold(o: OptionsView, ts: Seq<Seq<char>>) -> OptionsView
    decreases ts.len(),
{
    if ts.len() == 0 {
        o
    } else {
        opts_fold(opts_step(o, ts[0]), ts.drop_first())
    }
}

/// What parsing a query yields: the token rule folded over the query's
/// whitespace-delimited tokens, starting from the empty request.
pub open spec fn parse_options_spec(q: Seq<char>) -> OptionsView {
    opts_fold(empty_options(), tokens(q))
}

/// Parses a query string into a structured request.
pub fn parse_options(query: &str) -> (r: Options)
    ensures
        r@ == parse_options_spec(query@),
{
    let toks = split_whitespace(query);
    let n = toks.len();
    let mut o = Options { path: None, filetype: None, pattern: None };
    proof {
        assert(views_of(toks@).skip(0) =~= views_of(toks@));
    }
    let mut i: usize = 0;
    while i < n
        invariant
            n == toks@.len(),
            0 <= i <= n,
            views_of(toks@).len() == n,
            opts_fold(o@, views_of(toks@).skip(i as int)) == parse_options_spec(query@),
        decreases n - i,
    {
        let t = &toks[i];
        proof {
            assert(views_of(toks@).skip(i as int)[0] == views_of(toks@)[i as int]);
            assert(views_of(toks@).skip(i as int).drop_first() =~= views_of(toks@).skip(
                i + 1,
            ));
            reveal_strlit("path:");
            reveal_strlit("type:");
            reveal_strlit("ext:");
            assert("path:"@ =~= path_prefix());
            assert("type:"@ =~= type_prefix());
            assert("ext:"@ =~= ext_prefix());
        }
        if let Some(rest) = strip_prefix_str(t.as_str(), "path:") {
            o.path = Some(rest);
        } else if let Some(rest) = strip_prefix_str(t.as_str(), "type:") {
            o.filetype = Some(rest);
        } else if let Some(rest) = strip_prefix_str(t.as_str(), "ext:") {
            o.filetype = Some(rest);
        } else {
            let joined = match &o.pattern {
                None => String::from_str(t.as_str()),
                Some(p) => {
                    if p.as_str().is_empty() {
                        String::from_str(t.as_str())
                    } else {
                        proof {
                            reveal_strlit(" ");
                            assert(" "@ =~= seq![' ']);
                        }
                        p.clone().concat(" ").concat(t.as_str())
                    }
                },
            };
            o.pattern = Some(joined);
        }
        i += 1;
    }
    proof {
        assert(views_of(toks@).skip(n as int) =~= Seq::<Seq<char>>::empty());
    }
    o
}

} // verus!
