//! Character-level string utilities: whitespace classification and
//! substring containment, with exact specifications over `Seq<char>`.

use vstd::prelude::*;

verus! {

/// The Unicode `White_Space` code points, the set `char::is_whitespace`
/// recognises.
pub open spec fn is_ws(c: char) -> bool {
    let n = c as u32;
    (0x9 <= n && n <= 0xd) || n == 0x20 || n == 0x85 || n == 0xa0 || n == 0x1680
        || (0x2000 <= n && n <= 0x200a) || n == 0x2028 || n == 0x2029 || n == 0x202f
        || n == 0x205f || n == 0x3000
}

/// Whitespace test on one character.
pub fn ws(c: char) -> (r: bool)
    ensures
        r == is_ws(c),
{
    let n = c as u32;
    (0x9 <= n && n <= 0xd) || n == 0x20 || n == 0x85 || n == 0xa0 || n == 0x1680
        || (0x2000 <= n && n <= 0x200a) || n == 0x2028 || n == 0x2029 || n == 0x202f
        || n == 0x205f || n == 0x3000
}

/// `needle` occurs in `hay` starting at position `i`.
pub open spec fn matches_at(hay: Seq<char>, needle: Seq<char>, i: int) -> bool {
    0 <= i && i + needle.len() <= hay.len() && hay.subrange(i, i + needle.len()) == needle
}

/// `needle` occurs somewhere in `hay` (plain substring containment).
pub open spec fn contains_seq(hay: Seq<char>, needle: Seq<char>) -> bool {
    exists|i: int| matches_at(hay, needle, i)
}

/// `needle` occurs in `hay` at position `i`: character-by-character test.
fn matches_at_exec(hay: &str, needle: &str, i: usize) -> (r: bool)
    requires
        i + needle@.len() <= hay@.len(),
    ensures
        r == matches_at(hay@, needle@, i as int),
{
    let h = hay.unicode_len();
    let n = needle.unicode_len();
    let mut j: usize = 0;
    while j < n
        invariant
            h == hay@.len(),
            n == needle@.len(),
            0 <= j <= n,
            i + n <= hay@.len(),
            forall|k: int| 0 <= k < j ==> hay@[i + k] == needle@[k],
        decreases n - j,
    {
        if hay.get_char(i + j) != needle.get_char(j) {
            assert(hay@.subrange(i as int, i + needle@.len())[j as int] != needle@[j as int]);
            return false;
        }
        j += 1;
    }
    assert(hay@.subrange(i as int, i + needle@.len()) =~= needle@);
    true
}

/// Substring search: does `hay` contain `needle`?
pub fn str_contains(hay: &str, needle: &str) -> (r: bool)
    ensures
        r == contains_seq(hay@, needle@),
{
    let h = hay.unicode_len();
    let n = needle.unicode_len();
    if n > h {
        assert(!contains_seq(hay@, needle@)) by {
            assert(forall|i: int| !matches_at(hay@, needle@, i));
        }
        return false;
    }
    if n == 0 {
        assert(matches_at(hay@, needle@, 0)) by {
            assert(hay@.subrange(0, 0) =~= needle@);
        }
        return true;
    }
    let mut i: usize = 0;
    while i <= h - n
        invariant
            h == hay@.len(),
            n == needle@.len(),
            1 <= n <= h,
            0 <= i <= h - n + 1,
            forall|k: int| 0 <= k < i ==> !matches_at(hay@, needle@, k),
        decreases h - i,
    {
        if matches_at_exec(hay, needle, i) {
            assert(contains_seq(hay@, needle@));
            return true;
        }
        i += 1;
    }
    assert(forall|k: int| !matches_at(hay@, needle@, k));
    false
}

/// Character-for-character equality of two string slices.
pub fn str_eq(a: &str, b: &str) -> (r: bool)
    ensures
        r == (a@ == b@),
{
    let la = a.unicode_len();
    let lb = b.unicode_len();
    if la != lb {
        return false;
    }
    if matches_at_exec(a, b, 0) {
        assert(a@.subrange(0, a@.len() as int) =~= a@);
        true
    } else {
        assert(a@.subrange(0, a@.len() as int) =~= a@);
        false
    }
}

/// Relies on `String::push`: appends the given character to the end.
#[verifier::external_body]
pub(crate) fn push_char(s: &mut String, c: char)
    ensures
        final(s)@ == old(s)@.push(c),
{
    s.push(c);
}

/// `p` is a prefix of `s`.
pub open spec fn starts_with(s: Seq<char>, p: Seq<char>) -> bool {
    p.len() <= s.len() && s.subrange(0, p.len() as int) == p
}

/// Strips `prefix` from the front of `s`, if it is there.
pub fn strip_prefix_str(s: &str, prefix: &str) -> (r: Option<String>)
    ensures
        r is Some <==> starts_with(s@, prefix@),
        r matches Some(t) ==> t@ == s@.skip(prefix@.len() as int),
{
    let h = s.unicode_len();
    let p = prefix.unicode_len();
    if p > h {
        return None;
    }
    if matches_at_exec(s, prefix, 0) {
        let rest = s.substring_char(p, h);
        Some(String::from_str(rest))
    } else {
        None
    }
}

/// One trailing carriage return removed, as `str::lines` strips it from
/// a line ended by a newline.
pub open spec fn strip_cr(l: Seq<char>) -> Seq<char> {
    if l.len() > 0 && l.last() == '\r' {
        l.drop_last()
    } else {
        l
    }
}

/// One pass over `s` splitting at newlines, with the lines already found
/// in `acc` and the line under construction in `cur`. A line ended by a
/// newline loses one trailing carriage return; the final line keeps its
/// characters and is dropped when empty.
pub open spec fn scan_lines(s: Seq<char>, acc: Seq<Seq<char>>, cur: Seq<char>) -> Seq<
    Seq<char>,
>
    decreases s.len(),
{
    if s.len() == 0 {
        if cur.len() == 0 {
            acc
        } else {
            acc.push(cur)
        }
    } else if s[0] == '\n' {
        scan_lines(s.drop_first(), acc.push(strip_cr(cur)), Seq::empty())
    } else {
        scan_lines(s.drop_first(), acc, cur.push(s[0]))
    }
}

/// The lines of `s`, as `str::lines` yields them.
pub open spec fn lines_spec(s: Seq<char>) -> Seq<Seq<char>> {
    scan_lines(s, Seq::empty(), Seq::empty())
}

/// The views of a vector of strings.
pub open spec fn string_views(ts: Seq<String>) -> Seq<Seq<char>> {
    ts.map_values(|t: String| t@)
}

/// Splits `s` into its lines, as `str::lines` yields them.
#[verifier::loop_isolation(false)]
pub fn split_lines(s: &str) -> (r: Vec<String>)
    ensures
        string_views(r@) == lines_spec(s@),
{
    let h = s.unicode_len();
    let mut acc: Vec<String> = Vec::new();
    let mut cur = String::new();
    proof {
        assert(s@.skip(0) =~= s@);
        assert(string_views(acc@) =~= Seq::<Seq<char>>::empty());
    }
    let mut i: usize = 0;
    while i < h
        invariant
            0 <= i <= h,
            scan_lines(s@.skip(i as int), string_views(acc@), cur@) == lines_spec(s@),
        decreases h - i,
    {
        let c = s.get_char(i);
        let ghost cv = cur@;
        proof {
            assert(s@.skip(i as int)[0] == s@[i as int]);
            assert(s@.skip(i as int).drop_first() =~= s@.skip(i + 1));
        }
        if c == '\n' {
            let cl = cur.as_str().unicode_len();
            let lastcr = cl > 0 && cur.as_str().get_char(cl - 1) == '\r';
            let line = if lastcr {
                let t = cur.as_str().substring_char(0, cl - 1);
                String::from_str(t)
            } else {
                cur
            };
            proof {
                if lastcr {
                    assert(line@ =~= strip_cr(cv));
                } else {
                    assert(line@ == strip_cr(cv));
                }
                assert(string_views(acc@.push(line)) =~~= string_views(acc@).push(line@));
            }
            acc.push(line);
            cur = String::new();
        } else {
            push_char(&mut cur, c);
        }
        i += 1;
    }
    proof {
        assert(s@.skip(h as int) =~= Seq::<char>::empty());
    }
    if !cur.as_str().is_empty() {
        proof {
            assert(string_views(acc@.push(cur)) =~~= string_views(acc@).push(cur@));
        }
        acc.push(cur);
    } else {
        proof {
            assert(cur@ =~= Seq::<char>::empty());
        }
    }
    acc
}

/// One pass over `s` splitting at `sep`, with the parts already found in
/// `acc` and the part under construction in `cur`. Empty parts are kept.
pub open spec fn scan_split(s: Seq<char>, sep: char, acc: Seq<Seq<char>>, cur: Seq<char>) -> Seq<
    Seq<char>,
>
    decreases s.len(),
{
    if s.len() == 0 {
        acc.push(cur)
    } else if s[0] == sep {
        scan_split(s.drop_first(), sep, acc.push(cur), Seq::empty())
    } else {
        scan_split(s.drop_first(), sep, acc, cur.push(s[0]))
    }
}

/// The parts of `s` between occurrences of `sep`, empty parts kept, as
/// `str::split` yields them.
pub open spec fn split_spec(s: Seq<char>, sep: char) -> Seq<Seq<char>> {
    scan_split(s, sep, Seq::empty(), Seq::empty())
}

/// Splits `s` at every occurrence of `sep`, keeping empty parts.
#[verifier::loop_isolation(false)]
pub fn split_char(s: &str, sep: char) -> (r: Vec<String>)
    ensures
        string_views(r@) == split_spec(s@, sep),
{
    let h = s.unicode_len();
    let mut acc: Vec<String> = Vec::new();
    let mut cur = String::new();
    proof {
        assert(s@.skip(0) =~= s@);
        assert(string_views(acc@) =~= Seq::<Seq<char>>::empty());
    }
    let mut i: usize = 0;
    while i < h
        invariant
            0 <= i <= h,
            scan_split(s@.skip(i as int), sep, string_views(acc@), cur@) == split_spec(
                s@,
                sep,
            ),
        decreases h - i,
    {
        let c = s.get_char(i);
        proof {
            assert(s@.skip(i as int)[0] == s@[i as int]);
            assert(s@.skip(i as int).drop_first() =~= s@.skip(i + 1));
        }
        if c == sep {
            proof {
                assert(string_views(acc@.push(cur)) =~~= string_views(acc@).push(cur@));
            }
            acc.push(cur);
            cur = String::new();
        } else {
            push_char(&mut cur, c);
        }
        i += 1;
    }
    proof {
        assert(s@.skip(h as int) =~= Seq::<char>::empty());
        assert(string_views(acc@.push(cur)) =~~= string_views(acc@).push(cur@));
    }
    acc.push(cur);
    acc
}

/// `s` with leading whitespace removed.
pub open spec fn trim_start_spec(s: Seq<char>) -> Seq<char>
    decreases s.len(),
{
    if s.len() > 0 && is_ws(s[0]) {
        trim_start_spec(s.drop_first())
    } else {
        s
    }
}

/// `s` with trailing whitespace removed.
pub open spec fn trim_end_spec(s: Seq<char>) -> Seq<char>
    decreases s.len(),
{
    if s.len() > 0 && is_ws(s[s.len() - 1]) {
        trim_end_spec(s.drop_last())
    } else {
        s
    }
}

/// `s` with whitespace removed from both ends, as `str::trim` leaves it.
pub open spec fn trim_spec(s: Seq<char>) -> Seq<char> {
    trim_end_spec(trim_start_spec(s))
}

proof fn lemma_trim_start_at(s: Seq<char>, a: int)
    requires
        0 <= a <= s.len(),
        forall|k: int| 0 <= k < a ==> is_ws(s[k]),
        a == s.len() || !is_ws(s[a]),
    ensures
        trim_start_spec(s) == s.skip(a),
    decreases a,
{
    if a == 0 {
        if s.len() > 0 && is_ws(s[0]) {
            assert(false);
        }
        assert(s.skip(0) =~= s);
    } else {
        assert(is_ws(s[0]));
        lemma_trim_start_at(s.drop_first(), a - 1);
        assert(s.drop_first().skip(a - 1) =~= s.skip(a));
    }
}

proof fn lemma_trim_end_at(s: Seq<char>, b: int)
    requires
        0 <= b <= s.len(),
        forall|k: int| b <= k < s.len() ==> is_ws(s[k]),
        b == 0 || !is_ws(s[b - 1]),
    ensures
        trim_end_spec(s) == s.take(b),
    decreases s.len() - b,
{
    if b == s.len() {
        if s.len() > 0 && is_ws(s[s.len() - 1]) {
            assert(false);
        }
        assert(s.take(b) =~= s);
    } else {
        assert(is_ws(s[s.len() - 1]));
        lemma_trim_end_at(s.drop_last(), b);
        assert(s.drop_last().take(b) =~= s.take(b));
    }
}

/// Removes whitespace from both ends, as `str::trim` does.
pub fn trim(s: &str) -> (r: String)
    ensures
        r@ == trim_spec(s@),
{
    let h = s.unicode_len();
    let mut a: usize = 0;
    while a < h && ws(s.get_char(a))
        invariant
            h == s@.len(),
            0 <= a <= h,
            forall|k: int| 0 <= k < a ==> is_ws(s@[k]),
        decreases h - a,
    {
        a += 1;
    }
    proof {
        lemma_trim_start_at(s@, a as int);
    }
    let mut b: usize = h;
    while b > a && ws(s.get_char(b - 1))
        invariant
            h == s@.len(),
            a <= b <= h,
            forall|k: int| b <= k < h ==> is_ws(s@[k]),
        decreases b,
    {
        b -= 1;
    }
    proof {
        if b == a {
            lemma_trim_end_at(s@.skip(a as int), 0);
        } else {
            lemma_trim_end_at(s@.skip(a as int), b - a);
        }
        assert(s@.skip(a as int).take(b - a) =~= s@.subrange(a as int, b as int));
    }
    let out = s.substring_char(a, b);
    String::from_str(out)
}

/// `p` is a suffix of `s`.
pub open spec fn ends_with(s: Seq<char>, p: Seq<char>) -> bool {
    p.len() <= s.len() && s.subrange(s.len() - p.len(), s.len() as int) == p
}

/// `s` with one leading occurrence of `p` removed, when it is there.
pub open spec fn strip_prefix_spec(s: Seq<char>, p: Seq<char>) -> Seq<char> {
    if starts_with(s, p) {
        s.skip(p.len() as int)
    } else {
        s
    }
}

/// `s` with one trailing occurrence of `p` removed, when it is there.
pub open spec fn strip_suffix_spec(s: Seq<char>, p: Seq<char>) -> Seq<char> {
    if ends_with(s, p) {
        s.take(s.len() - p.len())
    } else {
        s
    }
}

/// Strips `suffix` from the end of `s`, if it is there.
pub fn strip_suffix_str(s: &str, suffix: &str) -> (r: Option<String>)
    ensures
        r is Some <==> ends_with(s@, suffix@),
        r matches Some(t) ==> t@ == s@.take(s@.len() - suffix@.len()),
{
    let h = s.unicode_len();
    let p = suffix.unicode_len();
    if p > h {
        return None;
    }
    if matches_at_exec(s, suffix, h - p) {
        proof {
            assert(s@.subrange(s@.len() - suffix@.len(), s@.len() as int) =~= suffix@);
        }
        let rest = s.substring_char(0, h - p);
        proof {
            assert(rest@ =~= s@.take(s@.len() - suffix@.len()));
        }
        Some(String::from_str(rest))
    } else {
        proof {
            if ends_with(s@, suffix@) {
                assert(matches_at(s@, suffix@, s@.len() - suffix@.len()));
            }
        }
        None
    }
}

} // verus!
