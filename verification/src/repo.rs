//! Repository metadata helpers: listing the searchable trees in
//! lexicographic order, locating the nearest version-control root on a
//! path's ancestry, and shaping the version-control collaborator's
//! output for the metadata endpoints. All file-system probing and
//! subprocess work stays outside the library and hands in plain values.

use vstd::prelude::*;

use crate::text::{
    push_char, split_char, split_spec, starts_with, string_views, strip_prefix_spec,
    strip_prefix_str, strip_suffix_spec, strip_suffix_str, trim, trim_spec,
};
use crate::render::{json_quote, json_string};

verus! {

broadcast use vstd::seq_lib::group_to_multiset_ensures;

/// Lexicographic order on character sequences, by code point; on valid
/// text this is the order `str`'s own comparison gives.
pub open spec fn lex_le(a: Seq<char>, b: Seq<char>) -> bool
    decreases a.len(),
{
    if a.len() == 0 {
        true
    } else if b.len() == 0 {
        false
    } else if (a[0] as u32) < (b[0] as u32) {
        true
    } else if (a[0] as u32) > (b[0] as u32) {
        false
    } else {
        lex_le(a.drop_first(), b.drop_first())
    }
}

/// The order is total.
pub proof fn lemma_lex_total(a: Seq<char>, b: Seq<char>)
    ensures
        lex_le(a, b) || lex_le(b, a),
    decreases a.len(),
{
    if a.len() > 0 && b.len() > 0 && (a[0] as u32) == (b[0] as u32) {
        lemma_lex_total(a.drop_first(), b.drop_first());
    }
}

/// The order is transitive.
pub proof fn lemma_lex_trans(a: Seq<char>, b: Seq<char>, c: Seq<char>)
    requires
        lex_le(a, b),
        lex_le(b, c),
    ensures
        lex_le(a, c),
    decreases a.len(),
{
    if a.len() > 0 && b.len() > 0 && c.len() > 0 && (a[0] as u32) == (b[0] as u32) && (
    b[0] as u32) == (c[0] as u32) {
        lemma_lex_trans(a.drop_first(), b.drop_first(), c.drop_first());
    }
}

/// Decides [`lex_le`] on two string slices.
#[verifier::loop_isolation(false)]
pub fn str_le(a: &str, b: &str) -> (r: bool)
    ensures
        r == lex_le(a@, b@),
{
    let la = a.unicode_len();
    let lb = b.unicode_len();
    proof {
        assert(a@.skip(0) =~= a@);
        assert(b@.skip(0) =~= b@);
    }
    let mut j: usize = 0;
    while j < la && j < lb
        invariant
            0 <= j <= la,
            0 <= j <= lb,
            lex_le(a@, b@) == lex_le(a@.skip(j as int), b@.skip(j as int)),
            lex_le(b@, a@) == lex_le(b@.skip(j as int), a@.skip(j as int)),
        decreases la - j,
    {
        let ca = a.get_char(j);
        let cb = b.get_char(j);
        proof {
            assert(a@.skip(j as int)[0] == a@[j as int]);
            assert(b@.skip(j as int)[0] == b@[j as int]);
            assert(a@.skip(j as int).drop_first() =~= a@.skip(j + 1));
            assert(b@.skip(j as int).drop_first() =~= b@.skip(j + 1));
        }
        if (ca as u32) < (cb as u32) {
            return true;
        }
        if (ca as u32) > (cb as u32) {
            return false;
        }
        j += 1;
    }
    proof {
        if j >= la {
            assert(a@.skip(j as int).len() == 0);
        } else {
            assert(b@.skip(j as int).len() == 0);
            assert(a@.skip(j as int).len() > 0);
        }
    }
    la <= lb
}

/// Adjacent elements are in order.
pub open spec fn sorted_lex(vs: Seq<Seq<char>>) -> bool {
    forall|i: int| 0 <= i < vs.len() - 1 ==> lex_le(#[trigger] vs[i], vs[i + 1])
}

/// Sorts the strings into lexicographic order. The result holds exactly
/// the input's strings, rearranged.
#[verifier::loop_isolation(false)]
pub fn sort_strings(input: Vec<String>) -> (r: Vec<String>)
    ensures
        sorted_lex(string_views(r@)),
        string_views(r@).to_multiset() == string_views(input@).to_multiset(),
{
    let ghost orig = string_views(input@);
    let mut work = input;
    let mut out: Vec<String> = Vec::new();
    proof {
        assert(string_views(out@) =~= Seq::<Seq<char>>::empty());
        assert(string_views(out@).to_multiset().add(string_views(work@).to_multiset())
            =~= orig.to_multiset());
    }
    while work.len() > 0
        invariant
            string_views(out@).to_multiset().add(string_views(work@).to_multiset())
                == orig.to_multiset(),
            sorted_lex(string_views(out@)),
            forall|p: int, q: int|
                0 <= p < out@.len() && 0 <= q < work@.len() ==> lex_le(
                    #[trigger] string_views(out@)[p],
                    #[trigger] string_views(work@)[q],
                ),
        decreases work.len(),
    {
        let n = work.len();
        let mut m: usize = 0;
        proof {
            lemma_lex_total(string_views(work@)[0], string_views(work@)[0]);
        }
        let mut k: usize = 1;
        while k < n
            invariant
                0 <= m < n,
                m < k <= n || (k <= n && m == 0),
                k <= n,
                m < n,
                forall|t: int|
                    0 <= t < k ==> lex_le(
                        string_views(work@)[m as int],
                        #[trigger] string_views(work@)[t],
                    ),
            decreases n - k,
        {
            proof {
                assert(string_views(work@)[k as int] == work@[k as int]@);
                assert(string_views(work@)[m as int] == work@[m as int]@);
                lemma_lex_total(string_views(work@)[m as int], string_views(work@)[k as int]);
                lemma_lex_total(string_views(work@)[k as int], string_views(work@)[k as int]);
            }
            if str_le(work[k].as_str(), work[m].as_str()) {
                proof {
                    assert(string_views(work@)[k as int] == work@[k as int]@);
                    assert(forall|t: int|
                        0 <= t < k ==> lex_le(
                            string_views(work@)[m as int],
                            #[trigger] string_views(work@)[t],
                        ));
                    assert forall|t: int| 0 <= t < k + 1 implies lex_le(
                        string_views(work@)[k as int],
                        #[trigger] string_views(work@)[t],
                    ) by {
                        if t < k {
                            lemma_lex_trans(
                                string_views(work@)[k as int],
                                string_views(work@)[m as int],
                                string_views(work@)[t],
                            );
                        }
                    }
                }
                m = k;
            }
            k += 1;
        }
        let ghost wv = string_views(work@);
        let ghost ov = string_views(out@);
        let picked = work.remove(m);
        proof {
            assert(picked@ == wv[m as int]);
            assert(string_views(work@) =~~= wv.remove(m as int));
        }
        let ghost ov2 = ov.push(picked@);
        out.push(picked);
        proof {
            assert(string_views(out@) =~~= ov2);
            assert(sorted_lex(ov2)) by {
                assert forall|i: int| 0 <= i < ov2.len() - 1 implies lex_le(
                    #[trigger] ov2[i],
                    ov2[i + 1],
                ) by {
                    if i < ov.len() - 1 {
                        assert(ov2[i] == ov[i]);
                        assert(ov2[i + 1] == ov[i + 1]);
                    } else {
                        assert(ov2[i] == ov[i]);
                        assert(ov2[i + 1] == wv[m as int]);
                    }
                }
            }
            assert forall|p: int, q: int|
                0 <= p < ov2.len() && 0 <= q < wv.remove(m as int).len() implies lex_le(
                #[trigger] ov2[p],
                #[trigger] wv.remove(m as int)[q],
            ) by {
                let e = wv.remove(m as int)[q];
                assert(e == if q < m { wv[q] } else { wv[q + 1] });
                if p < ov.len() {
                    assert(ov2[p] == ov[p]);
                } else {
                    assert(ov2[p] == wv[m as int]);
                }
            }
            assert(ov2.to_multiset().add(wv.remove(m as int).to_multiset())
                =~= ov.to_multiset().add(wv.to_multiset()));
        }
    }
    proof {
        assert(string_views(work@) =~= Seq::<Seq<char>>::empty());
        assert(string_views(out@).to_multiset().add(
            Seq::<Seq<char>>::empty().to_multiset(),
        ) =~= string_views(out@).to_multiset());
    }
    out
}

/// A directory name the tree listing keeps: anything not starting with
/// a dot.
pub open spec fn visible(name: Seq<char>) -> bool {
    !(name.len() > 0 && name[0] == '.')
}

/// The visible names of a listing, in their order.
pub open spec fn visible_of(vs: Seq<Seq<char>>) -> Seq<Seq<char>>
    decreases vs.len(),
{
    if vs.len() == 0 {
        Seq::empty()
    } else if visible(vs.last()) {
        visible_of(vs.drop_last()).push(vs.last())
    } else {
        visible_of(vs.drop_last())
    }
}

/// The tree listing: the given directory names with dot-prefixed ones
/// removed, in lexicographic order. The result holds exactly the
/// visible names, rearranged into order.
#[verifier::loop_isolation(false)]
pub fn list_trees(names: Vec<String>) -> (r: Vec<String>)
    ensures
        sorted_lex(string_views(r@)),
        string_views(r@).to_multiset() == visible_of(string_views(names@)).to_multiset(),
{
    let ghost nv = string_views(names@);
    let n = names.len();
    let mut kept: Vec<String> = Vec::new();
    proof {
        assert(nv.take(0) =~= Seq::<Seq<char>>::empty());
        assert(string_views(kept@) =~= visible_of(nv.take(0)));
    }
    let mut i: usize = 0;
    while i < n
        invariant
            0 <= i <= n,
            string_views(kept@) == visible_of(nv.take(i as int)),
        decreases n - i,
    {
        let name = &names[i];
        let keep = {
            let ln = name.as_str().unicode_len();
            ln == 0 || name.as_str().get_char(0) != '.'
        };
        proof {
            assert(nv[i as int] == names@[i as int]@);
            assert(keep == visible(nv[i as int]));
            assert(nv.take(i + 1).drop_last() =~= nv.take(i as int));
            assert(nv.take(i + 1).last() == nv[i as int]);
            if keep {
                assert(visible_of(nv.take(i + 1)) =~= visible_of(nv.take(i as int)).push(
                    nv[i as int],
                ));
            } else {
                assert(visible_of(nv.take(i + 1)) =~= visible_of(nv.take(i as int)));
            }
        }
        if keep {
            let ghost kv = string_views(kept@);
            kept.push(name.clone());
            proof {
                assert(string_views(kept@) =~~= kv.push(nv[i as int]));
            }
        }
        i += 1;
    }
    proof {
        assert(nv.take(n as int) =~= nv);
    }
    sort_strings(kept)
}

/// The path prefix built from the given components, each followed by a
/// slash.
pub open spec fn prefix_cat(parts: Seq<Seq<char>>) -> Seq<char>
    decreases parts.len(),
{
    if parts.len() == 0 {
        Seq::empty()
    } else {
        prefix_cat(parts.drop_last()) + parts.last() + seq!['/']
    }
}

/// The ancestry of a path, shallowest first: for each `/`-separated
/// component, the prefix ending with that component and a trailing
/// slash. Probing each of these for version-control metadata, in order,
/// finds the shallowest enclosing repository root.
#[verifier::loop_isolation(false)]
pub fn repo_candidates(path: &str) -> (r: Vec<String>)
    ensures
        r@.len() == split_spec(path@, '/').len(),
        forall|k: int|
            0 <= k < r@.len() ==> #[trigger] string_views(r@)[k] == prefix_cat(
                split_spec(path@, '/').take(k + 1),
            ),
{
    let ghost sv = split_spec(path@, '/');
    let segs = split_char(path, '/');
    let n = segs.len();
    let mut parent = String::new();
    let mut out: Vec<String> = Vec::new();
    proof {
        assert(sv.take(0) =~= Seq::<Seq<char>>::empty());
        assert(parent@ =~= prefix_cat(sv.take(0)));
    }
    let mut i: usize = 0;
    while i < n
        invariant
            0 <= i <= n,
            out@.len() == i,
            parent@ == prefix_cat(sv.take(i as int)),
            forall|k: int|
                0 <= k < i ==> #[trigger] string_views(out@)[k] == prefix_cat(
                    sv.take(k + 1),
                ),
        decreases n - i,
    {
        proof {
            assert(string_views(segs@)[i as int] == segs@[i as int]@);
        }
        parent.append(segs[i].as_str());
        push_char(&mut parent, '/');
        proof {
            assert(sv.take(i + 1).drop_last() =~= sv.take(i as int));
            assert(sv.take(i + 1).last() == sv[i as int]);
            assert(parent@ =~= prefix_cat(sv.take(i + 1)));
        }
        let ghost pre = string_views(out@);
        out.push(parent.clone());
        proof {
            assert(string_views(out@) =~~= pre.push(parent@));
        }
        i += 1;
    }
    out
}

/// The position of the first set flag, or a negative answer.
pub open spec fn first_true(bs: Seq<bool>) -> int
    decreases bs.len(),
{
    if bs.len() == 0 {
        -1
    } else if bs[0] {
        0
    } else {
        let r = first_true(bs.drop_first());
        if r < 0 {
            -1
        } else {
            1 + r
        }
    }
}

proof fn lemma_first_true_at(bs: Seq<bool>, i: int)
    requires
        0 <= i < bs.len(),
        bs[i],
        forall|k: int| 0 <= k < i ==> !bs[k],
    ensures
        first_true(bs) == i,
    decreases i,
{
    if i > 0 {
        assert(bs.drop_first()[i - 1] == bs[i]);
        assert(forall|k: int| 0 <= k < i - 1 ==> bs.drop_first()[k] == bs[k + 1]);
        lemma_first_true_at(bs.drop_first(), i - 1);
    }
}

proof fn lemma_first_true_none(bs: Seq<bool>)
    requires
        forall|k: int| 0 <= k < bs.len() ==> !bs[k],
    ensures
        first_true(bs) == -1,
    decreases bs.len(),
{
    if bs.len() > 0 {
        assert(forall|k: int|
            0 <= k < bs.drop_first().len() ==> bs.drop_first()[k] == bs[k + 1]);
        lemma_first_true_none(bs.drop_first());
    }
}

/// Picks the shallowest enclosing repository root: `candidates` are a
/// path's ancestry prefixes and `has_git` says, for each, whether
/// version-control metadata was found there. Returns the first prefix
/// flagged, or nothing when none is.
#[verifier::loop_isolation(false)]
pub fn find_repo(candidates: &Vec<String>, has_git: &Vec<bool>) -> (r: Option<String>)
    requires
        candidates@.len() == has_git@.len(),
    ensures
        r is Some <==> first_true(has_git@) >= 0,
        r matches Some(p) ==> p@ == string_views(candidates@)[first_true(has_git@)],
{
    let n = candidates.len();
    let mut i: usize = 0;
    while i < n
        invariant
            0 <= i <= n,
            forall|k: int| 0 <= k < i ==> !has_git@[k],
        decreases n - i,
    {
        if has_git[i] {
            proof {
                lemma_first_true_at(has_git@, i as int);
                assert(string_views(candidates@)[i as int] == candidates@[i as int]@);
            }
            return Some(candidates[i].clone());
        }
        i += 1;
    }
    proof {
        lemma_first_true_none(has_git@);
    }
    None
}

/// The response body of the repository-root endpoint: the located root
/// relative to the code root, as a JSON string. Nothing is returned when
/// the located root does not lie under the code root.
pub fn git_root_response(repo_path: &str, code_dir: &str) -> (r: Option<String>)
    ensures
        r is Some <==> starts_with(repo_path@, code_dir@ + seq!['/']),
        r matches Some(j) ==> j@ == json_string(
            repo_path@.skip(code_dir@.len() as int + 1),
        ),
{
    proof {
        reveal_strlit("/");
        assert("/"@ =~= seq!['/']);
    }
    let pre = String::from_str(code_dir).concat("/");
    match strip_prefix_str(repo_path, pre.as_str()) {
        Some(rest) => Some(json_quote(rest.as_str())),
        None => None,
    }
}

/// The response body of the commit endpoint: the version-control
/// collaborator's output, trimmed, as a JSON string.
pub fn git_head_response(output: &str) -> (r: String)
    ensures
        r@ == json_string(trim_spec(output@)),
{
    let t = trim(output);
    json_quote(t.as_str())
}

/// The response body of the remote-URL endpoint: the configured remote,
/// trimmed, with one leading hosting-service SSH prefix and one trailing
/// repository-extension suffix removed when present, as a JSON string.
pub fn github_response(remote: &str) -> (r: String)
    ensures
        r@ == json_string(
            strip_suffix_spec(
                strip_prefix_spec(trim_spec(remote@), "git@github.com:"@),
                ".git"@,
            ),
        ),
{
    let t = trim(remote);
    let a = match strip_prefix_str(t.as_str(), "git@github.com:") {
        Some(rest) => rest,
        None => t,
    };
    let b = match strip_suffix_str(a.as_str(), ".git") {
        Some(rest) => rest,
        None => a,
    };
    json_quote(b.as_str())
}

} // verus!
