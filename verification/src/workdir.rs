//! Working-directory resolution for the supervised process.
//!
//! Candidate directories are collected in precedence order, deduplicated
//! while keeping the first occurrence of each, and the first candidate that
//! contains the marker subfolder on disk wins; when none qualifies, the
//! caller's fallback is used.  Whether a candidate contains the marker is
//! probed by the caller and handed in as a flag per candidate.

use vstd::prelude::*;

use crate::text::has_prefix_at;
use crate::text::prefix_at;
use crate::text::str_eq;

verus! {

/// First-seen-wins deduplication of a path list.
pub open spec fn dedup_spec(s: Seq<Seq<char>>) -> Seq<Seq<char>>
    decreases s.len(),
{
    if s.len() == 0 {
        Seq::empty()
    } else {
        let rest = dedup_spec(s.drop_last());
        if s.drop_last().contains(s.last()) {
            rest
        } else {
            rest.push(s.last())
        }
    }
}

/// Deduplication keeps exactly the members of the input.
pub proof fn lemma_dedup_membership(s: Seq<Seq<char>>, x: Seq<char>)
    ensures
        dedup_spec(s).contains(x) == s.contains(x),
    decreases s.len(),
{
    if s.len() > 0 {
        let d = s.drop_last();
        lemma_dedup_membership(d, x);
        if s.contains(x) {
            let i = choose|i: int| 0 <= i < s.len() && s[i] == x;
            if i < s.len() - 1 {
                assert(d[i] == x);
                assert(d.contains(x));
            }
        }
        if d.contains(x) {
            let i = choose|i: int| 0 <= i < d.len() && d[i] == x;
            assert(s[i] == x);
            assert(s.contains(x));
        }
        if !d.contains(s.last()) {
            let r = dedup_spec(d);
            assert forall|y: Seq<char>| r.push(s.last()).contains(y) == (r.contains(y) || y
                == s.last()) by {
                let p = r.push(s.last());
                if p.contains(y) {
                    let i = choose|i: int| 0 <= i < p.len() && p[i] == y;
                    if i < r.len() {
                        assert(r[i] == y);
                    }
                }
                if r.contains(y) {
                    let i = choose|i: int| 0 <= i < r.len() && r[i] == y;
                    assert(p[i] == y);
                }
                if y == s.last() {
                    assert(p[r.len() as int] == y);
                }
            }
            if s.contains(x) && !d.contains(x) {
                let i = choose|i: int| 0 <= i < s.len() && s[i] == x;
                assert(i == s.len() - 1);
                assert(x == s.last());
            }
        }
    }
}

/// Deduplication leaves no duplicates.
pub proof fn lemma_dedup_no_duplicates(s: Seq<Seq<char>>)
    ensures
        dedup_spec(s).no_duplicates(),
    decreases s.len(),
{
    if s.len() > 0 {
        let d = s.drop_last();
        lemma_dedup_no_duplicates(d);
        if !d.contains(s.last()) {
            lemma_dedup_membership(d, s.last());
            let r = dedup_spec(d);
            assert forall|i: int, j: int|
                0 <= i < r.push(s.last()).len() && 0 <= j < r.push(s.last()).len() && i
                    != j implies r.push(s.last())[i] != r.push(s.last())[j] by {
                let p = r.push(s.last());
                if i < r.len() && j < r.len() {
                    assert(p[i] == r[i] && p[j] == r[j]);
                } else if i < r.len() {
                    assert(p[j] == s.last());
                    if p[i] == s.last() {
                        assert(r.contains(s.last()));
                    }
                } else if j < r.len() {
                    assert(p[i] == s.last());
                    if p[j] == s.last() {
                        assert(r.contains(s.last()));
                    }
                }
            }
        }
    }
}

/// Deduplication keeps the first candidate in first position.
pub proof fn lemma_dedup_keeps_first(s: Seq<Seq<char>>)
    requires
        s.len() > 0,
    ensures
        dedup_spec(s).len() > 0,
        dedup_spec(s)[0] == s[0],
    decreases s.len(),
{
    let d = s.drop_last();
    if s.len() == 1 {
        assert(!d.contains(s.last()));
    } else {
        lemma_dedup_keeps_first(d);
        assert(d[0] == s[0]);
    }
}

/// Whether `needle` occurs in `v`.
fn contains_str(v: &Vec<String>, needle: &str) -> (r: bool)
    ensures
        r == v.deep_view().contains(needle@),
{
    let mut k: usize = 0;
    while k < v.len()
        invariant
            0 <= k <= v.len(),
            forall|j: int| 0 <= j < k ==> v.deep_view()[j] != needle@,
        decreases v.len() - k,
    {
        if str_eq(v[k].as_str(), needle) {
            assert(v.deep_view()[k as int] == needle@);
            return true;
        }
        k += 1;
    }
    assert(forall|j: int| 0 <= j < v.deep_view().len() ==> v.deep_view()[j] != needle@);
    false
}

/// Deduplicate a path list, keeping the first occurrence of each path.
pub fn dedup_paths(paths: &Vec<String>) -> (r: Vec<String>)
    ensures
        r.deep_view() == dedup_spec(paths.deep_view()),
{
    let ghost full = paths.deep_view();
    let mut out: Vec<String> = Vec::new();
    proof {
        assert(out.deep_view() =~= dedup_spec(full.take(0)));
    }
    let mut i: usize = 0;
    while i < paths.len()
        invariant
            0 <= i <= paths.len(),
            full == paths.deep_view(),
            paths.len() == full.len(),
            out.deep_view() == dedup_spec(full.take(i as int)),
        decreases paths.len() - i,
    {
        let cur = &paths[i];
        proof {
            assert(full.take(i as int + 1).drop_last() =~= full.take(i as int));
            assert(full.take(i as int + 1).last() == full[i as int]);
            lemma_dedup_membership(full.take(i as int), full[i as int]);
        }
        let ghost before = out.deep_view();
        if !contains_str(&out, cur.as_str()) {
            out.push(cur.clone());
            proof {
                assert(out.deep_view() =~= before.push(full[i as int]));
            }
        }
        i += 1;
    }
    proof {
        assert(full.take(paths.len() as int) =~= full);
    }
    out
}

/// Leading and trailing whitespace characters ignored by path handling:
/// the four ASCII whitespace characters.  Exotic Unicode whitespace is
/// deliberately not stripped and counts as part of the path.
pub open spec fn is_space(c: char) -> bool {
    c == ' ' || c == '\t' || c == '\r' || c == '\n'
}

/// The sequence without its leading whitespace.
pub open spec fn trim_front_spec(s: Seq<char>) -> Seq<char>
    decreases s.len(),
{
    if s.len() > 0 && is_space(s[0]) {
        trim_front_spec(s.drop_first())
    } else {
        s
    }
}

/// The sequence without its trailing whitespace.
pub open spec fn trim_back_spec(s: Seq<char>) -> Seq<char>
    decreases s.len(),
{
    if s.len() > 0 && is_space(s.last()) {
        trim_back_spec(s.drop_last())
    } else {
        s
    }
}

/// The sequence without leading and trailing whitespace.
pub open spec fn trim_spec(s: Seq<char>) -> Seq<char> {
    trim_back_spec(trim_front_spec(s))
}

fn trim_front<'a>(s: &'a str) -> (r: &'a str)
    ensures
        r@ == trim_front_spec(s@),
    decreases s@.len(),
{
    let n: usize = s.unicode_len();
    if n > 0 {
        let c = s.get_char(0);
        if c == ' ' || c == '\t' || c == '\r' || c == '\n' {
            let rest = s.substring_char(1, n);
            proof {
                assert(rest@ =~= s@.drop_first());
            }
            return trim_front(rest);
        }
    }
    s
}

fn trim_back<'a>(s: &'a str) -> (r: &'a str)
    ensures
        r@ == trim_back_spec(s@),
    decreases s@.len(),
{
    let n: usize = s.unicode_len();
    if n > 0 {
        let c = s.get_char(n - 1);
        if c == ' ' || c == '\t' || c == '\r' || c == '\n' {
            let rest = s.substring_char(0, n - 1);
            proof {
                assert(rest@ =~= s@.drop_last());
            }
            return trim_back(rest);
        }
    }
    s
}

/// Strip leading and trailing whitespace.
pub fn trim<'a>(s: &'a str) -> (r: &'a str)
    ensures
        r@ == trim_spec(s@),
{
    trim_back(trim_front(s))
}

/// Home-directory expansion: `~` alone and a leading `~/` are replaced by
/// the home directory; any other path is returned unchanged.
pub open spec fn expand_home_spec(p: Seq<char>, home: Seq<char>) -> Seq<char> {
    if p == "~"@ {
        home
    } else if p.len() >= 2 && p[0] == '~' && p[1] == '/' {
        home + p.skip(1)
    } else {
        p
    }
}

/// Expand a leading `~` to the home directory handed in by the caller.
pub fn expand_home(p: &str, home: &str) -> (r: String)
    ensures
        r@ == expand_home_spec(p@, home@),
{
    let n: usize = p.unicode_len();
    if str_eq(p, "~") {
        return home.to_owned();
    }
    if n >= 2 {
        let c0 = p.get_char(0);
        let c1 = p.get_char(1);
        if c0 == '~' && c1 == '/' {
            let mut out: String = home.to_owned();
            let rest = p.substring_char(1, n);
            proof {
                assert(rest@ =~= p@.skip(1));
            }
            out.append(rest);
            return out;
        }
    }
    p.to_owned()
}

/// A path made absolute against the caller's current working directory:
/// a path that starts with a separator is kept, any other is appended to
/// the working directory.
pub open spec fn absolutize_spec(p: Seq<char>, cwd: Seq<char>) -> Seq<char> {
    if p.len() > 0 && p[0] == '/' {
        p
    } else {
        cwd + "/"@ + p
    }
}

/// Make a path absolute against `cwd`.
pub fn absolutize(p: &str, cwd: &str) -> (r: String)
    ensures
        r@ == absolutize_spec(p@, cwd@),
{
    let n: usize = p.unicode_len();
    if n > 0 && p.get_char(0) == '/' {
        p.to_owned()
    } else {
        let mut out: String = cwd.to_owned();
        out.append("/");
        out.append(p);
        out
    }
}

/// The verbatim-path prefix some platforms put before a resolved
/// resource directory.
pub open spec fn verbatim_prefix() -> Seq<char> {
    "\\\\?\\"@
}

/// The path with the verbatim-path prefix removed when present.
pub open spec fn strip_verbatim_spec(p: Seq<char>) -> Seq<char> {
    if prefix_at(p, 0, verbatim_prefix()) {
        p.skip(verbatim_prefix().len() as int)
    } else {
        p
    }
}

/// Strip the verbatim-path prefix when present.
pub fn strip_verbatim(p: &str) -> (r: String)
    ensures
        r@ == strip_verbatim_spec(p@),
{
    if has_prefix_at(p, 0, "\\\\?\\") {
        let n: usize = p.unicode_len();
        proof {
            reveal_strlit("\\\\?\\");
            assert(verbatim_prefix().len() == 4);
        }
        let rest = p.substring_char(4, n);
        proof {
            assert(rest@ =~= p@.skip(4));
        }
        rest.to_owned()
    } else {
        p.to_owned()
    }
}

/// The first non-empty candidate whose marker flag is set; the fallback
/// when none qualifies.
pub open spec fn resolve_spec(cands: Seq<Seq<char>>, marked: Seq<bool>, fallback: Seq<char>) -> Seq<
    char,
>
    recommends
        cands.len() == marked.len(),
    decreases cands.len(),
{
    if cands.len() == 0 {
        fallback
    } else if cands[0].len() > 0 && marked[0] {
        cands[0]
    } else {
        resolve_spec(cands.drop_first(), marked.drop_first(), fallback)
    }
}

/// When the highest-precedence candidate is non-empty and carries the
/// marker, it is picked, whatever the other candidates hold.
pub proof fn lemma_first_candidate_wins(
    cands: Seq<Seq<char>>,
    marked: Seq<bool>,
    fallback: Seq<char>,
)
    requires
        cands.len() == marked.len(),
        cands.len() > 0,
        cands[0].len() > 0,
        marked[0],
    ensures
        resolve_spec(cands, marked, fallback) == cands[0],
{
}

} // verus!
