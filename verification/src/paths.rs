//! Slash-delimited remote paths, decomposed into their non-empty segments.

use vstd::prelude::*;

verus! {

/// Index of the first '/' in `s`, or `s.len()` if there is none.
pub open spec fn first_slash(s: Seq<char>) -> int
    decreases s.len(),
{
    if s.len() == 0 {
        0
    } else if s[0] == '/' {
        0
    } else {
        1 + first_slash(s.drop_first())
    }
}

pub proof fn lemma_first_slash_bounds(s: Seq<char>)
    ensures
        0 <= first_slash(s) <= s.len(),
        first_slash(s) < s.len() ==> s[first_slash(s)] == '/',
        forall|j: int| 0 <= j < first_slash(s) ==> s[j] != '/',
    decreases s.len(),
{
    if s.len() > 0 && s[0] != '/' {
        lemma_first_slash_bounds(s.drop_first());
        assert forall|j: int| 0 <= j < first_slash(s) implies s[j] != '/' by {
            if j > 0 {
                assert(s.drop_first()[j - 1] == s[j]);
            }
        }
    }
}

/// `first_slash` is pinned down by the position of the first '/' found.
pub proof fn lemma_first_slash_at(s: Seq<char>, k: int)
    requires
        0 <= k <= s.len(),
        forall|j: int| 0 <= j < k ==> s[j] != '/',
        k < s.len() ==> s[k] == '/',
    ensures
        first_slash(s) == k,
    decreases k,
{
    if k > 0 {
        assert(s[0] != '/');
        assert forall|j: int| 0 <= j < k - 1 implies s.drop_first()[j] != '/' by {
            assert(s.drop_first()[j] == s[j + 1]);
        }
        lemma_first_slash_at(s.drop_first(), k - 1);
    }
}

/// The non-empty segments of a slash-delimited path, in order.
pub open spec fn split_segs(s: Seq<char>) -> Seq<Seq<char>>
    decreases s.len(),
    via split_segs_decreases
{
    let i = first_slash(s);
    if s.len() == 0 {
        Seq::empty()
    } else if i == 0 {
        split_segs(s.drop_first())
    } else if i >= s.len() {
        seq![s]
    } else {
        seq![s.subrange(0, i)] + split_segs(s.subrange(i + 1, s.len() as int))
    }
}

#[via_fn]
proof fn split_segs_decreases(s: Seq<char>) {
    lemma_first_slash_bounds(s);
}

/// Does `pre` occur as a leading run of `segs`?
pub open spec fn is_seg_prefix(pre: Seq<Seq<char>>, segs: Seq<Seq<char>>) -> bool {
    pre.len() <= segs.len() && pre == segs.subrange(0, pre.len() as int)
}

/// The segments of `segs` left after skipping the leading ones that spell the
/// root's own name; if the root's name is not a leading run, nothing is skipped.
pub open spec fn strip_root(segs: Seq<Seq<char>>, root: Seq<Seq<char>>) -> Seq<Seq<char>> {
    if is_seg_prefix(root, segs) {
        segs.subrange(root.len() as int, segs.len() as int)
    } else {
        segs
    }
}

/// Character-for-character string equality.
pub fn str_eq(a: &str, b: &str) -> (r: bool)
    ensures
        r == (a@ == b@),
{
    let an = a.unicode_len();
    let bn = b.unicode_len();
    if an != bn {
        return false;
    }
    let mut i: usize = 0;
    while i < an
        invariant
            0 <= i <= an,
            an == a@.len(),
            an == b@.len(),
            forall|j: int| 0 <= j < i ==> a@[j] == b@[j],
        decreases an - i,
    {
        if a.get_char(i) != b.get_char(i) {
            return false;
        }
        i = i + 1;
    }
    proof {
        assert(a@ =~= b@);
    }
    true
}

/// Position of the first '/' in `s`, or its length if there is none.
fn first_slash_pos(s: &str) -> (k: usize)
    ensures
        k == first_slash(s@),
{
    let n = s.unicode_len();
    let mut i: usize = 0;
    while i < n
        invariant
            0 <= i <= n,
            n == s@.len(),
            forall|j: int| 0 <= j < i ==> s@[j] != '/',
        decreases n - i,
    {
        if s.get_char(i) == '/' {
            proof {
                lemma_first_slash_at(s@, i as int);
            }
            return i;
        }
        i = i + 1;
    }
    proof {
        lemma_first_slash_at(s@, n as int);
    }
    n
}

/// Splits a slash-delimited path into its non-empty segments.
pub fn split_path(s: &str) -> (r: Vec<String>)
    ensures
        r.deep_view() == split_segs(s@),
    decreases s@.len(),
{
    let n = s.unicode_len();
    if n == 0 {
        let r: Vec<String> = Vec::new();
        proof {
            assert(r.deep_view() =~= split_segs(s@));
        }
        return r;
    }
    let i = first_slash_pos(s);
    proof {
        lemma_first_slash_bounds(s@);
    }
    if i == 0 {
        let rest = s.substring_char(1, n);
        let r = split_path(rest);
        proof {
            assert(rest@ =~= s@.drop_first());
        }
        r
    } else if i == n {
        let mut r: Vec<String> = Vec::new();
        r.push(String::from_str(s));
        proof {
            assert(r.deep_view() =~= split_segs(s@));
        }
        r
    } else {
        let head = s.substring_char(0, i);
        let rest = s.substring_char(i + 1, n);
        let mut r = split_path(rest);
        r.insert(0, String::from_str(head));
        proof {
            assert(r.deep_view() =~= split_segs(s@));
        }
        r
    }
}

/// Drops `root`'s segments from the front of `segs` when they match.
pub fn strip_root_segs(segs: Vec<String>, root: &Vec<String>) -> (r: Vec<String>)
    ensures
        r.deep_view() == strip_root(segs.deep_view(), root.deep_view()),
{
    if root.len() > segs.len() {
        proof {
            assert(!is_seg_prefix(root.deep_view(), segs.deep_view()));
        }
        return segs;
    }
    let mut i: usize = 0;
    while i < root.len()
        invariant
            0 <= i <= root@.len(),
            root@.len() <= segs@.len(),
            forall|j: int| 0 <= j < i ==> segs.deep_view()[j] == root.deep_view()[j],
        decreases root@.len() - i,
    {
        if !str_eq(segs[i].as_str(), root[i].as_str()) {
            proof {
                assert(segs.deep_view()[i as int] != root.deep_view()[i as int]);
                assert(!is_seg_prefix(root.deep_view(), segs.deep_view()));
            }
            return segs;
        }
        i = i + 1;
    }
    proof {
        assert(root.deep_view() =~= segs.deep_view().subrange(0, root.deep_view().len() as int));
        assert(is_seg_prefix(root.deep_view(), segs.deep_view()));
    }
    let ghost orig = segs.deep_view();
    let ghost orig_at = segs@;
    let mut head = segs;
    let rest = head.split_off(root.len());
    proof {
        assert forall|j: int| 0 <= j < rest.deep_view().len() implies rest.deep_view()[j]
            == orig[j + root.deep_view().len()] by {
            assert(rest@[j] == orig_at[j + root@.len()]);
        }
        assert(rest.deep_view() =~= strip_root(orig, root.deep_view()));
    }
    rest
}

} // verus!
