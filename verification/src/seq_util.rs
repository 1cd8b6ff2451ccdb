//! Order-preserving filtering of identifier lists.

use vstd::prelude::*;

verus! {

/// `s` without the elements that `keep` rejects, order preserved.
pub open spec fn retain(s: Seq<usize>, keep: spec_fn(usize) -> bool) -> Seq<usize>
    decreases s.len(),
{
    if s.len() == 0 {
        Seq::empty()
    } else if keep(s.last()) {
        retain(s.drop_last(), keep).push(s.last())
    } else {
        retain(s.drop_last(), keep)
    }
}

/// `s` without any occurrence of `x`.
pub open spec fn without(s: Seq<usize>, x: usize) -> Seq<usize> {
    retain(s, other_than(x))
}

/// The rule "is not `x`".
pub open spec fn other_than(x: usize) -> spec_fn(usize) -> bool {
    |y: usize| y != x
}

/// Membership in a filtered list: the element was there and is kept.
pub proof fn lemma_retain_contains(s: Seq<usize>, keep: spec_fn(usize) -> bool, y: usize)
    ensures
        retain(s, keep).contains(y) <==> (s.contains(y) && keep(y)),
    decreases s.len(),
{
    if s.len() == 0 {
    } else {
        let init = s.drop_last();
        lemma_retain_contains(init, keep, y);
        let r = retain(init, keep);
        if s.contains(y) {
            let k = choose|k: int| 0 <= k < s.len() && s[k] == y;
            if k < s.len() - 1 {
                assert(init[k] == y);
            }
        }
        if init.contains(y) {
            let k = choose|k: int| 0 <= k < init.len() && init[k] == y;
            assert(s[k] == y);
        }
        if keep(s.last()) {
            let rp = r.push(s.last());
            if r.contains(y) {
                let k = choose|k: int| 0 <= k < r.len() && r[k] == y;
                assert(rp[k] == y);
            }
            if s.last() == y {
                assert(rp[r.len() as int] == y);
                assert(s[s.len() - 1] == y);
            }
            if rp.contains(y) {
                let k = choose|k: int| 0 <= k < rp.len() && rp[k] == y;
                if k < r.len() {
                    assert(r[k] == y);
                }
            }
        }
    }
}

/// A list whose elements are all kept is left as it is.
pub proof fn lemma_retain_all(s: Seq<usize>, keep: spec_fn(usize) -> bool)
    requires
        forall|k: int| 0 <= k < s.len() ==> keep(#[trigger] s[k]),
    ensures
        retain(s, keep) == s,
    decreases s.len(),
{
    if s.len() > 0 {
        let init = s.drop_last();
        assert forall|k: int| 0 <= k < init.len() implies keep(#[trigger] init[k]) by {
            assert(init[k] == s[k]);
        }
        lemma_retain_all(init, keep);
        assert(keep(s[s.len() - 1]));
        assert(init.push(s.last()) =~= s);
    }
}

/// Filtering twice by the same rule changes nothing more.
pub proof fn lemma_retain_idempotent(s: Seq<usize>, keep: spec_fn(usize) -> bool)
    ensures
        retain(retain(s, keep), keep) == retain(s, keep),
{
    let r = retain(s, keep);
    assert forall|k: int| 0 <= k < r.len() implies keep(#[trigger] r[k]) by {
        lemma_retain_contains(s, keep, r[k]);
        assert(r.contains(r[k]));
    }
    lemma_retain_all(r, keep);
}

/// Filtering a list without repeats leaves one without repeats.
pub proof fn lemma_retain_no_duplicates(s: Seq<usize>, keep: spec_fn(usize) -> bool)
    requires
        s.no_duplicates(),
    ensures
        retain(s, keep).no_duplicates(),
    decreases s.len(),
{
    if s.len() > 0 {
        let init = s.drop_last();
        assert(init.no_duplicates()) by {
            assert forall|i: int, j: int| 0 <= i < init.len() && 0 <= j < init.len() && i != j implies init[i] != init[j] by {
                assert(init[i] == s[i] && init[j] == s[j]);
            }
        }
        lemma_retain_no_duplicates(init, keep);
        let r = retain(init, keep);
        if keep(s.last()) {
            lemma_retain_contains(init, keep, s.last());
            if init.contains(s.last()) {
                let k = choose|k: int| 0 <= k < init.len() && init[k] == s.last();
                assert(s[k] == s[s.len() - 1]);
            }
            lemma_push_no_duplicates(r, s.last());
        }
    }
}

/// Appending an element that was absent keeps a list free of repeats.
pub proof fn lemma_push_no_duplicates(s: Seq<usize>, x: usize)
    requires
        s.no_duplicates(),
        !s.contains(x),
    ensures
        s.push(x).no_duplicates(),
{
    let p = s.push(x);
    assert forall|i: int, j: int| 0 <= i < p.len() && 0 <= j < p.len() && i != j implies p[i] != p[j] by {
        if i < s.len() && j < s.len() {
        } else if i < s.len() {
            assert(s[i] != x);
        } else {
            assert(s[j] != x);
        }
    }
}

/// Membership after appending one element.
pub proof fn lemma_push_contains(s: Seq<usize>, x: usize, y: usize)
    ensures
        s.push(x).contains(y) <==> (s.contains(y) || y == x),
{
    let p = s.push(x);
    if s.contains(y) {
        let k = choose|k: int| 0 <= k < s.len() && s[k] == y;
        assert(p[k] == y);
    }
    if y == x {
        assert(p[s.len() as int] == y);
    }
    if p.contains(y) {
        let k = choose|k: int| 0 <= k < p.len() && p[k] == y;
        if k < s.len() {
            assert(s[k] == y);
        }
    }
}

/// A copy of `v`.
pub fn copy_of(v: &Vec<usize>) -> (out: Vec<usize>)
    ensures
        out@ == v@,
{
    let mut out: Vec<usize> = Vec::new();
    let mut i: usize = 0;
    while i < v.len()
        invariant
            i <= v.len(),
            out@ == v@.take(i as int),
        decreases v.len() - i,
    {
        out.push(v[i]);
        proof {
            assert(v@.take(i + 1) =~= v@.take(i as int).push(v@[i as int]));
        }
        i += 1;
    }
    proof {
        assert(v@.take(v.len() as int) =~= v@);
    }
    out
}

/// Whether `x` occurs in `v`.
pub fn contains(v: &Vec<usize>, x: usize) -> (found: bool)
    ensures
        found == v@.contains(x),
{
    let mut i: usize = 0;
    while i < v.len()
        invariant
            i <= v.len(),
            forall|k: int| 0 <= k < i ==> v@[k] != x,
        decreases v.len() - i,
    {
        if v[i] == x {
            return true;
        }
        i += 1;
    }
    false
}

/// Drops every occurrence of `x` from `v`, keeping the order of the rest.
pub fn remove_value(v: &mut Vec<usize>, x: usize)
    ensures
        final(v)@ == without(old(v)@, x),
{
    let mut out: Vec<usize> = Vec::new();
    let mut i: usize = 0;
    let ghost keep = other_than(x);
    while i < v.len()
        invariant
            i <= v.len(),
            keep == other_than(x),
            out@ == retain(v@.take(i as int), keep),
        decreases v.len() - i,
    {
        let y = v[i];
        proof {
            let next = v@.take(i + 1);
            assert(next.drop_last() =~= v@.take(i as int));
            assert(next.last() == y);
        }
        if y != x {
            out.push(y);
        }
        i += 1;
    }
    proof {
        assert(v@.take(v.len() as int) =~= v@);
    }
    *v = out;
}

/// Drops from `v` every identifier that `marks` flags, keeping the order of
/// the rest. Identifiers beyond the end of `marks` are kept.
pub fn remove_marked(v: &mut Vec<usize>, marks: &Vec<bool>)
    ensures
        final(v)@ == retain(old(v)@, spared(flagged(marks@))),
{
    let mut out: Vec<usize> = Vec::new();
    let mut i: usize = 0;
    let ghost keep = spared(flagged(marks@));
    while i < v.len()
        invariant
            i <= v.len(),
            keep == spared(flagged(marks@)),
            out@ == retain(v@.take(i as int), keep),
        decreases v.len() - i,
    {
        let y = v[i];
        proof {
            let next = v@.take(i + 1);
            assert(next.drop_last() =~= v@.take(i as int));
            assert(next.last() == y);
        }
        if !(y < marks.len() && marks[y]) {
            out.push(y);
        }
        i += 1;
    }
    proof {
        assert(v@.take(v.len() as int) =~= v@);
    }
    *v = out;
}

/// The rule "flagged in `marks`".
pub open spec fn flagged(marks: Seq<bool>) -> spec_fn(usize) -> bool {
    |y: usize| y < marks.len() && marks[y as int]
}

/// The rule "is not doomed".
pub open spec fn spared(doomed: spec_fn(usize) -> bool) -> spec_fn(usize) -> bool {
    |j: usize| !doomed(j)
}

/// How many entries of `marks` are set.
pub open spec fn count_set(marks: Seq<bool>) -> nat
    decreases marks.len(),
{
    if marks.len() == 0 {
        0
    } else {
        count_set(marks.drop_last()) + if marks.last() {
            1nat
        } else {
            0nat
        }
    }
}

/// No more entries are set than there are.
pub proof fn lemma_count_set_bound(marks: Seq<bool>)
    ensures
        count_set(marks) <= marks.len(),
    decreases marks.len(),
{
    if marks.len() > 0 {
        lemma_count_set_bound(marks.drop_last());
    }
}

/// Setting an entry that was clear raises the count by one.
pub proof fn lemma_count_set_update(marks: Seq<bool>, j: int)
    requires
        0 <= j < marks.len(),
        !marks[j],
    ensures
        count_set(marks.update(j, true)) == count_set(marks) + 1,
    decreases marks.len(),
{
    let after = marks.update(j, true);
    if j == marks.len() - 1 {
        assert(after.drop_last() =~= marks.drop_last());
    } else {
        lemma_count_set_update(marks.drop_last(), j);
        assert(after.drop_last() =~= marks.drop_last().update(j, true));
    }
}

/// A list of `false` of the given length.
pub fn all_clear(n: usize) -> (marks: Vec<bool>)
    ensures
        marks.len() == n,
        forall|j: int| 0 <= j < n ==> !marks[j],
        count_set(marks@) == 0,
{
    let mut marks: Vec<bool> = Vec::new();
    let mut i: usize = 0;
    while i < n
        invariant
            i <= n,
            marks.len() == i,
            forall|j: int| 0 <= j < i ==> !marks[j],
            count_set(marks@) == 0,
        decreases n - i,
    {
        proof {
            assert(marks@.push(false).drop_last() =~= marks@);
        }
        marks.push(false);
        i += 1;
    }
    marks
}

} // verus!
