//! The list model: duplicate detection, deduplication, and pruning of
//! entries whose path no longer exists on the filesystem.

use vstd::prelude::*;

verus! {

use vstd::std_specs::cmp::PartialEqSpec;

/// An index `i` participates in a duplicate group of `s` when the same
/// element also occurs at some other index.
pub open spec fn is_dup_at<A>(s: Seq<A>, i: int) -> bool {
    exists|j: int| 0 <= j < s.len() && j != i && s[j] == s[i]
}

/// Returns a list of indices of the duplicates.
///
/// The result is the strictly increasing list of every index that shares
/// its element with another index (all members of each duplicate group,
/// not just the later occurrences).
pub fn find_dups<T: Eq + core::hash::Hash>(vec: &[T]) -> (r: Vec<usize>)
    ensures
        vstd::laws_eq::obeys_concrete_eq::<T>() ==> {
            &&& forall|k1: int, k2: int| 0 <= k1 < k2 < r@.len() ==> r@[k1] < r@[k2]
            &&& forall|i: int|
                0 <= i < vec@.len() ==> (r@.contains(i as usize) <==> is_dup_at(vec@, i))
            &&& forall|k: int| 0 <= k < r@.len() ==> r@[k] < vec@.len()
        },
{
    let mut r: Vec<usize> = Vec::new();
    let mut i: usize = 0;
    while i < vec.len()
        invariant
            i <= vec@.len(),
            forall|k: int| 0 <= k < r@.len() ==> r@[k] < i,
            forall|k1: int, k2: int| 0 <= k1 < k2 < r@.len() ==> r@[k1] < r@[k2],
            vstd::laws_eq::obeys_concrete_eq::<T>() ==> forall|t: int|
                0 <= t < i ==> (r@.contains(t as usize) <==> is_dup_at(vec@, t)),
        decreases vec@.len() - i,
    {
        let mut dup = false;
        let mut j: usize = 0;
        while j < vec.len()
            invariant
                i < vec@.len(),
                j <= vec@.len(),
                vstd::laws_eq::obeys_concrete_eq::<T>() ==> (dup <==> exists|j2: int|
                    0 <= j2 < j && j2 != i && vec@[j2] == vec@[i as int]),
            decreases vec@.len() - j,
        {
            if j != i {
                let b = vec[i] == vec[j];
                proof {
                    if vstd::laws_eq::obeys_concrete_eq::<T>() {
                        reveal(vstd::laws_eq::obeys_concrete_eq);
                        assert(vec@[i as int].eq_spec(&vec@[j as int]) == (vec@[i as int]
                            == vec@[j as int]));
                        assert(b == (vec@[j as int] == vec@[i as int]));
                    }
                }
                if b {
                    dup = true;
                }
            }
            j += 1;
        }
        let ghost r_prev = r@;
        if dup {
            r.push(i);
        }
        proof {
            if vstd::laws_eq::obeys_concrete_eq::<T>() {
                assert(dup == is_dup_at(vec@, i as int));
                assert forall|t: int| 0 <= t < i + 1 implies (r@.contains(t as usize)
                    <==> is_dup_at(vec@, t)) by {
                    if t < i {
                        if r_prev.contains(t as usize) {
                            let k = choose|k: int|
                                0 <= k < r_prev.len() && r_prev[k] == t as usize;
                            assert(r@[k] == t as usize);
                            assert(r@.contains(t as usize));
                        }
                        if r@.contains(t as usize) && !r_prev.contains(t as usize) {
                            let k = choose|k: int| 0 <= k < r@.len() && r@[k] == t as usize;
                            assert(k == r_prev.len());
                        }
                    } else {
                        if dup {
                            assert(r@[r@.len() - 1] == i as usize);
                            assert(r@.contains(i as usize));
                        } else {
                            if r@.contains(i as usize) {
                                let k = choose|k: int| 0 <= k < r@.len() && r@[k] == i as usize;
                                assert(r@[k] < i);
                            }
                        }
                    }
                }
            }
        }
        i += 1;
    }
    r
}

/// The subsequence of `s` keeping only the first occurrence of each
/// distinct element, in first-seen order.
pub open spec fn dedup_spec<A>(s: Seq<A>) -> Seq<A>
    decreases s.len(),
{
    if s.len() == 0 {
        Seq::empty()
    } else {
        let rest = dedup_spec(s.drop_last());
        if s.drop_last().contains(s.last()) {
            rest
        } else {
            rest.push(s.last())
        }
    }
}

proof fn lemma_contains_split<A>(s: Seq<A>, x: A)
    requires
        s.len() > 0,
    ensures
        s.contains(x) <==> (s.drop_last().contains(x) || s.last() == x),
{
    if s.contains(x) {
        let k = choose|k: int| 0 <= k < s.len() && s[k] == x;
        if k < s.len() - 1 {
            assert(s.drop_last()[k] == x);
        }
    }
    if s.drop_last().contains(x) {
        let k = choose|k: int| 0 <= k < s.drop_last().len() && s.drop_last()[k] == x;
        assert(s[k] == x);
    }
    if s.last() == x {
        assert(s[s.len() - 1] == x);
    }
}

/// Deduplication never invents or loses element values: membership in the
/// deduplicated sequence coincides with membership in the original.
pub proof fn lemma_dedup_membership<A>(s: Seq<A>, x: A)
    ensures
        dedup_spec(s).contains(x) <==> s.contains(x),
    decreases s.len(),
{
    if s.len() > 0 {
        lemma_dedup_membership(s.drop_last(), x);
        lemma_contains_split(s, x);
        if s.drop_last().contains(s.last()) {
            if s.last() == x {
                assert(s.drop_last().contains(x));
            }
        } else {
            let rest = dedup_spec(s.drop_last());
            lemma_contains_split(rest.push(s.last()), x);
            assert(rest.push(s.last()).drop_last() =~= rest);
        }
    }
}

/// The deduplicated sequence holds each element value at most once.
pub proof fn lemma_dedup_no_duplicates<A>(s: Seq<A>)
    ensures
        dedup_spec(s).no_duplicates(),
    decreases s.len(),
{
    if s.len() > 0 {
        lemma_dedup_no_duplicates(s.drop_last());
        if !s.drop_last().contains(s.last()) {
            let rest = dedup_spec(s.drop_last());
            lemma_dedup_membership(s.drop_last(), s.last());
            assert(!rest.contains(s.last()));
            let r = rest.push(s.last());
            assert forall|i: int, j: int| 0 <= i < r.len() && 0 <= j < r.len() && i != j
                implies r[i] != r[j] by {
                if i < rest.len() && j < rest.len() {
                    assert(rest[i] == r[i] && rest[j] == r[j]);
                } else if i == rest.len() {
                    assert(r[j] == rest[j]);
                    if r[i] == r[j] {
                        assert(rest.contains(r[i]));
                    }
                } else {
                    assert(r[i] == rest[i]);
                    if r[i] == r[j] {
                        assert(rest.contains(r[j]));
                    }
                }
            }
        }
    }
}

/// A sequence without repeated elements is left exactly as it is.
pub proof fn lemma_dedup_of_unique<A>(s: Seq<A>)
    requires
        s.no_duplicates(),
    ensures
        dedup_spec(s) == s,
    decreases s.len(),
{
    if s.len() > 0 {
        assert(s.drop_last().no_duplicates());
        lemma_dedup_of_unique(s.drop_last());
        if s.drop_last().contains(s.last()) {
            let k = choose|k: int|
                0 <= k < s.drop_last().len() && s.drop_last()[k] == s.last();
            assert(s[k] == s[s.len() - 1]);
            assert(false);
        }
        assert(dedup_spec(s) =~= s);
    }
}

/// Deduplicating is idempotent: a second pass changes nothing.
pub proof fn lemma_dedup_idempotent<A>(s: Seq<A>)
    ensures
        dedup_spec(dedup_spec(s)) == dedup_spec(s),
{
    lemma_dedup_no_duplicates(s);
    lemma_dedup_of_unique(dedup_spec(s));
}

/// Dedup a vector, keeping only the first duplicate.
pub fn remove_dups<T: Eq>(vec: Vec<T>) -> (r: Vec<T>)
    ensures
        vstd::laws_eq::obeys_concrete_eq::<T>() ==> r@ == dedup_spec(vec@),
{
    let ghost vec0 = vec@;
    let mut src = vec;
    let mut r: Vec<T> = Vec::new();
    let ghost mut done = Seq::<T>::empty();
    while src.len() > 0
        invariant
            vec0 == done + src@,
            vstd::laws_eq::obeys_concrete_eq::<T>() ==> r@ == dedup_spec(done),
        decreases src@.len(),
    {
        let ghost prev = src@;
        let e = src.remove(0);
        proof {
            assert(done.push(e) + src@ =~= done + prev);
        }
        let mut found = false;
        let mut k: usize = 0;
        while k < r.len()
            invariant
                k <= r@.len(),
                vstd::laws_eq::obeys_concrete_eq::<T>() ==> (found <==> exists|k2: int|
                    0 <= k2 < k && r@[k2] == e),
            decreases r@.len() - k,
        {
            let b = r[k] == e;
            proof {
                if vstd::laws_eq::obeys_concrete_eq::<T>() {
                    reveal(vstd::laws_eq::obeys_concrete_eq);
                    assert(b == (r@[k as int] == e));
                }
            }
            if b {
                found = true;
            }
            k += 1;
        }
        proof {
            if vstd::laws_eq::obeys_concrete_eq::<T>() {
                assert(found == r@.contains(e));
                lemma_dedup_membership(done, e);
                assert((done.push(e)).drop_last() =~= done);
                assert(dedup_spec(done.push(e)) == if done.contains(e) {
                    dedup_spec(done)
                } else {
                    dedup_spec(done).push(e)
                });
            }
            done = done.push(e);
        }
        if !found {
            r.push(e);
        }
    }
    proof {
        assert(done =~= vec0);
    }
    r
}

/// The subsequence of `s` at the positions marked true in `keep`.
pub open spec fn filter_by_keep<A>(s: Seq<A>, keep: Seq<bool>) -> Seq<A>
    recommends
        keep.len() >= s.len(),
    decreases s.len(),
{
    if s.len() == 0 {
        Seq::empty()
    } else {
        let rest = filter_by_keep(s.drop_last(), keep);
        if keep[s.len() - 1] {
            rest.push(s.last())
        } else {
            rest
        }
    }
}

/// `a` can be read off `b` left to right, skipping some elements of `b`.
pub open spec fn is_subseq_of<A>(a: Seq<A>, b: Seq<A>) -> bool
    decreases b.len(),
{
    if a.len() == 0 {
        true
    } else if b.len() == 0 {
        false
    } else if a.last() == b.last() {
        is_subseq_of(a.drop_last(), b.drop_last())
    } else {
        is_subseq_of(a, b.drop_last())
    }
}

proof fn lemma_subseq_drop_a<A>(a: Seq<A>, b: Seq<A>)
    requires
        is_subseq_of(a, b),
        a.len() > 0,
    ensures
        is_subseq_of(a.drop_last(), b),
    decreases b.len(),
{
    let a2 = a.drop_last();
    if a.last() == b.last() {
        if a2.len() > 0 {
            if a2.last() == b.last() {
                lemma_subseq_drop_a(a2, b.drop_last());
            }
        }
    } else {
        lemma_subseq_drop_a(a, b.drop_last());
        if a2.len() > 0 && a2.last() == b.last() {
            lemma_subseq_drop_a(a2, b.drop_last());
        }
    }
}

/// A subsequence is never longer than the sequence it is drawn from.
pub proof fn lemma_subseq_len<A>(a: Seq<A>, b: Seq<A>)
    requires
        is_subseq_of(a, b),
    ensures
        a.len() <= b.len(),
    decreases b.len(),
{
    if a.len() > 0 {
        if a.last() == b.last() {
            lemma_subseq_len(a.drop_last(), b.drop_last());
        } else {
            lemma_subseq_len(a, b.drop_last());
        }
    }
}

/// Pruning by a keep mask never lengthens the sequence and never reorders
/// the surviving entries: the result is an order-preserving subsequence.
pub proof fn lemma_filter_subsequence<A>(s: Seq<A>, keep: Seq<bool>)
    ensures
        is_subseq_of(filter_by_keep(s, keep), s),
        filter_by_keep(s, keep).len() <= s.len(),
    decreases s.len(),
{
    let fs = filter_by_keep(s, keep);
    if s.len() > 0 {
        lemma_filter_subsequence(s.drop_last(), keep);
        let rest = filter_by_keep(s.drop_last(), keep);
        if keep[s.len() - 1] {
            assert(fs.last() == s.last());
            assert(fs.drop_last() =~= rest);
        } else {
            if fs.len() > 0 && fs.last() == s.last() {
                lemma_subseq_drop_a(fs, s.drop_last());
            }
        }
    }
    lemma_subseq_len(fs, s);
}

/// Relies on std::path::Path::exists: whether the path currently names an
/// existing filesystem entry, under the host's own resolution rules.
#[verifier::external_body]
pub(crate) fn path_exists(s: &String) -> bool {
    std::path::Path::new(s.as_str()).exists()
}

/// One existence flag per entry, read from the filesystem.
pub(crate) fn existence_flags(vec: &Vec<String>) -> (r: Vec<bool>)
    ensures
        r@.len() == vec@.len(),
{
    let mut r: Vec<bool> = Vec::new();
    let mut i: usize = 0;
    while i < vec.len()
        invariant
            i <= vec@.len(),
            r@.len() == i,
        decreases vec@.len() - i,
    {
        r.push(path_exists(&vec[i]));
        i += 1;
    }
    r
}

/// Keeps exactly the entries whose answer in `present` is true, in
/// order: the result is the input filtered by the given answers.
pub fn prune_with(list: &Vec<String>, present: &Vec<bool>) -> (r: Vec<String>)
    requires
        present@.len() == list@.len(),
    ensures
        r.deep_view() == filter_by_keep(list.deep_view(), present@),
{
    let ghost dv = list.deep_view();
    let mut r: Vec<String> = Vec::new();
    let mut i: usize = 0;
    while i < list.len()
        invariant
            i <= list@.len(),
            dv == list.deep_view(),
            dv.len() == list@.len(),
            present@.len() == list@.len(),
            r.deep_view() == filter_by_keep(dv.take(i as int), present@),
        decreases list@.len() - i,
    {
        let ghost r_prev = r.deep_view();
        proof {
            assert(dv.take(i + 1).drop_last() =~= dv.take(i as int));
            assert(dv.take(i + 1).last() == dv[i as int]);
        }
        if present[i] {
            let ghost rv = r@;
            r.push(list[i].clone());
            proof {
                assert(r@ == rv.push(list@[i as int]));
                assert(r.deep_view() =~= r_prev.push(dv[i as int]));
            }
        }
        i += 1;
    }
    proof {
        assert(dv.take(list@.len() as int) =~= dv);
    }
    r
}

/// Keeps only the entries whose path currently exists, in order: the
/// filesystem's answers are gathered once and the list is pruned by them
/// through `prune_with`. Which entries survive depends on the disk;
/// whatever it answers, the result is an order-preserving subsequence of
/// the input.
pub fn remove_nonexistent(vec: Vec<String>) -> (r: Vec<String>)
    ensures
        exists|keep: Seq<bool>|
            keep.len() == vec@.len() && r.deep_view() == filter_by_keep(
                vec.deep_view(),
                keep,
            ),
        is_subseq_of(r.deep_view(), vec.deep_view()),
        r@.len() <= vec@.len(),
{
    let present = existence_flags(&vec);
    let r = prune_with(&vec, &present);
    proof {
        lemma_filter_subsequence(vec.deep_view(), present@);
        assert(r@.len() == r.deep_view().len());
        assert(present@.len() == vec@.len() && r.deep_view() == filter_by_keep(
            vec.deep_view(),
            present@,
        ));
    }
    r
}

/// Per-entry duplicate flags for a path list, one per index: the flag at
/// `i` is true exactly when the string at `i` occurs at another index.
pub fn dup_flags(vec: &Vec<String>) -> (r: Vec<bool>)
    ensures
        r@.len() == vec@.len(),
        forall|i: int| 0 <= i < vec@.len() ==> r@[i] == is_dup_at(vec.deep_view(), i),
{
    let ghost dv = vec.deep_view();
    let mut r: Vec<bool> = Vec::new();
    let mut i: usize = 0;
    while i < vec.len()
        invariant
            i <= vec@.len(),
            dv == vec.deep_view(),
            dv.len() == vec@.len(),
            r@.len() == i,
            forall|t: int| 0 <= t < i ==> r@[t] == is_dup_at(dv, t),
        decreases vec@.len() - i,
    {
        let mut dup = false;
        let mut j: usize = 0;
        while j < vec.len()
            invariant
                i < vec@.len(),
                j <= vec@.len(),
                dv == vec.deep_view(),
                dv.len() == vec@.len(),
                dup <==> exists|j2: int| 0 <= j2 < j && j2 != i && dv[j2] == dv[i as int],
            decreases vec@.len() - j,
        {
            if j != i {
                let b = vec[i] == vec[j];
                proof {
                    assert(dv[i as int] == vec@[i as int]@);
                    assert(dv[j as int] == vec@[j as int]@);
                }
                if b {
                    dup = true;
                }
            }
            j += 1;
        }
        r.push(dup);
        i += 1;
    }
    r
}

/// The strictly increasing list of every index of a path list that
/// shares its string with another index: all members of each duplicate
/// group, not just the later occurrences.
pub fn dup_indices(vec: &Vec<String>) -> (r: Vec<usize>)
    ensures
        forall|k1: int, k2: int| 0 <= k1 < k2 < r@.len() ==> r@[k1] < r@[k2],
        forall|i: int|
            0 <= i < vec@.len() ==> (r@.contains(i as usize) <==> is_dup_at(vec.deep_view(), i)),
        forall|k: int| 0 <= k < r@.len() ==> r@[k] < vec@.len(),
{
    let ghost dv = vec.deep_view();
    let flags = dup_flags(vec);
    let mut r: Vec<usize> = Vec::new();
    let mut i: usize = 0;
    while i < vec.len()
        invariant
            i <= vec@.len(),
            dv == vec.deep_view(),
            dv.len() == vec@.len(),
            flags@.len() == vec@.len(),
            forall|t: int| 0 <= t < vec@.len() ==> flags@[t] == is_dup_at(dv, t),
            forall|k: int| 0 <= k < r@.len() ==> r@[k] < i,
            forall|k1: int, k2: int| 0 <= k1 < k2 < r@.len() ==> r@[k1] < r@[k2],
            forall|t: int| 0 <= t < i ==> (r@.contains(t as usize) <==> is_dup_at(dv, t)),
        decreases vec@.len() - i,
    {
        let ghost r_prev = r@;
        if flags[i] {
            r.push(i);
        }
        proof {
            assert forall|t: int| 0 <= t < i + 1 implies (r@.contains(t as usize) <==> is_dup_at(
                dv,
                t,
            )) by {
                if t < i {
                    if r_prev.contains(t as usize) {
                        let k = choose|k: int| 0 <= k < r_prev.len() && r_prev[k] == t as usize;
                        assert(r@[k] == t as usize);
                        assert(r@.contains(t as usize));
                    }
                    if r@.contains(t as usize) && !r_prev.contains(t as usize) {
                        let k = choose|k: int| 0 <= k < r@.len() && r@[k] == t as usize;
                        assert(k == r_prev.len());
                    }
                } else {
                    if flags@[i as int] {
                        assert(r@[r@.len() - 1] == i as usize);
                        assert(r@.contains(i as usize));
                    } else {
                        if r@.contains(i as usize) {
                            let k = choose|k: int| 0 <= k < r@.len() && r@[k] == i as usize;
                            assert(r@[k] < i);
                        }
                    }
                }
            }
        }
        i += 1;
    }
    r
}

/// Produces a new path list retaining only the first occurrence of each
/// distinct path string, preserving first-seen order.
pub fn dedup_paths(vec: &Vec<String>) -> (r: Vec<String>)
    ensures
        r.deep_view() == dedup_spec(vec.deep_view()),
{
    let ghost dv = vec.deep_view();
    let mut r: Vec<String> = Vec::new();
    let mut i: usize = 0;
    while i < vec.len()
        invariant
            i <= vec@.len(),
            dv == vec.deep_view(),
            dv.len() == vec@.len(),
            r.deep_view() == dedup_spec(dv.take(i as int)),
        decreases vec@.len() - i,
    {
        let ghost rd = r.deep_view();
        let mut found = false;
        let mut k: usize = 0;
        while k < r.len()
            invariant
                i < vec@.len(),
                k <= r@.len(),
                dv == vec.deep_view(),
                dv.len() == vec@.len(),
                rd == r.deep_view(),
                rd.len() == r@.len(),
                found <==> exists|k2: int| 0 <= k2 < k && rd[k2] == dv[i as int],
            decreases r@.len() - k,
        {
            let b = r[k] == vec[i];
            proof {
                assert(rd[k as int] == r@[k as int]@);
                assert(dv[i as int] == vec@[i as int]@);
            }
            if b {
                found = true;
            }
            k += 1;
        }
        proof {
            assert(found == rd.contains(dv[i as int]));
            lemma_dedup_membership(dv.take(i as int), dv[i as int]);
            assert(dv.take(i + 1).drop_last() =~= dv.take(i as int));
            assert(dv.take(i + 1).last() == dv[i as int]);
        }
        if !found {
            let ghost rv = r@;
            r.push(vec[i].clone());
            proof {
                assert(r@ == rv.push(vec@[i as int]));
                assert(r.deep_view() =~= rd.push(dv[i as int]));
            }
        }
        i += 1;
    }
    proof {
        assert(dv.take(vec@.len() as int) =~= dv);
    }
    r
}

/// The derived status of one entry: whether its path is absent from the
/// filesystem, and whether its string participates in a duplicate group.
/// Both facts are exposed; display chooses which one to flag.
#[derive(PartialEq, Eq, Structural, Clone, Copy, Debug)]
pub struct EntryStatus {
    pub missing: bool,
    pub duplicate: bool,
}

/// Classification against a given vector of existence answers.
pub fn classify_with(list: &Vec<String>, present: &Vec<bool>) -> (r: Vec<EntryStatus>)
    requires
        present@.len() == list@.len(),
    ensures
        r@.len() == list@.len(),
        forall|i: int|
            0 <= i < list@.len() ==> r@[i] == (EntryStatus {
                missing: !present@[i],
                duplicate: is_dup_at(list.deep_view(), i),
            }),
{
    let dups = dup_flags(list);
    let mut r: Vec<EntryStatus> = Vec::new();
    let mut i: usize = 0;
    while i < list.len()
        invariant
            i <= list@.len(),
            dups@.len() == list@.len(),
            present@.len() == list@.len(),
            forall|t: int| 0 <= t < list@.len() ==> dups@[t] == is_dup_at(list.deep_view(), t),
            r@.len() == i,
            forall|t: int|
                0 <= t < i ==> r@[t] == (EntryStatus {
                    missing: !present@[t],
                    duplicate: is_dup_at(list.deep_view(), t),
                }),
        decreases list@.len() - i,
    {
        r.push(EntryStatus { missing: !present[i], duplicate: dups[i] });
        i += 1;
    }
    r
}

/// Classification of every entry: missing is answered by the filesystem,
/// duplicate is exact.
pub fn classify(list: &Vec<String>) -> (r: Vec<EntryStatus>)
    ensures
        r@.len() == list@.len(),
        forall|i: int| 0 <= i < list@.len() ==> r@[i].duplicate == is_dup_at(list.deep_view(), i),
{
    let present = existence_flags(list);
    classify_with(list, &present)
}

/// A sequence without repeated elements has no index classified as a
/// duplicate.
pub proof fn lemma_unique_has_no_dups<A>(s: Seq<A>)
    requires
        s.no_duplicates(),
    ensures
        forall|i: int| 0 <= i < s.len() ==> !is_dup_at(s, i),
{
    assert forall|i: int| 0 <= i < s.len() implies !is_dup_at(s, i) by {
        if is_dup_at(s, i) {
            let j = choose|j: int| 0 <= j < s.len() && j != i && s[j] == s[i];
            assert(false);
        }
    }
}

/// When an element is repeated, every index carrying that element is in
/// the duplicate set, not just the later occurrence.
pub proof fn lemma_repeat_marks_all<A>(s: Seq<A>, i: int, j: int)
    requires
        0 <= i < s.len(),
        0 <= j < s.len(),
        i != j,
        s[i] == s[j],
    ensures
        is_dup_at(s, i),
        is_dup_at(s, j),
{
    assert(0 <= j < s.len() && j != i && s[j] == s[i]);
    assert(0 <= i < s.len() && i != j && s[i] == s[j]);
}

/// The error reported when a supplied index does not name a position the
/// operation can use.
#[derive(PartialEq, Eq, Structural, Clone, Copy, Debug)]
pub enum ListError {
    IndexOutOfRange,
}

/// Appends `value` and reports the index it landed on, for highlighting.
pub fn insert(list: &mut Vec<String>, value: String) -> (idx: usize)
    ensures
        final(list)@ == old(list)@.push(value),
        idx == old(list)@.len(),
{
    let idx = list.len();
    list.push(value);
    idx
}

/// Removes the entry at `index`; every later entry moves up one place.
pub fn delete(list: &mut Vec<String>, index: usize) -> (res: Result<(), ListError>)
    ensures
        index < old(list)@.len() ==> res is Ok && final(list)@ == old(list)@.remove(index as int),
        index >= old(list)@.len() ==> final(list)@ == old(list)@ && res == Result::<
            (),
            ListError,
        >::Err(ListError::IndexOutOfRange),
{
    if index < list.len() {
        list.remove(index);
        Ok(())
    } else {
        Err(ListError::IndexOutOfRange)
    }
}

/// The list after taking the element at `from` out and reinserting it at
/// `to`; `to == len` is the distinguished "bottom" shorthand and appends
/// the element after removal.
pub open spec fn move_seq<A>(s: Seq<A>, from: int, to: int) -> Seq<A>
    recommends
        0 <= from < s.len(),
        0 <= to <= s.len(),
{
    let pos = if to < s.len() {
        to
    } else {
        s.len() - 1
    };
    s.remove(from).insert(pos, s[from])
}

/// Removes the entry at `from_index` and reinserts it at `to_index`;
/// `to_index == len` means append at the end after removal.
pub fn move_to(list: &mut Vec<String>, from_index: usize, to_index: usize) -> (res: Result<
    (),
    ListError,
>)
    ensures
        from_index < old(list)@.len() && to_index <= old(list)@.len() ==> res is Ok
            && final(list)@ == move_seq(old(list)@, from_index as int, to_index as int),
        !(from_index < old(list)@.len() && to_index <= old(list)@.len()) ==> final(list)@
            == old(list)@ && res == Result::<(), ListError>::Err(ListError::IndexOutOfRange),
{
    if from_index < list.len() && to_index <= list.len() {
        let entry = list.remove(from_index);
        let pos = if to_index <= list.len() {
            to_index
        } else {
            list.len()
        };
        list.insert(pos, entry);
        Ok(())
    } else {
        Err(ListError::IndexOutOfRange)
    }
}

/// Overwrites the entry at `index` with `value`, trimmed of surrounding
/// whitespace.
pub fn replace(list: &mut Vec<String>, index: usize, value: &str)
    requires
        index < old(list)@.len(),
    ensures
        final(list).deep_view() == old(list).deep_view().update(
            index as int,
            crate::parse::trim_spec(value@),
        ),
        final(list)@.len() == old(list)@.len(),
{
    let t = crate::parse::trim_of(value);
    list[index] = t;
    proof {
        assert(list.deep_view() =~= old(list).deep_view().update(
            index as int,
            crate::parse::trim_spec(value@),
        ));
    }
}

/// Moving an entry onto its own position changes nothing.
pub proof fn lemma_move_self<A>(s: Seq<A>, i: int)
    requires
        0 <= i < s.len(),
    ensures
        move_seq(s, i, i) == s,
{
    assert(move_seq(s, i, i) =~= s);
}

/// The "bottom" shorthand coincides with a move to position `len`: the
/// moved element becomes the last element, the rest keep their order.
pub proof fn lemma_move_bottom<A>(s: Seq<A>, from: int)
    requires
        0 <= from < s.len(),
    ensures
        move_seq(s, from, s.len() as int) == s.remove(from).push(s[from]),
        move_seq(s, from, s.len() as int).last() == s[from],
{
    assert(move_seq(s, from, s.len() as int) =~= s.remove(from).push(s[from]));
}

} // verus!
