//! The separator codec: how the variable's delimited value becomes an
//! ordered path list (empty segments discarded) and how the final list is
//! joined back into one value.

use vstd::prelude::*;

verus! {

use vstd::string::StrSliceExecFns;
use vstd::string::StringExecFns;

/// Relies on String::push: appends exactly one character at the end.
#[verifier::external_body]
fn push_char(s: &mut String, c: char)
    ensures
        final(s)@ == old(s)@.push(c),
{
    s.push(c);
}

/// The pieces of `s` between occurrences of `sep`, empty pieces included;
/// splitting the empty string gives one empty piece.
pub open spec fn split_all(s: Seq<char>, sep: char) -> Seq<Seq<char>>
    decreases s.len(),
{
    if s.len() == 0 {
        seq![Seq::<char>::empty()]
    } else if s.last() == sep {
        split_all(s.drop_last(), sep).push(Seq::empty())
    } else {
        let r = split_all(s.drop_last(), sep);
        r.update(r.len() - 1, r.last().push(s.last()))
    }
}

/// The pieces with the empty ones discarded.
pub open spec fn nonempty_pieces(ps: Seq<Seq<char>>) -> Seq<Seq<char>> {
    ps.filter(|p: Seq<char>| p.len() > 0)
}

/// The ordered pieces of `s` between separators, empty pieces discarded.
pub open spec fn split_spec(s: Seq<char>, sep: char) -> Seq<Seq<char>> {
    nonempty_pieces(split_all(s, sep))
}

/// The parts joined with one separator between consecutive parts.
pub open spec fn join_spec(parts: Seq<Seq<char>>, sep: char) -> Seq<char>
    decreases parts.len(),
{
    if parts.len() == 0 {
        Seq::empty()
    } else if parts.len() == 1 {
        parts[0]
    } else {
        join_spec(parts.drop_last(), sep).push(sep) + parts.last()
    }
}

proof fn lemma_nonempty_empty()
    ensures
        nonempty_pieces(Seq::<Seq<char>>::empty()) == Seq::<Seq<char>>::empty(),
{
    reveal(Seq::filter);
}

proof fn lemma_nonempty_push(ps: Seq<Seq<char>>, p: Seq<char>)
    ensures
        nonempty_pieces(ps.push(p)) == (if p.len() > 0 {
            nonempty_pieces(ps).push(p)
        } else {
            nonempty_pieces(ps)
        }),
{
    reveal(Seq::filter);
    assert(ps.push(p).drop_last() =~= ps);
    assert(ps.push(p).last() == p);
}

proof fn lemma_split_all_len(s: Seq<char>, sep: char)
    ensures
        split_all(s, sep).len() >= 1,
    decreases s.len(),
{
    if s.len() > 0 {
        lemma_split_all_len(s.drop_last(), sep);
    }
}

proof fn lemma_split_append_nosep(s: Seq<char>, t: Seq<char>, sep: char)
    requires
        !t.contains(sep),
    ensures
        ({
            let x = split_all(s, sep);
            split_all(s + t, sep) == x.update(x.len() - 1, x.last() + t)
        }),
    decreases t.len(),
{
    lemma_split_all_len(s, sep);
    let x = split_all(s, sep);
    if t.len() == 0 {
        assert(s + t =~= s);
        assert(x.last() + t =~= x.last());
        assert(x.update(x.len() - 1, x.last() + t) =~= x);
    } else {
        let c = t.last();
        if c == sep {
            assert(t[t.len() - 1] == sep);
            assert(t.contains(sep));
        }
        let t2 = t.drop_last();
        assert(!t2.contains(sep)) by {
            if t2.contains(sep) {
                let k = choose|k: int| 0 <= k < t2.len() && t2[k] == sep;
                assert(t[k] == sep);
                assert(t.contains(sep));
            }
        }
        lemma_split_append_nosep(s, t2, sep);
        let y = split_all(s + t2, sep);
        assert(y.len() == x.len());
        assert(y.last() == x.last() + t2);
        assert(s + t =~= (s + t2).push(c));
        assert(((s + t2).push(c)).drop_last() =~= s + t2);
        assert(((s + t2).push(c)).last() == c);
        assert(split_all(s + t, sep) == y.update(y.len() - 1, y.last().push(c)));
        assert((x.last() + t2).push(c) =~= x.last() + t);
        assert(y.update(y.len() - 1, y.last().push(c)) =~= x.update(x.len() - 1, x.last() + t));
    }
}

/// Joining with `sep` and re-splitting on `sep`, discarding empty pieces,
/// reproduces the parts exactly, for any parts that are non-empty and do
/// not themselves contain the separator.
pub proof fn lemma_join_split_roundtrip(parts: Seq<Seq<char>>, sep: char)
    requires
        forall|k: int| 0 <= k < parts.len() ==> (#[trigger] parts[k]).len() > 0,
        forall|k: int| 0 <= k < parts.len() ==> !(#[trigger] parts[k]).contains(sep),
    ensures
        split_spec(join_spec(parts, sep), sep) == parts,
    decreases parts.len(),
{
    if parts.len() == 0 {
        assert(join_spec(parts, sep) == Seq::<char>::empty());
        assert(split_all(Seq::<char>::empty(), sep) == seq![Seq::<char>::empty()]);
        lemma_nonempty_empty();
        lemma_nonempty_push(Seq::<Seq<char>>::empty(), Seq::<char>::empty());
        assert(Seq::<Seq<char>>::empty().push(Seq::<char>::empty()) =~= seq![
            Seq::<char>::empty(),
        ]);
        assert(split_spec(join_spec(parts, sep), sep) =~= parts);
    } else if parts.len() == 1 {
        let p = parts[0];
        let e = Seq::<char>::empty();
        assert(join_spec(parts, sep) == p);
        assert(!p.contains(sep));
        lemma_split_append_nosep(e, p, sep);
        assert(e + p =~= p);
        let x = split_all(e, sep);
        assert(x == seq![e]);
        assert(x.last() == e);
        assert(e + p =~= p);
        assert(x.last() + p =~= p);
        assert(x.update(0, x.last() + p) =~= seq![p]);
        assert(split_all(p, sep) == seq![p]);
        lemma_nonempty_empty();
        lemma_nonempty_push(Seq::<Seq<char>>::empty(), p);
        assert(Seq::<Seq<char>>::empty().push(p) =~= seq![p]);
        assert(split_spec(join_spec(parts, sep), sep) =~= parts);
    } else {
        let dl = parts.drop_last();
        let lst = parts.last();
        assert forall|k: int| 0 <= k < dl.len() implies (#[trigger] dl[k]).len() > 0 && !dl[
            k
        ].contains(sep) by {
            assert(dl[k] == parts[k]);
        }
        lemma_join_split_roundtrip(dl, sep);
        let jd = join_spec(dl, sep);
        let j = join_spec(parts, sep);
        assert(j == jd.push(sep) + lst);
        let u = jd.push(sep);
        assert(u.drop_last() =~= jd);
        assert(u.last() == sep);
        assert(u.len() > 0);
        assert(split_all(u, sep) == split_all(jd, sep).push(Seq::empty()));
        lemma_split_append_nosep(u, lst, sep);
        let xu = split_all(u, sep);
        lemma_split_all_len(jd, sep);
        assert(xu.last() == Seq::<char>::empty());
        assert(xu.last() + lst =~= lst);
        assert(j =~= u + lst);
        assert(split_all(j, sep) == xu.update(xu.len() - 1, lst));
        assert(xu.update(xu.len() - 1, lst) =~= split_all(jd, sep).push(lst));
        lemma_nonempty_push(split_all(jd, sep), lst);
        assert(nonempty_pieces(split_all(jd, sep)) == dl);
        assert(split_spec(j, sep) == dl.push(lst));
        assert(dl.push(lst) =~= parts);
    }
}

/// Splits `value` on the separator character, discarding empty segments,
/// in order.
pub fn split_list(value: &str, sep: char) -> (r: Vec<String>)
    ensures
        r.deep_view() == split_spec(value@, sep),
{
    let n = value.unicode_len();
    let mut r: Vec<String> = Vec::new();
    let mut cur = String::new();
    let mut i: usize = 0;
    proof {
        assert(value@.take(0) =~= Seq::<char>::empty());
        lemma_nonempty_empty();
        assert(split_all(Seq::<char>::empty(), sep).drop_last() =~= Seq::<Seq<char>>::empty());
    }
    while i < n
        invariant
            n == value@.len(),
            i <= n,
            cur@ == split_all(value@.take(i as int), sep).last(),
            r.deep_view() == nonempty_pieces(split_all(value@.take(i as int), sep).drop_last()),
        decreases n - i,
    {
        let ghost x = split_all(value@.take(i as int), sep);
        let c = value.get_char(i);
        proof {
            lemma_split_all_len(value@.take(i as int), sep);
            assert(value@.take(i + 1).drop_last() =~= value@.take(i as int));
            assert(value@.take(i + 1).last() == value@[i as int]);
        }
        if c == sep {
            proof {
                assert(split_all(value@.take(i + 1), sep) == x.push(Seq::empty()));
                assert(x.push(Seq::<char>::empty()).drop_last() =~= x);
                assert(x =~= x.drop_last().push(x.last()));
                lemma_nonempty_push(x.drop_last(), x.last());
            }
            let finished = cur;
            cur = String::new();
            if finished.as_str().unicode_len() > 0 {
                let ghost prev = r.deep_view();
                let ghost fv = finished@;
                r.push(finished);
                proof {
                    assert(r.deep_view() =~= prev.push(fv));
                }
            }
        } else {
            proof {
                assert(split_all(value@.take(i + 1), sep) == x.update(
                    x.len() - 1,
                    x.last().push(value@[i as int]),
                ));
                assert(x.update(x.len() - 1, x.last().push(value@[i as int])).drop_last() =~= x.drop_last());
            }
            push_char(&mut cur, c);
        }
        i += 1;
    }
    proof {
        assert(value@.take(n as int) =~= value@);
        let x = split_all(value@, sep);
        lemma_split_all_len(value@, sep);
        assert(x =~= x.drop_last().push(x.last()));
        lemma_nonempty_push(x.drop_last(), x.last());
    }
    if cur.as_str().unicode_len() > 0 {
        let ghost prev = r.deep_view();
        let ghost cv = cur@;
        r.push(cur);
        proof {
            assert(r.deep_view() =~= prev.push(cv));
        }
    }
    r
}

/// Joins the list with one separator character between consecutive
/// entries.
pub fn join_list(list: &Vec<String>, sep: char) -> (r: String)
    ensures
        r@ == join_spec(list.deep_view(), sep),
{
    let ghost dv = list.deep_view();
    let mut out = String::new();
    let mut i: usize = 0;
    while i < list.len()
        invariant
            i <= list@.len(),
            dv == list.deep_view(),
            dv.len() == list@.len(),
            out@ == join_spec(dv.take(i as int), sep),
        decreases list@.len() - i,
    {
        proof {
            assert(dv.take(i + 1).drop_last() =~= dv.take(i as int));
            assert(dv.take(i + 1).last() == dv[i as int]);
        }
        if i > 0 {
            push_char(&mut out, sep);
        }
        out.append(list[i].as_str());
        proof {
            if i == 0 {
                assert(dv.take(1)[0] == dv[0]);
                assert(out@ =~= join_spec(dv.take(1), sep));
            }
        }
        i += 1;
    }
    proof {
        assert(dv.take(list@.len() as int) =~= dv);
    }
    out
}

} // verus!
