//! Lexicographic order on strings (by unicode scalar value), and insertion
//! into strictly sorted vectors. Sorted, duplicate-free name lists are what
//! make the emitted artifacts deterministic.

use vstd::prelude::*;

verus! {

/// Lexicographic comparison of the suffixes of `a` and `b` from `i` on.
pub open spec fn str_lt_from(a: Seq<char>, b: Seq<char>, i: int) -> bool
    decreases b.len() - i,
{
    if i >= b.len() {
        false
    } else if i >= a.len() {
        true
    } else if a[i] != b[i] {
        a[i] < b[i]
    } else {
        str_lt_from(a, b, i + 1)
    }
}

/// `a` is lexicographically before `b`.
pub open spec fn str_lt(a: Seq<char>, b: Seq<char>) -> bool {
    str_lt_from(a, b, 0)
}

proof fn lemma_str_lt_from_irrefl(a: Seq<char>, i: int)
    ensures
        !str_lt_from(a, a, i),
    decreases a.len() - i,
{
    if i < a.len() {
        lemma_str_lt_from_irrefl(a, i + 1);
    }
}

pub proof fn lemma_str_lt_irrefl(a: Seq<char>)
    ensures
        !str_lt(a, a),
{
    lemma_str_lt_from_irrefl(a, 0);
}

proof fn lemma_str_lt_from_connex(a: Seq<char>, b: Seq<char>, i: int)
    requires
        0 <= i <= a.len(),
        0 <= i <= b.len(),
        forall|j: int| 0 <= j < i ==> a[j] == b[j],
    ensures
        str_lt_from(a, b, i) || str_lt_from(b, a, i) || a == b,
    decreases a.len() + b.len() - 2 * i,
{
    if i >= b.len() {
        if i >= a.len() {
            assert(a =~= b);
        }
    } else if i >= a.len() {
    } else if a[i] != b[i] {
    } else {
        lemma_str_lt_from_connex(a, b, i + 1);
    }
}

/// Two distinct strings compare one way or the other.
pub proof fn lemma_str_lt_connex(a: Seq<char>, b: Seq<char>)
    ensures
        a == b || str_lt(a, b) || str_lt(b, a),
{
    lemma_str_lt_from_connex(a, b, 0);
}

proof fn lemma_str_lt_from_trans(a: Seq<char>, b: Seq<char>, c: Seq<char>, i: int)
    requires
        str_lt_from(a, b, i),
        str_lt_from(b, c, i),
    ensures
        str_lt_from(a, c, i),
    decreases c.len() - i,
{
    if i >= c.len() {
    } else if i >= a.len() {
    } else {
        assert(i < b.len());
        if a[i] == b[i] && b[i] == c[i] {
            lemma_str_lt_from_trans(a, b, c, i + 1);
        }
    }
}

pub proof fn lemma_str_lt_trans(a: Seq<char>, b: Seq<char>, c: Seq<char>)
    requires
        str_lt(a, b),
        str_lt(b, c),
    ensures
        str_lt(a, c),
{
    lemma_str_lt_from_trans(a, b, c, 0);
}

/// Executable lexicographic comparison.
pub fn str_lt_exec(a: &String, b: &String) -> (r: bool)
    ensures
        r == str_lt(a@, b@),
{
    let a_str = a.as_str();
    let b_str = b.as_str();
    let a_len = a_str.unicode_len();
    let b_len = b_str.unicode_len();
    let mut i: usize = 0;
    loop
        invariant
            i <= a_len,
            i <= b_len,
            a_len == a@.len(),
            b_len == b@.len(),
            a_str@ == a@,
            b_str@ == b@,
            str_lt(a@, b@) == str_lt_from(a@, b@, i as int),
        decreases b_len - i,
    {
        if i >= b_len {
            return false;
        }
        if i >= a_len {
            return true;
        }
        let ca = a_str.get_char(i);
        let cb = b_str.get_char(i);
        if ca != cb {
            return ca < cb;
        }
        i = i + 1;
    }
}

/// Strict ascending order between neighbours; rules out duplicates too.
pub open spec fn strictly_sorted(s: Seq<Seq<char>>) -> bool {
    forall|i: int| 0 <= i && i + 1 < s.len() ==> #[trigger] str_lt(s[i], s[i + 1])
}

/// Neighbour order at one index, stated so that callers can use any
/// arithmetic form of the index.
pub proof fn lemma_sorted_at(s: Seq<Seq<char>>, i: int)
    requires
        strictly_sorted(s),
        0 <= i,
        i + 1 < s.len(),
    ensures
        str_lt(s[i], s[i + 1]),
{
}

/// In a strictly sorted sequence the order is pairwise.
pub proof fn lemma_strictly_sorted_pairwise(s: Seq<Seq<char>>)
    requires
        strictly_sorted(s),
    ensures
        forall|i: int, j: int| 0 <= i < j < s.len() ==> str_lt(s[i], s[j]),
    decreases s.len(),
{
    if s.len() > 1 {
        let t = s.drop_first();
        assert forall|i: int| 0 <= i && i + 1 < t.len() implies #[trigger] str_lt(t[i], t[i + 1]) by {
            assert(t[i] == s[i + 1]);
            assert(t[i + 1] == s[i + 2]);
            assert(str_lt(s[i + 1], s[i + 2]));
        }
        lemma_strictly_sorted_pairwise(t);
        assert forall|i: int, j: int| 0 <= i < j < s.len() implies str_lt(s[i], s[j]) by {
            if j == i + 1 {
                lemma_sorted_at(s, i);
            } else if i == 0 {
                if j > 1 {
                    assert(str_lt(t[0], t[j - 1]));
                    assert(t[0] == s[1] && t[j - 1] == s[j]);
                    assert(str_lt(s[0], s[1]));
                    lemma_str_lt_trans(s[0], s[1], s[j]);
                }
            } else {
                assert(str_lt(t[i - 1], t[j - 1]));
                assert(t[i - 1] == s[i] && t[j - 1] == s[j]);
            }
        }
    }
}

/// `s` with `x` inserted at its sorted position, unless already present.
pub open spec fn ins_sorted(s: Seq<Seq<char>>, x: Seq<char>) -> Seq<Seq<char>>
    decreases s.len(),
{
    if s.len() == 0 {
        seq![x]
    } else if str_lt(x, s[0]) {
        seq![x] + s
    } else if x == s[0] {
        s
    } else {
        seq![s[0]] + ins_sorted(s.drop_first(), x)
    }
}

pub proof fn lemma_ins_sorted(s: Seq<Seq<char>>, x: Seq<char>)
    requires
        strictly_sorted(s),
    ensures
        strictly_sorted(ins_sorted(s, x)),
        forall|y: Seq<char>| #[trigger] ins_sorted(s, x).contains(y) <==> s.contains(y) || y == x,
    decreases s.len(),
{
    let r = ins_sorted(s, x);
    if s.len() == 0 {
        assert(r =~= seq![x]);
        assert forall|y: Seq<char>| #[trigger] r.contains(y) implies s.contains(y) || y == x by {
            let i = choose|i: int| 0 <= i < r.len() && r[i] == y;
        }
        assert(r[0] == x);
        assert(r.contains(x));
    } else if str_lt(x, s[0]) {
        assert(r == seq![x] + s);
        assert forall|i: int| 0 <= i && i + 1 < r.len() implies #[trigger] str_lt(r[i], r[i + 1]) by {
            if i == 0 {
                assert(r[0] == x && r[1] == s[0]);
            } else {
                assert(r[i] == s[i - 1] && r[i + 1] == s[i]);
                lemma_sorted_at(s, i - 1);
            }
        }
        assert forall|y: Seq<char>| #[trigger] r.contains(y) implies s.contains(y) || y == x by {
            let i = choose|i: int| 0 <= i < r.len() && r[i] == y;
            if i > 0 {
                assert(s[i - 1] == y);
            }
        }
        assert forall|y: Seq<char>| s.contains(y) || y == x implies #[trigger] r.contains(y) by {
            if y == x {
                assert(r[0] == y);
            } else {
                let i = choose|i: int| 0 <= i < s.len() && s[i] == y;
                assert(r[i + 1] == y);
            }
        }
    } else if x == s[0] {
        assert(r == s);
        assert forall|y: Seq<char>| s.contains(y) || y == x implies #[trigger] r.contains(y) by {
            if y == x {
                assert(r[0] == y);
            }
        }
    } else {
        lemma_str_lt_connex(x, s[0]);
        assert(str_lt(s[0], x));
        let t = s.drop_first();
        assert forall|i: int| 0 <= i && i + 1 < t.len() implies #[trigger] str_lt(t[i], t[i + 1]) by {
            assert(t[i] == s[i + 1] && t[i + 1] == s[i + 2]);
            assert(str_lt(s[i + 1], s[i + 2]));
        }
        lemma_ins_sorted(t, x);
        let rt = ins_sorted(t, x);
        assert(r == seq![s[0]] + rt);
        lemma_strictly_sorted_pairwise(s);
        assert forall|i: int| 0 <= i < rt.len() implies str_lt(s[0], rt[i]) by {
            assert(rt.contains(rt[i]));
            if rt[i] == x {
            } else {
                assert(t.contains(rt[i]));
                let j = choose|j: int| 0 <= j < t.len() && t[j] == rt[i];
                assert(t[j] == s[j + 1]);
                assert(str_lt(s[0], s[j + 1]));
            }
        }
        assert forall|i: int| 0 <= i && i + 1 < r.len() implies #[trigger] str_lt(r[i], r[i + 1]) by {
            if i == 0 {
                assert(r[0] == s[0] && r[1] == rt[0]);
                assert(str_lt(s[0], rt[0]));
            } else {
                assert(r[i] == rt[i - 1] && r[i + 1] == rt[i]);
                lemma_sorted_at(rt, i - 1);
            }
        }
        assert forall|y: Seq<char>| #[trigger] r.contains(y) implies s.contains(y) || y == x by {
            let i = choose|i: int| 0 <= i < r.len() && r[i] == y;
            if i == 0 {
                assert(s[0] == y);
                assert(s.contains(y));
            } else {
                assert(rt[i - 1] == y);
                assert(rt.contains(y));
                if y != x {
                    assert(t.contains(y));
                    let j = choose|j: int| 0 <= j < t.len() && t[j] == y;
                    assert(s[j + 1] == y);
                    assert(s.contains(y));
                }
            }
        }
        assert forall|y: Seq<char>| s.contains(y) || y == x implies #[trigger] r.contains(y) by {
            if y == x {
                assert(rt.contains(y));
                let j = choose|j: int| 0 <= j < rt.len() && rt[j] == y;
                assert(r[j + 1] == y);
            } else {
                let i = choose|i: int| 0 <= i < s.len() && s[i] == y;
                if i == 0 {
                    assert(r[0] == y);
                } else {
                    assert(t[i - 1] == y);
                    assert(t.contains(y));
                    assert(rt.contains(y));
                    let j = choose|j: int| 0 <= j < rt.len() && rt[j] == y;
                    assert(r[j + 1] == y);
                }
            }
        }
    }
}

/// Insert `x` into the strictly sorted vector `v`, keeping it strictly
/// sorted; a duplicate leaves `v` unchanged.
#[verifier::rlimit(60)]
pub fn insert_sorted_exec(v: &mut Vec<String>, x: String)
    requires
        strictly_sorted(old(v).deep_view()),
    ensures
        final(v).deep_view() =~~= ins_sorted(old(v).deep_view(), x@),
{
    let ghost s0 = v.deep_view();
    let ghost xv = x@;
    let n = v.len();
    proof {
        assert(s0.take(0) =~~= Seq::<Seq<char>>::empty());
        assert(s0.skip(0) =~~= s0);
    }
    let mut i: usize = 0;
    loop
        invariant
            i <= n,
            n == v@.len(),
            n == s0.len(),
            s0 == old(v).deep_view(),
            x@ == xv,
            v.deep_view() == s0,
            strictly_sorted(s0),
            ins_sorted(s0, xv) == s0.take(i as int) + ins_sorted(s0.skip(i as int), xv),
        ensures
            i == n,
            x@ == xv,
            v.deep_view() == s0,
            s0 == old(v).deep_view(),
            ins_sorted(s0, xv) == s0.take(n as int) + ins_sorted(s0.skip(n as int), xv),
        decreases n - i,
    {
        if i >= n {
            break;
        }
        proof {
            assert(v.deep_view()[i as int] == v@[i as int]@);
        }
        let xlt = str_lt_exec(&x, &v[i]);
        if xlt {
            proof {
                assert(s0[i as int] == v@[i as int]@);
                assert(s0.skip(i as int).len() == s0.len() - i);
                assert(s0.skip(i as int)[0] == s0[i as int]);
                assert(str_lt(xv, s0.skip(i as int)[0]));
                assert(ins_sorted(s0.skip(i as int), xv) == seq![xv] + s0.skip(i as int));
            }
            let ghost vpre = v@;
            let ghost xg = x;
            v.insert(i, x);
            proof {
                vpre.insert_ensures(i as int, xg);
                assert(v@ == vpre.insert(i as int, xg));
                assert forall|j: int| 0 <= j < v.deep_view().len() implies v.deep_view()[j] == (
                s0.take(i as int) + (seq![xv] + s0.skip(i as int)))[j] by {
                    assert(v.deep_view()[j] == v@[j]@);
                    if j < i {
                        assert(v@[j] == vpre[j]);
                        assert(vpre[j]@ == s0[j]);
                        assert(s0.take(i as int)[j] == s0[j]);
                    } else if j == i {
                        assert(v@[j] == xg);
                        assert(xg@ == xv);
                    } else {
                        assert(vpre.insert(i as int, xg)[(j - 1) + 1] == vpre[j - 1]);
                        assert(v@[j] == vpre[j - 1]);
                        assert(vpre[j - 1]@ == s0[j - 1]);
                        assert(s0.skip(i as int)[j - 1 - i] == s0[j - 1]);
                    }
                }
                assert(v.deep_view() =~~= s0.take(i as int) + (seq![xv] + s0.skip(i as int)));
            }
            return;
        }
        if x == v[i] {
            proof {
                assert(s0.skip(i as int)[0] == s0[i as int]);
                assert(xv == s0[i as int]);
                assert(ins_sorted(s0.skip(i as int), xv) =~~= s0.skip(i as int));
                assert(s0.take(i as int) + s0.skip(i as int) =~~= s0);
            }
            return;
        }
        proof {
            let tail = s0.skip(i as int);
            assert(tail[0] == s0[i as int]);
            lemma_str_lt_connex(xv, s0[i as int]);
            assert(str_lt(s0[i as int], xv));
            assert(tail.drop_first() =~~= s0.skip(i + 1));
            assert(ins_sorted(tail, xv) == seq![tail[0]] + ins_sorted(s0.skip(i + 1), xv));
            assert(s0.take(i as int) + (seq![tail[0]] + ins_sorted(s0.skip(i + 1), xv)) =~~= s0.take(
                i + 1,
            ) + ins_sorted(s0.skip(i + 1), xv)) by {
                assert(s0.take(i + 1)[i as int] == s0[i as int]);
                assert(forall|j: int| 0 <= j < i ==> #[trigger] s0.take(i + 1)[j] == s0[j]);
                assert(forall|j: int| 0 <= j < i ==> #[trigger] s0.take(i as int)[j] == s0[j]);
            }
        }
        i = i + 1;
    }
    proof {
        assert(x@ == xv);
        assert(s0 == old(v).deep_view());
        assert(v.deep_view() == s0);
        assert(ins_sorted(s0, xv) == s0.take(n as int) + ins_sorted(s0.skip(n as int), xv));
        assert(s0.skip(n as int) =~~= Seq::<Seq<char>>::empty());
        assert(ins_sorted(s0.skip(n as int), xv) =~~= seq![xv]);
    }
    let ghost vpre = v@;
    let ghost xg = x;
    v.push(x);
    proof {
        assert(v@ == vpre.push(xg));
        assert forall|j: int| 0 <= j < v.deep_view().len() implies v.deep_view()[j] == (s0.take(
            n as int,
        ) + seq![xv])[j] by {
            assert(v.deep_view()[j] == v@[j]@);
            if j < n {
                assert(v@[j] == vpre[j]);
                assert(vpre[j]@ == s0[j]);
            } else {
                assert(v@[j] == xg);
                assert(xg@ == xv);
            }
        }
        assert(v.deep_view() =~~= s0.take(n as int) + seq![xv]);
        assert(s0.take(n as int) =~~= s0);
    }
}

} // verus!

