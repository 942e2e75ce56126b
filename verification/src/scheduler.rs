//! The parse scheduler: emits files so that, when a file is parsed, every
//! file it blocks on (a namespace import or a wildcard re-export source)
//! has been parsed already.

use vstd::prelude::*;

use crate::i18n::add_key;
use crate::path_resolver::PathResolver;
use crate::table::seq_contains_key;
use crate::table::seq_get;
use crate::table::seq_key_index;
use crate::table::seq_set;
use crate::table::StrTable;

verus! {

/// Scheduler state: the ready queue (emitted from the front), the blocked
/// candidates with their outstanding-blocker counts, and the reverse index
/// from a blocker to the candidates it blocks.
pub ghost struct SchedV {
    pub ready: Seq<Seq<char>>,
    pub head: int,
    pub blocked: Seq<(Seq<char>, usize)>,
    pub blocking: Seq<(Seq<char>, Seq<Seq<char>>)>,
}

/// The blockers of one candidate: its wildcard sources resolved where
/// possible, deduplicated; unresolvable sources are ignored on purpose.
pub open spec fn resolve_blockers(
    r: PathResolver,
    path: Seq<char>,
    specs: Seq<String>,
    n: int,
) -> Seq<Seq<char>>
    decreases n,
{
    if n <= 0 || n > specs.len() {
        Seq::empty()
    } else {
        let a = resolve_blockers(r, path, specs, n - 1);
        match r.resolve_spec(path, specs[n - 1]@) {
            Ok(p) => add_key(a, p),
            Err(_) => a,
        }
    }
}

/// One reverse edge recorded: `path` is blocked by `b`.
pub open spec fn blocking_add(
    blocking: Seq<(Seq<char>, Seq<Seq<char>>)>,
    b: Seq<char>,
    path: Seq<char>,
) -> Seq<(Seq<char>, Seq<Seq<char>>)> {
    let cur = if seq_contains_key(blocking, b) {
        seq_get(blocking, b)
    } else {
        Seq::empty()
    };
    seq_set(blocking, b, cur.push(path))
}

pub open spec fn blocking_fold(
    blocking: Seq<(Seq<char>, Seq<Seq<char>>)>,
    bs: Seq<Seq<char>>,
    n: int,
    path: Seq<char>,
) -> Seq<(Seq<char>, Seq<Seq<char>>)>
    decreases n,
{
    if n <= 0 || n > bs.len() {
        blocking
    } else {
        blocking_add(blocking_fold(blocking, bs, n - 1, path), bs[n - 1], path)
    }
}

/// One candidate added: to the ready queue when nothing blocks it, else to
/// the blocked set with its blocker count and reverse edges.
pub open spec fn sched_add(st: SchedV, path: Seq<char>, bs: Seq<Seq<char>>) -> SchedV {
    if bs.len() == 0 {
        SchedV {
            ready: st.ready.push(path),
            head: st.head,
            blocked: st.blocked,
            blocking: st.blocking,
        }
    } else {
        SchedV {
            ready: st.ready,
            head: st.head,
            blocked: seq_set(st.blocked, path, bs.len() as usize),
            blocking: blocking_fold(st.blocking, bs, bs.len() as int, path),
        }
    }
}

pub open spec fn sched_init() -> SchedV {
    SchedV { ready: Seq::empty(), head: 0, blocked: Seq::empty(), blocking: Seq::empty() }
}

pub open spec fn sched_fold(r: PathResolver, cands: Seq<(String, Vec<String>)>, n: int) -> SchedV
    decreases n,
{
    if n <= 0 || n > cands.len() {
        sched_init()
    } else {
        let st = sched_fold(r, cands, n - 1);
        sched_add(
            st,
            cands[n - 1].0@,
            resolve_blockers(r, cands[n - 1].0@, cands[n - 1].1@, cands[n - 1].1@.len() as int),
        )
    }
}

/// One blocked candidate released by one step: its count decremented, and
/// moved to the ready queue when no blockers remain.
pub open spec fn unblock_one(st: SchedV, a: Seq<char>) -> SchedV {
    if !seq_contains_key(st.blocked, a) {
        st
    } else {
        let i = seq_key_index(st.blocked, a);
        let c = st.blocked[i].1;
        if c <= 1 {
            SchedV {
                ready: st.ready.push(a),
                head: st.head,
                blocked: st.blocked.remove(i),
                blocking: st.blocking,
            }
        } else {
            SchedV {
                ready: st.ready,
                head: st.head,
                blocked: st.blocked.update(i, (a, (c - 1) as usize)),
                blocking: st.blocking,
            }
        }
    }
}

pub open spec fn unblock_fold(st: SchedV, lst: Seq<Seq<char>>, n: int) -> SchedV
    decreases n,
{
    if n <= 0 || n > lst.len() {
        st
    } else {
        unblock_one(unblock_fold(st, lst, n - 1), lst[n - 1])
    }
}

/// What marking a candidate as parsed does: every candidate it was
/// blocking is released by one step, and its reverse entry goes away.
pub open spec fn mark_spec(st: SchedV, c: Seq<char>) -> SchedV {
    if !seq_contains_key(st.blocking, c) {
        st
    } else {
        let i = seq_key_index(st.blocking, c);
        let lst = st.blocking[i].1;
        let st1 = SchedV {
            ready: st.ready,
            head: st.head,
            blocked: st.blocked,
            blocking: st.blocking.remove(i),
        };
        unblock_fold(st1, lst, lst.len() as int)
    }
}

/// Emits candidates in an order that respects the wildcard-blocker edges.
pub struct ParserCandidateScheduler {
    good_candidates: Vec<String>,
    head: usize,
    blocked_candidates: StrTable<usize>,
    blocking_table: StrTable<Vec<String>>,
}

impl ParserCandidateScheduler {
    pub closed spec fn view_spec(&self) -> SchedV {
        SchedV {
            ready: self.good_candidates.deep_view(),
            head: self.head as int,
            blocked: self.blocked_candidates@,
            blocking: self.blocking_table@,
        }
    }

    pub closed spec fn inv(&self) -> bool {
        self.head <= self.good_candidates@.len() && self.blocked_candidates.wf()
            && self.blocking_table.wf()
    }

    /// Build the schedule: each candidate comes with the sources of its
    /// namespace imports and wildcard re-exports, which block it once
    /// resolved against the file model.
    pub fn new(resolver: PathResolver, cands: Vec<(String, Vec<String>)>) -> (r: Self)
        ensures
            r.view_spec() == sched_fold(resolver, cands@, cands@.len() as int),
            r.inv(),
    {
        let mut good_candidates: Vec<String> = Vec::new();
        let mut blocked_candidates: StrTable<usize> = StrTable::new();
        let mut blocking_table: StrTable<Vec<String>> = StrTable::new();
        let n = cands.len();
        proof {
            assert(good_candidates.deep_view() =~= Seq::<Seq<char>>::empty());
            assert(blocked_candidates@ =~= Seq::<(Seq<char>, usize)>::empty());
            assert(blocking_table@ =~= Seq::<(Seq<char>, Seq<Seq<char>>)>::empty());
        }
        for i in 0..n
            invariant
                n == cands@.len(),
                blocked_candidates.wf(),
                blocking_table.wf(),
                sched_fold(resolver, cands@, i as int) == (SchedV {
                    ready: good_candidates.deep_view(),
                    head: 0,
                    blocked: blocked_candidates@,
                    blocking: blocking_table@,
                }),
        {
            let path = &cands[i].0;
            let specs = &cands[i].1;
            let ghost stpre = sched_fold(resolver, cands@, i as int);
            // resolve and deduplicate the blockers
            let mut bs: Vec<String> = Vec::new();
            let m = specs.len();
            proof {
                assert(bs.deep_view() =~= resolve_blockers(resolver, path@, specs@, 0));
            }
            for k in 0..m
                invariant
                    i < n,
                    n == cands@.len(),
                    m == specs@.len(),
                    *path == cands@[i as int].0,
                    *specs == cands@[i as int].1,
                    bs.deep_view() == resolve_blockers(resolver, path@, specs@, k as int),
            {
                match resolver.resolve_path(path, &specs[k]) {
                    Ok(p) => {
                        crate::i18n::add_key_exec(&mut bs, p);
                    }
                    Err(_) => {}
                }
            }
            let ghost bsv = bs.deep_view();
            if bs.len() == 0 {
                let ghost gpre = good_candidates@;
                good_candidates.push(path.clone());
                proof {
                    assert(good_candidates.deep_view() =~= stpre.ready.push(path@)) by {
                        assert forall|j: int|
                            0 <= j < good_candidates.deep_view().len() implies good_candidates.deep_view()[j]
                            == stpre.ready.push(path@)[j] by {
                            assert(good_candidates.deep_view()[j] == good_candidates@[j]@);
                            if j < stpre.ready.len() {
                                assert(good_candidates@[j] == gpre[j]);
                            }
                        }
                    }
                }
            } else {
                let cnt = bs.len();
                blocked_candidates.set(path.clone(), cnt);
                proof {
                    assert(blocked_candidates@ =~= seq_set(stpre.blocked, path@, bsv.len() as usize));
                }
                let bn = bs.len();
                for k in 0..bn
                    invariant
                        i < n,
                        n == cands@.len(),
                        bn == bs@.len(),
                        bsv == bs.deep_view(),
                        *path == cands@[i as int].0,
                        blocking_table.wf(),
                        blocking_table@ == blocking_fold(stpre.blocking, bsv, k as int, path@),
                {
                    let b = &bs[k];
                    proof {
                        assert(bsv[k as int] == bs@[k as int]@);
                    }
                    match blocking_table.index_of(b) {
                        Some(bi) => {
                            let ghost cur = seq_get(blocking_table@, b@);
                            let v = blocking_table.val_at_mut(bi);
                            let ghost vpre = v@;
                            v.push(path.clone());
                            proof {
                                assert(v.deep_view() =~= cur.push(path@)) by {
                                    assert forall|j: int|
                                        0 <= j < v.deep_view().len() implies v.deep_view()[j]
                                        == cur.push(path@)[j] by {
                                        assert(v.deep_view()[j] == v@[j]@);
                                        if j < cur.len() {
                                            assert(v@[j] == vpre[j]);
                                        }
                                    }
                                }
                            }
                        }
                        None => {
                            let mut v: Vec<String> = Vec::new();
                            v.push(path.clone());
                            proof {
                                assert(v.deep_view() =~= Seq::<Seq<char>>::empty().push(path@))
                                    by {
                                    assert(v.deep_view()[0] == v@[0]@);
                                }
                            }
                            blocking_table.push_new(b.clone(), v);
                        }
                    }
                }
            }
        }
        ParserCandidateScheduler {
            good_candidates,
            head: 0,
            blocked_candidates,
            blocking_table,
        }
    }

    /// How many candidates have not been emitted yet, saturating at the
    /// machine limit.
    pub fn get_total_remaining_candidate_count(&self) -> (r: usize)
        requires
            self.inv(),
        ensures
            r as int == ({
                let total = self.view_spec().ready.len() - self.view_spec().head
                    + self.view_spec().blocked.len();
                if total <= usize::MAX {
                    total
                } else {
                    usize::MAX as int
                }
            }),
    {
        let a = self.good_candidates.len() - self.head;
        let b = self.blocked_candidates.len();
        if a <= usize::MAX - b {
            a + b
        } else {
            usize::MAX
        }
    }

    /// Pop the next ready candidate, if any.
    pub fn get_one_candidate(&mut self) -> (r: Option<String>)
        requires
            old(self).inv(),
        ensures
            final(self).inv(),
            match r {
                Some(c) => old(self).view_spec().head < old(self).view_spec().ready.len() && c@
                    == old(self).view_spec().ready[old(self).view_spec().head]
                    && final(self).view_spec() == (SchedV {
                    ready: old(self).view_spec().ready,
                    head: old(self).view_spec().head + 1,
                    blocked: old(self).view_spec().blocked,
                    blocking: old(self).view_spec().blocking,
                }),
                None => old(self).view_spec().head == old(self).view_spec().ready.len()
                    && final(self).view_spec() == old(self).view_spec(),
            },
    {
        if self.head < self.good_candidates.len() {
            let c = self.good_candidates[self.head].clone();
            proof {
                assert(self.good_candidates.deep_view()[self.head as int]
                    == self.good_candidates@[self.head as int]@);
            }
            self.head = self.head + 1;
            Some(c)
        } else {
            None
        }
    }

    /// Release everything the parsed candidate was blocking, moving newly
    /// unblocked candidates to the ready queue.
    pub fn mark_candidate_as_parsed(&mut self, candidate: String)
        requires
            old(self).inv(),
        ensures
            final(self).inv(),
            final(self).view_spec() == mark_spec(old(self).view_spec(), candidate@),
    {
        let ghost st0 = self.view_spec();
        let bi = match self.blocking_table.index_of(&candidate) {
            Some(bi) => bi,
            None => {
                return;
            }
        };
        let blocked_list = self.blocking_table.remove_at(bi);
        let ghost lst = st0.blocking[bi as int].1;
        proof {
            assert(blocked_list.deep_view() == lst);
        }
        let ghost st1 = SchedV {
            ready: st0.ready,
            head: st0.head,
            blocked: st0.blocked,
            blocking: st0.blocking.remove(bi as int),
        };
        let n = blocked_list.len();
        proof {
            assert(self.view_spec() == unblock_fold(st1, lst, 0));
        }
        for k in 0..n
            invariant
                n == blocked_list@.len(),
                lst == blocked_list.deep_view(),
                self.blocked_candidates.wf(),
                self.blocking_table.wf(),
                self.head <= self.good_candidates@.len(),
                self.view_spec() == unblock_fold(st1, lst, k as int),
        {
            let a = &blocked_list[k];
            let ghost stpre = self.view_spec();
            proof {
                assert(lst[k as int] == blocked_list@[k as int]@);
            }
            match self.blocked_candidates.index_of(a) {
                None => {}
                Some(ai) => {
                    let c = *self.blocked_candidates.val_at(ai);
                    if c <= 1 {
                        self.blocked_candidates.remove_at(ai);
                        let ghost gpre = self.good_candidates@;
                        self.good_candidates.push(a.clone());
                        proof {
                            assert(self.good_candidates.deep_view() =~= stpre.ready.push(a@)) by {
                                assert forall|j: int|
                                    0 <= j < self.good_candidates.deep_view().len() implies self.good_candidates.deep_view()[j]
                                    == stpre.ready.push(a@)[j] by {
                                    assert(self.good_candidates.deep_view()[j]
                                        == self.good_candidates@[j]@);
                                    if j < stpre.ready.len() {
                                        assert(self.good_candidates@[j] == gpre[j]);
                                    }
                                }
                            }
                        }
                    } else {
                        self.blocked_candidates.set_val_at(ai, c - 1);
                        proof {
                            assert(self.blocked_candidates@ =~= stpre.blocked.update(
                                ai as int,
                                (a@, (c - 1) as usize),
                            ));
                        }
                    }
                }
            }
            proof {
                assert(self.view_spec() == unblock_one(stpre, lst[k as int]));
            }
        }
    }
}

} // verus!

verus! {

/// Well-formed scheduler state: no candidate appears twice in the ready
/// queue, blocked candidates are distinct, and no candidate is both ready
/// and blocked. Since candidates are emitted as a prefix of the ready
/// queue, a well-formed scheduler emits every candidate at most once.
pub open spec fn sched_wf(st: SchedV) -> bool {
    &&& forall|i: int, j: int| 0 <= i < j < st.ready.len() ==> st.ready[i] != st.ready[j]
    &&& crate::table::distinct_keys(st.blocked)
    &&& forall|i: int|
        0 <= i < st.ready.len() ==> !seq_contains_key(st.blocked, #[trigger] st.ready[i])
}

/// Every candidate the state holds came from the first `n` inputs.
pub open spec fn sched_from(st: SchedV, cands: Seq<(String, Vec<String>)>, n: int) -> bool {
    &&& forall|i: int|
        0 <= i < st.ready.len() ==> exists|j: int|
            0 <= j < n && (#[trigger] st.ready[i]) == cands[j].0@
    &&& forall|i: int|
        0 <= i < st.blocked.len() ==> exists|j: int|
            0 <= j < n && (#[trigger] st.blocked[i]).0 == cands[j].0@
}

/// Building the schedule from pairwise-distinct candidates gives a
/// well-formed state: with that, every candidate is emitted at most once.
pub proof fn lemma_sched_fold_wf(r: PathResolver, cands: Seq<(String, Vec<String>)>, n: int)
    requires
        0 <= n <= cands.len(),
        forall|i: int, j: int|
            0 <= i < j < cands.len() ==> (#[trigger] cands[i]).0@ != (#[trigger] cands[j]).0@,
    ensures
        sched_wf(sched_fold(r, cands, n)),
        sched_from(sched_fold(r, cands, n), cands, n),
    decreases n,
{
    if n > 0 {
        lemma_sched_fold_wf(r, cands, n - 1);
        let st = sched_fold(r, cands, n - 1);
        let path = cands[n - 1].0@;
        let bs = resolve_blockers(r, path, cands[n - 1].1@, cands[n - 1].1@.len() as int);
        let st1 = sched_add(st, path, bs);
        assert(!st.ready.contains(path)) by {
            if st.ready.contains(path) {
                let i = choose|i: int| 0 <= i < st.ready.len() && st.ready[i] == path;
                let j = choose|j: int| 0 <= j < n - 1 && st.ready[i] == cands[j].0@;
                assert(cands[j].0@ != cands[n - 1].0@);
            }
        }
        assert(!seq_contains_key(st.blocked, path)) by {
            if seq_contains_key(st.blocked, path) {
                let i = choose|i: int| 0 <= i < st.blocked.len() && st.blocked[i].0 == path;
                let j = choose|j: int| 0 <= j < n - 1 && st.blocked[i].0 == cands[j].0@;
                assert(cands[j].0@ != cands[n - 1].0@);
            }
        }
        if bs.len() == 0 {
            assert forall|i: int, j: int|
                0 <= i < j < st1.ready.len() implies st1.ready[i] != st1.ready[j] by {
                if j < st.ready.len() {
                } else {
                    assert(st1.ready[j] == path);
                    assert(st.ready.contains(st.ready[i]));
                }
            }
            assert forall|i: int|
                0 <= i < st1.ready.len() implies !seq_contains_key(
                st1.blocked,
                #[trigger] st1.ready[i],
            ) by {
                if i < st.ready.len() {
                } else {
                    assert(st1.ready[i] == path);
                }
            }
            assert forall|i: int|
                0 <= i < st1.ready.len() implies exists|j: int|
                0 <= j < n && (#[trigger] st1.ready[i]) == cands[j].0@ by {
                if i < st.ready.len() {
                    let j = choose|j: int| 0 <= j < n - 1 && st.ready[i] == cands[j].0@;
                    assert(st1.ready[i] == cands[j].0@);
                } else {
                    assert(st1.ready[i] == cands[n - 1].0@);
                }
            }
        } else {
            assert(st1.blocked =~= st.blocked.push((path, bs.len() as usize)));
            assert forall|i: int, j: int|
                0 <= i < j < st1.blocked.len() implies st1.blocked[i].0 != st1.blocked[j].0 by {
                if j < st.blocked.len() {
                } else {
                    assert(st1.blocked[j].0 == path);
                    if st1.blocked[i].0 == path {
                        assert(seq_contains_key(st.blocked, path));
                    }
                }
            }
            assert forall|i: int|
                0 <= i < st1.ready.len() implies !seq_contains_key(
                st1.blocked,
                #[trigger] st1.ready[i],
            ) by {
                if seq_contains_key(st1.blocked, st1.ready[i]) {
                    let k = choose|k: int|
                        0 <= k < st1.blocked.len() && st1.blocked[k].0 == st1.ready[i];
                    if k < st.blocked.len() {
                        assert(seq_contains_key(st.blocked, st.ready[i]));
                    } else {
                        assert(st1.ready[i] == path);
                        assert(st.ready.contains(path));
                    }
                }
            }
            assert forall|i: int|
                0 <= i < st1.blocked.len() implies exists|j: int|
                0 <= j < n && (#[trigger] st1.blocked[i]).0 == cands[j].0@ by {
                if i < st.blocked.len() {
                    let j = choose|j: int| 0 <= j < n - 1 && st.blocked[i].0 == cands[j].0@;
                    assert(st1.blocked[i].0 == cands[j].0@);
                } else {
                    assert(st1.blocked[i].0 == cands[n - 1].0@);
                }
            }
            assert forall|i: int|
                0 <= i < st1.ready.len() implies exists|j: int|
                0 <= j < n && (#[trigger] st1.ready[i]) == cands[j].0@ by {
                let j = choose|j: int| 0 <= j < n - 1 && st.ready[i] == cands[j].0@;
                assert(st1.ready[i] == cands[j].0@);
            }
        }
    }
}

proof fn lemma_unblock_one_wf(st: SchedV, a: Seq<char>)
    requires
        sched_wf(st),
    ensures
        sched_wf(unblock_one(st, a)),
{
    if seq_contains_key(st.blocked, a) {
        crate::table::lemma_key_index(st.blocked, a);
        let i = seq_key_index(st.blocked, a);
        let c = st.blocked[i].1;
        if c <= 1 {
            let st1 = unblock_one(st, a);
            assert(st1.ready =~= st.ready.push(a));
            assert(st1.blocked =~= st.blocked.remove(i));
            st.blocked.remove_ensures(i);
            assert forall|x: int, y: int|
                0 <= x < y < st1.ready.len() implies st1.ready[x] != st1.ready[y] by {
                if y == st.ready.len() {
                    assert(st1.ready[y] == a);
                    if st.ready[x] == a {
                        assert(seq_contains_key(st.blocked, st.ready[x]));
                    }
                }
            }
            assert forall|x: int, y: int|
                0 <= x < y < st1.blocked.len() implies st1.blocked[x].0 != st1.blocked[y].0 by {
                let x0 = if x < i {
                    x
                } else {
                    x + 1
                };
                let y0 = if y < i {
                    y
                } else {
                    y + 1
                };
                assert(st1.blocked[x] == st.blocked[x0]);
                assert(st1.blocked[y] == st.blocked[y0]);
            }
            assert forall|x: int|
                0 <= x < st1.ready.len() implies !seq_contains_key(
                st1.blocked,
                #[trigger] st1.ready[x],
            ) by {
                if seq_contains_key(st1.blocked, st1.ready[x]) {
                    let k = choose|k: int|
                        0 <= k < st1.blocked.len() && st1.blocked[k].0 == st1.ready[x];
                    let k0 = if k < i {
                        k
                    } else {
                        k + 1
                    };
                    assert(st1.blocked[k] == st.blocked[k0]);
                    if x < st.ready.len() {
                        assert(seq_contains_key(st.blocked, st.ready[x]));
                    } else {
                        assert(st1.ready[x] == a);
                        assert(st.blocked[k0].0 == a);
                        assert(st.blocked[i].0 == a);
                    }
                }
            }
        } else {
            let st1 = unblock_one(st, a);
            assert(st1.blocked =~= st.blocked.update(i, (a, (c - 1) as usize)));
            assert forall|x: int, y: int|
                0 <= x < y < st1.blocked.len() implies st1.blocked[x].0 != st1.blocked[y].0 by {
                assert(st.blocked[x].0 != st.blocked[y].0);
                assert(st1.blocked[x].0 == st.blocked[x].0);
                assert(st1.blocked[y].0 == st.blocked[y].0);
            }
            assert forall|x: int|
                0 <= x < st1.ready.len() implies !seq_contains_key(
                st1.blocked,
                #[trigger] st1.ready[x],
            ) by {
                if seq_contains_key(st1.blocked, st1.ready[x]) {
                    let k = choose|k: int|
                        0 <= k < st1.blocked.len() && st1.blocked[k].0 == st1.ready[x];
                    assert(st1.blocked[k].0 == st.blocked[k].0);
                    assert(seq_contains_key(st.blocked, st.ready[x]));
                }
            }
        }
    }
}

proof fn lemma_unblock_fold_wf(st: SchedV, lst: Seq<Seq<char>>, n: int)
    requires
        sched_wf(st),
    ensures
        sched_wf(unblock_fold(st, lst, n)),
    decreases n,
{
    if n > 0 && n <= lst.len() {
        lemma_unblock_fold_wf(st, lst, n - 1);
        lemma_unblock_one_wf(unblock_fold(st, lst, n - 1), lst[n - 1]);
    }
}

/// Marking a candidate as parsed keeps the scheduler well-formed, so the
/// at-most-once guarantee survives the whole drive loop.
pub proof fn lemma_mark_wf(st: SchedV, c: Seq<char>)
    requires
        sched_wf(st),
    ensures
        sched_wf(mark_spec(st, c)),
{
    if seq_contains_key(st.blocking, c) {
        let i = seq_key_index(st.blocking, c);
        let lst = st.blocking[i].1;
        let st1 = SchedV {
            ready: st.ready,
            head: st.head,
            blocked: st.blocked,
            blocking: st.blocking.remove(i),
        };
        assert(sched_wf(st1));
        lemma_unblock_fold_wf(st1, lst, lst.len() as int);
    }
}

} // verus!
