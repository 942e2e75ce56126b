//! Import-specifier resolution against a model of the project's files.
//!
//! The resolver is constructed with the project root (`base_url`) and the
//! list of existing source files, each as a canonical path. Resolution is
//! purely lexical: a candidate path is normalized (`.` and `..` segments
//! folded away) and looked up in the file list. Candidates are tried in the
//! fixed order `candidate/index.js`, `candidate/index.ts`, then the
//! candidate itself with the extensions `ts`, `tsx`, `js`, `jsx`.

use vstd::prelude::*;

use crate::types::AnalysisError;

verus! {

/// Index of the last `/`, or `-1`.
pub open spec fn rfind_slash(s: Seq<char>) -> int
    decreases s.len(),
{
    if s.len() == 0 {
        -1
    } else if s.last() == '/' {
        s.len() - 1
    } else {
        rfind_slash(s.drop_last())
    }
}

/// Index of the last `.` inside the final path component, or `-1`.
pub open spec fn rfind_dot(s: Seq<char>) -> int
    decreases s.len(),
{
    if s.len() == 0 {
        -1
    } else if s.last() == '.' {
        s.len() - 1
    } else if s.last() == '/' {
        -1
    } else {
        rfind_dot(s.drop_last())
    }
}

/// One path segment folded into the normalization stack.
pub open spec fn norm_push(st: Seq<Seq<char>>, seg: Seq<char>) -> Seq<Seq<char>> {
    if seg.len() == 0 || seg == "."@ {
        st
    } else if seg == ".."@ {
        if st.len() > 0 {
            st.drop_last()
        } else {
            st
        }
    } else {
        st.push(seg)
    }
}

/// Fold the characters of `p` from `i` on into the stack `st`, with `cur`
/// the segment read so far.
pub open spec fn norm_fold(p: Seq<char>, i: int, st: Seq<Seq<char>>, cur: Seq<char>) -> Seq<
    Seq<char>,
>
    decreases p.len() - i,
{
    if i < 0 || i >= p.len() {
        norm_push(st, cur)
    } else if p[i] == '/' {
        norm_fold(p, i + 1, norm_push(st, cur), Seq::empty())
    } else {
        norm_fold(p, i + 1, st, cur.push(p[i]))
    }
}

/// The segments joined back into a rooted path.
pub open spec fn join_segs(st: Seq<Seq<char>>, i: int) -> Seq<char>
    decreases st.len() - i,
{
    if i < 0 || i >= st.len() {
        Seq::empty()
    } else {
        seq!['/'] + st[i] + join_segs(st, i + 1)
    }
}

/// Lexical canonical form of a path: `.` and empty segments dropped, `..`
/// folded into its parent, segments joined by `/` from the root.
pub open spec fn normalize_spec(p: Seq<char>) -> Seq<char> {
    join_segs(norm_fold(p, 0, Seq::empty(), Seq::empty()), 0)
}

/// `Path::join` of a base directory and a specifier.
pub open spec fn join_path_spec(base: Seq<char>, s: Seq<char>) -> Seq<char> {
    if s.len() > 0 && s[0] == '/' {
        s
    } else if base.len() == 0 {
        s
    } else if base.last() == '/' {
        base + s
    } else {
        base + seq!['/'] + s
    }
}

/// `Path::with_file_name`: the final component replaced by `f`.
pub open spec fn with_file_name_spec(p: Seq<char>, f: Seq<char>) -> Seq<char> {
    let sl = rfind_slash(p);
    if sl == -1 {
        f
    } else {
        p.take(sl + 1) + f
    }
}

/// `Path::set_extension`: the extension of the final component replaced.
pub open spec fn set_ext_spec(p: Seq<char>, ext: Seq<char>) -> Seq<char> {
    let sl = rfind_slash(p);
    let d = rfind_dot(p);
    if d != -1 && d > sl + 1 {
        p.take(d) + seq!['.'] + ext
    } else {
        p + seq!['.'] + ext
    }
}

/// The root a specifier resolves against: relative specifiers replace the
/// final component of the importing file, others join the base url.
pub open spec fn candidate_root(base: Seq<char>, current: Seq<char>, s: Seq<char>) -> Seq<char> {
    if s.len() > 0 && s[0] == '.' {
        with_file_name_spec(current, s)
    } else {
        join_path_spec(base, s)
    }
}

/// The candidate files, in resolution order, already normalized.
pub open spec fn candidates_spec(base: Seq<char>, current: Seq<char>, s: Seq<char>) -> Seq<
    Seq<char>,
> {
    let root = candidate_root(base, current, s);
    seq![
        normalize_spec(join_path_spec(root, "index.js"@)),
        normalize_spec(join_path_spec(root, "index.ts"@)),
        normalize_spec(set_ext_spec(root, "ts"@)),
        normalize_spec(set_ext_spec(root, "tsx"@)),
        normalize_spec(set_ext_spec(root, "js"@)),
        normalize_spec(set_ext_spec(root, "jsx"@)),
    ]
}

/// The first candidate that is an existing file.
pub open spec fn first_hit(files: Seq<Seq<char>>, cands: Seq<Seq<char>>, i: int) -> Result<
    Seq<char>,
    AnalysisError,
>
    decreases cands.len() - i,
{
    if i < 0 || i >= cands.len() {
        Err(AnalysisError::UnresolvedImport)
    } else if files.contains(cands[i]) {
        Ok(cands[i])
    } else {
        first_hit(files, cands, i + 1)
    }
}

/// Resolves import specifiers against the file model.
pub struct PathResolver {
    base_url: String,
    files: Vec<String>,
}

impl PathResolver {
    pub closed spec fn base_spec(&self) -> Seq<char> {
        self.base_url@
    }

    pub closed spec fn files_spec(&self) -> Seq<Seq<char>> {
        self.files.deep_view()
    }

    /// What resolution returns for a given query.
    pub open spec fn resolve_spec(&self, current: Seq<char>, s: Seq<char>) -> Result<
        Seq<char>,
        AnalysisError,
    > {
        first_hit(self.files_spec(), candidates_spec(self.base_spec(), current, s), 0)
    }

    pub fn new(base_url: String, files: Vec<String>) -> (r: Self)
        ensures
            r.base_spec() == base_url@,
            r.files_spec() == files.deep_view(),
    {
        PathResolver { base_url, files }
    }

    /// Try the candidates in order and return the first existing file, or
    /// `UnresolvedImport` when none exists.
    pub fn resolve_path(&self, current_path: &String, import_src: &String) -> (r: Result<
        String,
        AnalysisError,
    >)
        ensures
            match r {
                Ok(p) => self.resolve_spec(current_path@, import_src@) == Ok::<
                    Seq<char>,
                    AnalysisError,
                >(p@),
                Err(e) => self.resolve_spec(current_path@, import_src@) == Err::<
                    Seq<char>,
                    AnalysisError,
                >(e),
            },
    {
        let root = self.candidate_root_exec(current_path, import_src);
        let ghost cands = candidates_spec(self.base_spec(), current_path@, import_src@);
        let c0 = normalize_path(&join_path_exec(&root, "index.js"));
        let c1 = normalize_path(&join_path_exec(&root, "index.ts"));
        let c2 = normalize_path(&set_ext_exec(&root, "ts"));
        let c3 = normalize_path(&set_ext_exec(&root, "tsx"));
        let c4 = normalize_path(&set_ext_exec(&root, "js"));
        let c5 = normalize_path(&set_ext_exec(&root, "jsx"));
        proof {
            reveal_strlit("index.js");
            reveal_strlit("index.ts");
            reveal_strlit("ts");
            reveal_strlit("tsx");
            reveal_strlit("js");
            reveal_strlit("jsx");
            assert(cands[0] == c0@);
            assert(cands[1] == c1@);
            assert(cands[2] == c2@);
            assert(cands[3] == c3@);
            assert(cands[4] == c4@);
            assert(cands[5] == c5@);
        }
        let ghost fs = self.files_spec();
        if self.contains_file(&c0) {
            return Ok(c0);
        }
        proof {
            assert(first_hit(fs, cands, 0) == first_hit(fs, cands, 1));
        }
        if self.contains_file(&c1) {
            return Ok(c1);
        }
        proof {
            assert(first_hit(fs, cands, 1) == first_hit(fs, cands, 2));
        }
        if self.contains_file(&c2) {
            return Ok(c2);
        }
        proof {
            assert(first_hit(fs, cands, 2) == first_hit(fs, cands, 3));
        }
        if self.contains_file(&c3) {
            return Ok(c3);
        }
        proof {
            assert(first_hit(fs, cands, 3) == first_hit(fs, cands, 4));
        }
        if self.contains_file(&c4) {
            return Ok(c4);
        }
        proof {
            assert(first_hit(fs, cands, 4) == first_hit(fs, cands, 5));
        }
        if self.contains_file(&c5) {
            return Ok(c5);
        }
        proof {
            assert(first_hit(fs, cands, 5) == first_hit(fs, cands, 6));
        }
        Err(AnalysisError::UnresolvedImport)
    }

    fn contains_file(&self, p: &String) -> (r: bool)
        ensures
            r == self.files_spec().contains(p@),
    {
        let n = self.files.len();
        for i in 0..n
            invariant
                n == self.files@.len(),
                forall|j: int| 0 <= j < i ==> self.files_spec()[j] != p@,
        {
            proof {
                assert(self.files_spec()[i as int] == self.files@[i as int]@);
            }
            if self.files[i] == *p {
                proof {
                    assert(self.files_spec().contains(p@));
                }
                return true;
            }
        }
        proof {
            if self.files_spec().contains(p@) {
                let j = choose|j: int|
                    0 <= j < self.files_spec().len() && self.files_spec()[j] == p@;
            }
        }
        false
    }

    fn candidate_root_exec(&self, current: &String, s: &String) -> (r: String)
        ensures
            r@ == candidate_root(self.base_spec(), current@, s@),
    {
        let s_str = s.as_str();
        let n = s_str.unicode_len();
        if n > 0 && s_str.get_char(0) == '.' {
            with_file_name_exec(current, s)
        } else {
            join_path_exec(&self.base_url, s.as_str())
        }
    }
}

/// Index of the last `/`, if any.
fn rfind_slash_exec(p: &String) -> (r: Option<usize>)
    ensures
        match r {
            Some(i) => rfind_slash(p@) == i as int,
            None => rfind_slash(p@) == -1,
        },
{
    let ps = p.as_str();
    let n = ps.unicode_len();
    proof {
        assert(p@.take(n as int) =~= p@);
    }
    let mut j = n;
    loop
        invariant
            j <= n,
            n == p@.len(),
            ps@ == p@,
            rfind_slash(p@) == rfind_slash(p@.take(j as int)),
        decreases j,
    {
        if j == 0 {
            proof {
                assert(p@.take(0) =~= Seq::<char>::empty());
            }
            return None;
        }
        proof {
            assert(p@.take(j as int).last() == p@[j - 1]);
            assert(p@.take(j as int).drop_last() =~= p@.take(j - 1));
        }
        if ps.get_char(j - 1) == '/' {
            return Some(j - 1);
        }
        j = j - 1;
    }
}

/// Index of the last `.` inside the final component, if any.
fn rfind_dot_exec(p: &String) -> (r: Option<usize>)
    ensures
        match r {
            Some(i) => rfind_dot(p@) == i as int,
            None => rfind_dot(p@) == -1,
        },
{
    let ps = p.as_str();
    let n = ps.unicode_len();
    proof {
        assert(p@.take(n as int) =~= p@);
    }
    let mut j = n;
    loop
        invariant
            j <= n,
            n == p@.len(),
            ps@ == p@,
            rfind_dot(p@) == rfind_dot(p@.take(j as int)),
        decreases j,
    {
        if j == 0 {
            proof {
                assert(p@.take(0) =~= Seq::<char>::empty());
            }
            return None;
        }
        proof {
            assert(p@.take(j as int).last() == p@[j - 1]);
            assert(p@.take(j as int).drop_last() =~= p@.take(j - 1));
        }
        let c = ps.get_char(j - 1);
        if c == '.' {
            return Some(j - 1);
        }
        if c == '/' {
            return None;
        }
        j = j - 1;
    }
}

/// `Path::join` on the model.
fn join_path_exec(base: &String, s: &str) -> (r: String)
    ensures
        r@ == join_path_spec(base@, s@),
{
    let s_len = s.unicode_len();
    if s_len > 0 && s.get_char(0) == '/' {
        return s.to_owned();
    }
    let b_str = base.as_str();
    let b_len = b_str.unicode_len();
    if b_len == 0 {
        return s.to_owned();
    }
    let mut out = base.clone();
    if b_str.get_char(b_len - 1) != '/' {
        proof {
            assert(base@.last() == base@[b_len - 1]);
        }
        out.append("/");
        proof {
            reveal_strlit("/");
            assert(out@ =~= base@ + seq!['/']);
        }
        out.append(s);
        proof {
            assert(out@ =~= base@ + seq!['/'] + s@);
        }
        out
    } else {
        out.append(s);
        out
    }
}

/// `Path::with_file_name` on the model.
fn with_file_name_exec(p: &String, f: &String) -> (r: String)
    ensures
        r@ == with_file_name_spec(p@, f@),
{
    match rfind_slash_exec(p) {
        None => f.clone(),
        Some(sl) => {
            let n = p.as_str().unicode_len();
            proof {
                lemma_rfind_slash_bounds(p@);
                assert(sl < n);
            }
            let mut out = p.as_str().substring_char(0, sl + 1).to_owned();
            proof {
                assert(out@ == p@.subrange(0, sl + 1));
                assert(p@.take(sl + 1) =~= p@.subrange(0, sl + 1));
            }
            out.append(f.as_str());
            out
        }
    }
}

pub proof fn lemma_rfind_slash_bounds(p: Seq<char>)
    ensures
        -1 <= rfind_slash(p) < p.len(),
    decreases p.len(),
{
    if p.len() > 0 && p.last() != '/' {
        lemma_rfind_slash_bounds(p.drop_last());
    }
}

pub proof fn lemma_rfind_dot_bounds(p: Seq<char>)
    ensures
        -1 <= rfind_dot(p) < p.len(),
    decreases p.len(),
{
    if p.len() > 0 && p.last() != '.' && p.last() != '/' {
        lemma_rfind_dot_bounds(p.drop_last());
    }
}

/// `Path::set_extension` on the model.
fn set_ext_exec(p: &String, ext: &str) -> (r: String)
    ensures
        r@ == set_ext_spec(p@, ext@),
{
    proof {
        lemma_rfind_slash_bounds(p@);
        lemma_rfind_dot_bounds(p@);
    }
    let n = p.as_str().unicode_len();
    let sl = rfind_slash_exec(p);
    let d = rfind_dot_exec(p);
    proof {
        if d is Some {
            assert(d.unwrap() < n);
        }
        if sl is Some {
            assert(sl.unwrap() < n);
        }
    }
    let use_stem = match (d, sl) {
        (Some(di), Some(si)) => di > si + 1,
        (Some(di), None) => di > 0,
        _ => false,
    };
    if use_stem {
        let di = match d {
            Some(di) => di,
            None => 0,
        };
        let mut out = p.as_str().substring_char(0, di).to_owned();
        proof {
            assert(p@.take(di as int) =~= p@.subrange(0, di as int));
        }
        out.append(".");
        proof {
            reveal_strlit(".");
            assert(out@ =~= p@.take(di as int) + seq!['.']);
        }
        out.append(ext);
        proof {
            assert(out@ =~= p@.take(di as int) + seq!['.'] + ext@);
        }
        out
    } else {
        let mut out = p.clone();
        out.append(".");
        proof {
            reveal_strlit(".");
            assert(out@ =~= p@ + seq!['.']);
        }
        out.append(ext);
        proof {
            assert(out@ =~= p@ + seq!['.'] + ext@);
        }
        out
    }
}

/// Fold a segment into the normalization stack.
fn norm_push_exec(st: &mut Vec<String>, seg: String)
    ensures
        final(st).deep_view() == norm_push(old(st).deep_view(), seg@),
{
    let ghost s0 = st.deep_view();
    let dot = String::from_str(".");
    let dotdot = String::from_str("..");
    proof {
        reveal_strlit(".");
        reveal_strlit("..");
    }
    if seg.unicode_len() == 0 || seg == dot {
        return;
    }
    if seg == dotdot {
        if st.len() > 0 {
            let ghost stpre = st@;
            st.pop();
            proof {
                assert(st.deep_view() =~= s0.drop_last()) by {
                    assert forall|j: int| 0 <= j < st.deep_view().len() implies st.deep_view()[j]
                        == s0.drop_last()[j] by {
                        assert(st@[j] == stpre[j]);
                    }
                }
            }
        }
        return;
    }
    let ghost stpre = st@;
    let ghost segv = seg@;
    st.push(seg);
    proof {
        assert(st.deep_view() =~= s0.push(segv)) by {
            assert forall|j: int| 0 <= j < st.deep_view().len() implies st.deep_view()[j] == s0.push(
                segv,
            )[j] by {
                if j < s0.len() {
                    assert(st@[j] == stpre[j]);
                }
            }
        }
    }
}

/// The lexical canonical form of a path.
pub fn normalize_path(p: &String) -> (r: String)
    ensures
        r@ == normalize_spec(p@),
{
    let ps = p.as_str();
    let n = ps.unicode_len();
    let mut st: Vec<String> = Vec::new();
    let mut start: usize = 0;
    let mut i: usize = 0;
    proof {
        assert(st.deep_view() =~= Seq::<Seq<char>>::empty());
        assert(p@.subrange(0, 0) =~= Seq::<char>::empty());
    }
    while i < n
        invariant
            start <= i <= n,
            n == p@.len(),
            ps@ == p@,
            norm_fold(p@, i as int, st.deep_view(), p@.subrange(start as int, i as int))
                == norm_fold(p@, 0, Seq::empty(), Seq::empty()),
        decreases n - i,
    {
        let c = ps.get_char(i);
        if c == '/' {
            let seg = ps.substring_char(start, i).to_owned();
            proof {
                assert(seg@ == p@.subrange(start as int, i as int));
            }
            norm_push_exec(&mut st, seg);
            start = i + 1;
            proof {
                assert(p@.subrange(start as int, (i + 1) as int) =~= Seq::<char>::empty());
            }
        } else {
            proof {
                assert(p@.subrange(start as int, (i + 1) as int) =~= p@.subrange(
                    start as int,
                    i as int,
                ).push(p@[i as int]));
            }
        }
        i = i + 1;
    }
    let seg = ps.substring_char(start, n).to_owned();
    proof {
        assert(seg@ == p@.subrange(start as int, n as int));
    }
    norm_push_exec(&mut st, seg);
    proof {
        assert(st.deep_view() == norm_fold(p@, 0, Seq::empty(), Seq::empty()));
    }
    // join the stack into a rooted path
    let mut out = String::new();
    let m = st.len();
    let ghost stv = st.deep_view();
    proof {
        assert(out@ + join_segs(stv, 0) =~= join_segs(stv, 0));
    }
    for k in 0..m
        invariant
            m == st@.len(),
            stv == st.deep_view(),
            out@ + join_segs(stv, k as int) == join_segs(stv, 0),
    {
        let ghost outpre = out@;
        out.append("/");
        out.append(st[k].as_str());
        proof {
            reveal_strlit("/");
            assert(st.deep_view()[k as int] == st@[k as int]@);
            assert(out@ =~= outpre + seq!['/'] + stv[k as int]);
            assert(join_segs(stv, k as int) == seq!['/'] + stv[k as int] + join_segs(stv, k + 1));
            assert(out@ + join_segs(stv, k + 1) =~= outpre + join_segs(stv, k as int));
        }
    }
    proof {
        assert(join_segs(stv, m as int) =~= Seq::<char>::empty());
        assert(out@ =~= out@ + join_segs(stv, m as int));
    }
    out
}

} // verus!
