//! The translation extractor: the `LABELS = translate({...})` tree, the
//! resolution of `LABELS` member accesses, and the attribution of
//! translation keys to top-level symbols.

use vstd::prelude::*;

use crate::table::seq_contains_key;
use crate::table::seq_get;
use crate::table::seq_set;
use crate::table::StrTable;
use crate::types::AnalysisError;

verus! {

/// A property key of the `LABELS` object literal, as the parser hands it
/// over: literal keys carry their text (numeric keys already printed),
/// computed keys are opaque, anything else is invalid there.
pub enum LabelKey {
    Static(String),
    Computed,
    Invalid,
}

/// A property value of the `LABELS` object literal.
pub enum LabelValue {
    /// A string literal: a translation key.
    Str(String),
    /// A non-string literal: invalid here.
    NonStrLit,
    /// A nested object literal.
    ObjectLit(Vec<LabelProp>),
    /// An array literal; only the lazy pair `[key, "lazy"]` is legal.
    ArrayLit(Vec<LabelValue>),
    /// Any other expression: invalid here.
    Other,
}

/// One property of an object literal; a spread or non-key-value property
/// arrives with an `Invalid` key.
pub struct LabelProp {
    pub key: LabelKey,
    pub value: LabelValue,
}

/// One step of a `LABELS.a.b[expr]` member chain.
pub enum MemberAccess {
    /// `.name`
    IdentProp(String),
    /// `[expr]`
    Computed,
    /// Any other member form; rejected.
    Unsupported,
}

/// The label tree: static keys map to subtrees or translation keys; a level
/// with computed keys is flattened into the set of keys under it.
pub enum LABELS {
    ObjectLit(Vec<LabelEntry>),
    Computed(Vec<String>),
}

/// One static-keyed entry of a tree level.
pub struct LabelEntry {
    pub key: String,
    pub value: TranslateObjectValue,
}

/// A value of a static-keyed level.
pub enum TranslateObjectValue {
    Str(String),
    NestedLabels(LABELS),
}

pub ghost enum LabelsV {
    ObjectLit(Seq<(Seq<char>, TovV)>),
    Computed(Seq<Seq<char>>),
}

pub ghost enum TovV {
    Str(Seq<char>),
    NestedLabels(LabelsV),
}

/// The view of a label tree.
pub open spec fn labels_view(l: LABELS) -> LabelsV
    decreases l, 1int,
{
    match l {
        LABELS::ObjectLit(entries) => LabelsV::ObjectLit(
            entries_view(entries@, entries@.len() as int),
        ),
        LABELS::Computed(keys) => LabelsV::Computed(keys.deep_view()),
    }
}

pub open spec fn entries_view(es: Seq<LabelEntry>, n: int) -> Seq<(Seq<char>, TovV)>
    decreases es, 2int, n,
{
    if n <= 0 || n > es.len() {
        Seq::empty()
    } else {
        entries_view(es, n - 1).push((es[n - 1].key@, tov_view(es[n - 1].value)))
    }
}

pub open spec fn tov_view(t: TranslateObjectValue) -> TovV
    decreases t, 1int,
{
    match t {
        TranslateObjectValue::Str(s) => TovV::Str(s@),
        TranslateObjectValue::NestedLabels(l) => TovV::NestedLabels(labels_view(l)),
    }
}

/// `k` appended unless already present.
pub open spec fn add_key(acc: Seq<Seq<char>>, k: Seq<char>) -> Seq<Seq<char>> {
    if acc.contains(k) {
        acc
    } else {
        acc.push(k)
    }
}

/// The translation key of a lazy pair `[key, "lazy"]`; anything else is an
/// error.
pub open spec fn lazy_key_spec(vs: Seq<LabelValue>) -> Result<Seq<char>, AnalysisError> {
    if vs.len() != 2 {
        Err(AnalysisError::InvalidLabelsShape)
    } else {
        match vs[1] {
            LabelValue::Str(m) => if m@ == "lazy"@ {
                match vs[0] {
                    LabelValue::Str(k) => Ok(k@),
                    _ => Err(AnalysisError::InvalidLabelsShape),
                }
            } else {
                Err(AnalysisError::InvalidLabelsShape)
            },
            _ => Err(AnalysisError::InvalidLabelsShape),
        }
    }
}

/// All translation keys under an object literal, flattened; key order
/// follows the walk, duplicates dropped.
pub open spec fn flatten_spec(acc: Seq<Seq<char>>, props: Seq<LabelProp>, n: int) -> Result<
    Seq<Seq<char>>,
    AnalysisError,
>
    decreases props, n,
{
    if n <= 0 || n > props.len() {
        Ok(acc)
    } else {
        match flatten_spec(acc, props, n - 1) {
            Err(e) => Err(e),
            Ok(a) => match props[n - 1].key {
                LabelKey::Invalid => Err(AnalysisError::InvalidLabelsShape),
                _ => match props[n - 1].value {
                    LabelValue::Str(s) => Ok(add_key(a, s@)),
                    LabelValue::ObjectLit(o) => flatten_spec(a, o@, o@.len() as int),
                    LabelValue::ArrayLit(vs) => match lazy_key_spec(vs@) {
                        Ok(k) => Ok(add_key(a, k)),
                        Err(e) => Err(e),
                    },
                    _ => Err(AnalysisError::InvalidLabelsShape),
                },
            },
        }
    }
}

/// The state of one level while its properties are folded: the static
/// entries, the flattened keys, and whether a computed key was seen.
pub ghost struct LevelV {
    pub labels: Seq<(Seq<char>, TovV)>,
    pub keys: Seq<Seq<char>>,
    pub has_computed: bool,
}

/// One level of the label tree built from an object literal: static and
/// computed keys must not mix, and values must be strings, lazy pairs or
/// nested objects.
pub open spec fn collect_fold(props: Seq<LabelProp>, n: int) -> Result<LevelV, AnalysisError>
    decreases props, n, 1int,
{
    if n <= 0 || n > props.len() {
        Ok(LevelV { labels: Seq::empty(), keys: Seq::empty(), has_computed: false })
    } else {
        match collect_fold(props, n - 1) {
            Err(e) => Err(e),
            Ok(st) => match props[n - 1].key {
                LabelKey::Invalid => Err(AnalysisError::InvalidLabelsShape),
                LabelKey::Static(name) => if st.has_computed {
                    Err(AnalysisError::InvalidLabelsShape)
                } else {
                    match tov_spec(props[n - 1].value) {
                        Err(e) => Err(e),
                        Ok(tov) => Ok(
                            LevelV {
                                labels: seq_set(st.labels, name@, tov),
                                keys: st.keys,
                                has_computed: false,
                            },
                        ),
                    }
                },
                LabelKey::Computed => if st.labels.len() != 0 {
                    Err(AnalysisError::InvalidLabelsShape)
                } else {
                    match props[n - 1].value {
                        LabelValue::Str(s) => Ok(
                            LevelV {
                                labels: st.labels,
                                keys: add_key(st.keys, s@),
                                has_computed: true,
                            },
                        ),
                        LabelValue::ObjectLit(o) => match flatten_spec(st.keys, o@, o@.len() as int) {
                            Err(e) => Err(e),
                            Ok(keys) => Ok(
                                LevelV { labels: st.labels, keys, has_computed: true },
                            ),
                        },
                        LabelValue::ArrayLit(vs) => match lazy_key_spec(vs@) {
                            Err(e) => Err(e),
                            Ok(k) => Ok(
                                LevelV {
                                    labels: st.labels,
                                    keys: add_key(st.keys, k),
                                    has_computed: true,
                                },
                            ),
                        },
                        _ => Err(AnalysisError::InvalidLabelsShape),
                    }
                },
            },
        }
    }
}

/// The tree value of one property value under a static key.
pub open spec fn tov_spec(v: LabelValue) -> Result<TovV, AnalysisError>
    decreases v, 0int, 0int,
{
    match v {
        LabelValue::Str(s) => Ok(TovV::Str(s@)),
        LabelValue::ObjectLit(o) => match collect_spec_of(o@) {
            Err(e) => Err(e),
            Ok(l) => Ok(TovV::NestedLabels(l)),
        },
        LabelValue::ArrayLit(vs) => match lazy_key_spec(vs@) {
            Err(e) => Err(e),
            Ok(k) => Ok(TovV::Str(k)),
        },
        _ => Err(AnalysisError::InvalidLabelsShape),
    }
}

/// The label tree of one object literal.
pub open spec fn collect_spec_of(props: Seq<LabelProp>) -> Result<LabelsV, AnalysisError>
    decreases props, props.len() as int, 2int,
{
    match collect_fold(props, props.len() as int) {
        Err(e) => Err(e),
        Ok(st) => if st.has_computed {
            Ok(LabelsV::Computed(st.keys))
        } else {
            Ok(LabelsV::ObjectLit(st.labels))
        },
    }
}

} // verus!

verus! {

/// The translation key of a lazy pair `[key, "lazy"]`.
fn lazy_key_exec(vs: &Vec<LabelValue>) -> (r: Result<String, AnalysisError>)
    ensures
        match r {
            Ok(k) => lazy_key_spec(vs@) == Ok::<Seq<char>, AnalysisError>(k@),
            Err(e) => lazy_key_spec(vs@) == Err::<Seq<char>, AnalysisError>(e),
        },
{
    proof {
        reveal_strlit("lazy");
    }
    if vs.len() != 2 {
        return Err(AnalysisError::InvalidLabelsShape);
    }
    let lazy = String::from_str("lazy");
    match &vs[1] {
        LabelValue::Str(m) => {
            if !(*m == lazy) {
                return Err(AnalysisError::InvalidLabelsShape);
            }
        }
        _ => {
            return Err(AnalysisError::InvalidLabelsShape);
        }
    }
    match &vs[0] {
        LabelValue::Str(k) => Ok(k.clone()),
        _ => Err(AnalysisError::InvalidLabelsShape),
    }
}

/// Push `k` unless present.
pub fn add_key_exec(acc: &mut Vec<String>, k: String)
    ensures
        final(acc).deep_view() == add_key(old(acc).deep_view(), k@),
{
    let ghost a0 = acc.deep_view();
    let ghost kv = k@;
    let n = acc.len();
    for i in 0..n
        invariant
            n == acc@.len(),
            kv == k@,
            acc.deep_view() == a0,
            forall|j: int| 0 <= j < i ==> a0[j] != kv,
    {
        proof {
            assert(acc.deep_view()[i as int] == acc@[i as int]@);
        }
        if acc[i] == k {
            proof {
                assert(a0.contains(kv));
            }
            return;
        }
    }
    proof {
        if a0.contains(kv) {
            let j = choose|j: int| 0 <= j < a0.len() && a0[j] == kv;
        }
    }
    let ghost accpre = acc@;
    acc.push(k);
    proof {
        assert(acc.deep_view() =~= a0.push(kv)) by {
            assert forall|j: int| 0 <= j < acc.deep_view().len() implies acc.deep_view()[j]
                == a0.push(kv)[j] by {
                assert(acc.deep_view()[j] == acc@[j]@);
                if j < a0.len() {
                    assert(acc@[j] == accpre[j]);
                }
            }
        }
    }
}

/// Flatten all translation keys under an object literal into `acc`.
fn flatten_exec(acc: &mut Vec<String>, props: &Vec<LabelProp>) -> (r: Result<(), AnalysisError>)
    ensures
        match r {
            Ok(_) => flatten_spec(old(acc).deep_view(), props@, props@.len() as int) == Ok::<
                Seq<Seq<char>>,
                AnalysisError,
            >(final(acc).deep_view()),
            Err(e) => flatten_spec(old(acc).deep_view(), props@, props@.len() as int) == Err::<
                Seq<Seq<char>>,
                AnalysisError,
            >(e),
        },
    decreases *props,
{
    let ghost a0 = acc.deep_view();
    let n = props.len();
    for i in 0..n
        invariant
            n == props@.len(),
            a0 == old(acc).deep_view(),
            flatten_spec(a0, props@, i as int) == Ok::<Seq<Seq<char>>, AnalysisError>(
                acc.deep_view(),
            ),
        decreases n - i,
    {
        let ghost apre = acc.deep_view();
        let p = &props[i];
        match &p.key {
            LabelKey::Invalid => {
                proof {
                    lemma_flatten_error(
                        a0,
                        props@,
                        i + 1,
                        props@.len() as int,
                        AnalysisError::InvalidLabelsShape,
                    );
                }
                return Err(AnalysisError::InvalidLabelsShape);
            }
            _ => {}
        }
        match &p.value {
            LabelValue::Str(s) => {
                add_key_exec(acc, s.clone());
            }
            LabelValue::ObjectLit(o) => {
                match flatten_exec(acc, o) {
                    Ok(_) => {}
                    Err(e) => {
                        proof {
                            lemma_flatten_error(a0, props@, i + 1, props@.len() as int, e);
                        }
                        return Err(e);
                    }
                }
            }
            LabelValue::ArrayLit(vs) => {
                match lazy_key_exec(vs) {
                    Ok(k) => {
                        add_key_exec(acc, k);
                    }
                    Err(e) => {
                        proof {
                            lemma_flatten_error(a0, props@, i + 1, props@.len() as int, e);
                        }
                        return Err(e);
                    }
                }
            }
            _ => {
                proof {
                    lemma_flatten_error(
                        a0,
                        props@,
                        i + 1,
                        props@.len() as int,
                        AnalysisError::InvalidLabelsShape,
                    );
                }
                return Err(AnalysisError::InvalidLabelsShape);
            }
        }
    }
    Ok(())
}

proof fn lemma_flatten_error(
    acc: Seq<Seq<char>>,
    props: Seq<LabelProp>,
    n: int,
    m: int,
    e: AnalysisError,
)
    requires
        0 <= n <= m <= props.len(),
        flatten_spec(acc, props, n) == Err::<Seq<Seq<char>>, AnalysisError>(e),
    ensures
        flatten_spec(acc, props, m) == Err::<Seq<Seq<char>>, AnalysisError>(e),
    decreases m - n,
{
    if m > n {
        lemma_flatten_error(acc, props, n, m - 1, e);
    }
}

proof fn lemma_collect_error(props: Seq<LabelProp>, n: int, m: int, e: AnalysisError)
    requires
        0 <= n <= m <= props.len(),
        collect_fold(props, n) == Err::<LevelV, AnalysisError>(e),
    ensures
        collect_fold(props, m) == Err::<LevelV, AnalysisError>(e),
    decreases m - n,
{
    if m > n {
        lemma_collect_error(props, n, m - 1, e);
    }
}

/// Insert or overwrite one static entry, keeping keys distinct.
fn entry_set(entries: &mut Vec<LabelEntry>, key: String, value: TranslateObjectValue)
    requires
        crate::table::distinct_keys(entries_view(old(entries)@, old(entries)@.len() as int)),
    ensures
        entries_view(final(entries)@, final(entries)@.len() as int) =~= seq_set(
            entries_view(old(entries)@, old(entries)@.len() as int),
            key@,
            tov_view(value),
        ),
        crate::table::distinct_keys(entries_view(final(entries)@, final(entries)@.len() as int)),
{
    let ghost e0 = entries_view(entries@, entries@.len() as int);
    let ghost kv = key@;
    let ghost tv = tov_view(value);
    proof {
        lemma_entries_view(entries@, entries@.len() as int);
    }
    let n = entries.len();
    let mut i: usize = 0;
    loop
        invariant
            i <= n,
            n == entries@.len(),
            kv == key@,
            tv == tov_view(value),
            entries@ == old(entries)@,
            e0 == entries_view(entries@, entries@.len() as int),
            e0.len() == n,
            forall|j: int| 0 <= j < n ==> e0[j] == ((#[trigger] entries@[j]).key@, tov_view(entries@[j].value)),
            crate::table::distinct_keys(e0),
            forall|j: int| 0 <= j < i ==> e0[j].0 != kv,
        ensures
            i == n,
            n == entries@.len(),
            kv == key@,
            tv == tov_view(value),
            e0 == entries_view(entries@, entries@.len() as int),
            e0.len() == n,
            forall|j: int| 0 <= j < n ==> e0[j] == ((#[trigger] entries@[j]).key@, tov_view(entries@[j].value)),
            crate::table::distinct_keys(e0),
            forall|j: int| 0 <= j < n ==> e0[j].0 != kv,
        decreases n - i,
    {
        if i >= n {
            break;
        }
        if entries[i].key == key {
            proof {
                assert(seq_contains_key(e0, kv));
                crate::table::lemma_key_index_unique(e0, kv, i as int);
            }
            let ghost epre = entries@;
            entries[i] = LabelEntry { key, value };
            proof {
                lemma_entries_view(entries@, entries@.len() as int);
                assert forall|j: int|
                    0 <= j < entries@.len() implies entries_view(entries@, entries@.len() as int)[j]
                    == seq_set(e0, kv, tv)[j] by {
                    if j != i {
                        assert(entries@[j] == epre[j]);
                    }
                }
                assert(entries_view(entries@, entries@.len() as int) =~= seq_set(e0, kv, tv));
                lemma_wf_seq_set(e0, kv, tv);
            }
            return;
        }
        i = i + 1;
    }
    proof {
        if seq_contains_key(e0, kv) {
            let j = choose|j: int| 0 <= j < e0.len() && e0[j].0 == kv;
        }
    }
    let ghost epre = entries@;
    entries.push(LabelEntry { key, value });
    proof {
        lemma_entries_view(entries@, entries@.len() as int);
        assert forall|j: int|
            0 <= j < entries@.len() implies entries_view(entries@, entries@.len() as int)[j]
            == e0.push((kv, tv))[j] by {
            if j < n {
                assert(entries@[j] == epre[j]);
            }
        }
        assert(entries_view(entries@, entries@.len() as int) =~= seq_set(e0, kv, tv));
        lemma_wf_seq_set(e0, kv, tv);
    }
}

/// Pointwise form of `entries_view`.
proof fn lemma_entries_view(es: Seq<LabelEntry>, n: int)
    requires
        n <= es.len(),
    ensures
        entries_view(es, n).len() == if n >= 0 { n } else { 0 },
        forall|j: int|
            0 <= j < n ==> entries_view(es, n)[j] == ((#[trigger] es[j]).key@, tov_view(es[j].value)),
    decreases n,
{
    if n > 0 {
        lemma_entries_view(es, n - 1);
        assert forall|j: int|
            0 <= j < n implies entries_view(es, n)[j] == ((#[trigger] es[j]).key@, tov_view(
            es[j].value,
        )) by {
            if j < n - 1 {
                assert(entries_view(es, n - 1)[j] == (es[j].key@, tov_view(es[j].value)));
            }
        }
    }
}

/// `seq_set` keeps keys distinct.
proof fn lemma_wf_seq_set<T>(s: Seq<(Seq<char>, T)>, k: Seq<char>, v: T)
    requires
        crate::table::distinct_keys(s),
    ensures
        crate::table::distinct_keys(seq_set(s, k, v)),
{
    let r = seq_set(s, k, v);
    if seq_contains_key(s, k) {
        crate::table::lemma_key_index(s, k);
        assert forall|i: int, j: int| 0 <= i < j < r.len() implies r[i].0 != r[j].0 by {
            assert(s[i].0 != s[j].0);
        }
    } else {
        assert forall|i: int, j: int| 0 <= i < j < r.len() implies r[i].0 != r[j].0 by {
            if j == s.len() {
                if r[i].0 == k {
                    assert(s[i].0 == k);
                    assert(seq_contains_key(s, k));
                }
            } else {
                assert(s[i].0 != s[j].0);
            }
        }
    }
}

/// Build the label tree of one object literal, as `collect_spec_of` says:
/// static and computed keys must not mix, and every value is a string, a
/// lazy pair, or a nested object.
pub fn collect_labels_from_object_literal(props: &Vec<LabelProp>) -> (r: Result<
    LABELS,
    AnalysisError,
>)
    ensures
        match r {
            Ok(l) => collect_spec_of(props@) == Ok::<LabelsV, AnalysisError>(labels_view(l)),
            Err(e) => collect_spec_of(props@) == Err::<LabelsV, AnalysisError>(e),
        },
    decreases *props,
{
    let mut entries: Vec<LabelEntry> = Vec::new();
    let mut keys: Vec<String> = Vec::new();
    let mut has_computed = false;
    let n = props.len();
    proof {
        lemma_entries_view(entries@, 0);
        assert(entries_view(entries@, 0) =~= Seq::<(Seq<char>, TovV)>::empty());
        assert(keys.deep_view() =~= Seq::<Seq<char>>::empty());
    }
    for i in 0..n
        invariant
            n == props@.len(),
            crate::table::distinct_keys(entries_view(entries@, entries@.len() as int)),
            collect_fold(props@, i as int) == Ok::<LevelV, AnalysisError>(
                LevelV {
                    labels: entries_view(entries@, entries@.len() as int),
                    keys: keys.deep_view(),
                    has_computed: has_computed,
                },
            ),
        decreases n - i,
    {
        let p = &props[i];
        match &p.key {
            LabelKey::Invalid => {
                proof {
                    lemma_collect_error(
                        props@,
                        i + 1,
                        props@.len() as int,
                        AnalysisError::InvalidLabelsShape,
                    );
                }
                return Err(AnalysisError::InvalidLabelsShape);
            }
            LabelKey::Static(name) => {
                if has_computed {
                    proof {
                        lemma_collect_error(
                            props@,
                            i + 1,
                            props@.len() as int,
                            AnalysisError::InvalidLabelsShape,
                        );
                    }
                    return Err(AnalysisError::InvalidLabelsShape);
                }
                let tov = match &p.value {
                    LabelValue::Str(s) => TranslateObjectValue::Str(s.clone()),
                    LabelValue::ObjectLit(o) => {
                        match collect_labels_from_object_literal(o) {
                            Ok(l) => TranslateObjectValue::NestedLabels(l),
                            Err(e) => {
                                proof {
                                    lemma_collect_error(props@, i + 1, props@.len() as int, e);
                                }
                                return Err(e);
                            }
                        }
                    }
                    LabelValue::ArrayLit(vs) => {
                        match lazy_key_exec(vs) {
                            Ok(k) => TranslateObjectValue::Str(k),
                            Err(e) => {
                                proof {
                                    lemma_collect_error(props@, i + 1, props@.len() as int, e);
                                }
                                return Err(e);
                            }
                        }
                    }
                    _ => {
                        proof {
                            lemma_collect_error(
                                props@,
                                i + 1,
                                props@.len() as int,
                                AnalysisError::InvalidLabelsShape,
                            );
                        }
                        return Err(AnalysisError::InvalidLabelsShape);
                    }
                };
                proof {
                    assert(Ok::<TovV, AnalysisError>(tov_view(tov)) == tov_spec(
                        props@[i as int].value,
                    ));
                }
                entry_set(&mut entries, name.clone(), tov);
            }
            LabelKey::Computed => {
                if entries.len() > 0 {
                    proof {
                        lemma_entries_view(entries@, entries@.len() as int);
                        lemma_collect_error(
                            props@,
                            i + 1,
                            props@.len() as int,
                            AnalysisError::InvalidLabelsShape,
                        );
                    }
                    return Err(AnalysisError::InvalidLabelsShape);
                }
                proof {
                    lemma_entries_view(entries@, entries@.len() as int);
                }
                match &p.value {
                    LabelValue::Str(s) => {
                        add_key_exec(&mut keys, s.clone());
                    }
                    LabelValue::ObjectLit(o) => {
                        match flatten_exec(&mut keys, o) {
                            Ok(_) => {}
                            Err(e) => {
                                proof {
                                    lemma_collect_error(props@, i + 1, props@.len() as int, e);
                                }
                                return Err(e);
                            }
                        }
                    }
                    LabelValue::ArrayLit(vs) => {
                        match lazy_key_exec(vs) {
                            Ok(k) => {
                                add_key_exec(&mut keys, k);
                            }
                            Err(e) => {
                                proof {
                                    lemma_collect_error(props@, i + 1, props@.len() as int, e);
                                }
                                return Err(e);
                            }
                        }
                    }
                    _ => {
                        proof {
                            lemma_collect_error(
                                props@,
                                i + 1,
                                props@.len() as int,
                                AnalysisError::InvalidLabelsShape,
                            );
                        }
                        return Err(AnalysisError::InvalidLabelsShape);
                    }
                }
                has_computed = true;
            }
        }
    }
    if has_computed {
        Ok(LABELS::Computed(keys))
    } else {
        Ok(LABELS::ObjectLit(entries))
    }
}

} // verus!

verus! {

/// First index of a static key among the entries.
pub open spec fn entry_index(es: Seq<LabelEntry>, k: Seq<char>) -> int
    decreases es.len(),
{
    if es.len() == 0 {
        0
    } else if es[0].key@ == k {
        0
    } else {
        1 + entry_index(es.drop_first(), k)
    }
}

pub open spec fn entry_contains(es: Seq<LabelEntry>, k: Seq<char>) -> bool {
    exists|i: int| 0 <= i < es.len() && (#[trigger] es[i]).key@ == k
}

pub proof fn lemma_entry_index(es: Seq<LabelEntry>, k: Seq<char>)
    requires
        entry_contains(es, k),
    ensures
        0 <= entry_index(es, k) < es.len(),
        es[entry_index(es, k)].key@ == k,
        forall|i: int| 0 <= i < entry_index(es, k) ==> (#[trigger] es[i]).key@ != k,
    decreases es.len(),
{
    if es.len() > 0 && es[0].key@ != k {
        assert(entry_contains(es.drop_first(), k)) by {
            let i = choose|i: int| 0 <= i < es.len() && (#[trigger] es[i]).key@ == k;
            assert(es.drop_first()[i - 1].key@ == k);
        }
        lemma_entry_index(es.drop_first(), k);
        assert forall|i: int| 0 <= i < entry_index(es, k) implies (#[trigger] es[i]).key@ != k by {
            if i > 0 {
                assert(es.drop_first()[i - 1].key@ != k);
            }
        }
    }
}

/// All keys of a `Computed` level folded into `acc`.
pub open spec fn keys_fold(acc: Seq<Seq<char>>, keys: Seq<String>, n: int) -> Seq<Seq<char>>
    decreases n,
{
    if n <= 0 || n > keys.len() {
        acc
    } else {
        add_key(keys_fold(acc, keys, n - 1), keys[n - 1]@)
    }
}

/// All translation keys reachable under a tree, folded into `acc` in walk
/// order.
pub open spec fn leaves_acc(l: LABELS, acc: Seq<Seq<char>>) -> Seq<Seq<char>>
    decreases l, 1int, 0int,
{
    match l {
        LABELS::Computed(keys) => keys_fold(acc, keys@, keys@.len() as int),
        LABELS::ObjectLit(es) => leaves_entries(es@, es@.len() as int, acc),
    }
}

pub open spec fn leaves_entries(es: Seq<LabelEntry>, n: int, acc: Seq<Seq<char>>) -> Seq<Seq<char>>
    decreases es, 2int, n,
{
    if n <= 0 || n > es.len() {
        acc
    } else {
        let a = leaves_entries(es, n - 1, acc);
        match es[n - 1].value {
            TranslateObjectValue::Str(s) => add_key(a, s@),
            TranslateObjectValue::NestedLabels(l2) => leaves_acc(l2, a),
        }
    }
}

/// Resolution of a member chain against the tree, from step `i` on: an
/// identifier step descends a static level or stops at a translation key;
/// a computed step, or the chain running out, collects every key under the
/// current node; an identifier against a computed level is an error, as is
/// a name that is not there.
pub open spec fn resolve_spec(l: LABELS, chain: Seq<MemberAccess>, i: int) -> Result<
    Seq<Seq<char>>,
    AnalysisError,
>
    decreases chain.len() - i,
{
    if i < 0 || i >= chain.len() {
        Ok(leaves_acc(l, Seq::empty()))
    } else {
        match chain[i] {
            MemberAccess::Computed => Ok(leaves_acc(l, Seq::empty())),
            MemberAccess::Unsupported => Err(AnalysisError::InvalidLabelsShape),
            MemberAccess::IdentProp(s) => match l {
                LABELS::Computed(_) => Err(AnalysisError::InvalidLabelsShape),
                LABELS::ObjectLit(es) => if !entry_contains(es@, s@) {
                    Err(AnalysisError::UnknownSymbol)
                } else {
                    match es@[entry_index(es@, s@)].value {
                        TranslateObjectValue::Str(k) => Ok(seq![k@]),
                        TranslateObjectValue::NestedLabels(l2) => resolve_spec(l2, chain, i + 1),
                    }
                },
            },
        }
    }
}

/// Collect every reachable translation key into `acc`.
fn leaves_exec(l: &LABELS, acc: &mut Vec<String>)
    ensures
        final(acc).deep_view() == leaves_acc(*l, old(acc).deep_view()),
    decreases *l, 1int,
{
    match l {
        LABELS::Computed(keys) => {
            let ghost a0 = acc.deep_view();
            let n = keys.len();
            for i in 0..n
                invariant
                    n == keys@.len(),
                    acc.deep_view() == keys_fold(a0, keys@, i as int),
            {
                add_key_exec(acc, keys[i].clone());
            }
        }
        LABELS::ObjectLit(es) => {
            leaves_entries_exec(es, acc);
        }
    }
}

/// Collect the keys under each entry of one static level into `acc`.
fn leaves_entries_exec(es: &Vec<LabelEntry>, acc: &mut Vec<String>)
    ensures
        final(acc).deep_view() == leaves_entries(es@, es@.len() as int, old(acc).deep_view()),
    decreases *es, 0int,
{
    let ghost a0 = acc.deep_view();
    let n = es.len();
    for i in 0..n
        invariant
            n == es@.len(),
            acc.deep_view() == leaves_entries(es@, i as int, a0),
    {
        let entry = &es[i];
        match &entry.value {
            TranslateObjectValue::Str(s) => {
                add_key_exec(acc, s.clone());
            }
            TranslateObjectValue::NestedLabels(l2) => {
                leaves_exec(l2, acc);
            }
        }
    }
}

impl LABELS {
    /// Follow a member chain and collect the translation keys it can reach,
    /// exactly as `resolve_spec` says.
    pub fn get_translation_keys_for_member_expr(&self, chain: &Vec<MemberAccess>) -> (r: Result<
        Vec<String>,
        AnalysisError,
    >)
        ensures
            match r {
                Ok(keys) => resolve_spec(*self, chain@, 0) == Ok::<
                    Seq<Seq<char>>,
                    AnalysisError,
                >(keys.deep_view()),
                Err(e) => resolve_spec(*self, chain@, 0) == Err::<Seq<Seq<char>>, AnalysisError>(
                    e,
                ),
            },
    {
        resolve_at(self, chain, 0)
    }
}

fn resolve_at(l: &LABELS, chain: &Vec<MemberAccess>, i: usize) -> (r: Result<
    Vec<String>,
    AnalysisError,
>)
    requires
        i <= chain@.len(),
    ensures
        match r {
            Ok(keys) => resolve_spec(*l, chain@, i as int) == Ok::<
                Seq<Seq<char>>,
                AnalysisError,
            >(keys.deep_view()),
            Err(e) => resolve_spec(*l, chain@, i as int) == Err::<Seq<Seq<char>>, AnalysisError>(
                e,
            ),
        },
    decreases chain@.len() - i,
{
    if i >= chain.len() {
        let mut acc: Vec<String> = Vec::new();
        proof {
            assert(acc.deep_view() =~= Seq::<Seq<char>>::empty());
        }
        leaves_exec(l, &mut acc);
        return Ok(acc);
    }
    match &chain[i] {
        MemberAccess::Computed => {
            let mut acc: Vec<String> = Vec::new();
            proof {
                assert(acc.deep_view() =~= Seq::<Seq<char>>::empty());
            }
            leaves_exec(l, &mut acc);
            Ok(acc)
        }
        MemberAccess::Unsupported => Err(AnalysisError::InvalidLabelsShape),
        MemberAccess::IdentProp(s) => match l {
            LABELS::Computed(_) => Err(AnalysisError::InvalidLabelsShape),
            LABELS::ObjectLit(es) => {
                let n = es.len();
                let mut j: usize = 0;
                loop
                    invariant
                        j <= n,
                        n == es@.len(),
                        forall|k: int| 0 <= k < j ==> (#[trigger] es@[k]).key@ != s@,
                    ensures
                        (j == n && !entry_contains(es@, s@)) || (j < n && es@[j as int].key@ == s@
                            && entry_index(es@, s@) == j as int),
                    decreases n - j,
                {
                    if j >= n {
                        proof {
                            if entry_contains(es@, s@) {
                                let k = choose|k: int|
                                    0 <= k < es@.len() && (#[trigger] es@[k]).key@ == s@;
                            }
                        }
                        break;
                    }
                    if es[j].key == *s {
                        proof {
                            assert(entry_contains(es@, s@));
                            lemma_entry_index(es@, s@);
                            let ei = entry_index(es@, s@);
                            if ei < j {
                                assert(es@[ei].key@ != s@);
                            } else if ei > j {
                                assert(es@[j as int].key@ != s@);
                            }
                        }
                        break;
                    }
                    j = j + 1;
                }
                if j == n {
                    return Err(AnalysisError::UnknownSymbol);
                }
                match &es[j].value {
                    TranslateObjectValue::Str(k) => {
                        let mut one: Vec<String> = Vec::new();
                        one.push(k.clone());
                        proof {
                            assert(one.deep_view() =~= seq![k@]) by {
                                assert(one.deep_view()[0] == one@[0]@);
                            }
                        }
                        Ok(one)
                    }
                    TranslateObjectValue::NestedLabels(l2) => resolve_at(l2, chain, i + 1),
                }
            }
        },
    }
}

} // verus!

verus! {

/// The `LABELS` member chains found in one top-level symbol's body.
pub struct SymbolChains {
    pub symbol: String,
    pub chains: Vec<Vec<MemberAccess>>,
}

/// What the i18n pass reads of one module: the module-scope
/// `LABELS = translate({...})` object, if any, and the member chains per
/// top-level symbol.
pub struct LabelsModule {
    pub labels_object: Option<Vec<LabelProp>>,
    pub usages: Vec<SymbolChains>,
}

/// Keys folded into a symbol's accumulated set.
pub open spec fn merge_keys(cur: Seq<Seq<char>>, keys: Seq<Seq<char>>, n: int) -> Seq<Seq<char>>
    decreases n,
{
    if n <= 0 || n > keys.len() {
        cur
    } else {
        add_key(merge_keys(cur, keys, n - 1), keys[n - 1])
    }
}

pub type UsageV = Seq<(Seq<char>, Seq<Seq<char>>)>;

/// One resolved chain merged into the usage map: an empty key set leaves
/// the map unchanged.
pub open spec fn usage_chain(u: UsageV, sym: Seq<char>, tree: LABELS, chain: Vec<MemberAccess>) -> Result<
    UsageV,
    AnalysisError,
> {
    match resolve_spec(tree, chain@, 0) {
        Err(e) => Err(e),
        Ok(keys) => if keys.len() == 0 {
            Ok(u)
        } else {
            let cur = if seq_contains_key(u, sym) {
                seq_get(u, sym)
            } else {
                Seq::empty()
            };
            Ok(seq_set(u, sym, merge_keys(cur, keys, keys.len() as int)))
        },
    }
}

pub open spec fn usage_chains(
    u: UsageV,
    sym: Seq<char>,
    tree: LABELS,
    chains: Seq<Vec<MemberAccess>>,
    n: int,
) -> Result<UsageV, AnalysisError>
    decreases n,
{
    if n <= 0 || n > chains.len() {
        Ok(u)
    } else {
        match usage_chains(u, sym, tree, chains, n - 1) {
            Err(e) => Err(e),
            Ok(u1) => usage_chain(u1, sym, tree, chains[n - 1]),
        }
    }
}

pub open spec fn usage_fold(u: UsageV, tree: LABELS, usages: Seq<SymbolChains>, n: int) -> Result<
    UsageV,
    AnalysisError,
>
    decreases n,
{
    if n <= 0 || n > usages.len() {
        Ok(u)
    } else {
        match usage_fold(u, tree, usages, n - 1) {
            Err(e) => Err(e),
            Ok(u1) => usage_chains(
                u1,
                usages[n - 1].symbol@,
                tree,
                usages[n - 1].chains@,
                usages[n - 1].chains@.len() as int,
            ),
        }
    }
}

proof fn lemma_usage_chains_error(
    u: UsageV,
    sym: Seq<char>,
    tree: LABELS,
    chains: Seq<Vec<MemberAccess>>,
    n: int,
    m: int,
    e: AnalysisError,
)
    requires
        0 <= n <= m <= chains.len(),
        usage_chains(u, sym, tree, chains, n) == Err::<UsageV, AnalysisError>(e),
    ensures
        usage_chains(u, sym, tree, chains, m) == Err::<UsageV, AnalysisError>(e),
    decreases m - n,
{
    if m > n {
        lemma_usage_chains_error(u, sym, tree, chains, n, m - 1, e);
    }
}

proof fn lemma_usage_fold_error(
    u: UsageV,
    tree: LABELS,
    usages: Seq<SymbolChains>,
    n: int,
    m: int,
    e: AnalysisError,
)
    requires
        0 <= n <= m <= usages.len(),
        usage_fold(u, tree, usages, n) == Err::<UsageV, AnalysisError>(e),
    ensures
        usage_fold(u, tree, usages, m) == Err::<UsageV, AnalysisError>(e),
    decreases m - n,
{
    if m > n {
        lemma_usage_fold_error(u, tree, usages, n, m - 1, e);
    }
}

/// Merge resolved keys into the usage entry of one symbol.
fn merge_into(u: &mut StrTable<Vec<String>>, sym: &String, keys: &Vec<String>)
    requires
        old(u).wf(),
    ensures
        final(u).wf(),
        final(u)@ =~= seq_set(
            old(u)@,
            sym@,
            merge_keys(
                if seq_contains_key(old(u)@, sym@) {
                    seq_get(old(u)@, sym@)
                } else {
                    Seq::empty()
                },
                keys.deep_view(),
                keys.deep_view().len() as int,
            ),
        ),
{
    let ghost u0 = u@;
    match u.index_of(sym) {
        Some(i) => {
            let ghost cur = seq_get(u0, sym@);
            let v = u.val_at_mut(i);
            let n = keys.len();
            for k in 0..n
                invariant
                    n == keys@.len(),
                    v.deep_view() == merge_keys(cur, keys.deep_view(), k as int),
            {
                proof {
                    assert(keys.deep_view()[k as int] == keys@[k as int]@);
                }
                add_key_exec(v, keys[k].clone());
            }
        }
        None => {
            let mut merged: Vec<String> = Vec::new();
            proof {
                assert(merged.deep_view() =~= Seq::<Seq<char>>::empty());
            }
            let n = keys.len();
            for k in 0..n
                invariant
                    n == keys@.len(),
                    merged.deep_view() == merge_keys(
                        Seq::empty(),
                        keys.deep_view(),
                        k as int,
                    ),
            {
                proof {
                    assert(keys.deep_view()[k as int] == keys@[k as int]@);
                }
                add_key_exec(&mut merged, keys[k].clone());
            }
            u.push_new(sym.clone(), merged);
        }
    }
}

/// `u` is exactly the usage map the chains produce against the label tree
/// of `props`: the tree exists, and the fold over *every* tree with that
/// view returns `u` (resolution is view-determined, by
/// `lemma_usage_fold_view`).
pub open spec fn labels_usage_post(props: Seq<LabelProp>, usages: Seq<SymbolChains>, u: UsageV) -> bool {
    &&& exists|tree: LABELS|
        collect_spec_of(props) == Ok::<LabelsV, AnalysisError>(#[trigger] labels_view(tree))
    &&& forall|tree: LABELS|
        collect_spec_of(props) == Ok::<LabelsV, AnalysisError>(labels_view(tree))
            ==> #[trigger] usage_fold(Seq::empty(), tree, usages, usages.len() as int) == Ok::<
            UsageV,
            AnalysisError,
        >(u)
}

/// The label usage of one module: `None` when it has no module-scope
/// `LABELS = translate({...})`; otherwise, per top-level symbol, the
/// translation keys its body can reach, exactly as `usage_fold` says.
pub fn get_labels_usage(m: &LabelsModule) -> (r: Result<
    Option<StrTable<Vec<String>>>,
    AnalysisError,
>)
    ensures
        match r {
            Ok(opt) => match opt {
                None => m.labels_object is None,
                Some(u) => u.wf() && match m.labels_object {
                    Some(props) => labels_usage_post(props@, m.usages@, u@),
                    None => false,
                },
            },
            Err(_) => m.labels_object is Some,
        },
{
    let props = match &m.labels_object {
        None => {
            return Ok(None);
        }
        Some(props) => props,
    };
    let tree = match collect_labels_from_object_literal(props) {
        Ok(tree) => tree,
        Err(e) => {
            return Err(e);
        }
    };
    let mut usage: StrTable<Vec<String>> = StrTable::new();
    let n = m.usages.len();
    proof {
        assert(usage@ =~= UsageV::empty());
    }
    for i in 0..n
        invariant
            n == m.usages@.len(),
            m.labels_object is Some,
            usage.wf(),
            usage_fold(Seq::empty(), tree, m.usages@, i as int) == Ok::<UsageV, AnalysisError>(
                usage@,
            ),
            collect_spec_of(m.labels_object.unwrap()@) == Ok::<LabelsV, AnalysisError>(
                labels_view(tree),
            ),
    {
        let sc = &m.usages[i];
        let cn = sc.chains.len();
        let ghost upre = usage@;
        for c in 0..cn
            invariant
                i < n,
                n == m.usages@.len(),
                cn == sc.chains@.len(),
                m.labels_object is Some,
                *sc == m.usages@[i as int],
                usage.wf(),
                usage_chains(upre, sc.symbol@, tree, sc.chains@, c as int) == Ok::<
                    UsageV,
                    AnalysisError,
                >(usage@),
                usage_fold(Seq::empty(), tree, m.usages@, i as int) == Ok::<
                    UsageV,
                    AnalysisError,
                >(upre),
                collect_spec_of(m.labels_object.unwrap()@) == Ok::<LabelsV, AnalysisError>(
                    labels_view(tree),
                ),
        {
            let chain = &sc.chains[c];
            let keys = match tree.get_translation_keys_for_member_expr(chain) {
                Ok(keys) => keys,
                Err(e) => {
                    proof {
                        assert(usage_chains(upre, sc.symbol@, tree, sc.chains@, c + 1) == Err::<
                            UsageV,
                            AnalysisError,
                        >(e));
                        lemma_usage_chains_error(
                            upre,
                            sc.symbol@,
                            tree,
                            sc.chains@,
                            c + 1,
                            sc.chains@.len() as int,
                            e,
                        );
                        assert(usage_fold(Seq::empty(), tree, m.usages@, i + 1) == Err::<
                            UsageV,
                            AnalysisError,
                        >(e));
                        lemma_usage_fold_error(
                            Seq::empty(),
                            tree,
                            m.usages@,
                            i + 1,
                            m.usages@.len() as int,
                            e,
                        );
                    }
                    return Err(e);
                }
            };
            if keys.len() > 0 {
                merge_into(&mut usage, &sc.symbol, &keys);
            }
        }
    }
    proof {
        assert(usage_fold(Seq::empty(), tree, m.usages@, m.usages@.len() as int) == Ok::<
            UsageV,
            AnalysisError,
        >(usage@));
        assert(collect_spec_of(props@) == Ok::<LabelsV, AnalysisError>(labels_view(tree)));
        assert forall|t2: LABELS|
            collect_spec_of(props@) == Ok::<LabelsV, AnalysisError>(labels_view(t2))
                implies #[trigger] usage_fold(
            Seq::empty(),
            t2,
            m.usages@,
            m.usages@.len() as int,
        ) == Ok::<UsageV, AnalysisError>(usage@) by {
            assert(labels_view(t2) == labels_view(tree));
            lemma_usage_fold_view(Seq::empty(), tree, t2, m.usages@, m.usages@.len() as int);
        }
        assert(labels_usage_post(props@, m.usages@, usage@));
    }
    Ok(Some(usage))
}

} // verus!

verus! {

/// One usage map folded into another, key set by key set.
pub open spec fn ext_fold(data: UsageV, target: UsageV, n: int) -> UsageV
    decreases n,
{
    if n <= 0 || n > target.len() {
        data
    } else {
        let d = ext_fold(data, target, n - 1);
        let sym = target[n - 1].0;
        let cur = if seq_contains_key(d, sym) {
            seq_get(d, sym)
        } else {
            Seq::empty()
        };
        seq_set(d, sym, merge_keys(cur, target[n - 1].1, target[n - 1].1.len() as int))
    }
}

/// Accumulated translation usage of one module.
pub struct TranslationUsage {
    pub data: StrTable<Vec<String>>,
}

impl TranslationUsage {
    pub fn new() -> (r: Self)
        ensures
            r.data@ =~= UsageV::empty(),
            r.data.wf(),
    {
        TranslationUsage { data: StrTable::new() }
    }

    /// Fold another usage map into this one, unioning per-symbol key sets.
    pub fn extend(&mut self, target: &StrTable<Vec<String>>)
        requires
            old(self).data.wf(),
            target.wf(),
        ensures
            final(self).data.wf(),
            final(self).data@ =~= ext_fold(old(self).data@, target@, target@.len() as int),
    {
        let n = target.len();
        let ghost d0 = self.data@;
        for i in 0..n
            invariant
                n == target@.len(),
                target.wf(),
                self.data.wf(),
                self.data@ == ext_fold(d0, target@, i as int),
        {
            let sym = target.key_at(i);
            let keys = target.val_at(i);
            proof {
                assert(keys.deep_view() == target@[i as int].1);
            }
            merge_into(&mut self.data, sym, keys);
        }
    }
}

/// One symbol's key set written into the key-to-module-to-symbols index.
pub open spec fn i2s_keys(
    t: Seq<(Seq<char>, UsageV)>,
    keys: Seq<Seq<char>>,
    n: int,
    path: Seq<char>,
    sym: Seq<char>,
) -> Seq<(Seq<char>, UsageV)>
    decreases n,
{
    if n <= 0 || n > keys.len() {
        t
    } else {
        let t1 = i2s_keys(t, keys, n - 1, path, sym);
        let key = keys[n - 1];
        let inner = if seq_contains_key(t1, key) {
            seq_get(t1, key)
        } else {
            Seq::empty()
        };
        let cur = if seq_contains_key(inner, path) {
            seq_get(inner, path)
        } else {
            Seq::empty()
        };
        seq_set(t1, key, seq_set(inner, path, add_key(cur, sym)))
    }
}

/// A whole usage map written into the index.
pub open spec fn i2s_fold(
    t: Seq<(Seq<char>, UsageV)>,
    usage: UsageV,
    n: int,
    path: Seq<char>,
) -> Seq<(Seq<char>, UsageV)>
    decreases n,
{
    if n <= 0 || n > usage.len() {
        t
    } else {
        i2s_keys(
            i2s_fold(t, usage, n - 1, path),
            usage[n - 1].1,
            usage[n - 1].1.len() as int,
            path,
            usage[n - 1].0,
        )
    }
}

/// The index from translation key to the modules and symbols that consume
/// it.
pub struct I18nToSymbol {
    pub table: StrTable<StrTable<Vec<String>>>,
}

impl I18nToSymbol {
    /// Every stored inner table is well-formed.
    pub open spec fn wf(&self) -> bool {
        self.table.wf() && forall|i: int|
            0 <= i < self.table@.len() ==> crate::table::distinct_keys(
                (#[trigger] self.table@[i]).1,
            )
    }

    pub fn new() -> (r: Self)
        ensures
            r.table@ =~= Seq::<(Seq<char>, UsageV)>::empty(),
            r.wf(),
    {
        I18nToSymbol { table: StrTable::new() }
    }

    /// Record one translation key consumed by `sym` of module `path`.
    fn add_usage(&mut self, key: &String, path: &String, sym: &String)
        requires
            old(self).wf(),
        ensures
            final(self).wf(),
            final(self).table@ =~= ({
                let t1 = old(self).table@;
                let inner = if seq_contains_key(t1, key@) {
                    seq_get(t1, key@)
                } else {
                    Seq::empty()
                };
                let cur = if seq_contains_key(inner, path@) {
                    seq_get(inner, path@)
                } else {
                    Seq::empty()
                };
                seq_set(t1, key@, seq_set(inner, path@, add_key(cur, sym@)))
            }),
    {
        let ghost t0 = self.table@;
        match self.table.index_of(key) {
            Some(i) => {
                let inner = self.table.val_at_mut(i);
                proof {
                    assert(crate::table::distinct_keys(t0[i as int].1));
                }
                match inner.index_of(path) {
                    Some(j) => {
                        let v = inner.val_at_mut(j);
                        add_key_exec(v, sym.clone());
                    }
                    None => {
                        let mut v: Vec<String> = Vec::new();
                        proof {
                            assert(v.deep_view() =~= Seq::<Seq<char>>::empty());
                        }
                        add_key_exec(&mut v, sym.clone());
                        inner.push_new(path.clone(), v);
                    }
                }
            }
            None => {
                let mut v: Vec<String> = Vec::new();
                proof {
                    assert(v.deep_view() =~= Seq::<Seq<char>>::empty());
                }
                add_key_exec(&mut v, sym.clone());
                let mut inner: StrTable<Vec<String>> = StrTable::new();
                inner.push_new(path.clone(), v);
                self.table.push_new(key.clone(), inner);
            }
        }
        proof {
            assert forall|i: int|
                0 <= i < self.table@.len() implies crate::table::distinct_keys(
                (#[trigger] self.table@[i]).1,
            ) by {
                if i < t0.len() && self.table@[i] == t0[i] {
                    assert(crate::table::distinct_keys(t0[i].1));
                }
            }
        }
    }

    /// Collect one module's translation usage into the index and hand the
    /// per-module usage map back.
    pub fn collect_i18n_usage(&mut self, mod_path: &String, m: &LabelsModule) -> (r: Result<
        StrTable<Vec<String>>,
        AnalysisError,
    >)
        requires
            old(self).wf(),
        ensures
            final(self).wf(),
            match r {
                Ok(u) => u.wf() && (m.labels_object is Some ==> labels_usage_post(
                    m.labels_object.unwrap()@,
                    m.usages@,
                    u@,
                )) && (m.labels_object is None ==> u@ == UsageV::empty()) && final(self).table@
                    =~= i2s_fold(old(self).table@, u@, u@.len() as int, mod_path@),
                Err(_) => m.labels_object is Some,
            },
    {
        let usage = match get_labels_usage(m) {
            Ok(Some(u)) => u,
            Ok(None) => {
                let empty: StrTable<Vec<String>> = StrTable::new();
                proof {
                    assert(empty@ =~= UsageV::empty());
                }
                return Ok(empty);
            }
            Err(e) => {
                return Err(e);
            }
        };
        let n = usage.len();
        let ghost t0 = self.table@;
        for i in 0..n
            invariant
                n == usage@.len(),
                usage.wf(),
                self.wf(),
                t0 == old(self).table@,
                self.table@ == i2s_fold(t0, usage@, i as int, mod_path@),
        {
            let sym = usage.key_at(i);
            let keys = usage.val_at(i);
            let ghost tpre = self.table@;
            let kn = keys.len();
            proof {
                assert(keys.deep_view() == usage@[i as int].1);
            }
            for k in 0..kn
                invariant
                    i < n,
                    n == usage@.len(),
                    kn == keys@.len(),
                    keys.deep_view() == usage@[i as int].1,
                    sym@ == usage@[i as int].0,
                    self.wf(),
                    self.table@ == i2s_keys(
                        tpre,
                        usage@[i as int].1,
                        k as int,
                        mod_path@,
                        usage@[i as int].0,
                    ),
            {
                proof {
                    assert(keys.deep_view()[k as int] == keys@[k as int]@);
                }
                self.add_usage(&keys[k], mod_path, sym);
            }
        }
        Ok(usage)
    }
}

} // verus!

verus! {

/// First-index congruence: equal key sequences give equal indices.
proof fn lemma_entry_index_same(e1: Seq<LabelEntry>, e2: Seq<LabelEntry>, k: Seq<char>)
    requires
        e1.len() == e2.len(),
        forall|j: int| 0 <= j < e1.len() ==> (#[trigger] e1[j]).key@ == e2[j].key@,
    ensures
        entry_contains(e1, k) == entry_contains(e2, k),
        entry_index(e1, k) == entry_index(e2, k),
    decreases e1.len(),
{
    if entry_contains(e1, k) != entry_contains(e2, k) {
        if entry_contains(e1, k) {
            let j = choose|j: int| 0 <= j < e1.len() && (#[trigger] e1[j]).key@ == k;
            assert((#[trigger] e2[j]).key@ == k);
        } else {
            let j = choose|j: int| 0 <= j < e2.len() && (#[trigger] e2[j]).key@ == k;
            assert((#[trigger] e1[j]).key@ == k);
        }
    }
    if e1.len() > 0 {
        assert(e1[0].key@ == e2[0].key@);
        if e1[0].key@ != k {
            let t1 = e1.drop_first();
            let t2 = e2.drop_first();
            assert forall|j: int| 0 <= j < t1.len() implies (#[trigger] t1[j]).key@
                == t2[j].key@ by {
                assert(t1[j] == e1[j + 1]);
                assert(t2[j] == e2[j + 1]);
                assert(e1[j + 1].key@ == e2[j + 1].key@);
            }
            lemma_entry_index_same(t1, t2, k);
        }
    }
}

proof fn lemma_keys_fold_view(
    acc: Seq<Seq<char>>,
    k1: Seq<String>,
    k2: Seq<String>,
    n: int,
)
    requires
        k1.len() == k2.len(),
        forall|j: int| 0 <= j < k1.len() ==> (#[trigger] k1[j])@ == k2[j]@,
    ensures
        keys_fold(acc, k1, n) == keys_fold(acc, k2, n),
    decreases n,
{
    if n > 0 && n <= k1.len() {
        lemma_keys_fold_view(acc, k1, k2, n - 1);
        assert(k1[n - 1]@ == k2[n - 1]@);
    }
}

/// Collected leaves depend only on the tree's view.
proof fn lemma_leaves_view(t1: LABELS, t2: LABELS, acc: Seq<Seq<char>>)
    requires
        labels_view(t1) == labels_view(t2),
    ensures
        leaves_acc(t1, acc) == leaves_acc(t2, acc),
    decreases t1, 1int, 0int,
{
    match (t1, t2) {
        (LABELS::Computed(k1), LABELS::Computed(k2)) => {
            assert(k1.deep_view() == k2.deep_view());
            assert(k1.deep_view().len() == k1@.len());
            assert(k2.deep_view().len() == k2@.len());
            assert forall|j: int| 0 <= j < k1@.len() implies (#[trigger] k1@[j])@ == k2@[j]@ by {
                assert(k1.deep_view()[j] == k1@[j]@);
                assert(k2.deep_view()[j] == k2@[j]@);
            }
            lemma_keys_fold_view(acc, k1@, k2@, k1@.len() as int);
        }
        (LABELS::ObjectLit(e1), LABELS::ObjectLit(e2)) => {
            lemma_entries_view(e1@, e1@.len() as int);
            lemma_entries_view(e2@, e2@.len() as int);
            assert(entries_view(e1@, e1@.len() as int).len() == e1@.len());
            assert(entries_view(e2@, e2@.len() as int).len() == e2@.len());
            lemma_leaves_entries_view(e1@, e2@, e1@.len() as int, acc);
        }
        (LABELS::Computed(_), LABELS::ObjectLit(_)) => {
            assert(false);
        }
        (LABELS::ObjectLit(_), LABELS::Computed(_)) => {
            assert(false);
        }
    }
}

proof fn lemma_leaves_entries_view(
    e1: Seq<LabelEntry>,
    e2: Seq<LabelEntry>,
    n: int,
    acc: Seq<Seq<char>>,
)
    requires
        e1.len() == e2.len(),
        forall|j: int|
            0 <= j < e1.len() ==> (#[trigger] e1[j]).key@ == e2[j].key@ && tov_view(e1[j].value)
                == tov_view(e2[j].value),
    ensures
        leaves_entries(e1, n, acc) == leaves_entries(e2, n, acc),
    decreases e1, 2int, n,
{
    if n > 0 && n <= e1.len() {
        lemma_leaves_entries_view(e1, e2, n - 1, acc);
        let a = leaves_entries(e1, n - 1, acc);
        match (e1[n - 1].value, e2[n - 1].value) {
            (TranslateObjectValue::Str(s1), TranslateObjectValue::Str(s2)) => {
                assert(s1@ == s2@);
            }
            (TranslateObjectValue::NestedLabels(l1), TranslateObjectValue::NestedLabels(l2)) => {
                assert(labels_view(l1) == labels_view(l2));
                lemma_leaves_view(l1, l2, a);
            }
            _ => {
                assert(false);
            }
        }
    }
}

/// Resolution depends only on the tree's view.
proof fn lemma_resolve_view(t1: LABELS, t2: LABELS, chain: Seq<MemberAccess>, i: int)
    requires
        labels_view(t1) == labels_view(t2),
    ensures
        resolve_spec(t1, chain, i) == resolve_spec(t2, chain, i),
    decreases chain.len() - i,
{
    if i < 0 || i >= chain.len() {
        lemma_leaves_view(t1, t2, Seq::empty());
    } else {
        match chain[i] {
            MemberAccess::Computed => {
                lemma_leaves_view(t1, t2, Seq::empty());
            }
            MemberAccess::Unsupported => {}
            MemberAccess::IdentProp(s) => {
                match (t1, t2) {
                    (LABELS::ObjectLit(e1), LABELS::ObjectLit(e2)) => {
                        lemma_entries_view(e1@, e1@.len() as int);
                        lemma_entries_view(e2@, e2@.len() as int);
                        assert(e1@.len() == e2@.len());
                        assert forall|j: int|
                            0 <= j < e1@.len() implies (#[trigger] e1@[j]).key@ == e2@[j].key@
                            && tov_view(e1@[j].value) == tov_view(e2@[j].value) by {
                            assert(entries_view(e1@, e1@.len() as int)[j] == (
                                e1@[j].key@,
                                tov_view(e1@[j].value),
                            ));
                            assert(entries_view(e2@, e2@.len() as int)[j] == (
                                e2@[j].key@,
                                tov_view(e2@[j].value),
                            ));
                        }
                        lemma_entry_index_same(e1@, e2@, s@);
                        if entry_contains(e1@, s@) {
                            lemma_entry_index(e1@, s@);
                            let j = entry_index(e1@, s@);
                            match (e1@[j].value, e2@[j].value) {
                                (
                                    TranslateObjectValue::Str(s1),
                                    TranslateObjectValue::Str(s2),
                                ) => {
                                    assert(s1@ == s2@);
                                }
                                (
                                    TranslateObjectValue::NestedLabels(l1),
                                    TranslateObjectValue::NestedLabels(l2),
                                ) => {
                                    assert(labels_view(l1) == labels_view(l2));
                                    lemma_resolve_view(l1, l2, chain, i + 1);
                                }
                                _ => {
                                    assert(false);
                                }
                            }
                        }
                    }
                    (LABELS::Computed(_), LABELS::Computed(_)) => {}
                    _ => {
                        assert(false);
                    }
                }
            }
        }
    }
}

proof fn lemma_usage_chains_view(
    u: UsageV,
    sym: Seq<char>,
    t1: LABELS,
    t2: LABELS,
    chains: Seq<Vec<MemberAccess>>,
    n: int,
)
    requires
        labels_view(t1) == labels_view(t2),
    ensures
        usage_chains(u, sym, t1, chains, n) == usage_chains(u, sym, t2, chains, n),
    decreases n,
{
    if n > 0 && n <= chains.len() {
        lemma_usage_chains_view(u, sym, t1, t2, chains, n - 1);
        lemma_resolve_view(t1, t2, chains[n - 1]@, 0);
    }
}

/// The whole usage fold depends only on the tree's view.
pub proof fn lemma_usage_fold_view(
    u: UsageV,
    t1: LABELS,
    t2: LABELS,
    usages: Seq<SymbolChains>,
    n: int,
)
    requires
        labels_view(t1) == labels_view(t2),
    ensures
        usage_fold(u, t1, usages, n) == usage_fold(u, t2, usages, n),
    decreases n,
{
    if n > 0 && n <= usages.len() {
        lemma_usage_fold_view(u, t1, t2, usages, n - 1);
        match usage_fold(u, t1, usages, n - 1) {
            Ok(u1) => {
                lemma_usage_chains_view(
                    u1,
                    usages[n - 1].symbol@,
                    t1,
                    t2,
                    usages[n - 1].chains@,
                    usages[n - 1].chains@.len() as int,
                );
            }
            Err(_) => {}
        }
    }
}

} // verus!
