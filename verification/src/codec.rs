//! The portable artifact's file format: a JSON value tree, a writer, and a
//! strict reader for exactly the writer's output shape.

use vstd::prelude::*;

use crate::table::StrTable;
use crate::types::AnalysisError;
use crate::used_by_graph::Module;
use crate::used_by_graph::UsedBy;
use crate::used_by_graph::UsedByGraph;
use crate::used_by_graph::UsedByOther;
use crate::used_by_graph::UsedByType;

verus! {

/// A JSON value, as much of it as the artifact needs.
pub enum JValue {
    JNull,
    JStr(String),
    JArr(Vec<JValue>),
    JObj(Vec<(String, JValue)>),
}

/// Relies on String's FromIterator impl: the returned string holds exactly
/// the given characters, in order.
#[verifier::external_body]
fn chars_to_string(cs: &Vec<char>) -> (r: String)
    ensures
        r@ == cs.deep_view(),
{
    cs.iter().collect()
}

/// One character of string content escaped for emission.
pub open spec fn esc_char(c: char) -> Seq<char> {
    if c == '"' {
        seq!['\\', '"']
    } else if c == '\\' {
        seq!['\\', '\\']
    } else if c == '\n' {
        seq!['\\', 'n']
    } else if c == '\r' {
        seq!['\\', 'r']
    } else if c == '\t' {
        seq!['\\', 't']
    } else {
        seq![c]
    }
}

pub open spec fn esc_from(s: Seq<char>, i: int) -> Seq<char>
    decreases s.len() - i,
{
    if i < 0 || i >= s.len() {
        Seq::empty()
    } else {
        esc_char(s[i]) + esc_from(s, i + 1)
    }
}

/// Append the escaped form of `s` to `out`.
fn write_escaped(out: &mut String, s: &String)
    ensures
        final(out)@ == old(out)@ + esc_from(s@, 0),
{
    let ss = s.as_str();
    let n = ss.unicode_len();
    let mut i: usize = 0;
    while i < n
        invariant
            i <= n,
            n == s@.len(),
            ss@ == s@,
            out@ + esc_from(s@, i as int) == old(out)@ + esc_from(s@, 0),
        decreases n - i,
    {
        let ghost opre = out@;
        let c = ss.get_char(i);
        if c == '"' {
            out.append("\\\"");
            proof {
                reveal_strlit("\\\"");
                assert(out@ =~= opre + esc_char(s@[i as int]));
            }
        } else if c == '\\' {
            out.append("\\\\");
            proof {
                reveal_strlit("\\\\");
                assert(out@ =~= opre + esc_char(s@[i as int]));
            }
        } else if c == '\n' {
            out.append("\\n");
            proof {
                reveal_strlit("\\n");
                assert(out@ =~= opre + esc_char(s@[i as int]));
            }
        } else if c == '\r' {
            out.append("\\r");
            proof {
                reveal_strlit("\\r");
                assert(out@ =~= opre + esc_char(s@[i as int]));
            }
        } else if c == '\t' {
            out.append("\\t");
            proof {
                reveal_strlit("\\t");
                assert(out@ =~= opre + esc_char(s@[i as int]));
            }
        } else {
            let piece = ss.substring_char(i, i + 1);
            out.append(piece);
            proof {
                assert(piece@ =~= seq![s@[i as int]]);
                assert(out@ =~= opre + esc_char(s@[i as int]));
            }
        }
        proof {
            assert(esc_from(s@, i as int) == esc_char(s@[i as int]) + esc_from(s@, i + 1));
            assert(out@ + esc_from(s@, i + 1) =~= opre + esc_from(s@, i as int));
        }
        i = i + 1;
    }
    proof {
        assert(esc_from(s@, n as int) =~= Seq::<char>::empty());
        assert(out@ =~= out@ + esc_from(s@, n as int));
    }
}

/// A quoted, escaped string literal of the emitted text.
pub open spec fn jstr_text(s: Seq<char>) -> Seq<char> {
    seq!['"'] + esc_from(s, 0) + seq!['"']
}

/// The compact text of one value.
pub open spec fn text_of(v: JValue) -> Seq<char>
    decreases v, 1int,
{
    match v {
        JValue::JNull => "null"@,
        JValue::JStr(s) => jstr_text(s@),
        JValue::JArr(vs) => seq!['['] + items_text(vs, vs@.len() as int) + seq![']'],
        JValue::JObj(ps) => seq!['{'] + members_text(ps, ps@.len() as int) + seq!['}'],
    }
}

/// The comma-joined texts of the first `n` items.
pub open spec fn items_text(vs: Vec<JValue>, n: int) -> Seq<char>
    decreases vs, 0int, n,
{
    if n <= 0 || n > vs@.len() {
        Seq::<char>::empty()
    } else if n == 1 {
        text_of(vs[0])
    } else {
        items_text(vs, n - 1) + seq![','] + text_of(vs[n - 1])
    }
}

/// The comma-joined `"key":value` texts of the first `n` members.
pub open spec fn members_text(ps: Vec<(String, JValue)>, n: int) -> Seq<char>
    decreases ps, 0int, n,
{
    if n <= 0 || n > ps@.len() {
        Seq::<char>::empty()
    } else if n == 1 {
        jstr_text(ps[0].0@) + seq![':'] + text_of(ps[0].1)
    } else {
        members_text(ps, n - 1) + seq![','] + jstr_text(ps[n - 1].0@) + seq![':'] + text_of(
            ps[n - 1].1,
        )
    }
}

/// Arbitrary texts, comma-joined.
pub open spec fn joined(ts: Seq<Seq<char>>, n: int) -> Seq<char>
    decreases n,
{
    if n <= 0 || n > ts.len() {
        Seq::<char>::empty()
    } else if n == 1 {
        ts[0]
    } else {
        joined(ts, n - 1) + seq![','] + ts[n - 1]
    }
}

/// Keyed texts, comma-joined as `"key":text` members.
pub open spec fn mjoined(ks: Seq<Seq<char>>, ts: Seq<Seq<char>>, n: int) -> Seq<char>
    decreases n,
{
    if n <= 0 || n > ks.len() || n > ts.len() {
        Seq::<char>::empty()
    } else if n == 1 {
        jstr_text(ks[0]) + seq![':'] + ts[0]
    } else {
        mjoined(ks, ts, n - 1) + seq![','] + jstr_text(ks[n - 1]) + seq![':'] + ts[n - 1]
    }
}

proof fn lemma_items_joined(vs: Vec<JValue>, ts: Seq<Seq<char>>, n: int)
    requires
        0 <= n <= vs@.len(),
        n <= ts.len(),
        forall|j: int| 0 <= j < n ==> text_of(#[trigger] vs[j]) == ts[j],
    ensures
        items_text(vs, n) == joined(ts, n),
    decreases n,
{
    if n > 0 {
        lemma_items_joined(vs, ts, n - 1);
    }
}

proof fn lemma_members_joined(
    ps: Vec<(String, JValue)>,
    ks: Seq<Seq<char>>,
    ts: Seq<Seq<char>>,
    n: int,
)
    requires
        0 <= n <= ps@.len(),
        n <= ks.len(),
        n <= ts.len(),
        forall|j: int| 0 <= j < n ==> (#[trigger] ps[j]).0@ == ks[j] && text_of(ps[j].1) == ts[j],
    ensures
        members_text(ps, n) == mjoined(ks, ts, n),
    decreases n,
{
    if n > 0 {
        lemma_members_joined(ps, ks, ts, n - 1);
    }
}

/// The emitted text of a list of strings.
pub open spec fn string_list_text(l: Seq<Seq<char>>) -> Seq<char> {
    seq!['['] + joined(l.map_values(|s: Seq<char>| jstr_text(s)), l.len() as int) + seq![']']
}

/// The emitted text of a per-module usage table.
pub open spec fn usage_table_text(t: Seq<(Seq<char>, Seq<Seq<char>>)>) -> Seq<char> {
    seq!['{'] + mjoined(
        crate::table::keys_of(t),
        t.map_values(|e: (Seq<char>, Seq<Seq<char>>)| string_list_text(e.1)),
        t.len() as int,
    ) + seq!['}']
}

/// The emitted text of a nested usage table.
pub open spec fn nested_table_text(
    t: Seq<(Seq<char>, Seq<(Seq<char>, Seq<Seq<char>>)>)>,
) -> Seq<char> {
    seq!['{'] + mjoined(
        crate::table::keys_of(t),
        t.map_values(|e: (Seq<char>, Seq<(Seq<char>, Seq<Seq<char>>)>)| usage_table_text(e.1)),
        t.len() as int,
    ) + seq!['}']
}

/// The emitted text of the translation table.
pub open spec fn translation_text(t: Seq<(Seq<char>, Seq<char>)>) -> Seq<char> {
    seq!['{'] + mjoined(
        crate::table::keys_of(t),
        t.map_values(|e: (Seq<char>, Seq<char>)| jstr_text(e.1)),
        t.len() as int,
    ) + seq!['}']
}

/// The emitted text of one used-by target kind.
pub open spec fn ubt_text(t: crate::used_by_graph::UsedByTypeV) -> Seq<char> {
    match t {
        crate::used_by_graph::UsedByTypeV::NamedExport(s) => seq!['{'] + jstr_text("NamedExport"@)
            + seq![':'] + jstr_text(s) + seq!['}'],
        crate::used_by_graph::UsedByTypeV::DefaultExport => jstr_text("DefaultExport"@),
        crate::used_by_graph::UsedByTypeV::LocalVar(s) => seq!['{'] + jstr_text("LocalVar"@)
            + seq![':'] + jstr_text(s) + seq!['}'],
    }
}

/// The emitted text of one used-by record.
pub open spec fn ub_text(u: crate::used_by_graph::UsedByV) -> Seq<char> {
    match u {
        crate::used_by_graph::UsedByV::Itself(t) => seq!['{'] + jstr_text("Itself"@) + seq![':']
            + ubt_text(t) + seq!['}'],
        crate::used_by_graph::UsedByV::Other(o) => seq!['{'] + jstr_text("Other"@) + seq![':']
            + seq!['{'] + jstr_text("by"@) + seq![':'] + jstr_text(o.by) + seq![','] + jstr_text(
            "by_type"@,
        ) + seq![':'] + ubt_text(o.by_type) + seq!['}'] + seq!['}'],
    }
}

/// The emitted text of an optional used-by list: absent is `null`, present
/// is the list in the serialization order.
pub open spec fn opt_list_text(l: Option<Seq<crate::used_by_graph::UsedByV>>) -> Seq<char> {
    match l {
        Option::None => "null"@,
        Option::Some(v) => {
            let sv = crate::used_by_graph::sort_ub(v, v.len() as int);
            seq!['['] + joined(
                sv.map_values(|u: crate::used_by_graph::UsedByV| ub_text(u)),
                sv.len() as int,
            ) + seq![']']
        },
    }
}

/// The emitted text of one symbol-to-users table.
pub open spec fn edge_table_text(
    t: Seq<(Seq<char>, Option<Seq<crate::used_by_graph::UsedByV>>)>,
) -> Seq<char> {
    seq!['{'] + mjoined(
        crate::table::keys_of(t),
        t.map_values(
            |e: (Seq<char>, Option<Seq<crate::used_by_graph::UsedByV>>)| opt_list_text(e.1),
        ),
        t.len() as int,
    ) + seq!['}']
}

/// The emitted text of one module of the used-by graph.
pub open spec fn module_text(m: crate::used_by_graph::ModuleV) -> Seq<char> {
    seq!['{'] + mjoined(
        seq!["local_variable_table"@, "named_export_table"@, "default_export"@],
        seq![
            edge_table_text(m.local_variable_table),
            edge_table_text(m.named_export_table),
            opt_list_text(m.default_export),
        ],
        3,
    ) + seq!['}']
}

/// The emitted text of the used-by graph.
pub open spec fn graph_text(ms: Seq<(Seq<char>, crate::used_by_graph::ModuleV)>) -> Seq<char> {
    seq!['{'] + mjoined(
        seq!["modules"@],
        seq![
            seq!['{'] + mjoined(
                crate::table::keys_of(ms),
                ms.map_values(|e: (Seq<char>, crate::used_by_graph::ModuleV)| module_text(e.1)),
                ms.len() as int,
            ) + seq!['}'],
        ],
        1,
    ) + seq!['}']
}

/// The whole artifact's emitted text: five fixed members in order.
pub open spec fn export_text(p: crate::portable::Portable) -> Seq<char> {
    seq!['{'] + mjoined(
        seq![
            "project_root"@,
            "translation_json"@,
            "i18n_to_symbol"@,
            "symbol_to_route"@,
            "used_by_graph"@,
        ],
        seq![
            jstr_text(p.project_root@),
            translation_text(p.translation_json@),
            nested_table_text(p.i18n_to_symbol@),
            nested_table_text(p.symbol_to_route@),
            graph_text(p.used_by_graph.modules@),
        ],
        5,
    ) + seq!['}']
}

/// Write one value as compact JSON.
pub fn write_value(v: &JValue, out: &mut String)
    ensures
        final(out)@ == old(out)@ + text_of(*v),
    decreases *v, 1int,
{
    let ghost o0 = out@;
    match v {
        JValue::JNull => {
            out.append("null");
            proof {
                assert(out@ =~= o0 + text_of(*v));
            }
        }
        JValue::JStr(s) => {
            out.append("\"");
            write_escaped(out, s);
            out.append("\"");
            proof {
                reveal_strlit("\"");
                assert(out@ =~= o0 + text_of(*v));
            }
        }
        JValue::JArr(vs) => {
            out.append("[");
            write_items(vs, out);
            out.append("]");
            proof {
                reveal_strlit("[");
                reveal_strlit("]");
                assert(out@ =~= o0 + text_of(*v));
            }
        }
        JValue::JObj(ps) => {
            out.append("{");
            write_members(ps, out);
            out.append("}");
            proof {
                reveal_strlit("{");
                reveal_strlit("}");
                assert(out@ =~= o0 + text_of(*v));
            }
        }
    }
}

fn write_items(vs: &Vec<JValue>, out: &mut String)
    ensures
        final(out)@ == old(out)@ + items_text(*vs, vs@.len() as int),
    decreases *vs, 0int,
{
    let n = vs.len();
    proof {
        assert(out@ =~= old(out)@ + items_text(*vs, 0));
    }
    for i in 0..n
        invariant
            n == vs@.len(),
            out@ == old(out)@ + items_text(*vs, i as int),
    {
        let ghost opre = out@;
        if i > 0 {
            out.append(",");
            proof {
                reveal_strlit(",");
            }
        }
        let el = &vs[i];
        write_value(el, out);
        proof {
            if i == 0 {
                assert(out@ =~= opre + text_of(vs@[0]));
                assert(items_text(*vs, 1) == text_of(vs@[0]));
                assert(out@ =~= old(out)@ + items_text(*vs, i + 1));
            } else {
                assert(out@ =~= opre + seq![','] + text_of(vs@[i as int]));
                assert(items_text(*vs, i + 1) == items_text(*vs, i as int) + seq![','] + text_of(
                    vs@[i as int],
                ));
                assert(out@ =~= old(out)@ + items_text(*vs, i + 1));
            }
        }
    }
}

fn write_members(ps: &Vec<(String, JValue)>, out: &mut String)
    ensures
        final(out)@ == old(out)@ + members_text(*ps, ps@.len() as int),
    decreases *ps, 0int,
{
    let n = ps.len();
    proof {
        assert(out@ =~= old(out)@ + members_text(*ps, 0));
    }
    for i in 0..n
        invariant
            n == ps@.len(),
            out@ == old(out)@ + members_text(*ps, i as int),
    {
        let ghost opre = out@;
        if i > 0 {
            out.append(",");
            proof {
                reveal_strlit(",");
            }
        }
        out.append("\"");
        write_escaped(out, &ps[i].0);
        out.append("\":");
        let el = &ps[i].1;
        write_value(el, out);
        proof {
            reveal_strlit("\"");
            reveal_strlit("\":");
            if i == 0 {
                assert(out@ =~= opre + jstr_text(ps@[0].0@) + seq![':'] + text_of(ps@[0].1));
                assert(out@ =~= old(out)@ + members_text(*ps, i + 1));
            } else {
                assert(out@ =~= opre + seq![','] + jstr_text(ps@[i as int].0@) + seq![':']
                    + text_of(ps@[i as int].1));
                assert(members_text(*ps, i + 1) == members_text(*ps, i as int) + seq![',']
                    + jstr_text(ps@[i as int].0@) + seq![':'] + text_of(ps@[i as int].1));
                assert(out@ =~= old(out)@ + members_text(*ps, i + 1));
            }
        }
    }
}

/// Parse a string body starting after the opening quote; returns the text
/// and the index just past the closing quote.
fn parse_string_body(cs: &Vec<char>, start: usize) -> (r: Result<(String, usize), AnalysisError>)
    requires
        start <= cs@.len(),
    ensures
        match r {
            Ok((_, j)) => start < j <= cs@.len(),
            Err(e) => e == AnalysisError::MalformedArtifact,
        },
{
    let n = cs.len();
    let mut buf: Vec<char> = Vec::new();
    let mut i = start;
    loop
        invariant
            start <= i <= n,
            n == cs@.len(),
        decreases n - i,
    {
        if i >= n {
            return Err(AnalysisError::MalformedArtifact);
        }
        let c = cs[i];
        if c == '"' {
            return Ok((chars_to_string(&buf), i + 1));
        }
        if c == '\\' {
            if i + 1 >= n {
                return Err(AnalysisError::MalformedArtifact);
            }
            let e = cs[i + 1];
            if e == '"' {
                buf.push('"');
            } else if e == '\\' {
                buf.push('\\');
            } else if e == 'n' {
                buf.push('\n');
            } else if e == 'r' {
                buf.push('\r');
            } else if e == 't' {
                buf.push('\t');
            } else {
                return Err(AnalysisError::MalformedArtifact);
            }
            i = i + 2;
        } else {
            buf.push(c);
            i = i + 1;
        }
    }
}

/// Parse one value at `i`; returns it and the index just past it.
pub fn parse_value(cs: &Vec<char>, i: usize) -> (r: Result<(JValue, usize), AnalysisError>)
    requires
        i <= cs@.len(),
    ensures
        match r {
            Ok((_, j)) => i < j <= cs@.len(),
            Err(e) => e == AnalysisError::MalformedArtifact,
        },
    decreases cs@.len() - i,
{
    let n = cs.len();
    if i >= n {
        return Err(AnalysisError::MalformedArtifact);
    }
    let c = cs[i];
    if c == 'n' {
        if n - i >= 4 && cs[i + 1] == 'u' && cs[i + 2] == 'l' && cs[i + 3] == 'l' {
            Ok((JValue::JNull, i + 4))
        } else {
            Err(AnalysisError::MalformedArtifact)
        }
    } else if c == '"' {
        match parse_string_body(cs, i + 1) {
            Ok((s, j)) => Ok((JValue::JStr(s), j)),
            Err(e) => Err(e),
        }
    } else if c == '[' {
        let mut items: Vec<JValue> = Vec::new();
        let mut cur = i + 1;
        if cur < n && cs[cur] == ']' {
            return Ok((JValue::JArr(items), cur + 1));
        }
        loop
            invariant
                i < cur <= n,
                n == cs@.len(),
            decreases n - cur,
        {
            let (v, j) = match parse_value(cs, cur) {
                Ok(p) => p,
                Err(e) => {
                    return Err(e);
                }
            };
            items.push(v);
            if j >= n {
                return Err(AnalysisError::MalformedArtifact);
            }
            if cs[j] == ']' {
                return Ok((JValue::JArr(items), j + 1));
            }
            if cs[j] != ',' {
                return Err(AnalysisError::MalformedArtifact);
            }
            cur = j + 1;
        }
    } else if c == '{' {
        let mut members: Vec<(String, JValue)> = Vec::new();
        let mut cur = i + 1;
        if cur < n && cs[cur] == '}' {
            return Ok((JValue::JObj(members), cur + 1));
        }
        loop
            invariant
                i < cur <= n,
                n == cs@.len(),
            decreases n - cur,
        {
            if cur >= n || cs[cur] != '"' {
                return Err(AnalysisError::MalformedArtifact);
            }
            let (k, jk) = match parse_string_body(cs, cur + 1) {
                Ok(p) => p,
                Err(e) => {
                    return Err(e);
                }
            };
            if jk >= n || cs[jk] != ':' {
                return Err(AnalysisError::MalformedArtifact);
            }
            let (v, j) = match parse_value(cs, jk + 1) {
                Ok(p) => p,
                Err(e) => {
                    return Err(e);
                }
            };
            members.push((k, v));
            if j >= n {
                return Err(AnalysisError::MalformedArtifact);
            }
            if cs[j] == '}' {
                return Ok((JValue::JObj(members), j + 1));
            }
            if cs[j] != ',' {
                return Err(AnalysisError::MalformedArtifact);
            }
            cur = j + 1;
        }
    } else {
        Err(AnalysisError::MalformedArtifact)
    }
}

/// The characters of a string, one by one.
fn string_chars(s: &String) -> (r: Vec<char>)
    ensures
        r.deep_view() == s@,
{
    let ss = s.as_str();
    let n = ss.unicode_len();
    let mut out: Vec<char> = Vec::new();
    proof {
        assert(out.deep_view() =~= s@.take(0));
    }
    for i in 0..n
        invariant
            n == s@.len(),
            ss@ == s@,
            out.deep_view() == s@.take(i as int),
    {
        let ghost pre = out@;
        proof {
            assert(out.deep_view().len() == out@.len());
            assert(s@.take(i as int).len() == i);
            assert(pre.len() == i);
        }
        out.push(ss.get_char(i));
        proof {
            assert(out.deep_view() =~= s@.take(i + 1)) by {
                assert forall|j: int| 0 <= j < out.deep_view().len() implies out.deep_view()[j]
                    == s@.take(i + 1)[j] by {
                    assert(out.deep_view()[j] == out@[j]);
                    if j < i {
                        assert(out@[j] == pre[j]);
                    }
                }
            }
        }
    }
    proof {
        assert(s@.take(n as int) =~= s@);
    }
    out
}

/// Parse a whole artifact text into a value; trailing text is an error.
pub fn parse_text(text: &String) -> (r: Result<JValue, AnalysisError>)
    ensures
        match r {
            Ok(_) => true,
            Err(e) => e == AnalysisError::MalformedArtifact,
        },
{
    let cs = string_chars(text);
    match parse_value(&cs, 0) {
        Err(e) => Err(e),
        Ok((v, j)) => {
            if j == cs.len() {
                Ok(v)
            } else {
                Err(AnalysisError::MalformedArtifact)
            }
        }
    }
}

} // verus!

verus! {

fn enc_string_list(v: &Vec<String>) -> (r: JValue)
    ensures
        text_of(r) == string_list_text(v.deep_view()),
{
    let ghost vd = v.deep_view();
    let mut items: Vec<JValue> = Vec::new();
    let n = v.len();
    for i in 0..n
        invariant
            n == v@.len(),
            vd == v.deep_view(),
            items@.len() == i,
            forall|j: int| 0 <= j < i ==> text_of(#[trigger] items[j]) == jstr_text(vd[j]),
    {
        let ghost ipre = items@;
        items.push(JValue::JStr(v[i].clone()));
        proof {
            assert(text_of(items[i as int]) == jstr_text(vd[i as int]));
            assert forall|j: int| 0 <= j < i + 1 implies text_of(#[trigger] items[j]) == jstr_text(
                vd[j],
            ) by {
                if j < i {
                    assert(items@[j] == ipre[j]);
                }
            }
        }
    }
    proof {
        lemma_items_joined(items, vd.map_values(|s: Seq<char>| jstr_text(s)), n as int);
        assert(seq!['['] + items_text(items, items@.len() as int) + seq![']'] =~= string_list_text(
            vd,
        ));
    }
    JValue::JArr(items)
}

fn enc_usage_table(t: &StrTable<Vec<String>>) -> (r: JValue)
    ensures
        text_of(r) == usage_table_text(t@),
{
    let ghost td = t@;
    let mut members: Vec<(String, JValue)> = Vec::new();
    let n = t.len();
    for i in 0..n
        invariant
            n == t@.len(),
            td == t@,
            members@.len() == i,
            forall|j: int|
                0 <= j < i ==> (#[trigger] members[j]).0@ == td[j].0 && text_of(members[j].1)
                    == string_list_text(td[j].1),
    {
        let ghost mpre = members@;
        members.push((t.key_at(i).clone(), enc_string_list(t.val_at(i))));
        proof {
            assert(members[i as int].0@ == td[i as int].0);
            assert(text_of(members[i as int].1) == string_list_text(td[i as int].1));
            assert forall|j: int|
                0 <= j < i + 1 implies (#[trigger] members[j]).0@ == td[j].0 && text_of(
                members[j].1,
            ) == string_list_text(td[j].1) by {
                if j < i {
                    assert(members@[j] == mpre[j]);
                }
            }
        }
    }
    proof {
        lemma_members_joined(
            members,
            crate::table::keys_of(td),
            td.map_values(|e: (Seq<char>, Seq<Seq<char>>)| string_list_text(e.1)),
            n as int,
        );
        assert(seq!['{'] + members_text(members, members@.len() as int) + seq!['}']
            =~= usage_table_text(td));
    }
    JValue::JObj(members)
}

fn enc_nested_table(t: &StrTable<StrTable<Vec<String>>>) -> (r: JValue)
    requires
        t.wf(),
    ensures
        text_of(r) == nested_table_text(t@),
{
    let ghost td = t@;
    let mut members: Vec<(String, JValue)> = Vec::new();
    let n = t.len();
    for i in 0..n
        invariant
            n == t@.len(),
            td == t@,
            members@.len() == i,
            forall|j: int|
                0 <= j < i ==> (#[trigger] members[j]).0@ == td[j].0 && text_of(members[j].1)
                    == usage_table_text(td[j].1),
    {
        let ghost mpre = members@;
        members.push((t.key_at(i).clone(), enc_usage_table(t.val_at(i))));
        proof {
            assert(members[i as int].0@ == td[i as int].0);
            assert(text_of(members[i as int].1) == usage_table_text(td[i as int].1));
            assert forall|j: int|
                0 <= j < i + 1 implies (#[trigger] members[j]).0@ == td[j].0 && text_of(
                members[j].1,
            ) == usage_table_text(td[j].1) by {
                if j < i {
                    assert(members@[j] == mpre[j]);
                }
            }
        }
    }
    proof {
        lemma_members_joined(
            members,
            crate::table::keys_of(td),
            td.map_values(
                |e: (Seq<char>, Seq<(Seq<char>, Seq<Seq<char>>)>)| usage_table_text(e.1),
            ),
            n as int,
        );
        assert(seq!['{'] + members_text(members, members@.len() as int) + seq!['}']
            =~= nested_table_text(td));
    }
    JValue::JObj(members)
}

fn enc_translation(t: &StrTable<String>) -> (r: JValue)
    ensures
        text_of(r) == translation_text(t@),
{
    let ghost td = t@;
    let mut members: Vec<(String, JValue)> = Vec::new();
    let n = t.len();
    for i in 0..n
        invariant
            n == t@.len(),
            td == t@,
            members@.len() == i,
            forall|j: int|
                0 <= j < i ==> (#[trigger] members[j]).0@ == td[j].0 && text_of(members[j].1)
                    == jstr_text(td[j].1),
    {
        let ghost mpre = members@;
        members.push((t.key_at(i).clone(), JValue::JStr(t.val_at(i).clone())));
        proof {
            assert(members[i as int].0@ == td[i as int].0);
            assert(text_of(members[i as int].1) == jstr_text(td[i as int].1));
            assert forall|j: int|
                0 <= j < i + 1 implies (#[trigger] members[j]).0@ == td[j].0 && text_of(
                members[j].1,
            ) == jstr_text(td[j].1) by {
                if j < i {
                    assert(members@[j] == mpre[j]);
                }
            }
        }
    }
    proof {
        lemma_members_joined(
            members,
            crate::table::keys_of(td),
            td.map_values(|e: (Seq<char>, Seq<char>)| jstr_text(e.1)),
            n as int,
        );
        assert(seq!['{'] + members_text(members, members@.len() as int) + seq!['}']
            =~= translation_text(td));
    }
    JValue::JObj(members)
}

fn enc_used_by_type(t: &UsedByType) -> (r: JValue)
    ensures
        text_of(r) == ubt_text(t.deep_view()),
{
    match t {
        UsedByType::NamedExport(s) => {
            let mut m: Vec<(String, JValue)> = Vec::new();
            m.push((String::from_str("NamedExport"), JValue::JStr(s.clone())));
            proof {
                assert(m@.len() == 1);
                assert(m@[0].0@ == "NamedExport"@);
                assert(text_of(m@[0].1) == jstr_text(s@));
                assert(members_text(m, 1) == jstr_text(m@[0].0@) + seq![':'] + text_of(m@[0].1));
                assert(members_text(m, 1) =~= jstr_text("NamedExport"@) + seq![':'] + jstr_text(
                    s@,
                ));
                assert(seq!['{'] + members_text(m, m@.len() as int) + seq!['}'] =~= ubt_text(
                    t.deep_view(),
                ));
            }
            JValue::JObj(m)
        }
        UsedByType::DefaultExport => JValue::JStr(String::from_str("DefaultExport")),
        UsedByType::LocalVar(s) => {
            let mut m: Vec<(String, JValue)> = Vec::new();
            m.push((String::from_str("LocalVar"), JValue::JStr(s.clone())));
            proof {
                assert(m@.len() == 1);
                assert(m@[0].0@ == "LocalVar"@);
                assert(text_of(m@[0].1) == jstr_text(s@));
                assert(members_text(m, 1) == jstr_text(m@[0].0@) + seq![':'] + text_of(m@[0].1));
                assert(members_text(m, 1) =~= jstr_text("LocalVar"@) + seq![':'] + jstr_text(s@));
                assert(seq!['{'] + members_text(m, m@.len() as int) + seq!['}'] =~= ubt_text(
                    t.deep_view(),
                ));
            }
            JValue::JObj(m)
        }
    }
}

#[verifier::rlimit(60)]
fn enc_used_by(u: &UsedBy) -> (r: JValue)
    ensures
        text_of(r) == ub_text(u.deep_view()),
{
    match u {
        UsedBy::Itself(t) => {
            let mut m: Vec<(String, JValue)> = Vec::new();
            m.push((String::from_str("Itself"), enc_used_by_type(t)));
            proof {
                assert(m@.len() == 1);
                assert(m@[0].0@ == "Itself"@);
                assert(text_of(m@[0].1) == ubt_text(t.deep_view()));
                assert(members_text(m, 1) == jstr_text(m@[0].0@) + seq![':'] + text_of(m@[0].1));
                assert(members_text(m, 1) =~= jstr_text("Itself"@) + seq![':'] + ubt_text(
                    t.deep_view(),
                ));
                assert(seq!['{'] + members_text(m, m@.len() as int) + seq!['}'] =~= ub_text(
                    u.deep_view(),
                ));
            }
            JValue::JObj(m)
        }
        UsedBy::Other(o) => {
            let mut inner: Vec<(String, JValue)> = Vec::new();
            inner.push((String::from_str("by"), JValue::JStr(o.by.clone())));
            inner.push((String::from_str("by_type"), enc_used_by_type(&o.by_type)));
            proof {
                assert(inner@.len() == 2);
                assert(inner@[0].0@ == "by"@);
                assert(text_of(inner@[0].1) == jstr_text(o.by@));
                assert(inner@[1].0@ == "by_type"@);
                assert(text_of(inner@[1].1) == ubt_text(o.by_type.deep_view()));
                assert(members_text(inner, 1) == jstr_text(inner@[0].0@) + seq![':'] + text_of(
                    inner@[0].1,
                ));
                assert(members_text(inner, 2) == members_text(inner, 1) + seq![','] + jstr_text(
                    inner@[1].0@,
                ) + seq![':'] + text_of(inner@[1].1));
                assert(members_text(inner, 2) =~= jstr_text("by"@) + seq![':'] + jstr_text(o.by@)
                    + seq![','] + jstr_text("by_type"@) + seq![':'] + ubt_text(
                    o.by_type.deep_view(),
                ));
            }
            let innerv = JValue::JObj(inner);
            proof {
                assert(text_of(innerv) =~= seq!['{'] + jstr_text("by"@) + seq![':'] + jstr_text(
                    o.by@,
                ) + seq![','] + jstr_text("by_type"@) + seq![':'] + ubt_text(
                    o.by_type.deep_view(),
                ) + seq!['}']);
            }
            let mut m: Vec<(String, JValue)> = Vec::new();
            m.push((String::from_str("Other"), innerv));
            proof {
                assert(m@.len() == 1);
                assert(m@[0].0@ == "Other"@);
                assert(members_text(m, 1) == jstr_text(m@[0].0@) + seq![':'] + text_of(m@[0].1));
                assert(seq!['{'] + members_text(m, m@.len() as int) + seq!['}'] =~= ub_text(
                    u.deep_view(),
                ));
            }
            JValue::JObj(m)
        }
    }
}

fn enc_opt_list(l: &Option<Vec<UsedBy>>) -> (r: JValue)
    ensures
        text_of(r) == opt_list_text(l.deep_view()),
{
    match l {
        None => JValue::JNull,
        Some(v) => {
            // used-by lists are emitted in the serialization order
            let sorted = crate::used_by_graph::sort_used_by(v);
            let ghost svd = sorted.deep_view();
            proof {
                assert(svd == crate::used_by_graph::sort_ub(
                    v.deep_view(),
                    v.deep_view().len() as int,
                ));
            }
            let mut items: Vec<JValue> = Vec::new();
            let n = sorted.len();
            for i in 0..n
                invariant
                    n == sorted@.len(),
                    svd == sorted.deep_view(),
                    n == svd.len(),
                    items@.len() == i,
                    forall|j: int| 0 <= j < i ==> text_of(#[trigger] items[j]) == ub_text(svd[j]),
            {
                let ghost ipre = items@;
                items.push(enc_used_by(&sorted[i]));
                proof {
                    assert(sorted@[i as int].deep_view() == svd[i as int]);
                    assert(text_of(items[i as int]) == ub_text(svd[i as int]));
                    assert forall|j: int| 0 <= j < i + 1 implies text_of(#[trigger] items[j])
                        == ub_text(svd[j]) by {
                        if j < i {
                            assert(items@[j] == ipre[j]);
                        }
                    }
                }
            }
            proof {
                lemma_items_joined(
                    items,
                    svd.map_values(|u: crate::used_by_graph::UsedByV| ub_text(u)),
                    n as int,
                );
                assert(seq!['['] + items_text(items, items@.len() as int) + seq![']']
                    =~= opt_list_text(l.deep_view()));
            }
            JValue::JArr(items)
        }
    }
}

fn enc_edge_table(t: &StrTable<Option<Vec<UsedBy>>>) -> (r: JValue)
    ensures
        text_of(r) == edge_table_text(t@),
{
    let ghost td = t@;
    let mut members: Vec<(String, JValue)> = Vec::new();
    let n = t.len();
    for i in 0..n
        invariant
            n == t@.len(),
            td == t@,
            members@.len() == i,
            forall|j: int|
                0 <= j < i ==> (#[trigger] members[j]).0@ == td[j].0 && text_of(members[j].1)
                    == opt_list_text(td[j].1),
    {
        let ghost mpre = members@;
        members.push((t.key_at(i).clone(), enc_opt_list(t.val_at(i))));
        proof {
            assert(members[i as int].0@ == td[i as int].0);
            assert(text_of(members[i as int].1) == opt_list_text(td[i as int].1));
            assert forall|j: int|
                0 <= j < i + 1 implies (#[trigger] members[j]).0@ == td[j].0 && text_of(
                members[j].1,
            ) == opt_list_text(td[j].1) by {
                if j < i {
                    assert(members@[j] == mpre[j]);
                }
            }
        }
    }
    proof {
        lemma_members_joined(
            members,
            crate::table::keys_of(td),
            td.map_values(
                |e: (Seq<char>, Option<Seq<crate::used_by_graph::UsedByV>>)| opt_list_text(e.1),
            ),
            n as int,
        );
        assert(seq!['{'] + members_text(members, members@.len() as int) + seq!['}']
            =~= edge_table_text(td));
    }
    JValue::JObj(members)
}

fn enc_module(m: &Module) -> (r: JValue)
    ensures
        text_of(r) == module_text(m.deep_view()),
{
    let mut members: Vec<(String, JValue)> = Vec::new();
    members.push(
        (String::from_str("local_variable_table"), enc_edge_table(&m.local_variable_table)),
    );
    members.push((String::from_str("named_export_table"), enc_edge_table(&m.named_export_table)));
    members.push((String::from_str("default_export"), enc_opt_list(&m.default_export)));
    proof {
        let ghost mv = m.deep_view();
        let ghost ks = seq!["local_variable_table"@, "named_export_table"@, "default_export"@];
        let ghost ts = seq![
            edge_table_text(mv.local_variable_table),
            edge_table_text(mv.named_export_table),
            opt_list_text(mv.default_export),
        ];
        assert(members@.len() == 3);
        assert(members@[0].0@ == ks[0] && text_of(members@[0].1) == ts[0]);
        assert(members@[1].0@ == ks[1] && text_of(members@[1].1) == ts[1]);
        assert(members@[2].0@ == ks[2] && text_of(members@[2].1) == ts[2]);
        lemma_members_joined(members, ks, ts, 3);
        assert(seq!['{'] + members_text(members, members@.len() as int) + seq!['}'] =~= module_text(
            mv,
        ));
    }
    JValue::JObj(members)
}

fn enc_graph(g: &UsedByGraph) -> (r: JValue)
    ensures
        text_of(r) == graph_text(g.modules@),
{
    let ghost gd = g.modules@;
    let mut modules: Vec<(String, JValue)> = Vec::new();
    let n = g.modules.len();
    for i in 0..n
        invariant
            n == g.modules@.len(),
            gd == g.modules@,
            modules@.len() == i,
            forall|j: int|
                0 <= j < i ==> (#[trigger] modules[j]).0@ == gd[j].0 && text_of(modules[j].1)
                    == module_text(gd[j].1),
    {
        let ghost mpre = modules@;
        modules.push((g.modules.key_at(i).clone(), enc_module(g.modules.val_at(i))));
        proof {
            assert(modules[i as int].0@ == gd[i as int].0);
            assert(text_of(modules[i as int].1) == module_text(gd[i as int].1));
            assert forall|j: int|
                0 <= j < i + 1 implies (#[trigger] modules[j]).0@ == gd[j].0 && text_of(
                modules[j].1,
            ) == module_text(gd[j].1) by {
                if j < i {
                    assert(modules@[j] == mpre[j]);
                }
            }
        }
    }
    proof {
        lemma_members_joined(
            modules,
            crate::table::keys_of(gd),
            gd.map_values(|e: (Seq<char>, crate::used_by_graph::ModuleV)| module_text(e.1)),
            n as int,
        );
    }
    let ghost inner_text = seq!['{'] + members_text(modules, modules@.len() as int) + seq!['}'];
    let modulesv = JValue::JObj(modules);
    proof {
        assert(text_of(modulesv) == inner_text);
    }
    let mut members: Vec<(String, JValue)> = Vec::new();
    members.push((String::from_str("modules"), modulesv));
    proof {
        assert(members@.len() == 1);
        assert(members@[0].0@ == "modules"@);
        assert(members_text(members, 1) == jstr_text(members@[0].0@) + seq![':'] + text_of(
            members@[0].1,
        ));
        assert(seq!['{'] + members_text(members, members@.len() as int) + seq!['}'] =~= graph_text(
            gd,
        ));
    }
    JValue::JObj(members)
}

impl crate::portable::Portable {
    /// The artifact as compact JSON text: five fixed members in a fixed
    /// order, and every used-by list emitted in the serialization order
    /// (`sort_used_by`), exactly as `export_text` states.
    pub fn export(&self) -> (r: String)
        requires
            self.wf(),
        ensures
            r@ == export_text(*self),
    {
        let mut members: Vec<(String, JValue)> = Vec::new();
        members.push((String::from_str("project_root"), JValue::JStr(self.project_root.clone())));
        members.push((String::from_str("translation_json"), enc_translation(&self.translation_json)));
        members.push((String::from_str("i18n_to_symbol"), enc_nested_table(&self.i18n_to_symbol)));
        members.push((String::from_str("symbol_to_route"), enc_nested_table(&self.symbol_to_route)));
        members.push((String::from_str("used_by_graph"), enc_graph(&self.used_by_graph)));
        proof {
            let ghost ks = seq![
                "project_root"@,
                "translation_json"@,
                "i18n_to_symbol"@,
                "symbol_to_route"@,
                "used_by_graph"@,
            ];
            let ghost ts = seq![
                jstr_text(self.project_root@),
                translation_text(self.translation_json@),
                nested_table_text(self.i18n_to_symbol@),
                nested_table_text(self.symbol_to_route@),
                graph_text(self.used_by_graph.modules@),
            ];
            assert(members@.len() == 5);
            assert(members@[0].0@ == ks[0] && text_of(members@[0].1) == ts[0]);
            assert(members@[1].0@ == ks[1] && text_of(members@[1].1) == ts[1]);
            assert(members@[2].0@ == ks[2] && text_of(members@[2].1) == ts[2]);
            assert(members@[3].0@ == ks[3] && text_of(members@[3].1) == ts[3]);
            assert(members@[4].0@ == ks[4] && text_of(members@[4].1) == ts[4]);
            lemma_members_joined(members, ks, ts, 5);
            assert(seq!['{'] + members_text(members, members@.len() as int) + seq!['}']
                =~= export_text(*self));
        }
        let v = JValue::JObj(members);
        let mut out = String::new();
        proof {
            assert(out@ =~= Seq::<char>::empty());
        }
        write_value(&v, &mut out);
        proof {
            assert(out@ =~= export_text(*self));
        }
        out
    }

    /// Read an artifact back; a malformed text is rejected as exactly
    /// `MalformedArtifact`, and a successful read is well-formed.
    pub fn import(exported: &String) -> (r: Result<crate::portable::Portable, AnalysisError>)
        ensures
            match r {
                Ok(p) => p.wf(),
                Err(e) => e == AnalysisError::MalformedArtifact,
            },
    {
        let v = match parse_text(exported) {
            Ok(v) => v,
            Err(e) => {
                return Err(e);
            }
        };
        dec_portable(&v)
    }
}

fn dec_string(v: &JValue) -> (r: Result<String, AnalysisError>)
    ensures
        r is Err ==> r == Err::<String, AnalysisError>(AnalysisError::MalformedArtifact),
{
    match v {
        JValue::JStr(s) => Ok(s.clone()),
        _ => Err(AnalysisError::MalformedArtifact),
    }
}

fn dec_string_list(v: &JValue) -> (r: Result<Vec<String>, AnalysisError>)
    ensures
        r is Err ==> r == Err::<Vec<String>, AnalysisError>(AnalysisError::MalformedArtifact),
{
    match v {
        JValue::JArr(items) => {
            let mut out: Vec<String> = Vec::new();
            let n = items.len();
            for i in 0..n
                invariant
                    n == items@.len(),
            {
                match &items[i] {
                    JValue::JStr(s) => {
                        out.push(s.clone());
                    }
                    _ => {
                        return Err(AnalysisError::MalformedArtifact);
                    }
                }
            }
            Ok(out)
        }
        _ => Err(AnalysisError::MalformedArtifact),
    }
}

fn dec_usage_table(v: &JValue) -> (r: Result<StrTable<Vec<String>>, AnalysisError>)
    ensures
        match r {
            Ok(t) => t.wf(),
            Err(e) => e == AnalysisError::MalformedArtifact,
        },
{
    match v {
        JValue::JObj(members) => {
            let mut out: StrTable<Vec<String>> = StrTable::new();
            let n = members.len();
            for i in 0..n
                invariant
                    n == members@.len(),
                    out.wf(),
            {
                let key = &members[i].0;
                if out.contains_key(key) {
                    return Err(AnalysisError::MalformedArtifact);
                }
                let lst = match dec_string_list(&members[i].1) {
                    Ok(l) => l,
                    Err(e) => {
                        return Err(e);
                    }
                };
                out.push_new(key.clone(), lst);
            }
            Ok(out)
        }
        _ => Err(AnalysisError::MalformedArtifact),
    }
}

fn dec_nested_table(v: &JValue) -> (r: Result<StrTable<StrTable<Vec<String>>>, AnalysisError>)
    ensures
        match r {
            Ok(t) => t.wf() && forall|i: int|
                0 <= i < t@.len() ==> crate::table::distinct_keys((#[trigger] t@[i]).1),
            Err(e) => e == AnalysisError::MalformedArtifact,
        },
{
    match v {
        JValue::JObj(members) => {
            let mut out: StrTable<StrTable<Vec<String>>> = StrTable::new();
            let n = members.len();
            for i in 0..n
                invariant
                    n == members@.len(),
                    out.wf(),
                    forall|j: int|
                        0 <= j < out@.len() ==> crate::table::distinct_keys(
                            (#[trigger] out@[j]).1,
                        ),
            {
                let key = &members[i].0;
                if out.contains_key(key) {
                    return Err(AnalysisError::MalformedArtifact);
                }
                let inner = match dec_usage_table(&members[i].1) {
                    Ok(t) => t,
                    Err(e) => {
                        return Err(e);
                    }
                };
                let ghost innerv = inner@;
                let ghost pre = out@;
                out.push_new(key.clone(), inner);
                proof {
                    assert forall|j: int|
                        0 <= j < out@.len() implies crate::table::distinct_keys(
                        (#[trigger] out@[j]).1,
                    ) by {
                        if j < pre.len() {
                            assert(out@[j] == pre[j]);
                        } else {
                            assert(out@[j].1 == innerv);
                        }
                    }
                }
            }
            Ok(out)
        }
        _ => Err(AnalysisError::MalformedArtifact),
    }
}

fn dec_translation(v: &JValue) -> (r: Result<StrTable<String>, AnalysisError>)
    ensures
        match r {
            Ok(t) => t.wf(),
            Err(e) => e == AnalysisError::MalformedArtifact,
        },
{
    match v {
        JValue::JObj(members) => {
            let mut out: StrTable<String> = StrTable::new();
            let n = members.len();
            for i in 0..n
                invariant
                    n == members@.len(),
                    out.wf(),
            {
                let key = &members[i].0;
                if out.contains_key(key) {
                    return Err(AnalysisError::MalformedArtifact);
                }
                let s = match dec_string(&members[i].1) {
                    Ok(s) => s,
                    Err(e) => {
                        return Err(e);
                    }
                };
                out.push_new(key.clone(), s);
            }
            Ok(out)
        }
        _ => Err(AnalysisError::MalformedArtifact),
    }
}

fn dec_used_by_type(v: &JValue) -> (r: Result<UsedByType, AnalysisError>)
    ensures
        r is Err ==> r == Err::<UsedByType, AnalysisError>(AnalysisError::MalformedArtifact),
{
    proof {
        reveal_strlit("NamedExport");
        reveal_strlit("LocalVar");
        reveal_strlit("DefaultExport");
    }
    match v {
        JValue::JStr(s) => {
            let d = String::from_str("DefaultExport");
            if *s == d {
                Ok(UsedByType::DefaultExport)
            } else {
                Err(AnalysisError::MalformedArtifact)
            }
        }
        JValue::JObj(members) => {
            if members.len() != 1 {
                return Err(AnalysisError::MalformedArtifact);
            }
            let tag = &members[0].0;
            let named = String::from_str("NamedExport");
            let localv = String::from_str("LocalVar");
            let name = match dec_string(&members[0].1) {
                Ok(s) => s,
                Err(e) => {
                    return Err(e);
                }
            };
            if *tag == named {
                Ok(UsedByType::NamedExport(name))
            } else if *tag == localv {
                Ok(UsedByType::LocalVar(name))
            } else {
                Err(AnalysisError::MalformedArtifact)
            }
        }
        _ => Err(AnalysisError::MalformedArtifact),
    }
}

fn dec_used_by(v: &JValue) -> (r: Result<UsedBy, AnalysisError>)
    ensures
        r is Err ==> r == Err::<UsedBy, AnalysisError>(AnalysisError::MalformedArtifact),
{
    proof {
        reveal_strlit("Itself");
        reveal_strlit("Other");
        reveal_strlit("by");
        reveal_strlit("by_type");
    }
    match v {
        JValue::JObj(members) => {
            if members.len() != 1 {
                return Err(AnalysisError::MalformedArtifact);
            }
            let tag = &members[0].0;
            let itself = String::from_str("Itself");
            let other = String::from_str("Other");
            if *tag == itself {
                match dec_used_by_type(&members[0].1) {
                    Ok(t) => Ok(UsedBy::Itself(t)),
                    Err(e) => Err(e),
                }
            } else if *tag == other {
                match &members[0].1 {
                    JValue::JObj(inner) => {
                        if inner.len() != 2 {
                            return Err(AnalysisError::MalformedArtifact);
                        }
                        let by_tag = String::from_str("by");
                        let by_type_tag = String::from_str("by_type");
                        if !(inner[0].0 == by_tag) || !(inner[1].0 == by_type_tag) {
                            return Err(AnalysisError::MalformedArtifact);
                        }
                        let by = match dec_string(&inner[0].1) {
                            Ok(s) => s,
                            Err(e) => {
                                return Err(e);
                            }
                        };
                        match dec_used_by_type(&inner[1].1) {
                            Ok(t) => Ok(UsedBy::Other(UsedByOther { by, by_type: t })),
                            Err(e) => Err(e),
                        }
                    }
                    _ => Err(AnalysisError::MalformedArtifact),
                }
            } else {
                Err(AnalysisError::MalformedArtifact)
            }
        }
        _ => Err(AnalysisError::MalformedArtifact),
    }
}

fn dec_opt_list(v: &JValue) -> (r: Result<Option<Vec<UsedBy>>, AnalysisError>)
    ensures
        r is Err ==> r == Err::<Option<Vec<UsedBy>>, AnalysisError>(AnalysisError::MalformedArtifact),
{
    match v {
        JValue::JNull => Ok(None),
        JValue::JArr(items) => {
            let mut out: Vec<UsedBy> = Vec::new();
            let n = items.len();
            for i in 0..n
                invariant
                    n == items@.len(),
            {
                match dec_used_by(&items[i]) {
                    Ok(u) => {
                        out.push(u);
                    }
                    Err(e) => {
                        return Err(e);
                    }
                }
            }
            Ok(Some(out))
        }
        _ => Err(AnalysisError::MalformedArtifact),
    }
}

fn dec_edge_table(v: &JValue) -> (r: Result<StrTable<Option<Vec<UsedBy>>>, AnalysisError>)
    ensures
        match r {
            Ok(t) => t.wf(),
            Err(e) => e == AnalysisError::MalformedArtifact,
        },
{
    match v {
        JValue::JObj(members) => {
            let mut out: StrTable<Option<Vec<UsedBy>>> = StrTable::new();
            let n = members.len();
            for i in 0..n
                invariant
                    n == members@.len(),
                    out.wf(),
            {
                let key = &members[i].0;
                if out.contains_key(key) {
                    return Err(AnalysisError::MalformedArtifact);
                }
                let lst = match dec_opt_list(&members[i].1) {
                    Ok(l) => l,
                    Err(e) => {
                        return Err(e);
                    }
                };
                out.push_new(key.clone(), lst);
            }
            Ok(out)
        }
        _ => Err(AnalysisError::MalformedArtifact),
    }
}

fn dec_module(v: &JValue) -> (r: Result<Module, AnalysisError>)
    ensures
        match r {
            Ok(m) => crate::table::distinct_keys(m.deep_view().local_variable_table)
                && crate::table::distinct_keys(m.deep_view().named_export_table),
            Err(e) => e == AnalysisError::MalformedArtifact,
        },
{
    proof {
        reveal_strlit("local_variable_table");
        reveal_strlit("named_export_table");
        reveal_strlit("default_export");
    }
    match v {
        JValue::JObj(members) => {
            if members.len() != 3 {
                return Err(AnalysisError::MalformedArtifact);
            }
            let k0 = String::from_str("local_variable_table");
            let k1 = String::from_str("named_export_table");
            let k2 = String::from_str("default_export");
            if !(members[0].0 == k0) || !(members[1].0 == k1) || !(members[2].0 == k2) {
                return Err(AnalysisError::MalformedArtifact);
            }
            let locals = match dec_edge_table(&members[0].1) {
                Ok(t) => t,
                Err(e) => {
                    return Err(e);
                }
            };
            let named = match dec_edge_table(&members[1].1) {
                Ok(t) => t,
                Err(e) => {
                    return Err(e);
                }
            };
            let de = match dec_opt_list(&members[2].1) {
                Ok(l) => l,
                Err(e) => {
                    return Err(e);
                }
            };
            Ok(Module { local_variable_table: locals, named_export_table: named, default_export: de })
        }
        _ => Err(AnalysisError::MalformedArtifact),
    }
}

fn dec_graph(v: &JValue) -> (r: Result<UsedByGraph, AnalysisError>)
    ensures
        match r {
            Ok(g) => g.wf(),
            Err(e) => e == AnalysisError::MalformedArtifact,
        },
{
    proof {
        reveal_strlit("modules");
    }
    match v {
        JValue::JObj(members) => {
            if members.len() != 1 {
                return Err(AnalysisError::MalformedArtifact);
            }
            let k0 = String::from_str("modules");
            if !(members[0].0 == k0) {
                return Err(AnalysisError::MalformedArtifact);
            }
            match &members[0].1 {
                JValue::JObj(mods) => {
                    let mut out: StrTable<Module> = StrTable::new();
                    let n = mods.len();
                    for i in 0..n
                        invariant
                            n == mods@.len(),
                            out.wf(),
                            forall|j: int|
                                0 <= j < out@.len() ==> crate::table::distinct_keys(
                                    (#[trigger] out@[j]).1.local_variable_table,
                                ) && crate::table::distinct_keys(
                                    out@[j].1.named_export_table,
                                ),
                    {
                        let key = &mods[i].0;
                        if out.contains_key(key) {
                            return Err(AnalysisError::MalformedArtifact);
                        }
                        let m = match dec_module(&mods[i].1) {
                            Ok(m) => m,
                            Err(e) => {
                                return Err(e);
                            }
                        };
                        let ghost mv = m.deep_view();
                        let ghost pre = out@;
                        out.push_new(key.clone(), m);
                        proof {
                            assert forall|j: int|
                                0 <= j < out@.len() implies crate::table::distinct_keys(
                                (#[trigger] out@[j]).1.local_variable_table,
                            ) && crate::table::distinct_keys(
                                out@[j].1.named_export_table,
                            ) by {
                                if j < pre.len() {
                                    assert(out@[j] == pre[j]);
                                } else {
                                    assert(out@[j].1 == mv);
                                }
                            }
                        }
                    }
                    Ok(UsedByGraph { modules: out })
                }
                _ => Err(AnalysisError::MalformedArtifact),
            }
        }
        _ => Err(AnalysisError::MalformedArtifact),
    }
}

fn dec_portable(v: &JValue) -> (r: Result<crate::portable::Portable, AnalysisError>)
    ensures
        match r {
            Ok(p) => p.wf(),
            Err(e) => e == AnalysisError::MalformedArtifact,
        },
{
    proof {
        reveal_strlit("project_root");
        reveal_strlit("translation_json");
        reveal_strlit("i18n_to_symbol");
        reveal_strlit("symbol_to_route");
        reveal_strlit("used_by_graph");
    }
    match v {
        JValue::JObj(members) => {
            if members.len() != 5 {
                return Err(AnalysisError::MalformedArtifact);
            }
            let k0 = String::from_str("project_root");
            let k1 = String::from_str("translation_json");
            let k2 = String::from_str("i18n_to_symbol");
            let k3 = String::from_str("symbol_to_route");
            let k4 = String::from_str("used_by_graph");
            if !(members[0].0 == k0) || !(members[1].0 == k1) || !(members[2].0 == k2) || !(
            members[3].0 == k3) || !(members[4].0 == k4) {
                return Err(AnalysisError::MalformedArtifact);
            }
            let project_root = match dec_string(&members[0].1) {
                Ok(s) => s,
                Err(e) => {
                    return Err(e);
                }
            };
            let translation_json = match dec_translation(&members[1].1) {
                Ok(t) => t,
                Err(e) => {
                    return Err(e);
                }
            };
            let i18n_to_symbol = match dec_nested_table(&members[2].1) {
                Ok(t) => t,
                Err(e) => {
                    return Err(e);
                }
            };
            let symbol_to_route = match dec_nested_table(&members[3].1) {
                Ok(t) => t,
                Err(e) => {
                    return Err(e);
                }
            };
            let used_by_graph = match dec_graph(&members[4].1) {
                Ok(g) => g,
                Err(e) => {
                    return Err(e);
                }
            };
            Ok(
                crate::portable::Portable {
                    project_root,
                    translation_json,
                    i18n_to_symbol,
                    symbol_to_route,
                    used_by_graph,
                },
            )
        }
        _ => Err(AnalysisError::MalformedArtifact),
    }
}

} // verus!
