//! Match records: what a pattern binds, and the operations that combine them.
use vstd::prelude::*;
use crate::context::{SExpr, SExprModel, models, lemma_models, copy_exprs};
use crate::table::{NameTable, bindings_map, names_distinct, lemma_bindings_map};

verus! {

/// What a successful match binds: plain variables to one expression each,
/// and variables under an ellipsis to the sequence of their matches.
pub struct RecordModel {
    pub vars: Map<Seq<char>, SExprModel>,
    pub seqs: Map<Seq<char>, Seq<SExprModel>>,
}

/// The result of matching a pattern against an expression.
#[derive(Debug)]
pub struct MatchRecord(pub NameTable<SExpr>, pub NameTable<Vec<SExpr>>);

/// The models of the variables bound in a table.
pub open spec fn vars_model(t: NameTable<SExpr>) -> Map<Seq<char>, SExprModel> {
    t.map().map_values(|e: SExpr| e@)
}

/// The models of the sequences bound in a table.
pub open spec fn seqs_model(t: NameTable<Vec<SExpr>>) -> Map<Seq<char>, Seq<SExprModel>> {
    t.map().map_values(|v: Vec<SExpr>| models(v@))
}

impl View for MatchRecord {
    type V = RecordModel;

    open spec fn view(&self) -> RecordModel {
        RecordModel { vars: vars_model(self.0), seqs: seqs_model(self.1) }
    }
}

impl MatchRecord {
    /// Both tables are well formed.
    pub open spec fn wf(&self) -> bool {
        self.0.wf() && self.1.wf()
    }

    /// A record that binds nothing.
    pub fn empty() -> (r: MatchRecord)
        ensures
            r.wf(),
            r@ == empty_record(),
    {
        let r = MatchRecord(NameTable::new(), NameTable::new());
        assert(r@.vars =~= Map::empty());
        assert(r@.seqs =~= Map::empty());
        r
    }
}

/// The record that binds nothing.
pub open spec fn empty_record() -> RecordModel {
    RecordModel { vars: Map::empty(), seqs: Map::empty() }
}

/// The models of a sequence of records.
pub open spec fn record_models(rs: Seq<MatchRecord>) -> Seq<RecordModel> {
    rs.map_values(|r: MatchRecord| r@)
}

/// Every record of the sequence is well formed.
pub open spec fn all_wf(rs: Seq<MatchRecord>) -> bool {
    forall|i: int| 0 <= i < rs.len() ==> #[trigger] rs[i].wf()
}

/// The variables of all records, a later record winning on a shared name.
pub open spec fn merged_vars(rs: Seq<RecordModel>) -> Map<Seq<char>, SExprModel>
    decreases rs.len(),
{
    if rs.len() == 0 {
        Map::empty()
    } else {
        merged_vars(rs.drop_last()).union_prefer_right(rs.last().vars)
    }
}

/// The sequence bindings of all records, a later record winning on a shared name.
pub open spec fn merged_seqs(rs: Seq<RecordModel>) -> Map<Seq<char>, Seq<SExprModel>>
    decreases rs.len(),
{
    if rs.len() == 0 {
        Map::empty()
    } else {
        merged_seqs(rs.drop_last()).union_prefer_right(rs.last().seqs)
    }
}

/// `g` with the value that `m` binds to each name appended to that name's sequence.
pub open spec fn extend_group(
    g: Map<Seq<char>, Seq<SExprModel>>,
    m: Map<Seq<char>, SExprModel>,
) -> Map<Seq<char>, Seq<SExprModel>> {
    Map::new(
        |k: Seq<char>| g.contains_key(k) || m.contains_key(k),
        |k: Seq<char>|
            (if g.contains_key(k) {
                g[k]
            } else {
                Seq::empty()
            }) + (if m.contains_key(k) {
                seq![m[k]]
            } else {
                Seq::empty()
            }),
    )
}

/// For each name, the sequence of the values it is bound to across the
/// records, in the records' order.
pub open spec fn grouped(rs: Seq<RecordModel>) -> Map<Seq<char>, Seq<SExprModel>>
    decreases rs.len(),
{
    if rs.len() == 0 {
        Map::empty()
    } else {
        extend_group(grouped(rs.drop_last()), rs.last().vars)
    }
}

/// The bindings of the first `j` entries of a table.
pub proof fn lemma_bindings_take<V>(s: Seq<(String, V)>, j: int)
    requires
        0 <= j < s.len(),
    ensures
        bindings_map(s.take(j + 1)) == bindings_map(s.take(j)).insert(s[j].0@, s[j].1),
{
    assert(s.take(j + 1).drop_last() =~= s.take(j));
}

/// Binding the first `j` entries of a well-formed table never binds entry `j`'s name.
pub proof fn lemma_bindings_take_fresh<V>(s: Seq<(String, V)>, j: int)
    requires
        0 <= j < s.len(),
        names_distinct(s),
    ensures
        !bindings_map(s.take(j)).contains_key(s[j].0@),
{
    let p = s.take(j);
    assert(names_distinct(p)) by {
        assert forall|a: int, b: int|
            0 <= a < p.len() && 0 <= b < p.len() && a != b implies #[trigger] p[a].0@
            != #[trigger] p[b].0@ by {
            assert(p[a] == s[a] && p[b] == s[b]);
        }
    }
    lemma_bindings_map(p);
    if bindings_map(p).contains_key(s[j].0@) {
        let i = choose|i: int| 0 <= i < p.len() && p[i].0@ == s[j].0@;
        assert(p[i] == s[i]);
    }
}

/// The models of the variables after a binding is added.
pub proof fn lemma_vars_insert(old_map: Map<Seq<char>, SExpr>, k: Seq<char>, e: SExpr)
    ensures
        old_map.insert(k, e).map_values(|x: SExpr| x@) == old_map.map_values(|x: SExpr| x@).insert(
            k,
            e@,
        ),
{
    assert(old_map.insert(k, e).map_values(|x: SExpr| x@) =~= old_map.map_values(|x: SExpr| x@).insert(
        k,
        e@,
    ));
}

/// The models of the sequences after a binding is added.
pub proof fn lemma_seqs_insert(old_map: Map<Seq<char>, Vec<SExpr>>, k: Seq<char>, v: Vec<SExpr>)
    ensures
        old_map.insert(k, v).map_values(|x: Vec<SExpr>| models(x@)) == old_map.map_values(
            |x: Vec<SExpr>| models(x@),
        ).insert(k, models(v@)),
{
    assert(old_map.insert(k, v).map_values(|x: Vec<SExpr>| models(x@)) =~= old_map.map_values(
        |x: Vec<SExpr>| models(x@),
    ).insert(k, models(v@)));
}

/// Extending a group by one more fresh binding appends to that name's sequence.
pub proof fn lemma_extend_group_insert(
    g: Map<Seq<char>, Seq<SExprModel>>,
    m: Map<Seq<char>, SExprModel>,
    k: Seq<char>,
    x: SExprModel,
)
    requires
        !m.contains_key(k),
    ensures
        extend_group(g, m.insert(k, x)) == extend_group(g, m).insert(
            k,
            (if extend_group(g, m).contains_key(k) {
                extend_group(g, m)[k]
            } else {
                Seq::empty()
            }).push(x),
        ),
{
    let eg = extend_group(g, m);
    if eg.contains_key(k) {
        assert(eg[k] =~= g[k]);
    }
    assert(extend_group(g, m.insert(k, x)) =~= eg.insert(
        k,
        (if eg.contains_key(k) {
            eg[k]
        } else {
            Seq::empty()
        }).push(x),
    ));
}

/// Adds every variable binding of `src` to `dst`, `src` winning on a shared name.
pub fn overlay_vars(dst: &mut NameTable<SExpr>, src: &NameTable<SExpr>)
    requires
        old(dst).wf(),
        src.wf(),
    ensures
        final(dst).wf(),
        vars_model(*final(dst)) == vars_model(*old(dst)).union_prefer_right(vars_model(*src)),
{
    let ghost start = vars_model(*dst);
    let ghost es = src.entries@;
    let mut j: usize = 0;
    assert(bindings_map(es.take(0)) =~= Map::empty());
    assert(start.union_prefer_right(bindings_map(es.take(0)).map_values(|x: SExpr| x@)) =~= start);
    while j < src.entries.len()
        invariant
            es == src.entries@,
            j <= es.len(),
            dst.wf(),
            vars_model(*dst) == start.union_prefer_right(
                bindings_map(es.take(j as int)).map_values(|x: SExpr| x@),
            ),
        decreases es.len() - j,
    {
        let ghost before = dst.map();
        let k = src.entries[j].0.clone();
        let e = src.entries[j].1.copy();
        dst.insert(k, e);
        proof {
            lemma_bindings_take(es, j as int);
            lemma_vars_insert(before, k@, e);
            lemma_vars_insert(bindings_map(es.take(j as int)), es[j as int].0@, es[j as int].1);
            assert(vars_model(*dst) =~= start.union_prefer_right(
                bindings_map(es.take(j + 1)).map_values(|x: SExpr| x@),
            ));
        }
        j = j + 1;
    }
    assert(es.take(es.len() as int) =~= es);
}

/// Adds every sequence binding of `src` to `dst`, `src` winning on a shared name.
pub fn overlay_seqs(dst: &mut NameTable<Vec<SExpr>>, src: &NameTable<Vec<SExpr>>)
    requires
        old(dst).wf(),
        src.wf(),
    ensures
        final(dst).wf(),
        seqs_model(*final(dst)) == seqs_model(*old(dst)).union_prefer_right(seqs_model(*src)),
{
    let ghost start = seqs_model(*dst);
    let ghost es = src.entries@;
    let mut j: usize = 0;
    assert(bindings_map(es.take(0)) =~= Map::empty());
    assert(start.union_prefer_right(bindings_map(es.take(0)).map_values(|x: Vec<SExpr>| models(x@)))
        =~= start);
    while j < src.entries.len()
        invariant
            es == src.entries@,
            j <= es.len(),
            dst.wf(),
            seqs_model(*dst) == start.union_prefer_right(
                bindings_map(es.take(j as int)).map_values(|x: Vec<SExpr>| models(x@)),
            ),
        decreases es.len() - j,
    {
        let ghost before = dst.map();
        let k = src.entries[j].0.clone();
        let v = copy_exprs(&src.entries[j].1);
        dst.insert(k, v);
        proof {
            lemma_bindings_take(es, j as int);
            lemma_seqs_insert(before, k@, v);
            lemma_seqs_insert(bindings_map(es.take(j as int)), es[j as int].0@, es[j as int].1);
            assert(seqs_model(*dst) =~= start.union_prefer_right(
                bindings_map(es.take(j + 1)).map_values(|x: Vec<SExpr>| models(x@)),
            ));
        }
        j = j + 1;
    }
    assert(es.take(es.len() as int) =~= es);
}

/// Appends each variable binding of `src` to the sequence that `g` binds to its name.
pub fn append_group(g: &mut NameTable<Vec<SExpr>>, src: &NameTable<SExpr>)
    requires
        old(g).wf(),
        src.wf(),
    ensures
        final(g).wf(),
        seqs_model(*final(g)) == extend_group(seqs_model(*old(g)), vars_model(*src)),
{
    let ghost start = seqs_model(*g);
    let ghost es = src.entries@;
    let mut j: usize = 0;
    assert(bindings_map(es.take(0)) =~= Map::empty());
    assert(extend_group(start, bindings_map(es.take(0)).map_values(|x: SExpr| x@)) =~= start);
    while j < src.entries.len()
        invariant
            es == src.entries@,
            names_distinct(es),
            j <= es.len(),
            g.wf(),
            seqs_model(*g) == extend_group(
                start,
                bindings_map(es.take(j as int)).map_values(|x: SExpr| x@),
            ),
        decreases es.len() - j,
    {
        let ghost before = g.map();
        let ghost m = bindings_map(es.take(j as int)).map_values(|x: SExpr| x@);
        let k = src.entries[j].0.clone();
        let mut cur = match g.get(k.as_str()) {
            Some(v) => copy_exprs(v),
            None => Vec::new(),
        };
        assert(models(cur@) == (if seqs_model(*g).contains_key(k@) {
            seqs_model(*g)[k@]
        } else {
            Seq::empty()
        })) by {
            lemma_models(cur@);
        }
        let ghost prev = cur@;
        let e = src.entries[j].1.copy();
        cur.push(e);
        proof {
            lemma_models(cur@);
            lemma_models(prev);
            assert(models(cur@) =~= models(prev).push(e@));
        }
        g.insert(k, cur);
        proof {
            lemma_bindings_take(es, j as int);
            lemma_bindings_take_fresh(es, j as int);
            lemma_seqs_insert(before, k@, cur);
            lemma_vars_insert(bindings_map(es.take(j as int)), es[j as int].0@, es[j as int].1);
            lemma_extend_group_insert(start, m, k@, e@);
            assert(seqs_model(*g) =~= extend_group(
                start,
                bindings_map(es.take(j + 1)).map_values(|x: SExpr| x@),
            ));
        }
        j = j + 1;
    }
    assert(es.take(es.len() as int) =~= es);
}

/// The variable bindings of all the records, a later record winning on a
/// shared name; the result binds no sequences.
pub fn merge_hash_table(r: &Vec<MatchRecord>) -> (m: MatchRecord)
    requires
        all_wf(r@),
    ensures
        m.wf(),
        m@ == (RecordModel { vars: merged_vars(record_models(r@)), seqs: Map::empty() }),
{
    let mut vars: NameTable<SExpr> = NameTable::new();
    let mut i: usize = 0;
    assert(vars_model(vars) =~= Map::empty());
    while i < r.len()
        invariant
            i <= r@.len(),
            all_wf(r@),
            vars.wf(),
            vars_model(vars) == merged_vars(record_models(r@.take(i as int))),
        decreases r@.len() - i,
    {
        assert(r@[i as int].wf());
        overlay_vars(&mut vars, &r[i].0);
        proof {
            assert(record_models(r@.take(i + 1)).drop_last() =~= record_models(r@.take(i as int)));
        }
        i = i + 1;
    }
    assert(r@.take(r@.len() as int) =~= r@);
    let seqs: NameTable<Vec<SExpr>> = NameTable::new();
    let m = MatchRecord(vars, seqs);
    assert(m@.seqs =~= Map::empty());
    m
}

/// The sequence bindings of all the records, a later record winning on a shared name.
pub fn merge_seqs(dst: &mut NameTable<Vec<SExpr>>, r: &Vec<MatchRecord>)
    requires
        old(dst).wf(),
        all_wf(r@),
    ensures
        final(dst).wf(),
        seqs_model(*final(dst)) == seqs_model(*old(dst)).union_prefer_right(
            merged_seqs(record_models(r@)),
        ),
{
    let ghost start = seqs_model(*dst);
    let mut i: usize = 0;
    assert(start.union_prefer_right(merged_seqs(record_models(r@.take(0)))) =~= start);
    while i < r.len()
        invariant
            i <= r@.len(),
            all_wf(r@),
            dst.wf(),
            seqs_model(*dst) == start.union_prefer_right(merged_seqs(record_models(r@.take(i as int)))),
        decreases r@.len() - i,
    {
        assert(r@[i as int].wf());
        overlay_seqs(dst, &r[i].1);
        proof {
            assert(record_models(r@.take(i + 1)).drop_last() =~= record_models(r@.take(i as int)));
            assert(seqs_model(*dst) =~= start.union_prefer_right(
                merged_seqs(record_models(r@.take(i + 1))),
            ));
        }
        i = i + 1;
    }
    assert(r@.take(r@.len() as int) =~= r@);
}

/// The sequences that the records bind to each name, in the records' order.
pub fn group_records(r: &Vec<MatchRecord>) -> (g: NameTable<Vec<SExpr>>)
    requires
        all_wf(r@),
    ensures
        g.wf(),
        seqs_model(g) == grouped(record_models(r@)),
{
    let mut g: NameTable<Vec<SExpr>> = NameTable::new();
    let mut i: usize = 0;
    assert(seqs_model(g) =~= Map::empty());
    while i < r.len()
        invariant
            i <= r@.len(),
            all_wf(r@),
            g.wf(),
            seqs_model(g) == grouped(record_models(r@.take(i as int))),
        decreases r@.len() - i,
    {
        assert(r@[i as int].wf());
        append_group(&mut g, &r[i].0);
        proof {
            assert(record_models(r@.take(i + 1)).drop_last() =~= record_models(r@.take(i as int)));
        }
        i = i + 1;
    }
    assert(r@.take(r@.len() as int) =~= r@);
    g
}

} // verus!
