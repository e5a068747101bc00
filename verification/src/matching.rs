//! Pattern matching of S-expressions, as macros use it.
//!
//! A pattern is an S-expression read as follows:
//! - `(quote e)` matches exactly the expression `e`;
//! - a symbol matches any expression and binds it to the symbol's name;
//! - a list `(p1 .. pn)` matches a list whose length is at least `n - 1`,
//!   item by item, as far as both reach;
//! - a list `(p1 .. pk q ...)` ending in the symbol `...` matches the items of
//!   the target from position `k` on, each against `q`, and the first `k`
//!   items against `p1 .. pk`; every name that `q` binds is then bound to the
//!   sequence of its matches.
//!
//! Every other pattern, and a list pattern that meets a target that is not a
//! list (or a list shorter than `n - 1`), lies outside the matcher's domain:
//! the outcome `None` of [`spec_dyn_match`].
use vstd::prelude::*;
use crate::context::{
    Atom, AtomModel, CompileError, SExpr, SExprModel, lemma_list_view, lemma_models, models,
    sym_model,
};
use crate::records::{
    MatchRecord, RecordModel, all_wf, empty_record, group_records, grouped, merge_hash_table,
    merge_seqs, merged_seqs, merged_vars, record_models, seqs_model,
};
use crate::table::NameTable;

verus! {

/// The name of the quoting form.
pub open spec fn quote_name() -> Seq<char> {
    seq!['q', 'u', 'o', 't', 'e']
}

/// The name of the symbol that marks a repeated pattern.
pub open spec fn ellipsis_name() -> Seq<char> {
    seq!['.', '.', '.']
}

/// The outcome of matching `p` against `t`: `None` outside the matcher's
/// domain, `Some(Err(()))` when `t` does not match, else the bindings.
pub open spec fn spec_dyn_match(p: SExprModel, t: SExprModel) -> Option<Result<RecordModel, ()>>
    decreases p, 0int,
{
    match p {
        SExprModel::List(rx) => {
            if rx.len() == 2 && rx[0] == sym_model(quote_name()) {
                Some(
                    if t == rx[1] {
                        Ok(empty_record())
                    } else {
                        Err(())
                    },
                )
            } else {
                match t {
                    SExprModel::List(y) => {
                        if rx.len() == 0 || rx.len() - 1 > y.len() {
                            None
                        } else if rx[rx.len() - 1] == sym_model(ellipsis_name()) {
                            if rx.len() < 2 {
                                None
                            } else {
                                match spec_match_each(
                                    rx[rx.len() - 2],
                                    y.subrange(rx.len() - 2, y.len() as int),
                                ) {
                                    None => None,
                                    Some(Err(_)) => Some(Err(())),
                                    Some(Ok(rs)) => finish_match(
                                        spec_match_prefix(rx.subrange(0, rx.len() - 2), y),
                                        grouped(rs).union_prefer_right(merged_seqs(rs)),
                                    ),
                                }
                            }
                        } else {
                            finish_match(spec_match_prefix(rx, y), Map::empty())
                        }
                    },
                    SExprModel::Atom(_) => None,
                }
            }
        },
        SExprModel::Atom(AtomModel::Sym(n)) => Some(
            Ok(RecordModel { vars: map![n => t], seqs: Map::empty() }),
        ),
        SExprModel::Atom(_) => None,
    }
}

/// Matches `ps[i]` against `ts[i]` for each `i` below both lengths, in order,
/// stopping at the first failure.
pub open spec fn spec_match_prefix(ps: Seq<SExprModel>, ts: Seq<SExprModel>) -> Option<
    Result<Seq<RecordModel>, ()>,
>
    decreases ps, 0int,
{
    if ps.len() == 0 || ts.len() == 0 {
        Some(Ok(Seq::empty()))
    } else {
        prepend_record(spec_dyn_match(ps[0], ts[0]), spec_match_prefix(ps.drop_first(), ts.drop_first()))
    }
}

/// Matches `p` against each of `ts`, in order, stopping at the first failure.
pub open spec fn spec_match_each(p: SExprModel, ts: Seq<SExprModel>) -> Option<
    Result<Seq<RecordModel>, ()>,
>
    decreases p, ts.len() + 1,
{
    if ts.len() == 0 {
        Some(Ok(Seq::empty()))
    } else {
        prepend_record(spec_dyn_match(p, ts[0]), spec_match_each(p, ts.drop_first()))
    }
}

/// The outcome of a first match followed by the outcome of the rest.
pub open spec fn prepend_record(
    first: Option<Result<RecordModel, ()>>,
    rest: Option<Result<Seq<RecordModel>, ()>>,
) -> Option<Result<Seq<RecordModel>, ()>> {
    match first {
        None => None,
        Some(Err(_)) => Some(Err(())),
        Some(Ok(r)) => prepend_records(seq![r], rest),
    }
}

/// The records `pre`, followed by the outcome `rest`.
pub open spec fn prepend_records(
    pre: Seq<RecordModel>,
    rest: Option<Result<Seq<RecordModel>, ()>>,
) -> Option<Result<Seq<RecordModel>, ()>> {
    match rest {
        None => None,
        Some(Err(_)) => Some(Err(())),
        Some(Ok(rs)) => Some(Ok(pre + rs)),
    }
}

/// The record of a list match: the variables of the item matches, and the
/// sequences `endl` overlaid by those of the item matches.
pub open spec fn finish_match(
    items: Option<Result<Seq<RecordModel>, ()>>,
    endl: Map<Seq<char>, Seq<SExprModel>>,
) -> Option<Result<RecordModel, ()>> {
    match items {
        None => None,
        Some(Err(_)) => Some(Err(())),
        Some(Ok(rs)) => Some(
            Ok(
                RecordModel {
                    vars: merged_vars(rs),
                    seqs: endl.union_prefer_right(merged_seqs(rs)),
                },
            ),
        ),
    }
}

/// The model of a match result.
pub open spec fn match_model(r: MatchResult) -> Result<RecordModel, ()> {
    match r {
        Ok(m) => Ok(m@),
        Err(_) => Err(()),
    }
}

/// The model of a match outcome.
pub open spec fn match_outcome(r: Option<MatchResult>) -> Option<Result<RecordModel, ()>> {
    match r {
        None => None,
        Some(r) => Some(match_model(r)),
    }
}

/// The model of an outcome that yields records.
pub open spec fn records_outcome(r: Option<Result<Vec<MatchRecord>, CompileError>>) -> Option<
    Result<Seq<RecordModel>, ()>,
> {
    match r {
        None => None,
        Some(Ok(v)) => Some(Ok(record_models(v@))),
        Some(Err(_)) => Some(Err(())),
    }
}

/// The outcome of matching a pattern against an expression.
pub type MatchResult = Result<MatchRecord, CompileError>;

/// Whether `e` is the symbol whose name is `name`.
pub fn is_sym_named(e: &SExpr, name: &str) -> (r: bool)
    ensures
        r == (e@ == sym_model(name@)),
{
    match e {
        SExpr::Atom(Atom::Sym(n)) => crate::text::str_equal(n.as_str(), name),
        _ => false,
    }
}

/// The symbol `quote`'s name has the expected characters.
pub proof fn lemma_quote_literal()
    ensures
        "quote"@ == quote_name(),
        "..."@ == ellipsis_name(),
{
    reveal_strlit("quote");
    reveal_strlit("...");
    assert("quote"@ =~= quote_name());
    assert("..."@ =~= ellipsis_name());
}

/// Matches `pats[i]` against `targets[i]` for each `i` below `count` and the
/// number of targets.
fn match_prefix(pats: &Vec<SExpr>, count: usize, targets: &Vec<SExpr>) -> (r: Option<
    Result<Vec<MatchRecord>, CompileError>,
>)
    requires
        count <= pats@.len(),
    ensures
        records_outcome(r) == spec_match_prefix(
            models(pats@).subrange(0, count as int),
            models(targets@),
        ),
        r matches Some(Ok(v)) ==> all_wf(v@),
    decreases pats, 0nat,
{
    let ghost ps = models(pats@).subrange(0, count as int);
    let ghost ts = models(targets@);
    proof {
        lemma_models(pats@);
        lemma_models(targets@);
    }
    let mut rs: Vec<MatchRecord> = Vec::new();
    let mut i: usize = 0;
    assert(ps.skip(0) =~= ps && ts.skip(0) =~= ts);
    assert(record_models(rs@) =~= Seq::<RecordModel>::empty());
    assert(prepend_records(Seq::empty(), spec_match_prefix(ps, ts)) == spec_match_prefix(ps, ts)) by {
        match spec_match_prefix(ps, ts) {
            Some(Ok(x)) => {
                assert(Seq::<RecordModel>::empty() + x =~= x);
            },
            _ => {},
        }
    }
    while i < count && i < targets.len()
        invariant
            count <= pats@.len(),
            ps == models(pats@).subrange(0, count as int),
            ts == models(targets@),
            models(pats@).len() == pats@.len(),
            models(targets@).len() == targets@.len(),
            forall|j: int| 0 <= j < pats@.len() ==> #[trigger] models(pats@)[j] == pats@[j]@,
            forall|j: int| 0 <= j < targets@.len() ==> #[trigger] models(targets@)[j] == targets@[j]@,
            i <= count,
            i <= targets@.len(),
            all_wf(rs@),
            spec_match_prefix(ps, ts) == prepend_records(
                record_models(rs@),
                spec_match_prefix(ps.skip(i as int), ts.skip(i as int)),
            ),
        decreases count - i,
    {
        assert(decreases_to!(pats => pats@[i as int]));
        let o = dyn_match_checked(&pats[i], &targets[i]);
        let ghost pre = record_models(rs@);
        proof {
            assert(ps.skip(i as int).drop_first() =~= ps.skip(i + 1));
            assert(ts.skip(i as int).drop_first() =~= ts.skip(i + 1));
            assert(ps.skip(i as int)[0] == pats@[i as int]@);
            assert(ts.skip(i as int)[0] == targets@[i as int]@);
        }
        match o {
            None => {
                return None;
            },
            Some(Err(e)) => {
                return Some(Err(e));
            },
            Some(Ok(m)) => {
                let ghost mm = m@;
                let ghost before_rs = rs@;
                rs.push(m);
                proof {
                    assert(record_models(rs@) =~= pre + seq![mm]);
                    let rest = spec_match_prefix(ps.skip(i + 1), ts.skip(i + 1));
                    match rest {
                        Some(Ok(x)) => {
                            assert(pre + (seq![mm] + x) =~= (pre + seq![mm]) + x);
                        },
                        _ => {},
                    }
                    assert forall|j: int| 0 <= j < rs@.len() implies #[trigger] rs@[j].wf() by {
                        if j < rs@.len() - 1 {
                            assert(rs@[j] == before_rs[j]);
                        }
                    }
                }
            },
        }
        i = i + 1;
    }
    proof {
        assert(ps.skip(i as int).len() == 0 || ts.skip(i as int).len() == 0);
        assert(record_models(rs@) + Seq::<RecordModel>::empty() =~= record_models(rs@));
    }
    Some(Ok(rs))
}

/// Matches `pat` against each of `targets[from..]`, in order.
fn match_each(pat: &SExpr, targets: &Vec<SExpr>, from: usize) -> (r: Option<
    Result<Vec<MatchRecord>, CompileError>,
>)
    requires
        from <= targets@.len(),
    ensures
        records_outcome(r) == spec_match_each(
            pat@,
            models(targets@).subrange(from as int, targets@.len() as int),
        ),
        r matches Some(Ok(v)) ==> all_wf(v@),
    decreases pat, 1nat,
{
    let ghost ts = models(targets@).subrange(from as int, targets@.len() as int);
    proof {
        lemma_models(targets@);
    }
    let mut rs: Vec<MatchRecord> = Vec::new();
    let mut i: usize = from;
    assert(ts.skip(0) =~= ts);
    assert(record_models(rs@) =~= Seq::<RecordModel>::empty());
    assert(prepend_records(Seq::empty(), spec_match_each(pat@, ts)) == spec_match_each(pat@, ts)) by {
        match spec_match_each(pat@, ts) {
            Some(Ok(x)) => {
                assert(Seq::<RecordModel>::empty() + x =~= x);
            },
            _ => {},
        }
    }
    while i < targets.len()
        invariant
            from <= i <= targets@.len(),
            ts == models(targets@).subrange(from as int, targets@.len() as int),
            models(targets@).len() == targets@.len(),
            forall|j: int| 0 <= j < targets@.len() ==> #[trigger] models(targets@)[j] == targets@[j]@,
            all_wf(rs@),
            spec_match_each(pat@, ts) == prepend_records(
                record_models(rs@),
                spec_match_each(pat@, ts.skip(i - from)),
            ),
        decreases targets@.len() - i,
    {
        let o = dyn_match_checked(pat, &targets[i]);
        let ghost pre = record_models(rs@);
        proof {
            assert(ts.skip(i - from).drop_first() =~= ts.skip(i + 1 - from));
            assert(ts.skip(i - from)[0] == targets@[i as int]@);
        }
        match o {
            None => {
                return None;
            },
            Some(Err(e)) => {
                return Some(Err(e));
            },
            Some(Ok(m)) => {
                let ghost mm = m@;
                let ghost before_rs = rs@;
                rs.push(m);
                proof {
                    assert(record_models(rs@) =~= pre + seq![mm]);
                    let rest = spec_match_each(pat@, ts.skip(i + 1 - from));
                    match rest {
                        Some(Ok(x)) => {
                            assert(pre + (seq![mm] + x) =~= (pre + seq![mm]) + x);
                        },
                        _ => {},
                    }
                    assert forall|j: int| 0 <= j < rs@.len() implies #[trigger] rs@[j].wf() by {
                        if j < rs@.len() - 1 {
                            assert(rs@[j] == before_rs[j]);
                        }
                    }
                }
            },
        }
        i = i + 1;
    }
    proof {
        assert(ts.skip(i - from).len() == 0);
        assert(record_models(rs@) + Seq::<RecordModel>::empty() =~= record_models(rs@));
    }
    Some(Ok(rs))
}

/// Matches `pattern` against `target`; `None` where the pattern lies outside
/// the matcher's domain.
pub fn dyn_match_checked(pattern: &SExpr, target: &SExpr) -> (r: Option<MatchResult>)
    ensures
        match_outcome(r) == spec_dyn_match(pattern@, target@),
        r matches Some(Ok(m)) ==> m.wf(),
    decreases pattern, 0nat,
{
    proof {
        lemma_quote_literal();
    }
    match pattern {
        SExpr::List(s) => {
            proof {
                lemma_list_view(*s);
            }
            if s.len() == 2 && is_sym_named(&s[0], "quote") {
                if target.equal(&s[1]) {
                    return Some(Ok(MatchRecord::empty()));
                } else {
                    return Some(Err(CompileError()));
                }
            }
            let y = match target {
                SExpr::List(y) => y,
                SExpr::Atom(_) => {
                    return None;
                },
            };
            proof {
                lemma_list_view(*y);
            }
            let n = s.len();
            if n == 0 || n - 1 > y.len() {
                return None;
            }
            let mut endl: NameTable<Vec<SExpr>>;
            let prefix: usize;
            if is_sym_named(&s[n - 1], "...") {
                if n < 2 {
                    return None;
                }
                assert(decreases_to!(pattern => s@[n - 2]));
                let each = match_each(&s[n - 2], y, n - 2);
                proof {
                    assert(models(y@).subrange(n - 2, y@.len() as int) == models(y@).subrange(
                        n - 2,
                        models(y@).len() as int,
                    ));
                }
                let rs = match each {
                    None => {
                        return None;
                    },
                    Some(Err(e)) => {
                        return Some(Err(e));
                    },
                    Some(Ok(rs)) => rs,
                };
                endl = group_records(&rs);
                merge_seqs(&mut endl, &rs);
                prefix = n - 2;
            } else {
                endl = NameTable::new();
                assert(seqs_model(endl) =~= Map::empty());
                prefix = n;
                assert(models(s@).subrange(0, n as int) =~= models(s@));
            }
            let items = match match_prefix(s, prefix, y) {
                None => {
                    return None;
                },
                Some(Err(e)) => {
                    return Some(Err(e));
                },
                Some(Ok(items)) => items,
            };
            merge_seqs(&mut endl, &items);
            let merged = merge_hash_table(&items);
            let MatchRecord(vars, _) = merged;
            Some(Ok(MatchRecord(vars, endl)))
        },
        SExpr::Atom(Atom::Sym(name)) => {
            let mut vars: NameTable<SExpr> = NameTable::new();
            vars.insert(name.clone(), target.copy());
            let seqs: NameTable<Vec<SExpr>> = NameTable::new();
            let m = MatchRecord(vars, seqs);
            assert(m@.seqs =~= Map::empty());
            assert(m@.vars =~= map![name@ => target@]);
            Some(Ok(m))
        },
        SExpr::Atom(_) => None,
    }
}

/// Matches `pattern` against `target`.
pub fn dyn_match(pattern: &SExpr, target: &SExpr) -> (r: MatchResult)
    requires
        spec_dyn_match(pattern@, target@) is Some,
    ensures
        Some(match_model(r)) == spec_dyn_match(pattern@, target@),
        r matches Ok(m) ==> m.wf(),
{
    match dyn_match_checked(pattern, target) {
        Some(r) => r,
        None => Err(CompileError()),
    }
}

// ----- bound values are parts of the target -----

/// The number of atoms and lists in an expression.
pub open spec fn size(e: SExprModel) -> nat
    decreases e, 1int,
{
    match e {
        SExprModel::Atom(_) => 1,
        SExprModel::List(l) => 1 + sizes(l),
    }
}

/// The total size of a sequence of expressions.
pub open spec fn sizes(l: Seq<SExprModel>) -> nat
    decreases l, 0int,
{
    if l.len() == 0 {
        0
    } else {
        sizes(l.drop_last()) + size(l.last())
    }
}

/// An item of a list is smaller than the list.
pub proof fn lemma_size_item(l: Seq<SExprModel>, i: int)
    requires
        0 <= i < l.len(),
    ensures
        size(l[i]) <= sizes(l),
        size(l[i]) < size(SExprModel::List(l)),
    decreases l.len(),
{
    if i < l.len() - 1 {
        lemma_size_item(l.drop_last(), i);
        assert(l.drop_last()[i] == l[i]);
    }
}

/// Every expression that `r` binds has a size below `b`.
pub open spec fn record_bounded(r: RecordModel, b: nat) -> bool {
    &&& forall|k: Seq<char>| #[trigger] r.vars.contains_key(k) ==> size(r.vars[k]) < b
    &&& forall|k: Seq<char>, i: int|
        r.seqs.contains_key(k) && 0 <= i < r.seqs[k].len() ==> size(#[trigger] r.seqs[k][i]) < b
}

/// Every record of `rs` is bounded by `b`.
pub open spec fn records_bounded(rs: Seq<RecordModel>, b: nat) -> bool {
    forall|j: int| 0 <= j < rs.len() ==> record_bounded(#[trigger] rs[j], b)
}

/// Merging bounded records gives bounded bindings.
pub proof fn lemma_merged_bounded(rs: Seq<RecordModel>, b: nat)
    requires
        records_bounded(rs, b),
    ensures
        forall|k: Seq<char>| #[trigger] merged_vars(rs).contains_key(k) ==> size(merged_vars(rs)[k]) < b,
        forall|k: Seq<char>, i: int|
            merged_seqs(rs).contains_key(k) && 0 <= i < merged_seqs(rs)[k].len() ==> size(
                #[trigger] merged_seqs(rs)[k][i],
            ) < b,
        forall|k: Seq<char>, i: int|
            grouped(rs).contains_key(k) && 0 <= i < grouped(rs)[k].len() ==> size(
                #[trigger] grouped(rs)[k][i],
            ) < b,
    decreases rs.len(),
{
    if rs.len() > 0 {
        let p = rs.drop_last();
        assert(records_bounded(p, b)) by {
            assert forall|j: int| 0 <= j < p.len() implies record_bounded(#[trigger] p[j], b) by {
                assert(p[j] == rs[j]);
            }
        }
        lemma_merged_bounded(p, b);
        let last = rs.last();
        assert(record_bounded(rs[rs.len() - 1], b));
        assert forall|k: Seq<char>| #[trigger] merged_vars(rs).contains_key(k) implies size(
            merged_vars(rs)[k],
        ) < b by {
            if last.vars.contains_key(k) {
                assert(merged_vars(rs)[k] == last.vars[k]);
            } else {
                assert(merged_vars(rs)[k] == merged_vars(p)[k]);
            }
        }
        assert forall|k: Seq<char>, i: int|
            merged_seqs(rs).contains_key(k) && 0 <= i < merged_seqs(rs)[k].len() implies size(
            #[trigger] merged_seqs(rs)[k][i],
        ) < b by {
            if last.seqs.contains_key(k) {
                assert(merged_seqs(rs)[k] == last.seqs[k]);
            } else {
                assert(merged_seqs(rs)[k] == merged_seqs(p)[k]);
            }
        }
        assert forall|k: Seq<char>, i: int|
            grouped(rs).contains_key(k) && 0 <= i < grouped(rs)[k].len() implies size(
            #[trigger] grouped(rs)[k][i],
        ) < b by {
            let g = grouped(p);
            let left = if g.contains_key(k) {
                g[k]
            } else {
                Seq::empty()
            };
            let right = if last.vars.contains_key(k) {
                seq![last.vars[k]]
            } else {
                Seq::<SExprModel>::empty()
            };
            assert(grouped(rs)[k] == left + right);
            if i < left.len() {
                assert(grouped(rs)[k][i] == left[i]);
            } else {
                assert(grouped(rs)[k][i] == right[i - left.len()]);
            }
        }
    }
}

/// What a match binds is part of the target: no larger than it, and smaller
/// when the pattern is a list.
pub proof fn lemma_match_bounded(p: SExprModel, t: SExprModel)
    ensures
        spec_dyn_match(p, t) matches Some(Ok(rec)) ==> record_bounded(rec, size(t) + 1) && (
        p is List ==> record_bounded(rec, size(t))),
    decreases p, 0int,
{
    match p {
        SExprModel::List(rx) => {
            if rx.len() == 2 && rx[0] == sym_model(quote_name()) {
            } else {
                match t {
                    SExprModel::List(y) => {
                        if rx.len() == 0 || rx.len() - 1 > y.len() {
                        } else {
                            assert forall|i: int| 0 <= i < y.len() implies size(#[trigger] y[i])
                                < size(t) by {
                                lemma_size_item(y, i);
                            }
                            if rx[rx.len() - 1] == sym_model(ellipsis_name()) {
                                if rx.len() >= 2 {
                                    let tail = y.subrange(rx.len() - 2, y.len() as int);
                                    assert forall|i: int| 0 <= i < tail.len() implies size(
                                        #[trigger] tail[i],
                                    ) < size(t) by {
                                        assert(tail[i] == y[i + rx.len() - 2]);
                                    }
                                    lemma_each_bounded(rx[rx.len() - 2], tail, size(t));
                                    lemma_prefix_bounded(rx.subrange(0, rx.len() - 2), y, size(t));
                                    match spec_match_each(rx[rx.len() - 2], tail) {
                                        Some(Ok(rs)) => {
                                            lemma_merged_bounded(rs, size(t));
                                            match spec_match_prefix(rx.subrange(0, rx.len() - 2), y) {
                                                Some(Ok(rs2)) => {
                                                    lemma_merged_bounded(rs2, size(t));
                                                },
                                                _ => {},
                                            }
                                        },
                                        _ => {},
                                    }
                                }
                            } else {
                                lemma_prefix_bounded(rx, y, size(t));
                                match spec_match_prefix(rx, y) {
                                    Some(Ok(rs2)) => {
                                        lemma_merged_bounded(rs2, size(t));
                                    },
                                    _ => {},
                                }
                            }
                        }
                    },
                    SExprModel::Atom(_) => {},
                }
            }
        },
        SExprModel::Atom(_) => {},
    }
}

/// The records of item matches are bounded by a bound of the targets.
pub proof fn lemma_prefix_bounded(ps: Seq<SExprModel>, ts: Seq<SExprModel>, b: nat)
    requires
        forall|i: int| 0 <= i < ts.len() ==> size(#[trigger] ts[i]) < b,
    ensures
        spec_match_prefix(ps, ts) matches Some(Ok(rs)) ==> records_bounded(rs, b),
    decreases ps, 0int,
{
    if ps.len() > 0 && ts.len() > 0 {
        lemma_match_bounded(ps[0], ts[0]);
        assert forall|i: int| 0 <= i < ts.drop_first().len() implies size(
            #[trigger] ts.drop_first()[i],
        ) < b by {
            assert(ts.drop_first()[i] == ts[i + 1]);
        }
        lemma_prefix_bounded(ps.drop_first(), ts.drop_first(), b);
        match (spec_dyn_match(ps[0], ts[0]), spec_match_prefix(ps.drop_first(), ts.drop_first())) {
            (Some(Ok(r)), Some(Ok(rest))) => {
                assert(records_bounded(seq![r] + rest, b)) by {
                    assert forall|j: int| 0 <= j < (seq![r] + rest).len() implies record_bounded(
                        #[trigger] (seq![r] + rest)[j],
                        b,
                    ) by {
                        if j > 0 {
                            assert((seq![r] + rest)[j] == rest[j - 1]);
                        }
                    }
                }
            },
            _ => {},
        }
    }
}

/// The records of repeated matches are bounded by a bound of the targets.
pub proof fn lemma_each_bounded(p: SExprModel, ts: Seq<SExprModel>, b: nat)
    requires
        forall|i: int| 0 <= i < ts.len() ==> size(#[trigger] ts[i]) < b,
    ensures
        spec_match_each(p, ts) matches Some(Ok(rs)) ==> records_bounded(rs, b),
    decreases p, ts.len() + 1,
{
    if ts.len() > 0 {
        lemma_match_bounded(p, ts[0]);
        assert forall|i: int| 0 <= i < ts.drop_first().len() implies size(
            #[trigger] ts.drop_first()[i],
        ) < b by {
            assert(ts.drop_first()[i] == ts[i + 1]);
        }
        lemma_each_bounded(p, ts.drop_first(), b);
        match (spec_dyn_match(p, ts[0]), spec_match_each(p, ts.drop_first())) {
            (Some(Ok(r)), Some(Ok(rest))) => {
                assert(records_bounded(seq![r] + rest, b)) by {
                    assert forall|j: int| 0 <= j < (seq![r] + rest).len() implies record_bounded(
                        #[trigger] (seq![r] + rest)[j],
                        b,
                    ) by {
                        if j > 0 {
                            assert((seq![r] + rest)[j] == rest[j - 1]);
                        }
                    }
                }
            },
            _ => {},
        }
    }
}

} // verus!
