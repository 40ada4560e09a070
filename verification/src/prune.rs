//! The Column Pruner: removes the fixed set of technical (pagination and
//! response metadata) columns. A technical name that is absent is a no-op;
//! the stage can never fail. Output column order is input order with the
//! removed names excluded.

use vstd::prelude::*;

use crate::table::{SpecColumn, Table};

verus! {

/// The fixed, configuration-independent set of technical column names.
pub open spec fn is_technical(name: Seq<char>) -> bool {
    ||| name == "totalRegistros"@
    ||| name == "totalPaginas"@
    ||| name == "paginasRestantes"@
    ||| name == "links"@
    ||| name == "dataHoraConsulta"@
    ||| name == "timeZoneAtual"@
    ||| name == "dataHoraAtualizacao"@
}

/// Whether a column survives pruning.
pub open spec fn keep_col(c: SpecColumn) -> bool {
    !is_technical(c.name)
}

/// The column list after pruning: the kept columns, in their input order.
pub open spec fn spec_prune(cols: Seq<SpecColumn>) -> Seq<SpecColumn> {
    cols.filter(|c: SpecColumn| keep_col(c))
}

/// Whether this name is one of the technical column names.
pub fn is_technical_name(name: &str) -> (r: bool)
    ensures
        r == is_technical(name@),
{
    ||| crate::strutil::str_eq(name, "totalRegistros")
    ||| crate::strutil::str_eq(name, "totalPaginas")
    ||| crate::strutil::str_eq(name, "paginasRestantes")
    ||| crate::strutil::str_eq(name, "links")
    ||| crate::strutil::str_eq(name, "dataHoraConsulta")
    ||| crate::strutil::str_eq(name, "timeZoneAtual")
    ||| crate::strutil::str_eq(name, "dataHoraAtualizacao")
}

/// Every element of a filtered sequence occurs in the original.
proof fn lemma_filter_elems<A>(s: Seq<A>, pred: spec_fn(A) -> bool, i: int)
    requires
        0 <= i < s.filter(pred).len(),
    ensures
        s.contains(s.filter(pred)[i]),
    decreases s.len(),
{
    reveal(Seq::filter);
    if s.len() > 0 {
        let sub = s.drop_last().filter(pred);
        if i < sub.len() {
            lemma_filter_elems(s.drop_last(), pred, i);
            let j = choose|j: int|
                0 <= j < s.drop_last().len() && s.drop_last()[j] == s.filter(pred)[i];
            assert(s[j] == s.filter(pred)[i]);
        } else {
            assert(s[s.len() - 1] == s.filter(pred)[i]);
        }
    }
}

/// Filtering keeps a sequence of its own elements, so any filter of a column
/// list with pairwise distinct names again has pairwise distinct names.
proof fn lemma_filter_cols_nodup(s: Seq<SpecColumn>, pred: spec_fn(SpecColumn) -> bool)
    requires
        forall|i: int, j: int| 0 <= i < j < s.len() ==> s[i].name != s[j].name,
    ensures
        forall|i: int, j: int|
            0 <= i < j < s.filter(pred).len() ==> s.filter(pred)[i].name != s.filter(pred)[j].name,
    decreases s.len(),
{
    reveal(Seq::filter);
    if s.len() > 0 {
        lemma_filter_cols_nodup(s.drop_last(), pred);
        let sub = s.drop_last().filter(pred);
        let out = s.filter(pred);
        if pred(s.last()) {
            assert forall|i: int, j: int|
                0 <= i < j < out.len() implies out[i].name != out[j].name by {
                if j < out.len() - 1 {
                    assert(out[i] == sub[i] && out[j] == sub[j]);
                } else {
                    assert(out[i] == sub[i]);
                    lemma_filter_elems(s.drop_last(), pred, i);
                    let k = choose|k: int|
                        0 <= k < s.drop_last().len() && s.drop_last()[k] == sub[i];
                    assert(s[k].name != s.last().name);
                }
            }
        }
    }
}

/// A sequence whose elements all satisfy the predicate filters to itself.
proof fn lemma_filter_all<A>(s: Seq<A>, pred: spec_fn(A) -> bool)
    requires
        forall|i: int| 0 <= i < s.len() ==> pred(#[trigger] s[i]),
    ensures
        s.filter(pred) == s,
    decreases s.len(),
{
    reveal(Seq::filter);
    if s.len() > 0 {
        assert(forall|i: int|
            0 <= i < s.drop_last().len() ==> pred(#[trigger] s.drop_last()[i]));
        lemma_filter_all(s.drop_last(), pred);
        assert(s.filter(pred) =~= s);
    }
}

/// The Column Pruner is idempotent: pruning a pruned column list changes
/// nothing, because every surviving column already has a non-technical name.
pub proof fn lemma_prune_idempotent(cols: Seq<SpecColumn>)
    ensures
        spec_prune(spec_prune(cols)) == spec_prune(cols),
{
    let pred = |c: SpecColumn| keep_col(c);
    assert forall|i: int| 0 <= i < spec_prune(cols).len() implies pred(
        #[trigger] spec_prune(cols)[i],
    ) by {
        cols.lemma_filter_pred(pred, i);
    }
    lemma_filter_all(spec_prune(cols), pred);
}

/// Removes every technical column; absence is a no-op and no input can make
/// the stage fail. Row count and the order of the surviving columns are
/// unchanged.
#[verifier::loop_isolation(false)]
pub fn prune(t: &Table) -> (r: Table)
    ensures
        r@.cols == spec_prune(t@.cols),
        r@.nrows == t@.nrows,
        t@.wf() ==> r@.wf(),
{
    broadcast use crate::table::group_table_views;
    broadcast use vstd::seq_lib::group_seq_lib_default;

    let ghost src = t@.cols;
    let mut out: Vec<crate::table::Column> = Vec::new();
    proof {
        assert(src.take(0) =~= Seq::<SpecColumn>::empty());
        reveal(Seq::filter);
    }
    let mut j: usize = 0;
    while j < t.cols.len()
        invariant
            0 <= j <= t.cols.len(),
            crate::table::view_cols(out@) == spec_prune(src.take(j as int)),
        decreases t.cols.len() - j,
    {
        proof {
            assert(src.take(j + 1).drop_last() =~= src.take(j as int));
            assert(src.take(j + 1) =~= src.take(j as int).push(src[j as int]));
            src.take(j as int).lemma_filter_push(src[j as int], |c: SpecColumn| keep_col(c));
        }
        if !is_technical_name(t.cols[j].name.as_str()) {
            let c = t.cols[j].duplicate();
            let ghost pre = out@;
            out.push(c);
            proof {
                assert(out@.drop_last() =~= pre);
            }
        }
        j = j + 1;
    }
    proof {
        assert(src.take(src.len() as int) =~= src);
    }
    let r = Table { cols: out, nrows: t.nrows };
    proof {
        if t@.wf() {
            lemma_filter_cols_nodup(src, |c: SpecColumn| keep_col(c));
            assert forall|k: int| 0 <= k < r@.cols.len() implies (#[trigger] r@.cols[k]).cells.len()
                == r@.nrows by {
                lemma_filter_elems(src, |c: SpecColumn| keep_col(c), k);
                let i = choose|i: int| 0 <= i < src.len() && src[i] == r@.cols[k];
                assert(src[i].cells.len() == t@.nrows);
            }
        }
    }
    r
}

} // verus!
