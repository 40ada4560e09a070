//! The Root Unnester: flattens nested list/struct data held under the
//! configured root-path column into top-level columns.
//!
//! Decision rules, none of them fatal by design:
//! - no root path, an empty one, or no column of that name: the table is
//!   returned unchanged;
//! - a struct column: its fields become top-level columns in its place, the
//!   row count is unchanged;
//! - a list-of-struct column: the table is exploded — one output row per
//!   list element, every other column's value replicated across its row's
//!   elements — and the element fields become top-level columns in place of
//!   the list column;
//! - a list column whose element type is unknown (no typed element was
//!   ever observed) explodes too, keeping its name: this is how an empty
//!   nested record list yields an empty table;
//! - anything else, or a flattening that would collide with an existing
//!   column name: the attempt cannot apply and the table is returned
//!   unchanged rather than failing.

use vstd::prelude::*;

use crate::table::{view_cols, view_tfields, view_ty, ColField, ColType, Column, SpecColumn, SpecField, SpecTable, SpecTy, Table};
use crate::value::{record_field, view_val, view_vals, JsonVal, SpecVal};

verus! {

/// How many output rows one cell of the target column contributes.
pub open spec fn list_len(v: SpecVal) -> nat {
    match v {
        SpecVal::Arr(es) => es.len(),
        _ => 0,
    }
}

/// The elements of one cell of the target column.
pub open spec fn list_elems(v: SpecVal) -> Seq<SpecVal> {
    match v {
        SpecVal::Arr(es) => es,
        _ => Seq::empty(),
    }
}

/// The exploded row count: the summed lengths of the target cells.
pub open spec fn sum_lens(target: Seq<SpecVal>) -> nat
    decreases target,
{
    if target.len() == 0 {
        0
    } else {
        sum_lens(target.drop_last()) + list_len(target.last())
    }
}

/// A sibling column's cells after the explode: each cell repeated once per
/// element of the same row's target cell.
pub open spec fn replicate_cells(cells: Seq<SpecVal>, target: Seq<SpecVal>) -> Seq<SpecVal>
    decreases target,
{
    if target.len() == 0 {
        Seq::empty()
    } else {
        replicate_cells(cells.drop_last(), target.drop_last()) + Seq::new(
            list_len(target.last()),
            |k: int| cells.last(),
        )
    }
}

/// The target column's cells after the explode: all elements, in row order.
pub open spec fn explode_target(target: Seq<SpecVal>) -> Seq<SpecVal>
    decreases target,
{
    if target.len() == 0 {
        Seq::empty()
    } else {
        explode_target(target.drop_last()) + list_elems(target.last())
    }
}

/// The columns a struct column's fields unfold into, over the given cells.
pub open spec fn struct_cols(fs: Seq<SpecField>, cells: Seq<SpecVal>) -> Seq<SpecColumn> {
    Seq::new(
        fs.len(),
        |k: int| SpecColumn {
            name: fs[k].name,
            ty: fs[k].ty,
            cells: cells.map_values(|v: SpecVal| record_field(v, fs[k].name)),
        },
    )
}

/// A sibling column after the explode.
pub open spec fn replicate_col(c: SpecColumn, target: Seq<SpecVal>) -> SpecColumn {
    SpecColumn { name: c.name, ty: c.ty, cells: replicate_cells(c.cells, target) }
}

/// Whether the unfolded field names are pairwise distinct and collide with
/// no other column of the table.
pub open spec fn fresh_fields(t: SpecTable, j: int, fs: Seq<SpecField>) -> bool {
    &&& forall|a: int, b: int| 0 <= a < b < fs.len() ==> fs[a].name != fs[b].name
    &&& forall|a: int, jj: int|
        0 <= a < fs.len() && 0 <= jj < t.cols.len() && jj != j ==> (#[trigger] fs[a]).name != (
        #[trigger] t.cols[jj]).name
}

/// The position of the column bearing `name`.
pub open spec fn col_idx(cols: Seq<SpecColumn>, name: Seq<char>) -> int {
    choose|j: int| 0 <= j < cols.len() && cols[j].name == name
}

/// The table after unnesting a struct column in place.
pub open spec fn unnest_struct(t: SpecTable, j: int, fs: Seq<SpecField>) -> SpecTable {
    SpecTable {
        cols: t.cols.take(j) + struct_cols(fs, t.cols[j].cells) + t.cols.skip(j + 1),
        nrows: t.nrows,
    }
}

/// The table after exploding a list-of-struct column.
pub open spec fn explode_struct(t: SpecTable, j: int, fs: Seq<SpecField>) -> SpecTable {
    let target = t.cols[j].cells;
    SpecTable {
        cols: t.cols.take(j).map_values(|c: SpecColumn| replicate_col(c, target)) + struct_cols(
            fs,
            explode_target(target),
        ) + t.cols.skip(j + 1).map_values(|c: SpecColumn| replicate_col(c, target)),
        nrows: sum_lens(target),
    }
}

/// The table after exploding a list column with no element type: the
/// column stays under its own name, holding the collected elements.
pub open spec fn explode_plain(t: SpecTable, j: int) -> SpecTable {
    let target = t.cols[j].cells;
    SpecTable {
        cols: t.cols.take(j).map_values(|c: SpecColumn| replicate_col(c, target)) + seq![
            SpecColumn {
                name: t.cols[j].name,
                ty: SpecTy::Unknown,
                cells: explode_target(target),
            },
        ] + t.cols.skip(j + 1).map_values(|c: SpecColumn| replicate_col(c, target)),
        nrows: sum_lens(target),
    }
}

/// The whole decision table of the Root Unnester.
pub open spec fn spec_unnest(t: SpecTable, root: Option<Seq<char>>) -> SpecTable {
    match root {
        Option::None => t,
        Option::Some(name) => if name.len() == 0 || !t.has_col(name) {
            t
        } else {
            let j = col_idx(t.cols, name);
            match t.cols[j].ty {
                SpecTy::Struct(fs) => if fresh_fields(t, j, fs) {
                    unnest_struct(t, j, fs)
                } else {
                    t
                },
                SpecTy::List(inner) => match *inner {
                    SpecTy::Struct(fs) => if fresh_fields(t, j, fs) {
                        explode_struct(t, j, fs)
                    } else {
                        t
                    },
                    SpecTy::Unknown => explode_plain(t, j),
                    _ => t,
                },
                _ => t,
            }
        },
    }
}

/// Unnesting with no root path, an empty one, or an absent column is a
/// no-op: the table is returned unchanged.
pub proof fn lemma_unnest_noop(t: SpecTable, root: Option<Seq<char>>)
    requires
        match root {
            Option::None => true,
            Option::Some(name) => name.len() == 0 || !t.has_col(name),
        },
    ensures
        spec_unnest(t, root) == t,
{
}

/// Replicated cells have one entry per exploded row.
pub proof fn lemma_replicate_len(cells: Seq<SpecVal>, target: Seq<SpecVal>)
    requires
        cells.len() == target.len(),
    ensures
        replicate_cells(cells, target).len() == sum_lens(target),
    decreases target,
{
    if target.len() > 0 {
        lemma_replicate_len(cells.drop_last(), target.drop_last());
    }
}

/// The exploded target has one entry per exploded row.
pub proof fn lemma_explode_len(target: Seq<SpecVal>)
    ensures
        explode_target(target).len() == sum_lens(target),
    decreases target,
{
    if target.len() > 0 {
        lemma_explode_len(target.drop_last());
    }
}

/// Exploding a row whose target cell holds `k` elements produces exactly
/// `k` output rows for it; each replicated sibling cell repeats the row's
/// value across those rows, and the unfolded target holds the elements.
pub proof fn lemma_explode_index(cells: Seq<SpecVal>, target: Seq<SpecVal>, i: int, k: int)
    requires
        cells.len() == target.len(),
        0 <= i < target.len(),
        0 <= k < list_len(target[i]),
    ensures
        sum_lens(target.take(i)) + k < sum_lens(target),
        replicate_cells(cells, target)[sum_lens(target.take(i)) + k] == cells[i],
        explode_target(target)[sum_lens(target.take(i)) + k] == list_elems(target[i])[k],
    decreases target,
{
    lemma_replicate_len(cells, target);
    lemma_explode_len(target);
    let off = sum_lens(target.take(i)) + k;
    if i == target.len() - 1 {
        assert(target.take(i) =~= target.drop_last());
        lemma_replicate_len(cells.drop_last(), target.drop_last());
        lemma_explode_len(target.drop_last());
        assert(replicate_cells(cells, target)[off] == cells.last());
        assert(explode_target(target)[off] == list_elems(target.last())[k]);
    } else {
        assert(target.drop_last()[i] == target[i]);
        assert(target.drop_last().take(i) =~= target.take(i));
        lemma_explode_index(cells.drop_last(), target.drop_last(), i, k);
        lemma_replicate_len(cells.drop_last(), target.drop_last());
        lemma_explode_len(target.drop_last());
        assert(replicate_cells(cells, target)[off] == replicate_cells(
            cells.drop_last(),
            target.drop_last(),
        )[off]);
        assert(explode_target(target)[off] == explode_target(target.drop_last())[off]);
        assert(cells.drop_last()[i] == cells[i]);
    }
}

/// The explode, at the table level: the output has one row per list
/// element over all rows; the `k`-th output row born of input row `i`
/// repeats row `i`'s value unchanged in every column other than the
/// target, and holds, in each unfolded field column, that field of the
/// `k`-th element of row `i`'s list. (`spec_unnest` applies this only
/// when the field names collide with no other column; on a collision the
/// unnester leaves the table unchanged rather than failing.)
pub proof fn lemma_explode_struct_rows(
    t: SpecTable,
    j: int,
    fs: Seq<SpecField>,
    c: int,
    i: int,
    k: int,
)
    requires
        t.wf(),
        0 <= j < t.cols.len(),
        0 <= i < t.nrows,
        0 <= k < list_len(t.cols[j].cells[i]),
        0 <= c < t.cols.len(),
        c != j,
    ensures
        ({
            let r = explode_struct(t, j, fs);
            let target = t.cols[j].cells;
            let off = sum_lens(target.take(i)) + k;
            let c2 = if c < j {
                c
            } else {
                c + fs.len() - 1
            };
            &&& r.nrows == sum_lens(target)
            &&& off < r.nrows
            &&& r.cols.len() == t.cols.len() + fs.len() - 1
            &&& r.cols[c2].name == t.cols[c].name
            &&& r.cols[c2].cells[off] == t.cols[c].cells[i]
            &&& forall|f: int|
                0 <= f < fs.len() ==> (#[trigger] r.cols[j + f]).name == fs[f].name
                    && r.cols[j + f].cells[off] == record_field(
                    list_elems(target[i])[k],
                    fs[f].name,
                )
        }),
{
    let r = explode_struct(t, j, fs);
    let target = t.cols[j].cells;
    let off = sum_lens(target.take(i)) + k;
    assert(t.cols[c].cells.len() == target.len());
    lemma_explode_index(t.cols[c].cells, target, i, k);
    lemma_explode_len(target);
    if c < j {
        assert(r.cols[c] == replicate_col(t.cols[c], target));
    } else {
        assert(r.cols[c + fs.len() - 1] == replicate_col(t.cols[c], target));
    }
    assert forall|f: int|
        0 <= f < fs.len() implies (#[trigger] r.cols[j + f]).name == fs[f].name && r.cols[j
        + f].cells[off] == record_field(list_elems(target[i])[k], fs[f].name) by {
        assert(r.cols[j + f] == struct_cols(fs, explode_target(target))[f]);
        assert(r.cols[j + f].cells[off] == record_field(
            explode_target(target)[off],
            fs[f].name,
        ));
    }
}

/// A value's view is an array exactly when the value is, and the element
/// views line up.
proof fn lemma_view_arr(v: JsonVal)
    ensures
        (view_val(v) matches SpecVal::Arr(_)) <==> (v matches JsonVal::Arr(_)),
{
    match v {
        JsonVal::Null => {},
        JsonVal::Bool(_) => {},
        JsonVal::Int(_) => {},
        JsonVal::Num(_) => {},
        JsonVal::Text(_) => {},
        JsonVal::Arr(_) => {},
        JsonVal::Obj(_) => {},
    }
}

/// One sibling column's cells after the explode: the row's value repeated
/// once per element of the row's target cell.
#[verifier::loop_isolation(false)]
fn explode_sibling(cells: &Vec<JsonVal>, target: &Vec<JsonVal>) -> (r: Vec<JsonVal>)
    requires
        cells@.len() == target@.len(),
    ensures
        view_vals(r@) == replicate_cells(view_vals(cells@), view_vals(target@)),
{
    broadcast use crate::value::group_value_views;

    let ghost cv = view_vals(cells@);
    let ghost tv = view_vals(target@);
    let mut out: Vec<JsonVal> = Vec::new();
    proof {
        assert(cv.take(0) =~= Seq::<SpecVal>::empty());
        assert(tv.take(0) =~= Seq::<SpecVal>::empty());
    }
    let mut i: usize = 0;
    while i < target.len()
        invariant
            0 <= i <= target.len(),
            view_vals(out@) == replicate_cells(cv.take(i as int), tv.take(i as int)),
        decreases target.len() - i,
    {
        proof {
            assert(cv.take(i + 1).drop_last() =~= cv.take(i as int));
            assert(tv.take(i + 1).drop_last() =~= tv.take(i as int));
            assert(cv.take(i + 1).last() == cv[i as int]);
            assert(tv.take(i + 1).last() == tv[i as int]);
            lemma_view_arr(target@[i as int]);
        }
        match &target[i] {
            JsonVal::Arr(es) => {
                proof {
                    assert(tv[i as int] == SpecVal::Arr(view_vals(es@)));
                    assert(list_len(tv[i as int]) == es@.len());
                }
                let mut k: usize = 0;
                while k < es.len()
                    invariant
                        0 <= k <= es.len(),
                        view_vals(out@) == replicate_cells(cv.take(i as int), tv.take(i as int))
                            + Seq::new(k as nat, |x: int| cv[i as int]),
                    decreases es.len() - k,
                {
                    let v = cells[i].duplicate();
                    let ghost pre = out@;
                    out.push(v);
                    proof {
                        assert(out@.drop_last() =~= pre);
                        assert(view_vals(out@) == view_vals(pre).push(cv[i as int]));
                        assert(view_vals(out@) =~= replicate_cells(
                            cv.take(i as int),
                            tv.take(i as int),
                        ) + Seq::new((k + 1) as nat, |x: int| cv[i as int]));
                    }
                    k = k + 1;
                }
                proof {
                    assert(replicate_cells(cv.take(i + 1), tv.take(i + 1)) =~= replicate_cells(
                        cv.take(i as int),
                        tv.take(i as int),
                    ) + Seq::new(es@.len() as nat, |x: int| cv[i as int]));
                }
            },
            _ => {
                proof {
                    assert(list_len(tv[i as int]) == 0);
                    assert(replicate_cells(cv.take(i + 1), tv.take(i + 1)) =~= replicate_cells(
                        cv.take(i as int),
                        tv.take(i as int),
                    ));
                }
            },
        }
        i = i + 1;
    }
    proof {
        assert(cv.take(cv.len() as int) =~= cv);
        assert(tv.take(tv.len() as int) =~= tv);
    }
    out
}

/// The exploded target column: every element of every cell, in row order.
#[verifier::loop_isolation(false)]
fn flatten_target(target: &Vec<JsonVal>) -> (r: Vec<JsonVal>)
    ensures
        view_vals(r@) == explode_target(view_vals(target@)),
{
    broadcast use crate::value::group_value_views;

    let ghost tv = view_vals(target@);
    let mut out: Vec<JsonVal> = Vec::new();
    proof {
        assert(tv.take(0) =~= Seq::<SpecVal>::empty());
    }
    let mut i: usize = 0;
    while i < target.len()
        invariant
            0 <= i <= target.len(),
            view_vals(out@) == explode_target(tv.take(i as int)),
        decreases target.len() - i,
    {
        proof {
            assert(tv.take(i + 1).drop_last() =~= tv.take(i as int));
            assert(tv.take(i + 1).last() == tv[i as int]);
            lemma_view_arr(target@[i as int]);
        }
        match &target[i] {
            JsonVal::Arr(es) => {
                proof {
                    assert(tv[i as int] == SpecVal::Arr(view_vals(es@)));
                    assert(list_elems(tv[i as int]) == view_vals(es@));
                    assert(list_elems(tv[i as int]).take(0) =~= Seq::<SpecVal>::empty());
                }
                let mut k: usize = 0;
                while k < es.len()
                    invariant
                        0 <= k <= es.len(),
                        view_vals(out@) == explode_target(tv.take(i as int)) + list_elems(
                            tv[i as int],
                        ).take(k as int),
                    decreases es.len() - k,
                {
                    let v = es[k].duplicate();
                    let ghost pre = out@;
                    out.push(v);
                    proof {
                        assert(out@.drop_last() =~= pre);
                        assert(view_vals(out@) == view_vals(pre).push(view_val(es@[k as int])));
                        assert(list_elems(tv[i as int]).take(k + 1) =~= list_elems(
                            tv[i as int],
                        ).take(k as int).push(view_val(es@[k as int])));
                        assert(view_vals(out@) =~= explode_target(tv.take(i as int)) + list_elems(
                            tv[i as int],
                        ).take(k + 1));
                    }
                    k = k + 1;
                }
                proof {
                    assert(list_elems(tv[i as int]).take(es@.len() as int) =~= list_elems(
                        tv[i as int],
                    ));
                    assert(explode_target(tv.take(i + 1)) =~= explode_target(tv.take(i as int))
                        + list_elems(tv[i as int]));
                }
            },
            _ => {
                proof {
                    assert(list_elems(tv[i as int]) =~= Seq::<SpecVal>::empty());
                    assert(explode_target(tv.take(i + 1)) =~= explode_target(tv.take(i as int)));
                }
            },
        }
        i = i + 1;
    }
    proof {
        assert(tv.take(tv.len() as int) =~= tv);
    }
    out
}

/// One unfolded field column: the field's value out of every cell.
#[verifier::loop_isolation(false)]
fn field_cells(cells: &Vec<JsonVal>, name: &str) -> (r: Vec<JsonVal>)
    ensures
        view_vals(r@) == view_vals(cells@).map_values(
            |v: SpecVal| record_field(v, name@),
        ),
{
    broadcast use crate::value::group_value_views;

    let ghost cv = view_vals(cells@);
    let mut out: Vec<JsonVal> = Vec::new();
    let mut i: usize = 0;
    while i < cells.len()
        invariant
            0 <= i <= cells.len(),
            out@.len() == i,
            forall|k: int|
                0 <= k < i ==> #[trigger] view_vals(out@)[k] == record_field(cv[k], name@),
        decreases cells.len() - i,
    {
        let v = cells[i].get_field(name).duplicate();
        let ghost pre = out@;
        out.push(v);
        proof {
            assert(out@.drop_last() =~= pre);
            assert(forall|k: int| 0 <= k < i ==> view_vals(pre)[k] == view_vals(out@)[k]);
        }
        i = i + 1;
    }
    proof {
        assert(view_vals(out@) =~= cv.map_values(|v: SpecVal| record_field(v, name@)));
    }
    out
}

/// Whether the unfolded field names are pairwise distinct and collide with
/// no other column (see `fresh_fields`).
#[verifier::loop_isolation(false)]
fn fields_fresh(t: &Table, j: usize, fs: &Vec<ColField>) -> (r: bool)
    requires
        j < t@.cols.len(),
    ensures
        r == fresh_fields(t@, j as int, view_tfields(fs@)),
{
    broadcast use crate::table::group_table_views;

    let ghost vfs = view_tfields(fs@);
    let mut a: usize = 0;
    while a < fs.len()
        invariant
            0 <= a <= fs.len(),
            forall|x: int, y: int| 0 <= x < y < a ==> vfs[x].name != vfs[y].name,
            forall|x: int, jj: int|
                0 <= x < a && 0 <= jj < t@.cols.len() && jj != j ==> (#[trigger] vfs[x]).name != (
                #[trigger] t@.cols[jj]).name,
        decreases fs.len() - a,
    {
        let mut b: usize = 0;
        while b < a
            invariant
                0 <= b <= a < fs.len(),
                forall|y: int| 0 <= y < b ==> vfs[y].name != vfs[a as int].name,
            decreases a - b,
        {
            if crate::strutil::str_eq(fs[b].name.as_str(), fs[a].name.as_str()) {
                assert(vfs[b as int].name == vfs[a as int].name);
                return false;
            }
            b = b + 1;
        }
        let mut jj: usize = 0;
        while jj < t.cols.len()
            invariant
                0 <= jj <= t@.cols.len(),
                a < fs.len(),
                forall|y: int| 0 <= y < a ==> vfs[y].name != vfs[a as int].name,
                forall|k: int|
                    0 <= k < jj && k != j ==> (#[trigger] t@.cols[k]).name != vfs[a as int].name,
            decreases t.cols.len() - jj,
        {
            if jj != j {
                if crate::strutil::str_eq(t.cols[jj].name.as_str(), fs[a].name.as_str()) {
                    assert(t@.cols[jj as int].name == vfs[a as int].name);
                    return false;
                }
            }
            jj = jj + 1;
        }
        a = a + 1;
    }
    assert forall|x: int, y: int| 0 <= x < y < vfs.len() implies vfs[x].name != vfs[y].name by {}
    true
}

/// The unfolded field columns over the given cells.
#[verifier::loop_isolation(false)]
fn build_struct_middle(cells: &Vec<JsonVal>, fs: &Vec<ColField>) -> (r: Vec<Column>)
    ensures
        view_cols(r@) == struct_cols(view_tfields(fs@), view_vals(cells@)),
        r@.len() == fs@.len(),
{
    broadcast use crate::table::group_table_views;
    broadcast use crate::value::group_value_views;

    let ghost vfs = view_tfields(fs@);
    let ghost cv = view_vals(cells@);
    let mut out: Vec<Column> = Vec::new();
    let mut k: usize = 0;
    while k < fs.len()
        invariant
            0 <= k <= fs.len(),
            out@.len() == k,
            forall|x: int|
                0 <= x < k ==> #[trigger] view_cols(out@)[x] == struct_cols(vfs, cv)[x],
        decreases fs.len() - k,
    {
        let name = fs[k].name.clone();
        let ty = fs[k].ty.duplicate();
        let cs = field_cells(cells, fs[k].name.as_str());
        let ghost pre = out@;
        let col = Column { name, ty, cells: cs };
        out.push(col);
        proof {
            assert(out@.drop_last() =~= pre);
            assert forall|x: int| 0 <= x < k + 1 implies #[trigger] view_cols(out@)[x]
                == struct_cols(vfs, cv)[x] by {
                if x < k {
                    assert(view_cols(out@)[x] == view_cols(pre)[x]);
                } else {
                    assert(view_cols(out@)[x] == col@);
                    assert(col@.cells =~= cv.map_values(
                        |v: SpecVal| record_field(v, vfs[k as int].name),
                    ));
                    assert(view_cols(out@)[x] =~= struct_cols(vfs, cv)[x]);
                }
            }
        }
        k = k + 1;
    }
    proof {
        assert(view_cols(out@) =~= struct_cols(vfs, cv));
    }
    out
}

/// Reassembles the table around position `j`: the sibling columns before
/// and after it — replicated across the exploded rows when exploding — with
/// the given columns in its place.
#[verifier::loop_isolation(false)]
fn rebuild(t: &Table, j: usize, middle: Vec<Column>, explode: bool, nrows2: usize) -> (r: Table)
    requires
        t@.wf(),
        j < t@.cols.len(),
        explode ==> nrows2 as nat == sum_lens(t@.cols[j as int].cells),
        !explode ==> nrows2 as nat == t@.nrows,
        forall|k: int|
            0 <= k < middle@.len() ==> (#[trigger] view_cols(middle@)[k]).cells.len()
                == nrows2 as nat,
        forall|x: int, y: int|
            0 <= x < y < middle@.len() ==> view_cols(middle@)[x].name != view_cols(
                middle@,
            )[y].name,
        forall|x: int, jj: int|
            0 <= x < middle@.len() && 0 <= jj < t@.cols.len() && jj != j ==> (#[trigger] view_cols(
                middle@,
            )[x]).name != (#[trigger] t@.cols[jj]).name,
    ensures
        r@.nrows == nrows2,
        r@.cols == (if explode {
            t@.cols.take(j as int).map_values(
                |c: SpecColumn| replicate_col(c, t@.cols[j as int].cells),
            ) + view_cols(middle@) + t@.cols.skip(j + 1).map_values(
                |c: SpecColumn| replicate_col(c, t@.cols[j as int].cells),
            )
        } else {
            t@.cols.take(j as int) + view_cols(middle@) + t@.cols.skip(j + 1)
        }),
        r@.wf(),
{
    broadcast use crate::table::group_table_views;
    broadcast use crate::value::group_value_views;

    let ghost target = t@.cols[j as int].cells;
    let ghost mv = view_cols(middle@);
    let ghost mlen = middle@.len() as int;
    let mut out: Vec<Column> = Vec::new();
    let mut jj: usize = 0;
    while jj < j
        invariant
            0 <= jj <= j < t@.cols.len(),
            out@.len() == jj,
            forall|x: int|
                0 <= x < jj ==> #[trigger] view_cols(out@)[x] == (if explode {
                    replicate_col(t@.cols[x], target)
                } else {
                    t@.cols[x]
                }),
        decreases j - jj,
    {
        proof {
            assert(view_cols(t.cols@)[jj as int].cells.len() == t@.nrows);
            assert(view_cols(t.cols@)[j as int].cells.len() == t@.nrows);
        }
        let c = if explode {
            let cs = explode_sibling(&t.cols[jj].cells, &t.cols[j].cells);
            Column { name: t.cols[jj].name.clone(), ty: t.cols[jj].ty.duplicate(), cells: cs }
        } else {
            t.cols[jj].duplicate()
        };
        let ghost pre = out@;
        out.push(c);
        proof {
            assert(out@.drop_last() =~= pre);
            assert forall|x: int| 0 <= x < jj + 1 implies #[trigger] view_cols(out@)[x] == (
            if explode {
                replicate_col(t@.cols[x], target)
            } else {
                t@.cols[x]
            }) by {
                if x < jj {
                    assert(view_cols(out@)[x] == view_cols(pre)[x]);
                } else {
                    if explode {
                        assert(view_cols(out@)[x] =~= replicate_col(t@.cols[x], target));
                    } else {
                        assert(view_cols(out@)[x] == t@.cols[x]);
                    }
                }
            }
        }
        jj = jj + 1;
    }

    let mut middle = middle;
    let mut p: usize = 0;
    while p < middle.len()
        invariant
            0 <= p <= middle@.len(),
            mv == view_cols(middle@),
            out@.len() == j + p,
            forall|x: int|
                0 <= x < j ==> #[trigger] view_cols(out@)[x] == (if explode {
                    replicate_col(t@.cols[x], target)
                } else {
                    t@.cols[x]
                }),
            forall|x: int| 0 <= x < p ==> #[trigger] view_cols(out@)[j + x] == mv[x],
        decreases middle.len() - p,
    {
        let c = middle[p].duplicate();
        let ghost pre = out@;
        out.push(c);
        proof {
            assert(out@.drop_last() =~= pre);
            assert forall|x: int| 0 <= x < j implies #[trigger] view_cols(out@)[x] == (
            if explode {
                replicate_col(t@.cols[x], target)
            } else {
                t@.cols[x]
            }) by {
                assert(view_cols(out@)[x] == view_cols(pre)[x]);
            }
            assert forall|x: int| 0 <= x < p + 1 implies #[trigger] view_cols(out@)[j + x]
                == mv[x] by {
                if x < p {
                    assert(view_cols(out@)[j + x] == view_cols(pre)[j + x]);
                } else {
                    assert(view_cols(out@)[j + x] == mv[p as int]);
                }
            }
        }
        p = p + 1;
    }

    assert(j < t.cols.len());
    let mut jj: usize = j + 1;
    while jj < t.cols.len()
        invariant
            j + 1 <= jj <= t@.cols.len(),
            out@.len() == mlen + jj - 1,
            forall|x: int|
                0 <= x < j ==> #[trigger] view_cols(out@)[x] == (if explode {
                    replicate_col(t@.cols[x], target)
                } else {
                    t@.cols[x]
                }),
            forall|x: int| 0 <= x < mlen ==> #[trigger] view_cols(out@)[j + x] == mv[x],
            forall|x: int|
                j < x < jj ==> #[trigger] view_cols(out@)[mlen + x - 1] == (if explode {
                    replicate_col(t@.cols[x], target)
                } else {
                    t@.cols[x]
                }),
        decreases t.cols.len() - jj,
    {
        proof {
            assert(view_cols(t.cols@)[jj as int].cells.len() == t@.nrows);
            assert(view_cols(t.cols@)[j as int].cells.len() == t@.nrows);
        }
        let c = if explode {
            let cs = explode_sibling(&t.cols[jj].cells, &t.cols[j].cells);
            Column { name: t.cols[jj].name.clone(), ty: t.cols[jj].ty.duplicate(), cells: cs }
        } else {
            t.cols[jj].duplicate()
        };
        let ghost pre = out@;
        out.push(c);
        proof {
            assert(out@.drop_last() =~= pre);
            assert forall|x: int| 0 <= x < j implies #[trigger] view_cols(out@)[x] == (
            if explode {
                replicate_col(t@.cols[x], target)
            } else {
                t@.cols[x]
            }) by {
                assert(view_cols(out@)[x] == view_cols(pre)[x]);
            }
            assert forall|x: int| 0 <= x < mlen implies #[trigger] view_cols(out@)[j + x]
                == mv[x] by {
                assert(view_cols(out@)[j + x] == view_cols(pre)[j + x]);
            }
            assert forall|x: int| j < x < jj + 1 implies #[trigger] view_cols(out@)[mlen + x - 1]
                == (if explode {
                replicate_col(t@.cols[x], target)
            } else {
                t@.cols[x]
            }) by {
                if x < jj {
                    assert(view_cols(out@)[mlen + x - 1] == view_cols(pre)[mlen + x - 1]);
                } else {
                    if explode {
                        assert(view_cols(out@)[mlen + x - 1] =~= replicate_col(
                            t@.cols[x],
                            target,
                        ));
                    } else {
                        assert(view_cols(out@)[mlen + x - 1] == t@.cols[x]);
                    }
                }
            }
        }
        jj = jj + 1;
    }

    let r = Table { cols: out, nrows: nrows2 };
    proof {
        let spec_cols = if explode {
            t@.cols.take(j as int).map_values(|c: SpecColumn| replicate_col(c, target))
                + view_cols(middle@) + t@.cols.skip(j + 1).map_values(
                |c: SpecColumn| replicate_col(c, target),
            )
        } else {
            t@.cols.take(j as int) + view_cols(middle@) + t@.cols.skip(j + 1)
        };
        assert(r@.cols.len() == spec_cols.len());
        assert forall|x: int| 0 <= x < r@.cols.len() implies #[trigger] r@.cols[x]
            == spec_cols[x] by {
            if x < j {
                assert(spec_cols[x] == (if explode {
                    replicate_col(t@.cols[x], target)
                } else {
                    t@.cols[x]
                }));
            } else if x < j + mlen {
                assert(spec_cols[x] == mv[x - j]);
                assert(r@.cols[j + (x - j)] == mv[x - j]);
            } else {
                assert(spec_cols[x] == (if explode {
                    replicate_col(t@.cols[x - mlen + 1], target)
                } else {
                    t@.cols[x - mlen + 1]
                }));
                assert(r@.cols[mlen + (x - mlen + 1) - 1] == (if explode {
                    replicate_col(t@.cols[x - mlen + 1], target)
                } else {
                    t@.cols[x - mlen + 1]
                }));
            }
        }
        assert(r@.cols =~= spec_cols);
        assert forall|k: int| 0 <= k < r@.cols.len() implies (#[trigger] r@.cols[k]).cells.len()
            == r@.nrows by {
            if k < j {
                if explode {
                    lemma_replicate_len(t@.cols[k].cells, target);
                }
            } else if k < j + mlen {
            } else {
                if explode {
                    lemma_replicate_len(t@.cols[k - mlen + 1].cells, target);
                }
            }
        }
        assert forall|k1: int, k2: int|
            0 <= k1 < k2 < r@.cols.len() implies r@.cols[k1].name != r@.cols[k2].name by {
            let n1 = r@.cols[k1].name;
            let n2 = r@.cols[k2].name;
            if k1 < j {
                assert(n1 == t@.cols[k1].name);
            } else if k1 < j + mlen {
                assert(n1 == mv[k1 - j].name);
            } else {
                assert(n1 == t@.cols[k1 - mlen + 1].name);
            }
            if k2 < j {
                assert(n2 == t@.cols[k2].name);
            } else if k2 < j + mlen {
                assert(n2 == mv[k2 - j].name);
            } else {
                assert(n2 == t@.cols[k2 - mlen + 1].name);
            }
        }
    }
    r
}

/// Applies the Root Unnester's decision table (see the module comment and
/// `spec_unnest`): flattens the root-path column where one applies, and
/// returns the table unchanged in every case where it does not. No input
/// can make this stage fail.
#[verifier::loop_isolation(false)]
pub fn unnest_root(t: Table, root_path: Option<&str>) -> (r: Table)
    requires
        t@.wf(),
    ensures
        r@ == spec_unnest(
            t@,
            match root_path {
                Option::Some(s) => Option::Some(s@),
                Option::None => Option::None,
            },
        ),
        r@.wf(),
{
    broadcast use crate::table::group_table_views;
    broadcast use crate::value::group_value_views;
    broadcast use vstd::string::group_string_axioms;

    let name = match root_path {
        Option::None => {
            return t;
        },
        Option::Some(s) => s,
    };
    if name.unicode_len() == 0 {
        return t;
    }
    let j = match t.find_col(name) {
        Option::None => {
            return t;
        },
        Option::Some(j) => j,
    };
    proof {
        assert(t@.has_col(name@));
        let cj = col_idx(t@.cols, name@);
        assert(0 <= cj < t@.cols.len() && t@.cols[cj].name == name@);
        if cj != j {
            assert(false);
        }
    }
    match &t.cols[j].ty {
        ColType::Struct(fs) => {
            proof {
                assert(t@.cols[j as int].ty == SpecTy::Struct(view_tfields(fs@)));
            }
            if fields_fresh(&t, j, fs) {
                let middle = build_struct_middle(&t.cols[j].cells, fs);
                let r = rebuild(&t, j, middle, false, t.nrows);
                proof {
                    assert(r@ =~= unnest_struct(t@, j as int, view_tfields(fs@)));
                }
                return r;
            }
        },
        ColType::List(inner) => {
            match &**inner {
                ColType::Struct(fs) => {
                    proof {
                        assert(view_ty(**inner) == SpecTy::Struct(view_tfields(fs@)));
                        assert(t@.cols[j as int].ty == SpecTy::List(
                            Box::new(SpecTy::Struct(view_tfields(fs@))),
                        ));
                    }
                    if fields_fresh(&t, j, fs) {
                        let flat = flatten_target(&t.cols[j].cells);
                        proof {
                            lemma_explode_len(t@.cols[j as int].cells);
                        }
                        let n2 = flat.len();
                        let middle = build_struct_middle(&flat, fs);
                        let r = rebuild(&t, j, middle, true, n2);
                        proof {
                            assert(r@ =~= explode_struct(t@, j as int, view_tfields(fs@)));
                        }
                        return r;
                    }
                },
                ColType::Unknown => {
                    proof {
                        assert(view_ty(**inner) == SpecTy::Unknown);
                        assert(t@.cols[j as int].ty == SpecTy::List(Box::new(SpecTy::Unknown)));
                    }
                    let flat = flatten_target(&t.cols[j].cells);
                    proof {
                        lemma_explode_len(t@.cols[j as int].cells);
                    }
                    let n2 = flat.len();
                    let name_col = t.cols[j].name.clone();
                    let mut middle: Vec<Column> = Vec::new();
                    middle.push(Column { name: name_col, ty: ColType::Unknown, cells: flat });
                    proof {
                        assert(view_cols(middle@) =~= seq![
                            SpecColumn {
                                name: t@.cols[j as int].name,
                                ty: SpecTy::Unknown,
                                cells: explode_target(t@.cols[j as int].cells),
                            },
                        ]);
                    }
                    let r = rebuild(&t, j, middle, true, n2);
                    proof {
                        assert(r@ =~= explode_plain(t@, j as int));
                    }
                    return r;
                },
                _ => {},
            }
        },
        _ => {},
    }
    t
}

} // verus!
