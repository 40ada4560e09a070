//! The Schema Inferencer: turns a decoded array of records into a `Table`.
//!
//! The columns are the union of the keys observed across the schema-inference
//! sample, in order of first appearance; a missing key reads as a null cell,
//! never an error. Each column's type is the widest of its sampled values'
//! types, under the widening rules of `spec_unify` — the one central place
//! where the rules are defined.

use vstd::prelude::*;

use crate::errors::ProcessorError;
use crate::table::{view_cols, view_tfields, ColField, ColType, Column, SpecColumn, SpecField, SpecTable, SpecTy, Table};
use crate::value::{record_field, record_keys, view_fields, view_val, view_vals, JsonVal, SpecVal};

verus! {

/// Whether a struct field list binds `name`.
pub open spec fn spec_has_field(fs: Seq<SpecField>, name: Seq<char>) -> bool {
    exists|i: int| 0 <= i < fs.len() && fs[i].name == name
}

/// The type bound to `name` in a struct field list (first binding wins,
/// `Unknown` when unbound).
pub open spec fn spec_field_ty(fs: Seq<SpecField>, name: Seq<char>) -> SpecTy
    decreases fs.len(),
{
    if fs.len() == 0 {
        SpecTy::Unknown
    } else if fs[0].name == name {
        fs[0].ty
    } else {
        spec_field_ty(fs.skip(1), name)
    }
}

/// The narrowest common type of two column types — the central widening
/// rules. `Unknown` (all nulls) widens to anything; integers widen to
/// floats; lists and structs unify component-wise; any other mismatch
/// falls back to text.
pub open spec fn spec_unify(a: SpecTy, b: SpecTy) -> SpecTy
    decreases a,
{
    match (a, b) {
        (SpecTy::Unknown, _) => b,
        (_, SpecTy::Unknown) => a,
        (SpecTy::Bool, SpecTy::Bool) => SpecTy::Bool,
        (SpecTy::Int, SpecTy::Int) => SpecTy::Int,
        (SpecTy::Int, SpecTy::Float) => SpecTy::Float,
        (SpecTy::Float, SpecTy::Int) => SpecTy::Float,
        (SpecTy::Float, SpecTy::Float) => SpecTy::Float,
        (SpecTy::Text, SpecTy::Text) => SpecTy::Text,
        (SpecTy::List(x), SpecTy::List(y)) => SpecTy::List(Box::new(spec_unify(*x, *y))),
        (SpecTy::Struct(f1), SpecTy::Struct(f2)) => SpecTy::Struct(
            spec_merge(f1, f2) + extra_fields(f1, f2),
        ),
        _ => SpecTy::Text,
    }
}

/// The fields of `f2` that `f1` does not bind, in order.
pub open spec fn extra_fields(f1: Seq<SpecField>, f2: Seq<SpecField>) -> Seq<SpecField> {
    f2.filter(|f: SpecField| !spec_has_field(f1, f.name))
}

/// The left side of a struct unification: every field of `f1`, in order,
/// unified with the equally named field of `f2` where one exists.
pub open spec fn spec_merge(f1: Seq<SpecField>, f2: Seq<SpecField>) -> Seq<SpecField>
    decreases f1,
{
    if f1.len() == 0 {
        Seq::empty()
    } else {
        let last = f1.last();
        let ty = if spec_has_field(f2, last.name) {
            spec_unify(last.ty, spec_field_ty(f2, last.name))
        } else {
            last.ty
        };
        spec_merge(f1.drop_last(), f2).push(SpecField { name: last.name, ty: ty })
    }
}

/// The semantic type of a single value.
pub open spec fn spec_vtype(v: SpecVal) -> SpecTy
    decreases v,
{
    match v {
        SpecVal::Null => SpecTy::Unknown,
        SpecVal::Bool(_) => SpecTy::Bool,
        SpecVal::Int(_) => SpecTy::Int,
        SpecVal::Num(_) => SpecTy::Float,
        SpecVal::Text(_) => SpecTy::Text,
        SpecVal::Arr(elems) => SpecTy::List(Box::new(spec_elems_ty(elems))),
        SpecVal::Obj(fields) => SpecTy::Struct(spec_fields_ty(fields)),
    }
}

/// The widest common type of a sequence of values, folded left to right
/// from `Unknown`.
pub open spec fn spec_elems_ty(es: Seq<SpecVal>) -> SpecTy
    decreases es,
{
    if es.len() == 0 {
        SpecTy::Unknown
    } else {
        spec_unify(spec_elems_ty(es.drop_last()), spec_vtype(es.last()))
    }
}

/// The struct type of an object's field list.
pub open spec fn spec_fields_ty(fields: Seq<(Seq<char>, SpecVal)>) -> Seq<SpecField>
    decreases fields,
{
    if fields.len() == 0 {
        Seq::empty()
    } else {
        spec_fields_ty(fields.drop_last()).push(
            SpecField { name: fields.last().0, ty: spec_vtype(fields.last().1) },
        )
    }
}

/// `acc` extended with every key of `ks` not already present, in order.
pub open spec fn add_keys(acc: Seq<Seq<char>>, ks: Seq<Seq<char>>) -> Seq<Seq<char>>
    decreases ks.len(),
{
    if ks.len() == 0 {
        acc
    } else {
        let acc1 = if acc.contains(ks[0]) {
            acc
        } else {
            acc.push(ks[0])
        };
        add_keys(acc1, ks.skip(1))
    }
}

/// The union of the keys of a record sequence, in order of first appearance.
pub open spec fn key_union(records: Seq<SpecVal>) -> Seq<Seq<char>>
    decreases records,
{
    if records.len() == 0 {
        Seq::empty()
    } else {
        add_keys(key_union(records.drop_last()), record_keys(records.last()))
    }
}

/// Whether every element of a record sequence is an object.
pub open spec fn all_objects(records: Seq<SpecVal>) -> bool {
    forall|i: int| 0 <= i < records.len() ==> (#[trigger] records[i]) matches SpecVal::Obj(_)
}

/// `add_keys` contains exactly the old keys and the added ones.
pub proof fn lemma_add_keys_contains(acc: Seq<Seq<char>>, ks: Seq<Seq<char>>, x: Seq<char>)
    ensures
        add_keys(acc, ks).contains(x) <==> (acc.contains(x) || ks.contains(x)),
    decreases ks.len(),
{
    if ks.len() > 0 {
        let acc1 = if acc.contains(ks[0]) {
            acc
        } else {
            acc.push(ks[0])
        };
        lemma_add_keys_contains(acc1, ks.skip(1), x);
        assert(acc1.contains(x) <==> (acc.contains(x) || x == ks[0])) by {
            if acc.contains(x) {
                let i = choose|i: int| 0 <= i < acc.len() && acc[i] == x;
                assert(acc1[i] == x);
            }
            if !acc.contains(ks[0]) {
                if x == ks[0] {
                    assert(acc1[acc.len() as int] == x);
                }
                if acc1.contains(x) && !acc.contains(x) && x != ks[0] {
                    let i = choose|i: int| 0 <= i < acc1.len() && acc1[i] == x;
                    if i < acc.len() {
                        assert(acc[i] == x);
                    }
                    assert(false);
                }
            }
        }
        assert(ks.contains(x) <==> (x == ks[0] || ks.skip(1).contains(x))) by {
            if ks.contains(x) {
                let i = choose|i: int| 0 <= i < ks.len() && ks[i] == x;
                if i > 0 {
                    assert(ks.skip(1)[i - 1] == x);
                }
            }
            if ks.skip(1).contains(x) {
                let i = choose|i: int| 0 <= i < ks.skip(1).len() && ks.skip(1)[i] == x;
                assert(ks[i + 1] == x);
            }
        }
    }
}

/// `add_keys` keeps the accumulator as a prefix and stays duplicate-free.
pub proof fn lemma_add_keys_nodup(acc: Seq<Seq<char>>, ks: Seq<Seq<char>>)
    requires
        forall|i: int, j: int| 0 <= i < j < acc.len() ==> acc[i] != acc[j],
    ensures
        forall|i: int, j: int|
            0 <= i < j < add_keys(acc, ks).len() ==> add_keys(acc, ks)[i] != add_keys(acc, ks)[j],
        add_keys(acc, ks).len() >= acc.len(),
        add_keys(acc, ks).take(acc.len() as int) == acc,
    decreases ks.len(),
{
    if ks.len() == 0 {
        assert(add_keys(acc, ks).take(acc.len() as int) =~= acc);
    } else {
        let acc1 = if acc.contains(ks[0]) {
            acc
        } else {
            acc.push(ks[0])
        };
        assert forall|i: int, j: int| 0 <= i < j < acc1.len() implies acc1[i] != acc1[j] by {
            if !acc.contains(ks[0]) && j == acc.len() {
                assert(acc[i] != ks[0]);
            }
        }
        lemma_add_keys_nodup(acc1, ks.skip(1));
        let r = add_keys(acc1, ks.skip(1));
        assert(add_keys(acc, ks) == r);
        assert(r.take(acc.len() as int) =~= r.take(acc1.len() as int).take(acc.len() as int));
        assert(acc1.take(acc.len() as int) =~= acc);
    }
}

/// The key union holds exactly the keys observed in the records.
pub proof fn lemma_key_union_contains(records: Seq<SpecVal>, x: Seq<char>)
    ensures
        key_union(records).contains(x) <==> (exists|i: int|
            0 <= i < records.len() && record_keys(#[trigger] records[i]).contains(x)),
    decreases records,
{
    if records.len() > 0 {
        lemma_key_union_contains(records.drop_last(), x);
        lemma_add_keys_contains(key_union(records.drop_last()), record_keys(records.last()), x);
        if key_union(records).contains(x) {
            if record_keys(records.last()).contains(x) {
                assert(record_keys(records[records.len() - 1]).contains(x));
            } else {
                let i = choose|i: int|
                    0 <= i < records.drop_last().len() && record_keys(
                        #[trigger] records.drop_last()[i],
                    ).contains(x);
                assert(records.drop_last()[i] == records[i]);
            }
        } else {
            assert forall|i: int|
                0 <= i < records.len() implies !record_keys(#[trigger] records[i]).contains(
                x,
            ) by {
                if i < records.len() - 1 {
                    assert(records.drop_last()[i] == records[i]);
                }
            }
        }
    }
}

/// The key union is duplicate-free: the inferred column names are unique.
pub proof fn lemma_key_union_nodup(records: Seq<SpecVal>)
    ensures
        forall|i: int, j: int|
            0 <= i < j < key_union(records).len() ==> key_union(records)[i] != key_union(
                records,
            )[j],
    decreases records,
{
    if records.len() > 0 {
        lemma_key_union_nodup(records.drop_last());
        lemma_add_keys_nodup(key_union(records.drop_last()), record_keys(records.last()));
    }
}

/// Size of the schema-inference sample: the whole input, or the cap.
pub open spec fn spec_sample(cap: Option<usize>, n: nat) -> nat {
    match cap {
        Option::None => n,
        Option::Some(c) => if (c as nat) < n {
            c as nat
        } else {
            n
        },
    }
}

/// One column's cells: the named field out of every record.
pub open spec fn col_cells(records: Seq<SpecVal>, name: Seq<char>) -> Seq<SpecVal> {
    records.map_values(|rec: SpecVal| record_field(rec, name))
}

/// The inferred table, as a function of the records and the sample size
/// `s`: one row per record; one column per key of the first `s` records,
/// in order of first appearance, holding that field of every record and
/// typed as the widest type among its first `s` cells.
pub open spec fn spec_infer(records: Seq<SpecVal>, s: int) -> SpecTable {
    let names = key_union(records.take(s));
    SpecTable {
        cols: Seq::new(
            names.len(),
            |j: int| SpecColumn {
                name: names[j],
                ty: spec_elems_ty(col_cells(records, names[j]).take(s)),
                cells: col_cells(records, names[j]),
            },
        ),
        nrows: records.len(),
    }
}

/// `add_keys` over a key list grown at the right end.
proof fn lemma_add_keys_snoc(acc: Seq<Seq<char>>, ks: Seq<Seq<char>>, k: Seq<char>)
    ensures
        add_keys(acc, ks.push(k)) == (if add_keys(acc, ks).contains(k) {
            add_keys(acc, ks)
        } else {
            add_keys(acc, ks).push(k)
        }),
    decreases ks.len(),
{
    let acck = if acc.contains(ks.push(k)[0]) {
        acc
    } else {
        acc.push(ks.push(k)[0])
    };
    assert(ks.push(k).len() > 0);
    assert(add_keys(acc, ks.push(k)) == add_keys(acck, ks.push(k).skip(1)));
    if ks.len() == 0 {
        assert(ks.push(k)[0] == k);
        assert(ks.push(k).skip(1) =~= Seq::<Seq<char>>::empty());
        assert(add_keys(acck, ks.push(k).skip(1)) == acck);
        assert(add_keys(acc, ks) == acc);
    } else {
        let acc1 = if acc.contains(ks[0]) {
            acc
        } else {
            acc.push(ks[0])
        };
        assert(ks.push(k)[0] == ks[0]);
        assert(acck == acc1);
        assert(ks.push(k).skip(1) =~= ks.skip(1).push(k));
        lemma_add_keys_snoc(acc1, ks.skip(1), k);
        assert(add_keys(acc, ks) == add_keys(acc1, ks.skip(1)));
    }
}

/// The position of `name` in a struct field list: the first binding wins.
#[verifier::loop_isolation(false)]
fn find_field(fs: &Vec<ColField>, name: &str) -> (r: Option<usize>)
    ensures
        match r {
            Some(i) => {
                &&& i < fs@.len()
                &&& view_tfields(fs@)[i as int].name == name@
                &&& spec_has_field(view_tfields(fs@), name@)
                &&& spec_field_ty(view_tfields(fs@), name@) == view_tfields(fs@)[i as int].ty
            },
            None => !spec_has_field(view_tfields(fs@), name@),
        },
{
    broadcast use crate::table::group_table_views;

    let ghost all = view_tfields(fs@);
    proof {
        assert(all.skip(0) =~= all);
    }
    let mut i: usize = 0;
    while i < fs.len()
        invariant
            0 <= i <= fs.len(),
            forall|k: int| 0 <= k < i ==> all[k].name != name@,
            spec_field_ty(all, name@) == spec_field_ty(all.skip(i as int), name@),
        decreases fs.len() - i,
    {
        if crate::strutil::str_eq(fs[i].name.as_str(), name) {
            proof {
                let s = all.skip(i as int);
                assert(s[0] == all[i as int]);
                assert(spec_field_ty(s, name@) == s[0].ty);
            }
            return Some(i);
        }
        proof {
            let s = all.skip(i as int);
            assert(s[0] == all[i as int]);
            assert(s.skip(1) =~= all.skip(i + 1));
        }
        i = i + 1;
    }
    None
}

/// The narrowest common type of two column types (see `spec_unify`).
#[verifier::loop_isolation(false)]
pub fn unify(a: &ColType, b: &ColType) -> (r: ColType)
    ensures
        r@ == spec_unify(a@, b@),
    decreases *a,
{
    broadcast use crate::table::group_table_views;
    broadcast use vstd::seq_lib::group_seq_lib_default;

    match (a, b) {
        (ColType::Unknown, _) => b.duplicate(),
        (_, ColType::Unknown) => a.duplicate(),
        (ColType::Bool, ColType::Bool) => ColType::Bool,
        (ColType::Int, ColType::Int) => ColType::Int,
        (ColType::Int, ColType::Float) => ColType::Float,
        (ColType::Float, ColType::Int) => ColType::Float,
        (ColType::Float, ColType::Float) => ColType::Float,
        (ColType::Text, ColType::Text) => ColType::Text,
        (ColType::List(x), ColType::List(y)) => ColType::List(Box::new(unify(&**x, &**y))),
        (ColType::Struct(f1), ColType::Struct(f2)) => {
            let ghost vf1 = view_tfields(f1@);
            let ghost vf2 = view_tfields(f2@);
            let mut out: Vec<ColField> = Vec::new();
            let mut i: usize = 0;
            while i < f1.len()
                invariant
                    0 <= i <= f1.len(),
                    out@.len() == i,
                    view_tfields(out@) == spec_merge(vf1.take(i as int), vf2),
                decreases f1.len() - i,
            {
                let fld = &f1[i];
                let ty = match find_field(f2, fld.name.as_str()) {
                    Some(k) => unify(&fld.ty, &f2[k].ty),
                    None => fld.ty.duplicate(),
                };
                let ghost pre = out@;
                out.push(ColField { name: fld.name.clone(), ty });
                proof {
                    assert(out@.drop_last() =~= pre);
                    assert(vf1.take(i + 1).drop_last() =~= vf1.take(i as int));
                    assert(vf1.take(i + 1).last() == vf1[i as int]);
                }
                i = i + 1;
            }
            proof {
                assert(vf1.take(vf1.len() as int) =~= vf1);
            }
            let ghost merged = out@;
            let mut p: usize = 0;
            while p < f2.len()
                invariant
                    0 <= p <= f2.len(),
                    out@.len() >= merged.len(),
                    view_tfields(out@) == spec_merge(vf1, vf2) + extra_fields(vf1, vf2.take(
                        p as int,
                    )),
                decreases f2.len() - p,
            {
                let keep = match find_field(f1, f2[p].name.as_str()) {
                    Some(_) => false,
                    None => true,
                };
                proof {
                    assert(vf2.take(p + 1).drop_last() =~= vf2.take(p as int));
                    assert(vf2.take(p + 1) =~= vf2.take(p as int).push(vf2[p as int]));
                    vf2.take(p as int).lemma_filter_push(
                        vf2[p as int],
                        |f: SpecField| !spec_has_field(vf1, f.name),
                    );
                }
                if keep {
                    let ghost pre = out@;
                    let name = f2[p].name.clone();
                    let ty = f2[p].ty.duplicate();
                    out.push(ColField { name, ty });
                    proof {
                        assert(out@.drop_last() =~= pre);
                    }
                }
                p = p + 1;
            }
            proof {
                assert(vf2.take(vf2.len() as int) =~= vf2);
            }
            ColType::Struct(out)
        },
        _ => ColType::Text,
    }
}

/// The semantic type of a single value (see `spec_vtype`).
#[verifier::loop_isolation(false)]
pub fn vtype(v: &JsonVal) -> (r: ColType)
    ensures
        r@ == spec_vtype(v@),
    decreases *v,
{
    broadcast use crate::table::group_table_views;
    broadcast use crate::value::group_value_views;

    match v {
        JsonVal::Null => ColType::Unknown,
        JsonVal::Bool(_) => ColType::Bool,
        JsonVal::Int(_) => ColType::Int,
        JsonVal::Num(_) => ColType::Float,
        JsonVal::Text(_) => ColType::Text,
        JsonVal::Arr(elems) => {
            let ghost es = view_vals(elems@);
            let mut acc = ColType::Unknown;
            let mut i: usize = 0;
            while i < elems.len()
                invariant
                    0 <= i <= elems.len(),
                    acc@ == spec_elems_ty(es.take(i as int)),
                decreases elems.len() - i,
            {
                let t = vtype(&elems[i]);
                acc = unify(&acc, &t);
                proof {
                    assert(es.take(i + 1).drop_last() =~= es.take(i as int));
                    assert(es.take(i + 1).last() == es[i as int]);
                }
                i = i + 1;
            }
            proof {
                assert(es.take(es.len() as int) =~= es);
            }
            ColType::List(Box::new(acc))
        },
        JsonVal::Obj(fields) => {
            let ghost fsv = view_fields(fields@);
            let mut out: Vec<ColField> = Vec::new();
            let mut i: usize = 0;
            while i < fields.len()
                invariant
                    0 <= i <= fields.len(),
                    out@.len() == i,
                    view_tfields(out@) == spec_fields_ty(fsv.take(i as int)),
                decreases fields.len() - i,
            {
                let name = fields[i].0.clone();
                let ty = vtype(&fields[i].1);
                let ghost pre = out@;
                out.push(ColField { name, ty });
                proof {
                    assert(out@.drop_last() =~= pre);
                    assert(fsv.take(i + 1).drop_last() =~= fsv.take(i as int));
                    assert(fsv.take(i + 1).last() == fsv[i as int]);
                }
                i = i + 1;
            }
            proof {
                assert(fsv.take(fsv.len() as int) =~= fsv);
            }
            ColType::Struct(out)
        },
    }
}

/// The views of a string list.
pub open spec fn strs_view(s: Seq<String>) -> Seq<Seq<char>> {
    s.map_values(|x: String| x@)
}

/// Whether `x` occurs in a list of names.
#[verifier::loop_isolation(false)]
fn names_contains(names: &Vec<String>, x: &str) -> (r: bool)
    ensures
        r == strs_view(names@).contains(x@),
{
    let mut i: usize = 0;
    while i < names.len()
        invariant
            0 <= i <= names.len(),
            forall|k: int| 0 <= k < i ==> names@[k]@ != x@,
        decreases names.len() - i,
    {
        if crate::strutil::str_eq(names[i].as_str(), x) {
            assert(strs_view(names@)[i as int] == x@);
            return true;
        }
        i = i + 1;
    }
    assert(forall|k: int| 0 <= k < names@.len() ==> strs_view(names@)[k] != x@);
    false
}

/// A value's view is an object exactly when the value is.
proof fn lemma_view_obj(v: JsonVal)
    ensures
        (view_val(v) matches SpecVal::Obj(_)) <==> (v matches JsonVal::Obj(_)),
{
    match v {
        JsonVal::Null => {},
        JsonVal::Bool(_) => {},
        JsonVal::Int(_) => {},
        JsonVal::Num(_) => {},
        JsonVal::Text(_) => {},
        JsonVal::Arr(_) => {},
        JsonVal::Obj(_) => {},
    }
}

/// Builds a `Table` from a decoded array of records: one row per record,
/// one column per key observed in the schema-inference sample (the first
/// `sample_cap` records, or all of them), in order of first appearance.
/// A key missing from a record reads as a null cell. Each column's type is
/// the widest type of its sampled cells. Fails with a `Schema` error exactly
/// when some record is not a JSON object; an empty array gives the empty
/// sentinel table, not an error.
#[verifier::loop_isolation(false)]
pub fn infer_table(records: &Vec<JsonVal>, sample_cap: Option<usize>) -> (r: Result<
    Table,
    ProcessorError,
>)
    ensures
        ({
            let vs = view_vals(records@);
            let s = spec_sample(sample_cap, records@.len() as nat);
            match r {
                Ok(t) => {
                    &&& all_objects(vs)
                    &&& t@.wf()
                    &&& t@ == spec_infer(vs, s as int)
                    &&& t@.nrows == records@.len()
                    &&& t@.names() == key_union(vs.take(s as int))
                    &&& forall|j: int, i: int|
                        0 <= j < t@.cols.len() && 0 <= i < vs.len()
                            ==> #[trigger] t@.cols[j].cells[i] == record_field(
                            vs[i],
                            t@.cols[j].name,
                        )
                    &&& forall|j: int|
                        0 <= j < t@.cols.len() ==> (#[trigger] t@.cols[j]).ty == spec_elems_ty(
                            t@.cols[j].cells.take(s as int),
                        )
                },
                Err(e) => !all_objects(vs) && e matches ProcessorError::Schema(_),
            }
        }),
{
    broadcast use crate::table::group_table_views;
    broadcast use crate::value::group_value_views;

    let ghost vs = view_vals(records@);
    let n = records.len();
    let s: usize = match sample_cap {
        Some(c) => if c < n {
            c
        } else {
            n
        },
        None => n,
    };
    assert(s as nat == spec_sample(sample_cap, records@.len() as nat));

    let mut i: usize = 0;
    while i < n
        invariant
            0 <= i <= n,
            forall|k: int| 0 <= k < i ==> (#[trigger] vs[k]) matches SpecVal::Obj(_),
        decreases n - i,
    {
        let is_obj = match &records[i] {
            JsonVal::Obj(_) => true,
            _ => false,
        };
        proof {
            lemma_view_obj(records@[i as int]);
        }
        if !is_obj {
            assert(!(vs[i as int] matches SpecVal::Obj(_)));
            return Err(
                ProcessorError::Schema(
                    String::from_str("the decoded array must hold JSON objects"),
                ),
            );
        }
        i = i + 1;
    }
    assert(all_objects(vs));

    // The union of the sampled records' keys, in order of first appearance.
    let mut names: Vec<String> = Vec::new();
    let mut i: usize = 0;
    while i < s
        invariant
            0 <= i <= s <= n,
            strs_view(names@) == key_union(vs.take(i as int)),
        decreases s - i,
    {
        match &records[i] {
            JsonVal::Obj(fields) => {
                let ghost rec_ks = record_keys(vs[i as int]);
                let ghost base = key_union(vs.take(i as int));
                proof {
                    assert(vs[i as int] == view_val(records@[i as int]));
                    assert(vs[i as int] == SpecVal::Obj(view_fields(fields@)));
                    assert(rec_ks =~= view_fields(fields@).map_values(
                        |f: (Seq<char>, SpecVal)| f.0,
                    ));
                    assert(rec_ks.take(0) =~= Seq::<Seq<char>>::empty());
                    assert(add_keys(base, rec_ks.take(0)) == base);
                }
                let mut p: usize = 0;
                while p < fields.len()
                    invariant
                        0 <= p <= fields.len(),
                        rec_ks.len() == fields@.len(),
                        strs_view(names@) == add_keys(base, rec_ks.take(p as int)),
                    decreases fields.len() - p,
                {
                    proof {
                        assert(rec_ks[p as int] == view_fields(fields@)[p as int].0);
                        assert(rec_ks[p as int] == fields@[p as int].0@);
                        lemma_add_keys_snoc(base, rec_ks.take(p as int), rec_ks[p as int]);
                        assert(rec_ks.take(p + 1) =~= rec_ks.take(p as int).push(
                            rec_ks[p as int],
                        ));
                    }
                    if !names_contains(&names, fields[p].0.as_str()) {
                        let ghost pre = names@;
                        names.push(fields[p].0.clone());
                        proof {
                            assert(strs_view(names@) =~= strs_view(pre).push(
                                fields@[p as int].0@,
                            ));
                        }
                    }
                    p = p + 1;
                }
                proof {
                    assert(rec_ks.take(rec_ks.len() as int) =~= rec_ks);
                    assert(vs.take(i + 1).drop_last() =~= vs.take(i as int));
                    assert(vs.take(i + 1).last() == vs[i as int]);
                }
            },
            _ => {
                proof {
                    lemma_view_obj(records@[i as int]);
                    assert(false);
                }
            },
        }
        i = i + 1;
    }
    let ghost ku = key_union(vs.take(s as int));
    assert(strs_view(names@) == ku);

    // One column per name: all rows' cells, typed from the sampled prefix.
    let mut cols: Vec<Column> = Vec::new();
    let mut j: usize = 0;
    while j < names.len()
        invariant
            0 <= j <= names.len(),
            s <= n == records@.len(),
            strs_view(names@) == ku,
            vs == view_vals(records@),
            vs.len() == n,
            cols@.len() == j,
            forall|jj: int|
                0 <= jj < j ==> (#[trigger] view_cols(cols@)[jj]).name == ku[jj],
            forall|jj: int|
                0 <= jj < j ==> (#[trigger] view_cols(cols@)[jj]).cells.len() == n,
            forall|jj: int, ii: int|
                0 <= jj < j && 0 <= ii < n ==> #[trigger] view_cols(cols@)[jj].cells[ii]
                    == record_field(vs[ii], ku[jj]),
            forall|jj: int|
                0 <= jj < j ==> (#[trigger] view_cols(cols@)[jj]).ty == spec_elems_ty(
                    view_cols(cols@)[jj].cells.take(s as int),
                ),
        decreases names.len() - j,
    {
        let ghost name_v = ku[j as int];
        assert(names@[j as int]@ == name_v);
        let mut cells: Vec<JsonVal> = Vec::new();
        let mut ty = ColType::Unknown;
        proof {
            assert(view_vals(cells@).take(0) =~= Seq::<SpecVal>::empty());
        }
        let mut i: usize = 0;
        while i < n
            invariant
                0 <= i <= n,
                cells@.len() == i,
                forall|k: int|
                    0 <= k < i ==> #[trigger] view_vals(cells@)[k] == record_field(
                        vs[k],
                        name_v,
                    ),
                ty@ == spec_elems_ty(view_vals(cells@).take(vstd::math::min(i as int, s as int))),
            decreases n - i,
        {
            let v = records[i].get_field(names[j].as_str()).duplicate();
            assert(v@ == record_field(vs[i as int], name_v));
            if i < s {
                let t = vtype(&v);
                let ty2 = unify(&ty, &t);
                ty = ty2;
            }
            let ghost pre = cells@;
            cells.push(v);
            proof {
                assert(cells@.drop_last() =~= pre);
                let cv = view_vals(cells@);
                assert(cv == view_vals(pre).push(v@));
                assert(forall|k: int|
                    0 <= k < i ==> #[trigger] view_vals(pre)[k] == cv[k]);
                let m = vstd::math::min(i as int, s as int);
                let m2 = vstd::math::min(i + 1, s as int);
                assert(cv.take(m) =~= view_vals(pre).take(m));
                if i < s {
                    assert(m2 == i + 1);
                    assert(cv.take(m2).drop_last() =~= cv.take(m));
                    assert(cv.take(m2).last() == v@);
                } else {
                    assert(m2 == m);
                }
            }
            i = i + 1;
        }
        let name_exec = names[j].clone();
        let ghost pre_cols = view_cols(cols@);
        let col = Column { name: name_exec, ty, cells };
        assert(col@.name == name_v);
        assert(col@.ty == spec_elems_ty(col@.cells.take(s as int))) by {
            assert(vstd::math::min(n as int, s as int) == s as int);
        }
        cols.push(col);
        proof {
            assert(view_cols(cols@).drop_last() =~= pre_cols);
            assert(view_cols(cols@) == pre_cols.push(view_cols(cols@).last()));
        }
        j = j + 1;
    }

    let t = Table { cols, nrows: n };
    proof {
        lemma_key_union_nodup(vs.take(s as int));
        assert(t@.names() =~= ku);
        assert(t@.wf()) by {
            assert(forall|j1: int, j2: int|
                0 <= j1 < j2 < t@.cols.len() ==> t@.cols[j1].name != t@.cols[j2].name);
        }
        let si = spec_infer(vs, s as int);
        assert(si.cols.len() == ku.len());
        assert forall|jj: int| 0 <= jj < t@.cols.len() implies #[trigger] t@.cols[jj]
            == si.cols[jj] by {
            assert(t@.cols[jj].name == ku[jj]);
            assert(t@.cols[jj].cells =~= col_cells(vs, ku[jj]));
            assert(si.cols[jj].ty == spec_elems_ty(col_cells(vs, ku[jj]).take(s as int)));
            assert(t@.cols[jj] =~= si.cols[jj]);
        }
        assert(t@ =~= si);
    }
    Ok(t)
}

} // verus!
