//! The engine's own model of a decoded JSON document.
//!
//! A value of this type is produced once from the raw bytes and then flows
//! through every normalization stage, so the whole pipeline can be reasoned
//! about over one closed datatype. Numbers that fit a 64-bit integer are held
//! as integers; any other numeric literal keeps its decimal text, so the crate
//! itself never touches floating point.
//!
//! `SpecVal` is the mathematical shadow of `JsonVal`: the view of a value,
//! with sequences in place of vectors. All contracts speak of views.

use vstd::prelude::*;

verus! {

/// One decoded JSON value.
#[derive(Debug)]
pub enum JsonVal {
    /// JSON `null`, and the fill value for a missing key.
    Null,
    /// JSON `true` / `false`.
    Bool(bool),
    /// A numeric literal that fits a 64-bit signed integer.
    Int(i64),
    /// Any other numeric literal, kept as its decimal text.
    Num(String),
    /// A JSON string.
    Text(String),
    /// A JSON array.
    Arr(Vec<JsonVal>),
    /// A JSON object: field names with their values, in document order.
    Obj(Vec<(String, JsonVal)>),
}

/// The mathematical form of a decoded JSON value.
#[verifier::ext_equal]
pub enum SpecVal {
    Null,
    Bool(bool),
    Int(int),
    Num(Seq<char>),
    Text(Seq<char>),
    Arr(Seq<SpecVal>),
    Obj(Seq<(Seq<char>, SpecVal)>),
}

/// The view of one value.
pub open spec fn view_val(v: JsonVal) -> SpecVal
    decreases v,
{
    match v {
        JsonVal::Null => SpecVal::Null,
        JsonVal::Bool(b) => SpecVal::Bool(b),
        JsonVal::Int(i) => SpecVal::Int(i as int),
        JsonVal::Num(s) => SpecVal::Num(s@),
        JsonVal::Text(s) => SpecVal::Text(s@),
        JsonVal::Arr(elems) => SpecVal::Arr(view_vals(elems@)),
        JsonVal::Obj(fields) => SpecVal::Obj(view_fields(fields@)),
    }
}

/// The views of a sequence of values, in order.
pub open spec fn view_vals(s: Seq<JsonVal>) -> Seq<SpecVal>
    decreases s,
{
    if s.len() == 0 {
        Seq::empty()
    } else {
        view_vals(s.drop_last()).push(view_val(s.last()))
    }
}

/// The views of an object's field list, in order.
pub open spec fn view_fields(s: Seq<(String, JsonVal)>) -> Seq<(Seq<char>, SpecVal)>
    decreases s,
{
    if s.len() == 0 {
        Seq::empty()
    } else {
        view_fields(s.drop_last()).push((s.last().0@, view_val(s.last().1)))
    }
}

pub broadcast proof fn lemma_view_vals_len(s: Seq<JsonVal>)
    ensures
        #[trigger] view_vals(s).len() == s.len(),
    decreases s,
{
    if s.len() > 0 {
        lemma_view_vals_len(s.drop_last());
    }
}

pub broadcast proof fn lemma_view_vals_index(s: Seq<JsonVal>, i: int)
    requires
        0 <= i < s.len(),
    ensures
        #[trigger] view_vals(s)[i] == view_val(s[i]),
    decreases s,
{
    lemma_view_vals_len(s);
    if s.len() > 0 {
        if i < s.len() - 1 {
            lemma_view_vals_len(s.drop_last());
            lemma_view_vals_index(s.drop_last(), i);
        }
    }
}

pub broadcast proof fn lemma_view_fields_len(s: Seq<(String, JsonVal)>)
    ensures
        #[trigger] view_fields(s).len() == s.len(),
    decreases s,
{
    if s.len() > 0 {
        lemma_view_fields_len(s.drop_last());
    }
}

pub broadcast proof fn lemma_view_fields_index(s: Seq<(String, JsonVal)>, i: int)
    requires
        0 <= i < s.len(),
    ensures
        #[trigger] view_fields(s)[i] == (s[i].0@, view_val(s[i].1)),
    decreases s,
{
    lemma_view_fields_len(s);
    if s.len() > 0 {
        if i < s.len() - 1 {
            lemma_view_fields_len(s.drop_last());
            lemma_view_fields_index(s.drop_last(), i);
        }
    }
}

pub broadcast group group_value_views {
    lemma_view_vals_len,
    lemma_view_vals_index,
    lemma_view_fields_len,
    lemma_view_fields_index,
}

impl View for JsonVal {
    type V = SpecVal;

    open spec fn view(&self) -> SpecVal {
        view_val(*self)
    }
}

/// The value of `key` in an object's field list: the first binding wins,
/// a missing key reads as `Null`.
pub open spec fn obj_lookup(fields: Seq<(Seq<char>, SpecVal)>, key: Seq<char>) -> SpecVal
    decreases fields.len(),
{
    if fields.len() == 0 {
        SpecVal::Null
    } else if fields[0].0 == key {
        fields[0].1
    } else {
        obj_lookup(fields.skip(1), key)
    }
}

/// Whether an object's field list binds `key`.
pub open spec fn obj_has_key(fields: Seq<(Seq<char>, SpecVal)>, key: Seq<char>) -> bool {
    exists|i: int| 0 <= i < fields.len() && fields[i].0 == key
}

/// Reading a record's field: `Null` unless the record is an object that
/// binds the key.
pub open spec fn record_field(record: SpecVal, key: Seq<char>) -> SpecVal {
    match record {
        SpecVal::Obj(fields) => obj_lookup(fields, key),
        _ => SpecVal::Null,
    }
}

/// The names bound by a record, in document order (empty for a non-object).
pub open spec fn record_keys(record: SpecVal) -> Seq<Seq<char>> {
    match record {
        SpecVal::Obj(fields) => fields.map_values(|f: (Seq<char>, SpecVal)| f.0),
        _ => Seq::empty(),
    }
}

impl JsonVal {
    /// Reads the value of `key`, `Null` when this is not an object or the
    /// key is unbound. First binding wins, as in the decoded document.
    #[verifier::loop_isolation(false)]
    pub fn get_field(&self, key: &str) -> (r: &JsonVal)
        ensures
            r@ == record_field(self@, key@),
    {
        broadcast use group_value_views;

        match self {
            JsonVal::Obj(fields) => {
                let ghost all = view_fields(fields@);
                proof {
                    assert(all.skip(0) =~= all);
                }
                let mut i: usize = 0;
                while i < fields.len()
                    invariant
                        0 <= i <= fields.len(),
                        obj_lookup(all, key@) == obj_lookup(all.skip(i as int), key@),
                    decreases fields.len() - i,
                {
                    if crate::strutil::str_eq(fields[i].0.as_str(), key) {
                        proof {
                            let s = all.skip(i as int);
                            assert(s[0] == all[i as int]);
                            assert(obj_lookup(s, key@) == s[0].1);
                        }
                        return &fields[i].1;
                    }
                    proof {
                        let s = all.skip(i as int);
                        assert(s[0] == all[i as int]);
                        assert(s.skip(1) =~= all.skip(i + 1));
                        assert(obj_lookup(s, key@) == obj_lookup(s.skip(1), key@));
                    }
                    i = i + 1;
                }
                proof {
                    assert(all.skip(i as int).len() == 0);
                }
                &JsonVal::Null
            },
            _ => &JsonVal::Null,
        }
    }

    /// A deep copy: the copy has the same view as the original.
    #[verifier::loop_isolation(false)]
    pub fn duplicate(&self) -> (r: JsonVal)
        ensures
            r@ == self@,
        decreases *self,
    {
        broadcast use group_value_views;

        match self {
            JsonVal::Null => JsonVal::Null,
            JsonVal::Bool(b) => JsonVal::Bool(*b),
            JsonVal::Int(i) => JsonVal::Int(*i),
            JsonVal::Num(s) => JsonVal::Num(s.clone()),
            JsonVal::Text(s) => JsonVal::Text(s.clone()),
            JsonVal::Arr(elems) => {
                let mut out: Vec<JsonVal> = Vec::new();
                let mut i: usize = 0;
                while i < elems.len()
                    invariant
                        0 <= i <= elems.len(),
                        out@.len() == i,
                        view_vals(out@) == view_vals(elems@.take(i as int)),
                    decreases elems.len() - i,
                {
                    let e = elems[i].duplicate();
                    let ghost pre = out@;
                    out.push(e);
                    proof {
                        assert(out@.drop_last() =~= pre);
                        lemma_view_extend_vals(out@, elems@, i as int);
                    }
                    i = i + 1;
                }
                proof {
                    assert(elems@.take(elems@.len() as int) =~= elems@);
                }
                JsonVal::Arr(out)
            },
            JsonVal::Obj(fields) => {
                let mut out: Vec<(String, JsonVal)> = Vec::new();
                let mut i: usize = 0;
                while i < fields.len()
                    invariant
                        0 <= i <= fields.len(),
                        out@.len() == i,
                        view_fields(out@) == view_fields(fields@.take(i as int)),
                    decreases fields.len() - i,
                {
                    let name = fields[i].0.clone();
                    let v = fields[i].1.duplicate();
                    let ghost pre = out@;
                    out.push((name, v));
                    proof {
                        assert(out@.drop_last() =~= pre);
                        lemma_view_extend_fields(out@, fields@, i as int);
                    }
                    i = i + 1;
                }
                proof {
                    assert(fields@.take(fields@.len() as int) =~= fields@);
                }
                JsonVal::Obj(out)
            },
        }
    }
}

/// Growing the copied prefix by one element keeps the views in step.
proof fn lemma_view_extend_vals(out: Seq<JsonVal>, src: Seq<JsonVal>, i: int)
    requires
        0 <= i < src.len(),
        out.len() == i + 1,
        view_vals(out.drop_last()) == view_vals(src.take(i)),
        view_val(out.last()) == view_val(src[i]),
    ensures
        view_vals(out) == view_vals(src.take(i + 1)),
{
    assert(src.take(i + 1).drop_last() =~= src.take(i));
    assert(src.take(i + 1).last() == src[i]);
}

/// Growing the copied field prefix by one keeps the views in step.
proof fn lemma_view_extend_fields(out: Seq<(String, JsonVal)>, src: Seq<(String, JsonVal)>, i: int)
    requires
        0 <= i < src.len(),
        out.len() == i + 1,
        view_fields(out.drop_last()) == view_fields(src.take(i)),
        out.last().0@ == src[i].0@,
        view_val(out.last().1) == view_val(src[i].1),
    ensures
        view_fields(out) == view_fields(src.take(i + 1)),
{
    assert(src.take(i + 1).drop_last() =~= src.take(i));
    assert(src.take(i + 1).last() == src[i]);
}

} // verus!
