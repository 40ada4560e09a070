//! The Byte-List Repairer: a subset of the upstream APIs serialize accented
//! or non-ASCII text fields as JSON arrays of numeric character codes. For
//! every column typed as a list of integers or floats, each list's elements
//! are narrowed into the 0–255 range (the low byte, as the upstream encodes
//! character codes) and the byte sequence is decoded as UTF-8 text, which
//! replaces the column in place. Any other column is untouched. A byte
//! sequence that is not valid UTF-8, or a list element that is not a number,
//! fails the whole conversion with an `Encoding` error.

use vstd::prelude::*;

use vstd::utf8::{decode_utf8, valid_utf8};

use crate::errors::ProcessorError;
use crate::table::{view_cols, view_ty, ColType, Column, SpecColumn, SpecTable, SpecTy, Table};
use crate::value::{view_vals, JsonVal, SpecVal};

verus! {

/// Whether a character is a decimal digit.
pub open spec fn is_digit(c: char) -> bool {
    ('0' as u32) <= (c as u32) <= ('9' as u32)
}

/// The numeric value of a digit.
pub open spec fn digit_val(c: char) -> int {
    c as u32 - '0' as u32
}

/// The value, modulo 256, of the leading digit run of the text, folded onto
/// an accumulator.
pub open spec fn digits_mod(s: Seq<char>, acc: int) -> int
    decreases s.len(),
{
    if s.len() == 0 || !is_digit(s[0]) {
        acc
    } else {
        digits_mod(s.skip(1), (acc * 10 + digit_val(s[0])) % 256)
    }
}

/// The byte a decimal numeric text narrows to: the integer part's low byte,
/// two's complement for negative values. `None` when the text does not open
/// with a digit run.
pub open spec fn num_code(s: Seq<char>) -> Option<u8> {
    let neg = s.len() > 0 && s[0] == '-';
    let body = if neg {
        s.skip(1)
    } else {
        s
    };
    if body.len() == 0 || !is_digit(body[0]) {
        Option::None
    } else {
        let m = digits_mod(body, 0);
        Option::Some(
            if neg {
                ((256 - m) % 256) as u8
            } else {
                m as u8
            },
        )
    }
}

/// The byte one list element narrows to; `None` for a non-numeric element.
pub open spec fn code_byte(v: SpecVal) -> Option<u8> {
    match v {
        SpecVal::Int(i) => Option::Some(low_byte(i)),
        SpecVal::Num(s) => num_code(s),
        _ => Option::None,
    }
}

/// The low byte of a 64-bit integer: how a numeric character code is
/// narrowed into the 0-255 range.
pub open spec fn low_byte(i: int) -> u8 {
    (i % 256) as u8
}

/// The byte sequence a whole list narrows to; `None` as soon as one element
/// is not numeric.
pub open spec fn cell_codes(es: Seq<SpecVal>) -> Option<Seq<u8>>
    decreases es,
{
    if es.len() == 0 {
        Option::Some(Seq::empty())
    } else {
        match (cell_codes(es.drop_last()), code_byte(es.last())) {
            (Option::Some(bs), Option::Some(b)) => Option::Some(bs.push(b)),
            _ => Option::None,
        }
    }
}

/// The repaired form of one cell: nulls stay null, a list of codes becomes
/// the text its bytes decode to. `None` marks the cell that fails the
/// conversion: a non-list, a non-numeric element, or bytes that are not
/// valid UTF-8.
pub open spec fn repair_cell(v: SpecVal) -> Option<SpecVal> {
    match v {
        SpecVal::Null => Option::Some(SpecVal::Null),
        SpecVal::Arr(es) => match cell_codes(es) {
            Option::Some(bs) => if valid_utf8(bs) {
                Option::Some(SpecVal::Text(decode_utf8(bs)))
            } else {
                Option::None
            },
            Option::None => Option::None,
        },
        _ => Option::None,
    }
}

/// Whether a column type is subject to the repair.
pub open spec fn is_code_list_ty(ty: SpecTy) -> bool {
    match ty {
        SpecTy::List(inner) => *inner == SpecTy::Int || *inner == SpecTy::Float,
        _ => false,
    }
}

/// Whether some cell of some code-list column defeats the repair — the
/// exact condition under which the stage fails.
pub open spec fn repair_fails(st: SpecTable) -> bool {
    exists|j: int, i: int|
        0 <= j < st.cols.len() && is_code_list_ty((#[trigger] st.cols[j]).ty) && 0 <= i
            < st.cols[j].cells.len() && (#[trigger] repair_cell(st.cols[j].cells[i])) is None
}

/// A cell after the repair; on the failing cells (where the stage errors
/// out instead) the cell is left as it stands.
pub open spec fn repaired_cell(v: SpecVal) -> SpecVal {
    match repair_cell(v) {
        Option::Some(w) => w,
        Option::None => v,
    }
}

/// The whole table after the repair, as one function: every code-list
/// column becomes a text column of its repaired cells, every other column
/// is untouched.
pub open spec fn spec_repair(st: SpecTable) -> SpecTable {
    SpecTable {
        cols: Seq::new(
            st.cols.len(),
            |j: int|
                if is_code_list_ty(st.cols[j].ty) {
                    SpecColumn {
                        name: st.cols[j].name,
                        ty: SpecTy::Text,
                        cells: st.cols[j].cells.map_values(|v: SpecVal| repaired_cell(v)),
                    }
                } else {
                    st.cols[j]
                },
        ),
        nrows: st.nrows,
    }
}

/// The repair round-trips: when a cell of character codes repairs to text,
/// re-encoding that text as UTF-8 recovers exactly the narrowed codes.
pub proof fn lemma_repair_round_trip(es: Seq<SpecVal>, bs: Seq<u8>, s: Seq<char>)
    requires
        cell_codes(es) == Option::Some(bs),
        repair_cell(SpecVal::Arr(es)) == Option::Some(SpecVal::Text(s)),
    ensures
        valid_utf8(bs),
        s == decode_utf8(bs),
        vstd::utf8::encode_utf8(s) == bs,
{
    vstd::utf8::decode_utf8_encode_utf8(bs);
}

/// A column type's view is an integer, float or list type exactly when the
/// type is.
proof fn lemma_view_ty_shape(t: ColType)
    ensures
        (view_ty(t) matches SpecTy::List(_)) <==> (t matches ColType::List(_)),
        (view_ty(t) == SpecTy::Int) <==> (t matches ColType::Int),
        (view_ty(t) == SpecTy::Float) <==> (t matches ColType::Float),
        (view_ty(t) == SpecTy::Unknown) <==> (t matches ColType::Unknown),
{
    match t {
        ColType::Unknown => {},
        ColType::Bool => {},
        ColType::Int => {},
        ColType::Float => {},
        ColType::Text => {},
        ColType::List(_) => {},
        ColType::Struct(_) => {},
    }
}

/// A list with one non-numeric element narrows to no byte sequence.
proof fn lemma_cell_codes_none(es: Seq<SpecVal>, k: int)
    requires
        0 <= k < es.len(),
        code_byte(es[k]) is None,
    ensures
        cell_codes(es) is None,
    decreases es,
{
    if es.len() > 0 && k < es.len() - 1 {
        assert(es.drop_last()[k] == es[k]);
        lemma_cell_codes_none(es.drop_last(), k);
    }
}

/// Relies on `String::from_utf8`: it succeeds exactly on input that is
/// valid UTF-8 and returns the text those bytes encode. vstd's own
/// specification of `str::from_utf8_unchecked` ties `valid_utf8` and
/// `encode_utf8` to the standard library's byte representation of `str`;
/// the checked variant is documented to accept exactly the valid sequences.
#[verifier::external_body]
fn utf8_to_string(bytes: Vec<u8>) -> (r: Option<String>)
    ensures
        r matches Some(s) ==> valid_utf8(bytes@) && s@ == decode_utf8(bytes@),
        r is None ==> !valid_utf8(bytes@),
{
    match String::from_utf8(bytes) {
        Ok(s) => Some(s),
        Err(_) => None,
    }
}

/// The byte a decimal numeric text narrows to (see `num_code`).
#[verifier::loop_isolation(false)]
fn num_code_exec(s: &str) -> (r: Option<u8>)
    ensures
        r == num_code(s@),
{
    let len = s.unicode_len();
    let neg = len > 0 && s.get_char(0) == '-';
    let start: usize = if neg {
        1
    } else {
        0
    };
    let ghost body = if neg {
        s@.skip(1)
    } else {
        s@
    };
    if start >= len {
        return None;
    }
    let c0 = s.get_char(start) as u32;
    assert(c0 == body[0] as u32);
    if c0 < '0' as u32 || c0 > '9' as u32 {
        return None;
    }
    let mut m: u32 = 0;
    let mut i: usize = start;
    proof {
        assert(body.skip(0) =~= body);
    }
    while i < len
        invariant
            start <= i <= len,
            len == s@.len(),
            body.len() == len - start,
            m < 256,
            digits_mod(body, 0) == digits_mod(body.skip(i - start), m as int),
        decreases len - i,
    {
        let c = s.get_char(i) as u32;
        assert(c == body[i - start] as u32);
        if c < '0' as u32 || c > '9' as u32 {
            proof {
                assert(body.skip(i - start)[0] == body[i - start]);
                assert(!is_digit(body[i - start]));
            }
            break;
        }
        proof {
            let p = i - start;
            assert(body.skip(p)[0] == body[p]);
            assert(is_digit(body[p]));
            assert(body.skip(p).skip(1) =~= body.skip(p + 1));
        }
        m = (m * 10 + (c - '0' as u32)) % 256;
        i = i + 1;
    }
    proof {
        if i == len {
            assert(body.skip(i - start).len() == 0);
        }
        assert(digits_mod(body, 0) == m as int);
    }
    if neg {
        Some((((256 - m) % 256) as u8))
    } else {
        Some((m as u8))
    }
}

/// The byte one list element narrows to (see `code_byte`).
fn code_byte_exec(v: &JsonVal) -> (r: Option<u8>)
    ensures
        r == code_byte(v@),
{
    match v {
        JsonVal::Int(i) => {
            let iv: i64 = *i;
            let m: i64 = iv % 256;
            let m2: i64 = if m < 0 {
                m + 256
            } else {
                m
            };
            assert(m2 as int == (iv as int) % 256);
            Some(m2 as u8)
        },
        JsonVal::Num(s) => num_code_exec(s.as_str()),
        _ => None,
    }
}

/// Repairs the cells of one code-list column. `None` names no witness: it
/// means some cell fails (see `repair_cell`).
#[verifier::loop_isolation(false)]
fn repair_cells(cells: &Vec<JsonVal>) -> (r: Option<Vec<JsonVal>>)
    ensures
        match r {
            Some(out) => {
                &&& out@.len() == cells@.len()
                &&& forall|i: int|
                    0 <= i < cells@.len() ==> repair_cell(view_vals(cells@)[i]) == Option::Some(
                        #[trigger] view_vals(out@)[i],
                    )
            },
            None => exists|i: int|
                0 <= i < cells@.len() && repair_cell(#[trigger] view_vals(cells@)[i]) is None,
        },
{
    broadcast use crate::value::group_value_views;

    let ghost cv = view_vals(cells@);
    let mut out: Vec<JsonVal> = Vec::new();
    let mut i: usize = 0;
    while i < cells.len()
        invariant
            0 <= i <= cells.len(),
            out@.len() == i,
            forall|k: int|
                0 <= k < i ==> repair_cell(cv[k]) == Option::Some(
                    #[trigger] view_vals(out@)[k],
                ),
        decreases cells.len() - i,
    {
        let ghost pre = out@;
        match &cells[i] {
            JsonVal::Null => {
                out.push(JsonVal::Null);
                proof {
                    assert(cv[i as int] == SpecVal::Null);
                    assert(view_vals(out@)[i as int] == SpecVal::Null);
                    assert(repair_cell(cv[i as int]) == Option::Some(
                        view_vals(out@)[i as int],
                    ));
                }
            },
            JsonVal::Arr(es) => {
                proof {
                    assert(cv[i as int] == SpecVal::Arr(view_vals(es@)));
                }
                let ghost ev = view_vals(es@);
                let mut bytes: Vec<u8> = Vec::new();
                proof {
                    assert(ev.take(0) =~= Seq::<SpecVal>::empty());
                    assert(cell_codes(ev.take(0)) == Option::Some(bytes@));
                }
                let mut k: usize = 0;
                while k < es.len()
                    invariant
                        0 <= k <= es.len(),
                        cell_codes(ev.take(k as int)) == Option::Some(bytes@),
                    decreases es.len() - k,
                {
                    proof {
                        assert(ev.take(k + 1).drop_last() =~= ev.take(k as int));
                        assert(ev.take(k + 1).last() == ev[k as int]);
                    }
                    match code_byte_exec(&es[k]) {
                        Some(b) => {
                            bytes.push(b);
                        },
                        None => {
                            proof {
                                lemma_cell_codes_none(ev, k as int);
                            }
                            return None;
                        },
                    }
                    k = k + 1;
                }
                proof {
                    assert(ev.take(ev.len() as int) =~= ev);
                }
                match utf8_to_string(bytes) {
                    Some(s) => {
                        out.push(JsonVal::Text(s));
                        proof {
                            assert(view_vals(out@)[i as int] == SpecVal::Text(s@));
                            assert(repair_cell(cv[i as int]) == Option::Some(
                                view_vals(out@)[i as int],
                            ));
                        }
                    },
                    None => {
                        return None;
                    },
                }
            },
            _ => {
                proof {
                    crate::value::lemma_view_vals_index(cells@, i as int);
                    match cells@[i as int] {
                        JsonVal::Null => {},
                        JsonVal::Bool(_) => {},
                        JsonVal::Int(_) => {},
                        JsonVal::Num(_) => {},
                        JsonVal::Text(_) => {},
                        JsonVal::Arr(_) => {},
                        JsonVal::Obj(_) => {},
                    }
                    assert(repair_cell(cv[i as int]) is None);
                }
                return None;
            },
        }
        proof {
            assert(out@.drop_last() =~= pre);
            assert forall|k: int|
                0 <= k < i + 1 implies repair_cell(cv[k]) == Option::Some(
                #[trigger] view_vals(out@)[k],
            ) by {
                if k < i {
                    assert(view_vals(out@)[k] == view_vals(pre)[k]);
                }
            }
        }
        i = i + 1;
    }
    Some(out)
}

/// Repairs every code-list column of the table in place, narrowing each
/// list of numeric character codes into bytes and decoding them as UTF-8
/// text. Columns of any other type are untouched. Fails with an `Encoding`
/// error exactly when some cell of a code-list column cannot be repaired.
#[verifier::loop_isolation(false)]
pub fn repair_byte_lists(t: &Table) -> (r: Result<Table, ProcessorError>)
    requires
        t@.wf(),
    ensures
        match r {
            Ok(rt) => {
                &&& rt@.wf()
                &&& rt@ == spec_repair(t@)
                &&& !repair_fails(t@)
                &&& rt@.nrows == t@.nrows
                &&& rt@.cols.len() == t@.cols.len()
                &&& forall|j: int|
                    0 <= j < t@.cols.len() && !is_code_list_ty(t@.cols[j].ty)
                        ==> #[trigger] rt@.cols[j] == t@.cols[j]
                &&& forall|j: int|
                    0 <= j < t@.cols.len() && is_code_list_ty(t@.cols[j].ty) ==> {
                        &&& (#[trigger] rt@.cols[j]).name == t@.cols[j].name
                        &&& rt@.cols[j].ty == SpecTy::Text
                        &&& rt@.cols[j].cells.len() == t@.cols[j].cells.len()
                        &&& forall|i: int|
                            0 <= i < t@.cols[j].cells.len() ==> repair_cell(
                                t@.cols[j].cells[i],
                            ) == Option::Some(#[trigger] rt@.cols[j].cells[i])
                    }
            },
            Err(e) => {
                &&& e matches ProcessorError::Encoding(_)
                &&& repair_fails(t@)
            },
        },
{
    broadcast use crate::table::group_table_views;
    broadcast use crate::value::group_value_views;

    let mut out: Vec<Column> = Vec::new();
    let mut j: usize = 0;
    while j < t.cols.len()
        invariant
            0 <= j <= t@.cols.len(),
            out@.len() == j,
            forall|k: int|
                0 <= k < j && !is_code_list_ty(t@.cols[k].ty) ==> #[trigger] view_cols(out@)[k]
                    == t@.cols[k],
            forall|k: int|
                0 <= k < j && is_code_list_ty(t@.cols[k].ty) ==> {
                    &&& (#[trigger] view_cols(out@)[k]).name == t@.cols[k].name
                    &&& view_cols(out@)[k].ty == SpecTy::Text
                    &&& view_cols(out@)[k].cells.len() == t@.cols[k].cells.len()
                    &&& forall|i: int|
                        0 <= i < t@.cols[k].cells.len() ==> repair_cell(t@.cols[k].cells[i])
                            == Option::Some(#[trigger] view_cols(out@)[k].cells[i])
                },
        decreases t.cols.len() - j,
    {
        let ghost pre = out@;
        let mut is_code = false;
        match &t.cols[j].ty {
            ColType::List(inner) => {
                proof {
                    lemma_view_ty_shape(**inner);
                    assert(t@.cols[j as int].ty == SpecTy::List(Box::new(view_ty(**inner))));
                }
                match &**inner {
                    ColType::Int => {
                        is_code = true;
                    },
                    ColType::Float => {
                        is_code = true;
                    },
                    _ => {},
                }
            },
            _ => {
                proof {
                    lemma_view_ty_shape(t.cols@[j as int].ty);
                }
            },
        }
        proof {
            assert(is_code == is_code_list_ty(t@.cols[j as int].ty));
        }
        if is_code {
            match repair_cells(&t.cols[j].cells) {
                Some(cells) => {
                    let c = Column { name: t.cols[j].name.clone(), ty: ColType::Text, cells };
                    out.push(c);
                },
                None => {
                    return Err(
                        ProcessorError::Encoding(
                            String::from_str("a byte-list column does not decode as UTF-8 text"),
                        ),
                    );
                },
            }
        } else {
            let c = t.cols[j].duplicate();
            out.push(c);
        }
        proof {
            assert(out@.drop_last() =~= pre);
            assert(view_cols(out@)[j as int] == out@[j as int]@);
            assert forall|k: int|
                0 <= k < j + 1 && !is_code_list_ty(t@.cols[k].ty) implies #[trigger] view_cols(
                out@,
            )[k] == t@.cols[k] by {
                if k < j {
                    assert(view_cols(out@)[k] == view_cols(pre)[k]);
                } else {
                    assert(view_cols(out@)[k] =~= t@.cols[k]);
                }
            }
            assert forall|k: int|
                0 <= k < j + 1 && is_code_list_ty(t@.cols[k].ty) implies {
                &&& (#[trigger] view_cols(out@)[k]).name == t@.cols[k].name
                &&& view_cols(out@)[k].ty == SpecTy::Text
                &&& view_cols(out@)[k].cells.len() == t@.cols[k].cells.len()
                &&& forall|i: int|
                    0 <= i < t@.cols[k].cells.len() ==> repair_cell(t@.cols[k].cells[i])
                        == Option::Some(#[trigger] view_cols(out@)[k].cells[i])
            } by {
                if k < j {
                    assert(view_cols(out@)[k] == view_cols(pre)[k]);
                } else {
                    assert(view_cols(out@)[k] == out@[k]@);
                }
            }
        }
        j = j + 1;
    }
    let rt = Table { cols: out, nrows: t.nrows };
    proof {
        assert forall|k1: int, k2: int|
            0 <= k1 < k2 < rt@.cols.len() implies rt@.cols[k1].name != rt@.cols[k2].name by {
            assert(rt@.cols[k1].name == t@.cols[k1].name);
            assert(rt@.cols[k2].name == t@.cols[k2].name);
        }
        assert forall|k: int| 0 <= k < rt@.cols.len() implies (#[trigger] rt@.cols[k]).cells.len()
            == rt@.nrows by {
            assert(t@.cols[k].cells.len() == t@.nrows);
        }
        let sr = spec_repair(t@);
        assert forall|k: int| 0 <= k < rt@.cols.len() implies #[trigger] rt@.cols[k]
            == sr.cols[k] by {
            if is_code_list_ty(t@.cols[k].ty) {
                assert(rt@.cols[k].cells =~= t@.cols[k].cells.map_values(
                    |v: SpecVal| repaired_cell(v),
                ));
                assert(rt@.cols[k] =~= sr.cols[k]);
            }
        }
        assert(rt@ =~= sr);
        assert(!repair_fails(t@)) by {
            if repair_fails(t@) {
                let (j, i) = choose|j: int, i: int|
                    0 <= j < t@.cols.len() && is_code_list_ty((#[trigger] t@.cols[j]).ty) && 0 <= i
                        < t@.cols[j].cells.len() && (#[trigger] repair_cell(
                        t@.cols[j].cells[i],
                    )) is None;
                assert(repair_cell(t@.cols[j].cells[i]) == Option::Some(rt@.cols[j].cells[i]));
            }
        }
    }
    Ok(rt)
}

} // verus!
