//! The tabular in-memory representation: an ordered sequence of named,
//! uniformly typed columns, together with its mathematical shadow.
//!
//! Invariant (`SpecTable::wf`): every column holds one cell per row, and
//! column names are unique within a table.

use vstd::prelude::*;

use crate::value::{view_vals, JsonVal, SpecVal};

verus! {

/// The semantic type of a column.
#[derive(Debug)]
pub enum ColType {
    /// No typed value was seen (an all-null column).
    Unknown,
    /// Boolean.
    Bool,
    /// 64-bit signed integer.
    Int,
    /// 64-bit floating point; cells keep the decimal text.
    Float,
    /// UTF-8 text.
    Text,
    /// A list with a uniform element type.
    List(Box<ColType>),
    /// Nested sub-columns: names with their types, in order.
    Struct(Vec<ColField>),
}

/// One named sub-column of a struct type.
#[derive(Debug)]
pub struct ColField {
    pub name: String,
    pub ty: ColType,
}

/// The mathematical form of a column type.
#[verifier::ext_equal]
pub enum SpecTy {
    Unknown,
    Bool,
    Int,
    Float,
    Text,
    List(Box<SpecTy>),
    Struct(Seq<SpecField>),
}

/// The mathematical form of a struct field.
#[verifier::ext_equal]
pub struct SpecField {
    pub name: Seq<char>,
    pub ty: SpecTy,
}

/// The view of a column type.
pub open spec fn view_ty(t: ColType) -> SpecTy
    decreases t,
{
    match t {
        ColType::Unknown => SpecTy::Unknown,
        ColType::Bool => SpecTy::Bool,
        ColType::Int => SpecTy::Int,
        ColType::Float => SpecTy::Float,
        ColType::Text => SpecTy::Text,
        ColType::List(inner) => SpecTy::List(Box::new(view_ty(*inner))),
        ColType::Struct(fields) => SpecTy::Struct(view_tfields(fields@)),
    }
}

/// The views of a struct's field list, in order.
pub open spec fn view_tfields(s: Seq<ColField>) -> Seq<SpecField>
    decreases s,
{
    if s.len() == 0 {
        Seq::empty()
    } else {
        view_tfields(s.drop_last()).push(
            SpecField { name: s.last().name@, ty: view_ty(s.last().ty) },
        )
    }
}

pub broadcast proof fn lemma_view_tfields_len(s: Seq<ColField>)
    ensures
        #[trigger] view_tfields(s).len() == s.len(),
    decreases s,
{
    if s.len() > 0 {
        lemma_view_tfields_len(s.drop_last());
    }
}

pub broadcast proof fn lemma_view_tfields_index(s: Seq<ColField>, i: int)
    requires
        0 <= i < s.len(),
    ensures
        #[trigger] view_tfields(s)[i] == (SpecField {
            name: s[i].name@,
            ty: view_ty(s[i].ty),
        }),
    decreases s,
{
    lemma_view_tfields_len(s);
    if s.len() > 0 && i < s.len() - 1 {
        lemma_view_tfields_len(s.drop_last());
        lemma_view_tfields_index(s.drop_last(), i);
    }
}

impl View for ColType {
    type V = SpecTy;

    open spec fn view(&self) -> SpecTy {
        view_ty(*self)
    }
}

impl View for ColField {
    type V = SpecField;

    open spec fn view(&self) -> SpecField {
        SpecField { name: self.name@, ty: self.ty@ }
    }
}

impl ColType {
    /// A deep copy: the copy has the same view as the original.
    #[verifier::loop_isolation(false)]
    pub fn duplicate(&self) -> (r: ColType)
        ensures
            r@ == self@,
        decreases *self,
    {
        broadcast use group_table_views;

        match self {
            ColType::Unknown => ColType::Unknown,
            ColType::Bool => ColType::Bool,
            ColType::Int => ColType::Int,
            ColType::Float => ColType::Float,
            ColType::Text => ColType::Text,
            ColType::List(inner) => ColType::List(Box::new((&**inner).duplicate())),
            ColType::Struct(fields) => {
                let mut out: Vec<ColField> = Vec::new();
                let mut i: usize = 0;
                while i < fields.len()
                    invariant
                        0 <= i <= fields.len(),
                        out@.len() == i,
                        view_tfields(out@) == view_tfields(fields@.take(i as int)),
                    decreases fields.len() - i,
                {
                    let name = fields[i].name.clone();
                    let ty = fields[i].ty.duplicate();
                    let ghost pre = out@;
                    out.push(ColField { name, ty });
                    proof {
                        assert(out@.drop_last() =~= pre);
                        assert(fields@.take(i + 1).drop_last() =~= fields@.take(i as int));
                        assert(fields@.take(i + 1).last() == fields@[i as int]);
                    }
                    i = i + 1;
                }
                proof {
                    assert(fields@.take(fields@.len() as int) =~= fields@);
                }
                ColType::Struct(out)
            },
        }
    }
}

/// One named column.
#[derive(Debug)]
pub struct Column {
    pub name: String,
    pub ty: ColType,
    pub cells: Vec<JsonVal>,
}

/// The mathematical form of a column.
#[verifier::ext_equal]
pub struct SpecColumn {
    pub name: Seq<char>,
    pub ty: SpecTy,
    pub cells: Seq<SpecVal>,
}

impl View for Column {
    type V = SpecColumn;

    open spec fn view(&self) -> SpecColumn {
        SpecColumn { name: self.name@, ty: self.ty@, cells: view_vals(self.cells@) }
    }
}

impl Column {
    /// A deep copy: the copy has the same view as the original.
    #[verifier::loop_isolation(false)]
    pub fn duplicate(&self) -> (r: Column)
        ensures
            r@ == self@,
    {
        broadcast use crate::value::group_value_views;

        let name = self.name.clone();
        let ty = self.ty.duplicate();
        let mut cells: Vec<JsonVal> = Vec::new();
        let mut i: usize = 0;
        while i < self.cells.len()
            invariant
                0 <= i <= self.cells.len(),
                cells@.len() == i,
                view_vals(cells@) == view_vals(self.cells@.take(i as int)),
            decreases self.cells.len() - i,
        {
            let v = self.cells[i].duplicate();
            let ghost pre = cells@;
            cells.push(v);
            proof {
                assert(cells@.drop_last() =~= pre);
                assert(self.cells@.take(i + 1).drop_last() =~= self.cells@.take(i as int));
                assert(self.cells@.take(i + 1).last() == self.cells@[i as int]);
            }
            i = i + 1;
        }
        proof {
            assert(self.cells@.take(self.cells@.len() as int) =~= self.cells@);
        }
        let r = Column { name, ty, cells };
        assert(r@ =~= self@);
        r
    }
}

/// The views of a column list, in order.
pub open spec fn view_cols(s: Seq<Column>) -> Seq<SpecColumn>
    decreases s,
{
    if s.len() == 0 {
        Seq::empty()
    } else {
        view_cols(s.drop_last()).push(s.last()@)
    }
}

pub broadcast proof fn lemma_view_cols_len(s: Seq<Column>)
    ensures
        #[trigger] view_cols(s).len() == s.len(),
    decreases s,
{
    if s.len() > 0 {
        lemma_view_cols_len(s.drop_last());
    }
}

pub broadcast proof fn lemma_view_cols_index(s: Seq<Column>, i: int)
    requires
        0 <= i < s.len(),
    ensures
        #[trigger] view_cols(s)[i] == s[i]@,
    decreases s,
{
    lemma_view_cols_len(s);
    if s.len() > 0 && i < s.len() - 1 {
        lemma_view_cols_len(s.drop_last());
        lemma_view_cols_index(s.drop_last(), i);
    }
}

pub broadcast group group_table_views {
    lemma_view_tfields_len,
    lemma_view_tfields_index,
    lemma_view_cols_len,
    lemma_view_cols_index,
}

/// An ordered collection of equally long, uniquely named columns.
#[derive(Debug)]
pub struct Table {
    pub cols: Vec<Column>,
    pub nrows: usize,
}

/// The mathematical form of a table.
#[verifier::ext_equal]
pub struct SpecTable {
    pub cols: Seq<SpecColumn>,
    pub nrows: nat,
}

impl View for Table {
    type V = SpecTable;

    open spec fn view(&self) -> SpecTable {
        SpecTable { cols: view_cols(self.cols@), nrows: self.nrows as nat }
    }
}

impl SpecTable {
    /// Well-formedness: one cell per row in every column, unique names.
    pub open spec fn wf(self) -> bool {
        &&& forall|j: int|
            0 <= j < self.cols.len() ==> (#[trigger] self.cols[j]).cells.len() == self.nrows
        &&& forall|j1: int, j2: int|
            0 <= j1 < j2 < self.cols.len() ==> self.cols[j1].name != self.cols[j2].name
    }

    /// The column names, in order.
    pub open spec fn names(self) -> Seq<Seq<char>> {
        self.cols.map_values(|c: SpecColumn| c.name)
    }

    /// Row count and column count.
    pub open spec fn shape(self) -> (nat, nat) {
        (self.nrows, self.cols.len())
    }

    /// Whether some column bears this name.
    pub open spec fn has_col(self, name: Seq<char>) -> bool {
        exists|j: int| 0 <= j < self.cols.len() && self.cols[j].name == name
    }
}

impl Table {
    /// The empty sentinel table: no rows, no columns.
    pub fn empty() -> (r: Table)
        ensures
            r@.cols.len() == 0,
            r@.nrows == 0,
            r@.wf(),
    {
        Table { cols: Vec::new(), nrows: 0 }
    }

    /// The shape `(rows, columns)` of the table.
    pub fn shape(&self) -> (r: (usize, usize))
        ensures
            r.0 as nat == self@.shape().0,
            r.1 as nat == self@.shape().1,
    {
        broadcast use group_table_views;

        (self.nrows, self.cols.len())
    }

    /// The position of the column named `name`, if any.
    #[verifier::loop_isolation(false)]
    pub fn find_col(&self, name: &str) -> (r: Option<usize>)
        ensures
            match r {
                Some(j) => j < self@.cols.len() && self@.cols[j as int].name == name@,
                None => !self@.has_col(name@),
            },
    {
        broadcast use group_table_views;

        let mut j: usize = 0;
        while j < self.cols.len()
            invariant
                0 <= j <= self.cols.len(),
                forall|k: int| 0 <= k < j ==> self@.cols[k].name != name@,
            decreases self.cols.len() - j,
        {
            if crate::strutil::str_eq(self.cols[j].name.as_str(), name) {
                return Some(j);
            }
            j = j + 1;
        }
        None
    }
}

} // verus!
