//! The column model: a tagged union over every supported physical column
//! kind, with the validity marker of each value kept beside it. Nested
//! structs recurse through the same union; list values are moved opaquely,
//! so a list cell is itself a column payload that the merge never opens.

use vstd::prelude::*;
use crate::dict::{Dictionary, DictV, dict_v, dict_wf, dict_contains};

verus! {

/// The fixed-width numeric kinds a column can carry.
#[derive(Clone, Copy, PartialEq, Eq, Structural, Debug)]
pub enum NumericKind {
    I8,
    I16,
    I32,
    I64,
    U8,
    U16,
    U32,
    U64,
}

/// How a categorical column orders its values: by raw code, or by the
/// decoded string.
#[derive(Clone, Copy, PartialEq, Eq, Structural, Debug)]
pub enum CatOrder {
    Physical,
    Lexical,
}

/// A logical column dtype, as schema and key checks compare it.
#[derive(Debug)]
pub enum DataType {
    Boolean,
    Numeric(NumericKind),
    Text,
    Binary,
    List(Box<DataType>),
    Struct(Vec<(Vec<u8>, DataType)>),
    Categorical(CatOrder),
}

/// A column's values: one homogeneous typed sequence, every cell carrying
/// its validity through `Option`. A struct column holds its outer validity
/// beside its named fields; a categorical column holds integer codes and
/// the dictionary they decode under.
pub enum ColumnData {
    Boolean(Vec<Option<bool>>),
    Numeric(NumericKind, Vec<Option<i128>>),
    Text(Vec<Option<Vec<u8>>>),
    Binary(Vec<Option<Vec<u8>>>),
    List(DataType, Vec<Option<ColumnData>>),
    Struct(Vec<bool>, Vec<(Vec<u8>, ColumnData)>),
    Categorical(CatOrder, Vec<Option<u32>>, Dictionary),
}

/// A named column.
pub struct Column {
    pub name: Vec<u8>,
    pub data: ColumnData,
}

/// The mathematical value of a column's data.
pub enum ColV {
    Boolean(Seq<Option<bool>>),
    Numeric(NumericKind, Seq<Option<i128>>),
    Text(Seq<Option<Seq<u8>>>),
    Binary(Seq<Option<Seq<u8>>>),
    List(Seq<Option<ColV>>),
    Struct(Seq<bool>, Seq<(Seq<u8>, ColV)>),
    Categorical(CatOrder, Seq<Option<u32>>, DictV),
}

pub open spec fn obytes_v(o: Option<Vec<u8>>) -> Option<Seq<u8>> {
    match o {
        Option::None => Option::None,
        Option::Some(v) => Option::Some(v@),
    }
}

pub open spec fn obytes_seq_v(s: Seq<Option<Vec<u8>>>) -> Seq<Option<Seq<u8>>> {
    s.map(|i: int, o: Option<Vec<u8>>| obytes_v(o))
}

pub open spec fn data_v(d: ColumnData) -> ColV
    decreases d,
{
    match d {
        ColumnData::Boolean(cells) => ColV::Boolean(cells@),
        ColumnData::Numeric(k, cells) => ColV::Numeric(k, cells@),
        ColumnData::Text(cells) => ColV::Text(obytes_seq_v(cells@)),
        ColumnData::Binary(cells) => ColV::Binary(obytes_seq_v(cells@)),
        ColumnData::List(_, cells) => ColV::List(list_cells_v(cells@)),
        ColumnData::Struct(validity, fields) => ColV::Struct(
            validity@,
            struct_fields_v(fields@),
        ),
        ColumnData::Categorical(ord, codes, dict) => ColV::Categorical(ord, codes@, dict_v(dict)),
    }
}

pub open spec fn opt_data_v(o: Option<ColumnData>) -> Option<ColV>
    decreases o,
{
    match o {
        Option::None => Option::None,
        Option::Some(d) => Option::Some(data_v(d)),
    }
}

pub open spec fn list_cells_v(cs: Seq<Option<ColumnData>>) -> Seq<Option<ColV>>
    decreases cs,
{
    if cs.len() == 0 {
        Seq::empty()
    } else {
        seq![opt_data_v(cs[0])] + list_cells_v(cs.drop_first())
    }
}

pub open spec fn struct_fields_v(fs: Seq<(Vec<u8>, ColumnData)>) -> Seq<(Seq<u8>, ColV)>
    decreases fs,
{
    if fs.len() == 0 {
        Seq::empty()
    } else {
        seq![(fs[0].0@, data_v(fs[0].1))] + struct_fields_v(fs.drop_first())
    }
}

pub proof fn lemma_list_cells_v(cs: Seq<Option<ColumnData>>)
    ensures
        list_cells_v(cs).len() == cs.len(),
        forall|i: int| 0 <= i < cs.len() ==> list_cells_v(cs)[i] == opt_data_v(cs[i]),
    decreases cs.len(),
{
    if cs.len() > 0 {
        lemma_list_cells_v(cs.drop_first());
        assert forall|i: int| 0 <= i < cs.len() implies list_cells_v(cs)[i] == opt_data_v(
            cs[i],
        ) by {
            if i > 0 {
                assert(list_cells_v(cs)[i] == list_cells_v(cs.drop_first())[i - 1]);
                assert(cs.drop_first()[i - 1] == cs[i]);
            }
        }
    }
}

pub proof fn lemma_struct_fields_v(fs: Seq<(Vec<u8>, ColumnData)>)
    ensures
        struct_fields_v(fs).len() == fs.len(),
        forall|i: int| 0 <= i < fs.len() ==> struct_fields_v(fs)[i] == (
            fs[i].0@,
            data_v(fs[i].1),
        ),
    decreases fs.len(),
{
    if fs.len() > 0 {
        lemma_struct_fields_v(fs.drop_first());
        assert forall|i: int| 0 <= i < fs.len() implies struct_fields_v(fs)[i] == (
            fs[i].0@,
            data_v(fs[i].1),
        ) by {
            if i > 0 {
                assert(struct_fields_v(fs)[i] == struct_fields_v(fs.drop_first())[i - 1]);
                assert(fs.drop_first()[i - 1] == fs[i]);
            }
        }
    }
}

/// Structural equality of two dtypes, with names compared by contents.
pub open spec fn dt_eq_v(a: DataType, b: DataType) -> bool
    decreases a,
{
    match (a, b) {
        (DataType::Boolean, DataType::Boolean) => true,
        (DataType::Numeric(k1), DataType::Numeric(k2)) => k1 == k2,
        (DataType::Text, DataType::Text) => true,
        (DataType::Binary, DataType::Binary) => true,
        (DataType::List(t1), DataType::List(t2)) => dt_eq_v(*t1, *t2),
        (DataType::Struct(f1), DataType::Struct(f2)) => dt_fields_eq_v(f1@, f2@),
        (DataType::Categorical(o1), DataType::Categorical(o2)) => o1 == o2,
        _ => false,
    }
}

pub open spec fn dt_fields_eq_v(f1: Seq<(Vec<u8>, DataType)>, f2: Seq<(Vec<u8>, DataType)>) -> bool
    decreases f1,
{
    if f1.len() != f2.len() {
        false
    } else if f1.len() == 0 {
        true
    } else {
        f1[0].0@ == f2[0].0@ && dt_eq_v(f1[0].1, f2[0].1) && dt_fields_eq_v(
            f1.drop_first(),
            f2.drop_first(),
        )
    }
}

/// Whether two columns share one physical representation, the precondition
/// of the typed interleave: same kind, same numeric width, same list element
/// dtype, and structs matching field by field in name and representation.
/// The dictionaries of two categorical columns are not part of it; their
/// reconciliation is the merge's own concern.
pub open spec fn same_phys(a: ColumnData, b: ColumnData) -> bool
    decreases a,
{
    match (a, b) {
        (ColumnData::Boolean(_), ColumnData::Boolean(_)) => true,
        (ColumnData::Numeric(k1, _), ColumnData::Numeric(k2, _)) => k1 == k2,
        (ColumnData::Text(_), ColumnData::Text(_)) => true,
        (ColumnData::Binary(_), ColumnData::Binary(_)) => true,
        (ColumnData::List(t1, _), ColumnData::List(t2, _)) => dt_eq_v(t1, t2),
        (ColumnData::Struct(_, f1), ColumnData::Struct(_, f2)) => fields_same_phys(f1@, f2@),
        (ColumnData::Categorical(o1, _, _), ColumnData::Categorical(o2, _, _)) => o1 == o2,
        _ => false,
    }
}

pub open spec fn fields_same_phys(
    f1: Seq<(Vec<u8>, ColumnData)>,
    f2: Seq<(Vec<u8>, ColumnData)>,
) -> bool
    decreases f1,
{
    if f1.len() != f2.len() {
        false
    } else if f1.len() == 0 {
        true
    } else {
        f1[0].0@ == f2[0].0@ && same_phys(f1[0].1, f2[0].1) && fields_same_phys(
            f1.drop_first(),
            f2.drop_first(),
        )
    }
}

/// The row count of a column's data.
pub open spec fn spec_data_len(d: ColumnData) -> int {
    match d {
        ColumnData::Boolean(cells) => cells@.len() as int,
        ColumnData::Numeric(_, cells) => cells@.len() as int,
        ColumnData::Text(cells) => cells@.len() as int,
        ColumnData::Binary(cells) => cells@.len() as int,
        ColumnData::List(_, cells) => cells@.len() as int,
        ColumnData::Struct(validity, _) => validity@.len() as int,
        ColumnData::Categorical(_, codes, _) => codes@.len() as int,
    }
}

/// Well-formedness of a column's data: every struct field as long as its
/// outer validity and itself well-formed, and every categorical code
/// meaningful under its well-formed dictionary.
pub open spec fn data_wf(d: ColumnData) -> bool
    decreases d,
{
    match d {
        ColumnData::Struct(validity, fields) => fields_wf(fields@, validity@.len() as int),
        ColumnData::Categorical(_, codes, dict) => dict_wf(dict_v(dict)) && forall|i: int|
            0 <= i < codes@.len() ==> (#[trigger] codes@[i] matches Option::Some(c) ==>
            dict_contains(dict_v(dict), c)),
        _ => true,
    }
}

pub open spec fn fields_wf(fs: Seq<(Vec<u8>, ColumnData)>, n: int) -> bool
    decreases fs,
{
    if fs.len() == 0 {
        true
    } else {
        spec_data_len(fs[0].1) == n && data_wf(fs[0].1) && fields_wf(fs.drop_first(), n)
    }
}

/// The row count of a column.
pub fn data_len(d: &ColumnData) -> (n: usize)
    ensures
        n == spec_data_len(*d),
{
    match d {
        ColumnData::Boolean(cells) => cells.len(),
        ColumnData::Numeric(_, cells) => cells.len(),
        ColumnData::Text(cells) => cells.len(),
        ColumnData::Binary(cells) => cells.len(),
        ColumnData::List(_, cells) => cells.len(),
        ColumnData::Struct(validity, _) => validity.len(),
        ColumnData::Categorical(_, codes, _) => codes.len(),
    }
}

/// Compares two dtypes structurally.
pub fn dt_eq(a: &DataType, b: &DataType) -> (r: bool)
    ensures
        r == dt_eq_v(*a, *b),
    decreases *a,
{
    match (a, b) {
        (DataType::Boolean, DataType::Boolean) => true,
        (DataType::Numeric(k1), DataType::Numeric(k2)) => *k1 == *k2,
        (DataType::Text, DataType::Text) => true,
        (DataType::Binary, DataType::Binary) => true,
        (DataType::List(t1), DataType::List(t2)) => dt_eq(t1, t2),
        (DataType::Struct(f1), DataType::Struct(f2)) => {
            proof {
                assert(*a == DataType::Struct(*f1));
                assert(*b == DataType::Struct(*f2));
            }
            if f1.len() != f2.len() {
                proof {
                    assert(dt_eq_v(*a, *b) == dt_fields_eq_v(f1@, f2@));
                    assert(!dt_fields_eq_v(f1@, f2@));
                }
                return false;
            }
            let n = f1.len();
            let mut i: usize = 0;
            proof {
                assert(f1@.skip(0) =~= f1@);
                assert(f2@.skip(0) =~= f2@);
            }
            while i < n
                invariant
                    i <= n,
                    n == f1@.len(),
                    n == f2@.len(),
                    *a == DataType::Struct(*f1),
                    *b == DataType::Struct(*f2),
                    dt_fields_eq_v(f1@.skip(i as int), f2@.skip(i as int)) ==> dt_fields_eq_v(
                        f1@,
                        f2@,
                    ),
                    dt_fields_eq_v(f1@, f2@) ==> dt_fields_eq_v(
                        f1@.skip(i as int),
                        f2@.skip(i as int),
                    ),
                decreases n - i,
            {
                proof {
                    assert(f1@.skip(i as int)[0] == f1@[i as int]);
                    assert(f2@.skip(i as int)[0] == f2@[i as int]);
                    assert(f1@.skip(i as int).drop_first() =~= f1@.skip(i as int + 1));
                    assert(f2@.skip(i as int).drop_first() =~= f2@.skip(i as int + 1));
                    assert(a->Struct_0 == *f1);
                    assert(decreases_to!(*a => a->Struct_0));
                    assert(decreases_to!(*f1 => f1@));
                    assert(decreases_to!(f1@ => f1@[i as int]));
                    assert(decreases_to!(f1@[i as int] => f1@[i as int].1));
                }
                if !crate::bytes::bytes_eq(&f1[i].0, &f2[i].0) {
                    return false;
                }
                if !dt_eq(&f1[i].1, &f2[i].1) {
                    return false;
                }
                i += 1;
            }
            proof {
                assert(f1@.skip(n as int).len() == 0);
                assert(dt_fields_eq_v(f1@.skip(n as int), f2@.skip(n as int)));
            }
            true
        },
        (DataType::Categorical(o1), DataType::Categorical(o2)) => {
            match (o1, o2) {
                (CatOrder::Physical, CatOrder::Physical) => true,
                (CatOrder::Lexical, CatOrder::Lexical) => true,
                _ => false,
            }
        },
        _ => false,
    }
}


/// Every entry of a validity sequence true: no outer-level null.
pub open spec fn all_valid(v: Seq<bool>) -> bool {
    forall|i: int| 0 <= i < v.len() ==> v[i]
}

/// Whether a validity vector carries no null marker.
pub fn all_valid_exec(v: &Vec<bool>) -> (r: bool)
    ensures
        r == all_valid(v@),
{
    let mut i: usize = 0;
    while i < v.len()
        invariant
            i <= v@.len(),
            forall|j: int| 0 <= j < i ==> v@[j],
        decreases v@.len() - i,
    {
        if !v[i] {
            return false;
        }
        i += 1;
    }
    true
}

/// A fresh copy of a vector of plain copyable cells.
pub fn clone_copy_vec<T: Copy>(v: &Vec<T>) -> (r: Vec<T>)
    ensures
        r@ == v@,
{
    let mut out: Vec<T> = Vec::new();
    let mut i: usize = 0;
    while i < v.len()
        invariant
            i <= v@.len(),
            out@ =~= v@.take(i as int),
        decreases v@.len() - i,
    {
        out.push(v[i]);
        i += 1;
    }
    proof {
        assert(v@.take(v@.len() as int) =~= v@);
    }
    out
}

/// A fresh copy of a vector of optional byte strings.
pub fn clone_obytes(v: &Vec<Option<Vec<u8>>>) -> (r: Vec<Option<Vec<u8>>>)
    ensures
        obytes_seq_v(r@) == obytes_seq_v(v@),
        r@.len() == v@.len(),
{
    let mut out: Vec<Option<Vec<u8>>> = Vec::new();
    let mut i: usize = 0;
    while i < v.len()
        invariant
            i <= v@.len(),
            out@.len() == i,
            forall|j: int| 0 <= j < i ==> obytes_v(out@[j]) == obytes_v(v@[j]),
        decreases v@.len() - i,
    {
        match &v[i] {
            Option::None => out.push(Option::None),
            Option::Some(b) => {
                let c = crate::bytes::clone_bytes(b);
                out.push(Option::Some(c));
            },
        }
        i += 1;
    }
    proof {
        assert(obytes_seq_v(out@) =~= obytes_seq_v(v@));
    }
    out
}

/// Pointwise field agreement gives the recursive field predicate.
pub proof fn lemma_fields_same_phys_pointwise(
    f1: Seq<(Vec<u8>, ColumnData)>,
    f2: Seq<(Vec<u8>, ColumnData)>,
)
    requires
        f1.len() == f2.len(),
        forall|j: int| 0 <= j < f1.len() ==> f1[j].0@ == f2[j].0@ && same_phys(f1[j].1, f2[j].1),
    ensures
        fields_same_phys(f1, f2),
    decreases f1.len(),
{
    if f1.len() > 0 {
        assert(forall|j: int|
            0 <= j < f1.drop_first().len() ==> f1.drop_first()[j] == f1[j + 1]
                && f2.drop_first()[j] == f2[j + 1]);
        lemma_fields_same_phys_pointwise(f1.drop_first(), f2.drop_first());
    }
}

pub proof fn lemma_dt_fields_eq_pointwise(
    f1: Seq<(Vec<u8>, DataType)>,
    f2: Seq<(Vec<u8>, DataType)>,
)
    requires
        f1.len() == f2.len(),
        forall|j: int| 0 <= j < f1.len() ==> f1[j].0@ == f2[j].0@ && dt_eq_v(f1[j].1, f2[j].1),
    ensures
        dt_fields_eq_v(f1, f2),
    decreases f1.len(),
{
    if f1.len() > 0 {
        assert(forall|j: int|
            0 <= j < f1.drop_first().len() ==> f1.drop_first()[j] == f1[j + 1]
                && f2.drop_first()[j] == f2[j + 1]);
        lemma_dt_fields_eq_pointwise(f1.drop_first(), f2.drop_first());
    }
}

/// A fresh copy of a dtype.
pub fn clone_dt(t: &DataType) -> (r: DataType)
    ensures
        dt_eq_v(r, *t),
    decreases *t,
{
    match t {
        DataType::Boolean => DataType::Boolean,
        DataType::Numeric(k) => DataType::Numeric(*k),
        DataType::Text => DataType::Text,
        DataType::Binary => DataType::Binary,
        DataType::List(e) => {
            proof {
                assert(t->List_0 == *e);
                assert(decreases_to!(*t => t->List_0));
            }
            DataType::List(Box::new(clone_dt(e)))
        },
        DataType::Struct(fs) => {
            let n = fs.len();
            let mut out: Vec<(Vec<u8>, DataType)> = Vec::new();
            let mut i: usize = 0;
            while i < n
                invariant
                    i <= n,
                    n == fs@.len(),
                    *t == DataType::Struct(*fs),
                    out@.len() == i,
                    forall|j: int|
                        0 <= j < i ==> out@[j].0@ == fs@[j].0@ && dt_eq_v(out@[j].1, fs@[j].1),
                decreases n - i,
            {
                proof {
                    assert(t->Struct_0 == *fs);
                    assert(decreases_to!(*t => t->Struct_0));
                    assert(decreases_to!(*fs => fs@));
                    assert(decreases_to!(fs@ => fs@[i as int]));
                    assert(decreases_to!(fs@[i as int] => fs@[i as int].1));
                }
                let nm = crate::bytes::clone_bytes(&fs[i].0);
                let dt = clone_dt(&fs[i].1);
                out.push((nm, dt));
                i += 1;
            }
            proof {
                lemma_dt_fields_eq_pointwise(out@, fs@);
            }
            DataType::Struct(out)
        },
        DataType::Categorical(o) => DataType::Categorical(*o),
    }
}

/// A fresh copy of a column's data, equal to it as a mathematical value and
/// of the same physical representation.
pub fn clone_data(d: &ColumnData) -> (r: ColumnData)
    ensures
        data_v(r) == data_v(*d),
        same_phys(r, *d),
    decreases *d,
{
    match d {
        ColumnData::Boolean(cells) => ColumnData::Boolean(clone_copy_vec(cells)),
        ColumnData::Numeric(k, cells) => ColumnData::Numeric(*k, clone_copy_vec(cells)),
        ColumnData::Text(cells) => ColumnData::Text(clone_obytes(cells)),
        ColumnData::Binary(cells) => ColumnData::Binary(clone_obytes(cells)),
        ColumnData::List(t, cells) => {
            let nt = clone_dt(t);
            let n = cells.len();
            let mut out: Vec<Option<ColumnData>> = Vec::new();
            let mut i: usize = 0;
            while i < n
                invariant
                    i <= n,
                    n == cells@.len(),
                    *d == ColumnData::List(*t, *cells),
                    out@.len() == i,
                    forall|j: int| 0 <= j < i ==> opt_data_v(out@[j]) == opt_data_v(cells@[j]),
                decreases n - i,
            {
                proof {
                    assert(d->List_1 == *cells);
                    assert(decreases_to!(*d => d->List_1));
                    assert(decreases_to!(*cells => cells@));
                    assert(decreases_to!(cells@ => cells@[i as int]));
                }
                match &cells[i] {
                    Option::None => out.push(Option::None),
                    Option::Some(cd) => {
                        proof {
                            assert(cells@[i as int] == Option::Some(*cd));
                            assert(decreases_to!(cells@[i as int] => cells@[i as int]->0));
                        }
                        let c = clone_data(cd);
                        out.push(Option::Some(c));
                    },
                }
                i += 1;
            }
            proof {
                lemma_list_cells_v(out@);
                lemma_list_cells_v(cells@);
                assert(list_cells_v(out@) =~= list_cells_v(cells@));
            }
            ColumnData::List(nt, out)
        },
        ColumnData::Struct(validity, fields) => {
            let nv = clone_copy_vec(validity);
            let n = fields.len();
            let mut out: Vec<(Vec<u8>, ColumnData)> = Vec::new();
            let mut i: usize = 0;
            while i < n
                invariant
                    i <= n,
                    n == fields@.len(),
                    *d == ColumnData::Struct(*validity, *fields),
                    out@.len() == i,
                    forall|j: int|
                        0 <= j < i ==> out@[j].0@ == fields@[j].0@ && data_v(out@[j].1)
                            == data_v(fields@[j].1) && same_phys(out@[j].1, fields@[j].1),
                decreases n - i,
            {
                proof {
                    assert(d->Struct_1 == *fields);
                    assert(decreases_to!(*d => d->Struct_1));
                    assert(decreases_to!(*fields => fields@));
                    assert(decreases_to!(fields@ => fields@[i as int]));
                    assert(decreases_to!(fields@[i as int] => fields@[i as int].1));
                }
                let nm = crate::bytes::clone_bytes(&fields[i].0);
                let cd = clone_data(&fields[i].1);
                out.push((nm, cd));
                i += 1;
            }
            proof {
                lemma_struct_fields_v(out@);
                lemma_struct_fields_v(fields@);
                assert(struct_fields_v(out@) =~= struct_fields_v(fields@));
                lemma_fields_same_phys_pointwise(out@, fields@);
            }
            ColumnData::Struct(nv, out)
        },
        ColumnData::Categorical(o, codes, dict) => {
            let nc = clone_copy_vec(codes);
            let nd = crate::dict::clone_dict(dict);
            ColumnData::Categorical(*o, nc, nd)
        },
    }
}

/// A fresh copy of a named column.
pub fn clone_column(c: &Column) -> (r: Column)
    ensures
        r.name@ == c.name@,
        data_v(r.data) == data_v(c.data),
        same_phys(r.data, c.data),
{
    Column { name: crate::bytes::clone_bytes(&c.name), data: clone_data(&c.data) }
}


/// Whether a dtype value describes a column's data.
pub open spec fn dt_matches_data(t: DataType, d: ColumnData) -> bool
    decreases d,
{
    match (t, d) {
        (DataType::Boolean, ColumnData::Boolean(_)) => true,
        (DataType::Numeric(k1), ColumnData::Numeric(k2, _)) => k1 == k2,
        (DataType::Text, ColumnData::Text(_)) => true,
        (DataType::Binary, ColumnData::Binary(_)) => true,
        (DataType::List(t1), ColumnData::List(t2, _)) => dt_eq_v(*t1, t2),
        (DataType::Struct(tf), ColumnData::Struct(_, df)) => dt_fields_match(tf@, df@),
        (DataType::Categorical(o1), ColumnData::Categorical(o2, _, _)) => o1 == o2,
        _ => false,
    }
}

pub open spec fn dt_fields_match(
    tf: Seq<(Vec<u8>, DataType)>,
    df: Seq<(Vec<u8>, ColumnData)>,
) -> bool
    decreases df,
{
    if tf.len() != df.len() {
        false
    } else if df.len() == 0 {
        true
    } else {
        tf[0].0@ == df[0].0@ && dt_matches_data(tf[0].1, df[0].1) && dt_fields_match(
            tf.drop_first(),
            df.drop_first(),
        )
    }
}

pub proof fn lemma_dt_fields_match_pointwise(
    tf: Seq<(Vec<u8>, DataType)>,
    df: Seq<(Vec<u8>, ColumnData)>,
)
    requires
        tf.len() == df.len(),
        forall|j: int|
            0 <= j < df.len() ==> tf[j].0@ == df[j].0@ && dt_matches_data(tf[j].1, df[j].1),
    ensures
        dt_fields_match(tf, df),
    decreases df.len(),
{
    if df.len() > 0 {
        assert(forall|j: int|
            0 <= j < df.drop_first().len() ==> tf.drop_first()[j] == tf[j + 1]
                && df.drop_first()[j] == df[j + 1]);
        lemma_dt_fields_match_pointwise(tf.drop_first(), df.drop_first());
    }
}

/// The logical dtype of a column's data, as an error message names it.
pub fn dtype_of(d: &ColumnData) -> (r: DataType)
    ensures
        dt_matches_data(r, *d),
    decreases *d,
{
    match d {
        ColumnData::Boolean(_) => DataType::Boolean,
        ColumnData::Numeric(k, _) => DataType::Numeric(*k),
        ColumnData::Text(_) => DataType::Text,
        ColumnData::Binary(_) => DataType::Binary,
        ColumnData::List(t, _) => DataType::List(Box::new(clone_dt(t))),
        ColumnData::Struct(_, fields) => {
            let n = fields.len();
            let mut out: Vec<(Vec<u8>, DataType)> = Vec::new();
            let mut i: usize = 0;
            while i < n
                invariant
                    i <= n,
                    n == fields@.len(),
                    *d == ColumnData::Struct(d->Struct_0, *fields),
                    out@.len() == i,
                    forall|j: int|
                        0 <= j < i ==> out@[j].0@ == fields@[j].0@ && dt_matches_data(
                            out@[j].1,
                            fields@[j].1,
                        ),
                decreases n - i,
            {
                proof {
                    assert(d->Struct_1 == *fields);
                    assert(decreases_to!(*d => d->Struct_1));
                    assert(decreases_to!(*fields => fields@));
                    assert(decreases_to!(fields@ => fields@[i as int]));
                    assert(decreases_to!(fields@[i as int] => fields@[i as int].1));
                }
                let nm = crate::bytes::clone_bytes(&fields[i].0);
                let dt = dtype_of(&fields[i].1);
                out.push((nm, dt));
                i += 1;
            }
            proof {
                lemma_dt_fields_match_pointwise(out@, fields@);
            }
            DataType::Struct(out)
        },
        ColumnData::Categorical(o, _, _) => DataType::Categorical(*o),
    }
}

/// Whether two columns share one physical representation.
pub fn same_phys_exec(a: &ColumnData, b: &ColumnData) -> (r: bool)
    ensures
        r == same_phys(*a, *b),
    decreases *a,
{
    match (a, b) {
        (ColumnData::Boolean(_), ColumnData::Boolean(_)) => true,
        (ColumnData::Numeric(k1, _), ColumnData::Numeric(k2, _)) => *k1 == *k2,
        (ColumnData::Text(_), ColumnData::Text(_)) => true,
        (ColumnData::Binary(_), ColumnData::Binary(_)) => true,
        (ColumnData::List(t1, _), ColumnData::List(t2, _)) => dt_eq(t1, t2),
        (ColumnData::Struct(_, f1), ColumnData::Struct(_, f2)) => {
            proof {
                assert(*a == ColumnData::Struct(a->Struct_0, *f1));
                assert(*b == ColumnData::Struct(b->Struct_0, *f2));
            }
            if f1.len() != f2.len() {
                proof {
                    assert(!fields_same_phys(f1@, f2@));
                }
                return false;
            }
            let n = f1.len();
            let mut i: usize = 0;
            proof {
                assert(f1@.skip(0) =~= f1@);
                assert(f2@.skip(0) =~= f2@);
            }
            while i < n
                invariant
                    i <= n,
                    n == f1@.len(),
                    n == f2@.len(),
                    *a == ColumnData::Struct(a->Struct_0, *f1),
                    *b == ColumnData::Struct(b->Struct_0, *f2),
                    fields_same_phys(f1@.skip(i as int), f2@.skip(i as int)) ==> fields_same_phys(
                        f1@,
                        f2@,
                    ),
                    fields_same_phys(f1@, f2@) ==> fields_same_phys(
                        f1@.skip(i as int),
                        f2@.skip(i as int),
                    ),
                decreases n - i,
            {
                proof {
                    assert(f1@.skip(i as int)[0] == f1@[i as int]);
                    assert(f2@.skip(i as int)[0] == f2@[i as int]);
                    assert(f1@.skip(i as int).drop_first() =~= f1@.skip(i as int + 1));
                    assert(f2@.skip(i as int).drop_first() =~= f2@.skip(i as int + 1));
                    assert(a->Struct_1 == *f1);
                    assert(decreases_to!(*a => a->Struct_1));
                    assert(decreases_to!(*f1 => f1@));
                    assert(decreases_to!(f1@ => f1@[i as int]));
                    assert(decreases_to!(f1@[i as int] => f1@[i as int].1));
                }
                if !crate::bytes::bytes_eq(&f1[i].0, &f2[i].0) {
                    return false;
                }
                if !same_phys_exec(&f1[i].1, &f2[i].1) {
                    return false;
                }
                i += 1;
            }
            proof {
                assert(f1@.skip(n as int).len() == 0);
                assert(fields_same_phys(f1@.skip(n as int), f2@.skip(n as int)));
            }
            true
        },
        (ColumnData::Categorical(o1, _, _), ColumnData::Categorical(o2, _, _)) => *o1 == *o2,
        _ => false,
    }
}

} // verus!
