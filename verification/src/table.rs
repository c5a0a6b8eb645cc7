//! The frame assembler: validates the two tables and their key columns,
//! short-circuits on an empty side, computes the merge indicator once from
//! the keys, and interleaves every column pair into the merged table.

use vstd::prelude::*;
use crate::MergeError;
use crate::keys::{Key, KeyV, key_v, keys_v};
use crate::indicator::{spec_indicator, spec_interleave, count_true, get_merge_indicator,
    lemma_indicator_shape, lemma_interleave_len, lemma_interleave_multiset, lemma_merged_sorted,
    sorted_keys};
use crate::column::{Column, ColumnData, ColV, CatOrder, NumericKind, data_v, same_phys, same_phys_exec,
    spec_data_len, data_len, data_wf, dt_matches_data, dtype_of, clone_column};
use crate::dict::{dict_v, dict_same_src, dict_decode, dict_decode_exec, same_src};
use crate::merge::{spec_merge_data, spec_merge_fields, merge_column};
use crate::bytes::{clone_bytes, bytes_eq};

verus! {

/// An ordered sequence of named columns sharing one row count. The row
/// count stands on its own so that a table without columns still has a
/// height, as a merged table's height is the sum of its inputs' heights.
pub struct Table {
    pub height: usize,
    pub columns: Vec<Column>,
}

/// The mathematical value of a column list: each column's name and data.
pub open spec fn columns_v(cs: Seq<Column>) -> Seq<(Seq<u8>, ColV)>
    decreases cs,
{
    if cs.len() == 0 {
        Seq::empty()
    } else {
        seq![(cs[0].name@, data_v(cs[0].data))] + columns_v(cs.drop_first())
    }
}

pub proof fn lemma_columns_v(cs: Seq<Column>)
    ensures
        columns_v(cs).len() == cs.len(),
        forall|i: int| 0 <= i < cs.len() ==> columns_v(cs)[i] == (
            cs[i].name@,
            data_v(cs[i].data),
        ),
    decreases cs.len(),
{
    if cs.len() > 0 {
        lemma_columns_v(cs.drop_first());
        assert forall|i: int| 0 <= i < cs.len() implies columns_v(cs)[i] == (
            cs[i].name@,
            data_v(cs[i].data),
        ) by {
            if i > 0 {
                assert(columns_v(cs)[i] == columns_v(cs.drop_first())[i - 1]);
                assert(cs.drop_first()[i - 1] == cs[i]);
            }
        }
    }
}

/// Every column as long as the table's height and well-formed.
pub open spec fn table_wf(t: Table) -> bool {
    forall|i: int|
        0 <= i < t.columns@.len() ==> spec_data_len(#[trigger] t.columns@[i].data) == t.height
            && data_wf(t.columns@[i].data)
}

/// Identical column names and dtypes in identical order.
pub open spec fn spec_schema_eq(l: Table, r: Table) -> bool {
    l.columns@.len() == r.columns@.len() && forall|i: int|
        0 <= i < l.columns@.len() ==> (#[trigger] l.columns@[i]).name@ == (
        #[trigger] r.columns@[i]).name@ && same_phys(l.columns@[i].data, r.columns@[i].data)
}

/// Matching physical representations column by column: what the per-column
/// interleave needs of tables that skipped the schema check.
pub open spec fn cols_compatible(l: Table, r: Table) -> bool {
    l.columns@.len() == r.columns@.len() && forall|i: int|
        0 <= i < l.columns@.len() ==> same_phys(
            (#[trigger] l.columns@[i]).data,
            (#[trigger] r.columns@[i]).data,
        )
}

/// A key column's kind is one the indicator generator compares directly: a
/// scalar, text, binary, or a categorical. A composite key reaches the
/// generator as its order-preserving byte encoding, a binary column made by
/// the caller's row-encoding collaborator; a list cannot be a key.
pub open spec fn key_kind_ok(d: ColumnData) -> bool {
    match d {
        ColumnData::Boolean(_) => true,
        ColumnData::Numeric(_, _) => true,
        ColumnData::Text(_) => true,
        ColumnData::Binary(_) => true,
        ColumnData::Categorical(_, _, _) => true,
        _ => false,
    }
}

/// Whether the dictionaries of two categorical key columns share an origin;
/// vacuous for every other key kind.
pub open spec fn keys_cat_compatible(lk: ColumnData, rk: ColumnData) -> bool {
    match (lk, rk) {
        (
            ColumnData::Categorical(_, _, dl),
            ColumnData::Categorical(_, _, dr),
        ) => dict_same_src(dict_v(dl), dict_v(dr)),
        _ => true,
    }
}

/// The key sequence a key column yields: nulls first as `Null`, scalars as
/// themselves, text and binary as byte strings, categorical codes raw where
/// the ordering is physical and decoded where it is lexical.
pub open spec fn spec_keys_of(c: ColV) -> Seq<KeyV> {
    match c {
        ColV::Boolean(cells) => cells.map(
            |i: int, o: Option<bool>|
                match o {
                    Option::None => KeyV::Null,
                    Option::Some(b) => KeyV::Bool(b),
                },
        ),
        ColV::Numeric(_, cells) => cells.map(
            |i: int, o: Option<i128>|
                match o {
                    Option::None => KeyV::Null,
                    Option::Some(v) => KeyV::Int(v as int),
                },
        ),
        ColV::Text(cells) => cells.map(
            |i: int, o: Option<Seq<u8>>|
                match o {
                    Option::None => KeyV::Null,
                    Option::Some(s) => KeyV::Bytes(s),
                },
        ),
        ColV::Binary(cells) => cells.map(
            |i: int, o: Option<Seq<u8>>|
                match o {
                    Option::None => KeyV::Null,
                    Option::Some(s) => KeyV::Bytes(s),
                },
        ),
        ColV::Categorical(CatOrder::Physical, codes, _) => codes.map(
            |i: int, o: Option<u32>|
                match o {
                    Option::None => KeyV::Null,
                    Option::Some(c) => KeyV::Int(c as int),
                },
        ),
        ColV::Categorical(CatOrder::Lexical, codes, d) => codes.map(
            |i: int, o: Option<u32>|
                match o {
                    Option::None => KeyV::Null,
                    Option::Some(c) => KeyV::Bytes(dict_decode(d, c)),
                },
        ),
        _ => Seq::empty(),
    }
}

/// Extracts the comparison keys of a key column. A categorical key with
/// lexical ordering is decoded through its dictionary, since raw codes from
/// differing dictionaries are not comparable; one with physical ordering
/// compares by its raw codes.
pub fn column_to_keys(d: &ColumnData) -> (out: Vec<Key>)
    requires
        key_kind_ok(*d),
        data_wf(*d),
    ensures
        keys_v(out@) == spec_keys_of(data_v(*d)),
        out@.len() == spec_data_len(*d),
{
    let mut out: Vec<Key> = Vec::new();
    match d {
        ColumnData::Boolean(cells) => {
            let mut i: usize = 0;
            while i < cells.len()
                invariant
                    i <= cells@.len(),
                    out@.len() == i,
                    forall|j: int|
                        0 <= j < i ==> key_v(out@[j]) == spec_keys_of(
                            data_v(ColumnData::Boolean(*cells)),
                        )[j],
                decreases cells@.len() - i,
            {
                match cells[i] {
                    Option::None => out.push(Key::Null),
                    Option::Some(b) => out.push(Key::Bool(b)),
                }
                i += 1;
            }
        },
        ColumnData::Numeric(_, cells) => {
            let mut i: usize = 0;
            while i < cells.len()
                invariant
                    i <= cells@.len(),
                    out@.len() == i,
                    *d matches ColumnData::Numeric(k0, cs0) && cs0 == *cells,
                    forall|j: int| 0 <= j < i ==> key_v(out@[j]) == spec_keys_of(data_v(*d))[j],
                decreases cells@.len() - i,
            {
                match cells[i] {
                    Option::None => out.push(Key::Null),
                    Option::Some(v) => out.push(Key::Int(v)),
                }
                i += 1;
            }
        },
        ColumnData::Text(cells) => {
            let mut i: usize = 0;
            while i < cells.len()
                invariant
                    i <= cells@.len(),
                    out@.len() == i,
                    *d matches ColumnData::Text(cs0) && cs0 == *cells,
                    forall|j: int| 0 <= j < i ==> key_v(out@[j]) == spec_keys_of(data_v(*d))[j],
                decreases cells@.len() - i,
            {
                match &cells[i] {
                    Option::None => out.push(Key::Null),
                    Option::Some(b) => out.push(Key::Bytes(clone_bytes(b))),
                }
                i += 1;
            }
        },
        ColumnData::Binary(cells) => {
            let mut i: usize = 0;
            while i < cells.len()
                invariant
                    i <= cells@.len(),
                    out@.len() == i,
                    *d matches ColumnData::Binary(cs0) && cs0 == *cells,
                    forall|j: int| 0 <= j < i ==> key_v(out@[j]) == spec_keys_of(data_v(*d))[j],
                decreases cells@.len() - i,
            {
                match &cells[i] {
                    Option::None => out.push(Key::Null),
                    Option::Some(b) => out.push(Key::Bytes(clone_bytes(b))),
                }
                i += 1;
            }
        },
        ColumnData::Categorical(ord, codes, dict) => {
            let lexical = match ord {
                CatOrder::Lexical => true,
                CatOrder::Physical => false,
            };
            let mut i: usize = 0;
            while i < codes.len()
                invariant
                    i <= codes@.len(),
                    out@.len() == i,
                    *d matches ColumnData::Categorical(o0, cs0, d0) && cs0 == *codes && d0
                        == *dict && o0 == *ord,
                    data_wf(*d),
                    lexical == (*ord matches CatOrder::Lexical),
                    forall|j: int| 0 <= j < i ==> key_v(out@[j]) == spec_keys_of(data_v(*d))[j],
                decreases codes@.len() - i,
            {
                match codes[i] {
                    Option::None => out.push(Key::Null),
                    Option::Some(c) => {
                        if lexical {
                            let s = dict_decode_exec(dict, c);
                            out.push(Key::Bytes(s));
                        } else {
                            out.push(Key::Int(c as i128));
                        }
                    },
                }
                i += 1;
            }
        },
        _ => {
            proof {
                assert(false);
            }
        },
    }
    proof {
        assert(keys_v(out@) =~= spec_keys_of(data_v(*d)));
    }
    out
}

/// A fresh copy of a table, equal to it as a mathematical value: same
/// height, same names, same column values, the dictionaries of its
/// categorical columns untouched.
pub fn clone_table(t: &Table) -> (r: Table)
    ensures
        r.height == t.height,
        columns_v(r.columns@) == columns_v(t.columns@),
{
    let mut cols: Vec<Column> = Vec::new();
    let mut i: usize = 0;
    while i < t.columns.len()
        invariant
            i <= t.columns@.len(),
            cols@.len() == i,
            forall|j: int|
                0 <= j < i ==> cols@[j].name@ == t.columns@[j].name@ && data_v(cols@[j].data)
                    == data_v(t.columns@[j].data),
        decreases t.columns@.len() - i,
    {
        let c = clone_column(&t.columns[i]);
        cols.push(c);
        i += 1;
    }
    proof {
        lemma_columns_v(cols@);
        lemma_columns_v(t.columns@);
        assert(columns_v(cols@) =~= columns_v(t.columns@));
    }
    Table { height: t.height, columns: cols }
}

/// Merges the column pairs of the two tables from position `k` on under the
/// one indicator, keeping the left table's column names and order.
fn merge_table_columns(
    lc: &Vec<Column>,
    rc: &Vec<Column>,
    ind: &Vec<bool>,
    k: usize,
    Ghost(nl): Ghost<int>,
    Ghost(nr): Ghost<int>,
) -> (res: Result<Vec<Column>, MergeError>)
    requires
        k <= lc@.len(),
        lc@.len() == rc@.len(),
        forall|j: int|
            k <= j < lc@.len() ==> same_phys(
                (#[trigger] lc@[j]).data,
                (#[trigger] rc@[j]).data,
            ),
        forall|j: int|
            k <= j < lc@.len() ==> spec_data_len((#[trigger] lc@[j]).data) == nl && data_wf(
                lc@[j].data,
            ),
        forall|j: int|
            k <= j < rc@.len() ==> spec_data_len((#[trigger] rc@[j]).data) == nr && data_wf(
                rc@[j].data,
            ),
        ind@.len() == nl + nr,
        count_true(ind@) == nl,
    ensures
        match res {
            Result::Ok(out) => spec_merge_fields(
                columns_v(lc@).skip(k as int),
                columns_v(rc@).skip(k as int),
                ind@,
            ) == Result::<Seq<(Seq<u8>, ColV)>, MergeError>::Ok(columns_v(out@)) && out@.len()
                == lc@.len() - k && (forall|j: int|
                0 <= j < out@.len() ==> spec_data_len((#[trigger] out@[j]).data) == ind@.len()),
            Result::Err(e) => spec_merge_fields(
                columns_v(lc@).skip(k as int),
                columns_v(rc@).skip(k as int),
                ind@,
            ) == Result::<Seq<(Seq<u8>, ColV)>, MergeError>::Err(e),
        },
    decreases lc@.len() - k,
{
    proof {
        lemma_columns_v(lc@);
        lemma_columns_v(rc@);
    }
    let ghost sa = columns_v(lc@).skip(k as int);
    let ghost sb = columns_v(rc@).skip(k as int);
    if k == lc.len() {
        proof {
            assert(sa.len() == 0);
            assert(sb.len() == 0);
        }
        let out: Vec<Column> = Vec::new();
        proof {
            assert(columns_v(out@) =~= Seq::<(Seq<u8>, ColV)>::empty());
        }
        return Result::Ok(out);
    }
    proof {
        assert(sa[0] == columns_v(lc@)[k as int]);
        assert(sb[0] == columns_v(rc@)[k as int]);
        assert(sa.drop_first() =~= columns_v(lc@).skip(k as int + 1));
        assert(sb.drop_first() =~= columns_v(rc@).skip(k as int + 1));
    }
    match merge_column(&lc[k].data, &rc[k].data, ind) {
        Result::Err(e) => Result::Err(e),
        Result::Ok(d) => {
            match merge_table_columns(lc, rc, ind, k + 1, Ghost(nl), Ghost(nr)) {
                Result::Err(e) => Result::Err(e),
                Result::Ok(rest) => {
                    let ghost prev = rest@;
                    let nm = clone_bytes(&lc[k].name);
                    let mut out = rest;
                    out.insert(0, Column { name: nm, data: d });
                    proof {
                        lemma_columns_v(out@);
                        lemma_columns_v(prev);
                        assert(out@.drop_first() =~= prev);
                        assert(columns_v(out@) =~= seq![(nm@, data_v(d))] + columns_v(prev));
                        assert(spec_merge_fields(sa, sb, ind@) == Result::<
                            Seq<(Seq<u8>, ColV)>,
                            MergeError,
                        >::Ok(seq![(sa[0].0, data_v(d))] + columns_v(prev)));
                        assert(seq![(sa[0].0, data_v(d))] + columns_v(prev) =~= columns_v(out@));
                    }
                    Result::Ok(out)
                },
            }
        },
    }
}

/// Compares the two tables' schemas: same column names and dtypes in the
/// same order.
pub fn schema_eq(l: &Table, r: &Table) -> (res: bool)
    ensures
        res == spec_schema_eq(*l, *r),
{
    if l.columns.len() != r.columns.len() {
        return false;
    }
    let mut i: usize = 0;
    while i < l.columns.len()
        invariant
            i <= l.columns@.len(),
            l.columns@.len() == r.columns@.len(),
            forall|j: int|
                0 <= j < i ==> (#[trigger] l.columns@[j]).name@ == (
                #[trigger] r.columns@[j]).name@ && same_phys(
                    l.columns@[j].data,
                    r.columns@[j].data,
                ),
        decreases l.columns@.len() - i,
    {
        if !bytes_eq(&l.columns[i].name, &r.columns[i].name) {
            return false;
        }
        if !same_phys_exec(&l.columns[i].data, &r.columns[i].data) {
            return false;
        }
        i += 1;
    }
    true
}

/// Merge-sorted combination of two tables already ascending-sorted on the
/// shared key whose two value columns are handed in beside them. Verifies
/// schema compatibility where asked, the key dtypes, and the dictionary
/// origin of categorical keys; returns the other table unchanged where one
/// side is empty; otherwise computes the merge indicator once and
/// interleaves every column pair, keeping the left table's column names and
/// order. The merged table's height is the sum of the inputs' heights. No
/// partial output: the first failure aborts the whole operation.
pub fn merge_sorted(
    left: &Table,
    right: &Table,
    left_key: &Column,
    right_key: &Column,
    check_schema: bool,
) -> (res: Result<Table, MergeError>)
    requires
        table_wf(*left),
        table_wf(*right),
        data_wf(left_key.data),
        data_wf(right_key.data),
        key_kind_ok(left_key.data),
        key_kind_ok(right_key.data),
        spec_data_len(left_key.data) == left.height,
        spec_data_len(right_key.data) == right.height,
        !check_schema ==> cols_compatible(*left, *right),
    ensures
        (check_schema && !spec_schema_eq(*left, *right)) ==> res matches Result::Err(
            MergeError::SchemaMismatch,
        ),
        (check_schema ==> spec_schema_eq(*left, *right)) && !same_phys(
            left_key.data,
            right_key.data,
        ) ==> (res matches Result::Err(e) && e matches MergeError::KeyTypeMismatch(a, b)
            && dt_matches_data(a, left_key.data) && dt_matches_data(b, right_key.data)),
        (check_schema ==> spec_schema_eq(*left, *right)) && same_phys(
            left_key.data,
            right_key.data,
        ) && !keys_cat_compatible(left_key.data, right_key.data) ==> res matches Result::Err(
            MergeError::IncompatibleCategories,
        ),
        (check_schema ==> spec_schema_eq(*left, *right)) && same_phys(
            left_key.data,
            right_key.data,
        ) && keys_cat_compatible(left_key.data, right_key.data) && right.height == 0 ==> (
        res matches Result::Ok(t) && t.height == left.height && columns_v(t.columns@)
            == columns_v(left.columns@)),
        (check_schema ==> spec_schema_eq(*left, *right)) && same_phys(
            left_key.data,
            right_key.data,
        ) && keys_cat_compatible(left_key.data, right_key.data) && right.height != 0
            && left.height == 0 ==> (res matches Result::Ok(t) && t.height == right.height
            && columns_v(t.columns@) == columns_v(right.columns@)),
        (check_schema ==> spec_schema_eq(*left, *right)) && same_phys(
            left_key.data,
            right_key.data,
        ) && keys_cat_compatible(left_key.data, right_key.data) && right.height != 0
            && left.height != 0 ==> ({
            let ind = spec_indicator(
                spec_keys_of(data_v(left_key.data)),
                spec_keys_of(data_v(right_key.data)),
            );
            match spec_merge_fields(columns_v(left.columns@), columns_v(right.columns@), ind) {
                Result::Ok(cols) => res matches Result::Ok(t) && t.height == left.height
                    + right.height && columns_v(t.columns@) == cols,
                Result::Err(e) => res matches Result::Err(e2) && e2 == e,
            }
        }),
{
    if check_schema {
        if !schema_eq(left, right) {
            return Result::Err(MergeError::SchemaMismatch);
        }
    }
    if !same_phys_exec(&left_key.data, &right_key.data) {
        let a = dtype_of(&left_key.data);
        let b = dtype_of(&right_key.data);
        return Result::Err(MergeError::KeyTypeMismatch(a, b));
    }
    match (&left_key.data, &right_key.data) {
        (
            ColumnData::Categorical(_, _, dl),
            ColumnData::Categorical(_, _, dr),
        ) => {
            if !same_src(dl, dr) {
                return Result::Err(MergeError::IncompatibleCategories);
            }
        },
        _ => (),
    }
    if data_len(&right_key.data) == 0 {
        return Result::Ok(clone_table(left));
    }
    if data_len(&left_key.data) == 0 {
        return Result::Ok(clone_table(right));
    }
    let lk = column_to_keys(&left_key.data);
    let rk = column_to_keys(&right_key.data);
    let ind = get_merge_indicator(&lk, &rk);
    proof {
        lemma_indicator_shape(keys_v(lk@), keys_v(rk@));
        assert(columns_v(left.columns@).skip(0) =~= columns_v(left.columns@));
        assert(columns_v(right.columns@).skip(0) =~= columns_v(right.columns@));
    }
    match merge_table_columns(
        &left.columns,
        &right.columns,
        &ind,
        0,
        Ghost(left.height as int),
        Ghost(right.height as int),
    ) {
        Result::Err(e) => Result::Err(e),
        Result::Ok(cols) => {
            let h = ind.len();
            Result::Ok(Table { height: h, columns: cols })
        },
    }
}


proof fn lemma_interleave_numeric_keys(
    k: NumericKind,
    a: Seq<Option<i128>>,
    b: Seq<Option<i128>>,
    ind: Seq<bool>,
)
    ensures
        spec_keys_of(ColV::Numeric(k, spec_interleave(a, b, ind))) == spec_interleave(
            spec_keys_of(ColV::Numeric(k, a)),
            spec_keys_of(ColV::Numeric(k, b)),
            ind,
        ),
    decreases ind.len(),
{
    let ka = spec_keys_of(ColV::Numeric(k, a));
    let kb = spec_keys_of(ColV::Numeric(k, b));
    if ind.len() == 0 {
        assert(spec_keys_of(ColV::Numeric(k, spec_interleave(a, b, ind))) =~= Seq::<
            KeyV,
        >::empty());
    } else if ind[0] {
        if a.len() > 0 {
            lemma_interleave_numeric_keys(k, a.drop_first(), b, ind.drop_first());
            assert(ka.drop_first() =~= spec_keys_of(ColV::Numeric(k, a.drop_first())));
            assert(spec_keys_of(
                ColV::Numeric(k, seq![a[0]] + spec_interleave(a.drop_first(), b, ind.drop_first())),
            ) =~= seq![ka[0]] + spec_keys_of(
                ColV::Numeric(k, spec_interleave(a.drop_first(), b, ind.drop_first())),
            ));
        } else {
            lemma_interleave_numeric_keys(k, a, b, ind.drop_first());
            assert(ka.len() == 0);
        }
    } else {
        if b.len() > 0 {
            lemma_interleave_numeric_keys(k, a, b.drop_first(), ind.drop_first());
            assert(kb.drop_first() =~= spec_keys_of(ColV::Numeric(k, b.drop_first())));
            assert(spec_keys_of(
                ColV::Numeric(k, seq![b[0]] + spec_interleave(a, b.drop_first(), ind.drop_first())),
            ) =~= seq![kb[0]] + spec_keys_of(
                ColV::Numeric(k, spec_interleave(a, b.drop_first(), ind.drop_first())),
            ));
        } else {
            lemma_interleave_numeric_keys(k, a, b, ind.drop_first());
            assert(kb.len() == 0);
        }
    }
}

/// Round trip over a numeric key: merging two numeric columns that are
/// ascending on their own values under the indicator their values generate
/// yields a column of the combined length that holds exactly the values of
/// both sides and is itself ascending — a stable merge of the concatenation
/// with the left side first at ties.
pub proof fn lemma_numeric_round_trip(k: NumericKind, a: Seq<Option<i128>>, b: Seq<Option<i128>>)
    requires
        sorted_keys(spec_keys_of(ColV::Numeric(k, a))),
        sorted_keys(spec_keys_of(ColV::Numeric(k, b))),
    ensures
        ({
            let ka = spec_keys_of(ColV::Numeric(k, a));
            let kb = spec_keys_of(ColV::Numeric(k, b));
            let ind = spec_indicator(ka, kb);
            let m = spec_interleave(a, b, ind);
            &&& spec_merge_data(ColV::Numeric(k, a), ColV::Numeric(k, b), ind) == Result::<
                ColV,
                MergeError,
            >::Ok(ColV::Numeric(k, m))
            &&& m.len() == a.len() + b.len()
            &&& m.to_multiset() == a.to_multiset().add(b.to_multiset())
            &&& sorted_keys(spec_keys_of(ColV::Numeric(k, m)))
        }),
{
    let ka = spec_keys_of(ColV::Numeric(k, a));
    let kb = spec_keys_of(ColV::Numeric(k, b));
    let ind = spec_indicator(ka, kb);
    let m = spec_interleave(a, b, ind);
    lemma_indicator_shape(ka, kb);
    lemma_interleave_len(a, b, ind);
    lemma_interleave_multiset(a, b, ind);
    lemma_interleave_numeric_keys(k, a, b, ind);
    lemma_merged_sorted(ka, kb);
}

} // verus!
