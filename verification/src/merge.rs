//! The typed merge dispatcher: given two columns of one physical
//! representation and a precomputed indicator of matching combined length,
//! interleave them value by value, recursing field by field through struct
//! columns, rejecting struct columns with outer-level nulls, and
//! reconciling categorical dictionaries through the reconciler.

use vstd::prelude::*;
use crate::MergeError;
use crate::indicator::{spec_interleave, count_true, interleave, lemma_count_bounds};
use crate::column::{ColumnData, ColV, CatOrder, data_v, opt_data_v, list_cells_v, struct_fields_v,
    obytes_v, obytes_seq_v, same_phys, fields_same_phys, spec_data_len, data_wf, fields_wf,
    all_valid, all_valid_exec, clone_copy_vec, clone_obytes, clone_dt, clone_data,
    lemma_list_cells_v, lemma_struct_fields_v};
use crate::dict::{DictV, spec_union_entries, check_and_union_dictionaries, clone_dict,
    unique_codes, global_contains, global_lookup, lemma_union_decodes_originals};
use crate::bytes::clone_bytes;

verus! {

/// What merging two columns of one physical representation under an
/// indicator yields: the interleave of their cells, the left side's names
/// and dtype carried over, a struct with an outer null or an irreconcilable
/// pair of dictionaries rejected.
pub open spec fn spec_merge_data(l: ColV, r: ColV, ind: Seq<bool>) -> Result<ColV, MergeError>
    decreases l,
{
    match (l, r) {
        (ColV::Boolean(a), ColV::Boolean(b)) => Result::Ok(
            ColV::Boolean(spec_interleave(a, b, ind)),
        ),
        (ColV::Numeric(k, a), ColV::Numeric(_, b)) => Result::Ok(
            ColV::Numeric(k, spec_interleave(a, b, ind)),
        ),
        (ColV::Text(a), ColV::Text(b)) => Result::Ok(ColV::Text(spec_interleave(a, b, ind))),
        (ColV::Binary(a), ColV::Binary(b)) => Result::Ok(
            ColV::Binary(spec_interleave(a, b, ind)),
        ),
        (ColV::List(a), ColV::List(b)) => Result::Ok(ColV::List(spec_interleave(a, b, ind))),
        (ColV::Struct(va, fa), ColV::Struct(vb, fb)) => {
            if !(all_valid(va) && all_valid(vb)) {
                Result::Err(MergeError::StructOuterNull)
            } else {
                match spec_merge_fields(fa, fb, ind) {
                    Result::Ok(fs) => Result::Ok(
                        ColV::Struct(Seq::new(ind.len(), |i: int| true), fs),
                    ),
                    Result::Err(e) => Result::Err(e),
                }
            }
        },
        (ColV::Categorical(o, a, dl), ColV::Categorical(_, b, dr)) => {
            match (dl, dr) {
                (DictV::Local { hash: lh, .. }, DictV::Local { hash: rh, .. }) => {
                    if lh == rh {
                        Result::Ok(ColV::Categorical(o, spec_interleave(a, b, ind), dl))
                    } else {
                        Result::Err(MergeError::IncompatibleCategories)
                    }
                },
                (
                    DictV::Global { namespace: ln, entries: le },
                    DictV::Global { namespace: rn, entries: re },
                ) => {
                    if ln == rn {
                        Result::Ok(
                            ColV::Categorical(
                                o,
                                spec_interleave(a, b, ind),
                                DictV::Global {
                                    namespace: ln,
                                    entries: spec_union_entries(le, re),
                                },
                            ),
                        )
                    } else {
                        Result::Err(MergeError::IncompatibleCategories)
                    }
                },
                _ => Result::Err(MergeError::InternalFault),
            }
        },
        _ => Result::Err(MergeError::InternalFault),
    }
}

/// Field-by-field merge of struct fields (and, at the table level, of the
/// column pairs themselves): each pair merged under the one indicator, the
/// left side's names kept, the first failure aborting the whole walk.
pub open spec fn spec_merge_fields(
    lf: Seq<(Seq<u8>, ColV)>,
    rf: Seq<(Seq<u8>, ColV)>,
    ind: Seq<bool>,
) -> Result<Seq<(Seq<u8>, ColV)>, MergeError>
    decreases lf,
{
    if lf.len() == 0 {
        if rf.len() == 0 {
            Result::Ok(Seq::empty())
        } else {
            Result::Err(MergeError::InternalFault)
        }
    } else if rf.len() == 0 {
        Result::Err(MergeError::InternalFault)
    } else {
        match spec_merge_data(lf[0].1, rf[0].1, ind) {
            Result::Ok(d) => match spec_merge_fields(lf.drop_first(), rf.drop_first(), ind) {
                Result::Ok(rest) => Result::Ok(seq![(lf[0].0, d)] + rest),
                Result::Err(e) => Result::Err(e),
            },
            Result::Err(e) => Result::Err(e),
        }
    }
}

proof fn lemma_interleave_obytes(a: Seq<Option<Vec<u8>>>, b: Seq<Option<Vec<u8>>>, ind: Seq<bool>)
    ensures
        obytes_seq_v(spec_interleave(a, b, ind)) == spec_interleave(
            obytes_seq_v(a),
            obytes_seq_v(b),
            ind,
        ),
    decreases ind.len(),
{
    if ind.len() == 0 {
        assert(obytes_seq_v(spec_interleave(a, b, ind)) =~= Seq::<Option<Seq<u8>>>::empty());
    } else if ind[0] {
        if a.len() > 0 {
            lemma_interleave_obytes(a.drop_first(), b, ind.drop_first());
            assert(obytes_seq_v(a).drop_first() =~= obytes_seq_v(a.drop_first()));
            assert(obytes_seq_v(seq![a[0]] + spec_interleave(a.drop_first(), b, ind.drop_first()))
                =~= seq![obytes_v(a[0])] + obytes_seq_v(
                spec_interleave(a.drop_first(), b, ind.drop_first()),
            ));
        } else {
            lemma_interleave_obytes(a, b, ind.drop_first());
        }
    } else {
        if b.len() > 0 {
            lemma_interleave_obytes(a, b.drop_first(), ind.drop_first());
            assert(obytes_seq_v(b).drop_first() =~= obytes_seq_v(b.drop_first()));
            assert(obytes_seq_v(seq![b[0]] + spec_interleave(a, b.drop_first(), ind.drop_first()))
                =~= seq![obytes_v(b[0])] + obytes_seq_v(
                spec_interleave(a, b.drop_first(), ind.drop_first()),
            ));
        } else {
            lemma_interleave_obytes(a, b, ind.drop_first());
        }
    }
}

proof fn lemma_interleave_cells(
    a: Seq<Option<ColumnData>>,
    b: Seq<Option<ColumnData>>,
    ind: Seq<bool>,
)
    ensures
        list_cells_v(spec_interleave(a, b, ind)) == spec_interleave(
            list_cells_v(a),
            list_cells_v(b),
            ind,
        ),
    decreases ind.len(),
{
    lemma_list_cells_v(a);
    lemma_list_cells_v(b);
    lemma_list_cells_v(spec_interleave(a, b, ind));
    if ind.len() == 0 {
        assert(list_cells_v(spec_interleave(a, b, ind)) =~= Seq::<Option<ColV>>::empty());
    } else if ind[0] {
        if a.len() > 0 {
            lemma_interleave_cells(a.drop_first(), b, ind.drop_first());
            lemma_list_cells_v(a.drop_first());
            assert(list_cells_v(a).drop_first() =~= list_cells_v(a.drop_first()));
            lemma_list_cells_v(spec_interleave(a.drop_first(), b, ind.drop_first()));
            assert(list_cells_v(seq![a[0]] + spec_interleave(a.drop_first(), b, ind.drop_first()))
                =~= seq![opt_data_v(a[0])] + list_cells_v(
                spec_interleave(a.drop_first(), b, ind.drop_first()),
            ));
        } else {
            lemma_interleave_cells(a, b, ind.drop_first());
        }
    } else {
        if b.len() > 0 {
            lemma_interleave_cells(a, b.drop_first(), ind.drop_first());
            lemma_list_cells_v(b.drop_first());
            assert(list_cells_v(b).drop_first() =~= list_cells_v(b.drop_first()));
            lemma_list_cells_v(spec_interleave(a, b.drop_first(), ind.drop_first()));
            assert(list_cells_v(seq![b[0]] + spec_interleave(a, b.drop_first(), ind.drop_first()))
                =~= seq![opt_data_v(b[0])] + list_cells_v(
                spec_interleave(a, b.drop_first(), ind.drop_first()),
            ));
        } else {
            lemma_interleave_cells(a, b, ind.drop_first());
        }
    }
}

/// Merges two columns of one physical representation by walking the
/// indicator; the left side's numeric kind, list element dtype, field names
/// and categorical ordering are carried into the result.
pub fn merge_column(l: &ColumnData, r: &ColumnData, ind: &Vec<bool>) -> (res: Result<
    ColumnData,
    MergeError,
>)
    requires
        same_phys(*l, *r),
        data_wf(*l),
        data_wf(*r),
        ind@.len() == spec_data_len(*l) + spec_data_len(*r),
        count_true(ind@) == spec_data_len(*l),
    ensures
        match res {
            Result::Ok(out) => spec_merge_data(data_v(*l), data_v(*r), ind@) == Result::<
                ColV,
                MergeError,
            >::Ok(data_v(out)) && same_phys(out, *l) && spec_data_len(out) == ind@.len(),
            Result::Err(e) => spec_merge_data(data_v(*l), data_v(*r), ind@) == Result::<
                ColV,
                MergeError,
            >::Err(e),
        },
    decreases *l,
{
    match (l, r) {
        (ColumnData::Boolean(a), ColumnData::Boolean(b)) => {
            let ca = clone_copy_vec(a);
            let cb = clone_copy_vec(b);
            let out = interleave(ca, cb, ind);
            Result::Ok(ColumnData::Boolean(out))
        },
        (ColumnData::Numeric(k, a), ColumnData::Numeric(_, b)) => {
            let ca = clone_copy_vec(a);
            let cb = clone_copy_vec(b);
            let out = interleave(ca, cb, ind);
            Result::Ok(ColumnData::Numeric(*k, out))
        },
        (ColumnData::Text(a), ColumnData::Text(b)) => {
            let ca = clone_obytes(a);
            let cb = clone_obytes(b);
            let ghost ga = ca@;
            let ghost gb = cb@;
            let out = interleave(ca, cb, ind);
            proof {
                lemma_interleave_obytes(ga, gb, ind@);
            }
            Result::Ok(ColumnData::Text(out))
        },
        (ColumnData::Binary(a), ColumnData::Binary(b)) => {
            let ca = clone_obytes(a);
            let cb = clone_obytes(b);
            let ghost ga = ca@;
            let ghost gb = cb@;
            let out = interleave(ca, cb, ind);
            proof {
                lemma_interleave_obytes(ga, gb, ind@);
            }
            Result::Ok(ColumnData::Binary(out))
        },
        (ColumnData::List(t, a), ColumnData::List(_, b)) => {
            let nt = clone_dt(t);
            let ca = clone_cells(a);
            let cb = clone_cells(b);
            let ghost ga = ca@;
            let ghost gb = cb@;
            let out = interleave(ca, cb, ind);
            proof {
                lemma_interleave_cells(ga, gb, ind@);
                lemma_list_cells_v(ga);
                lemma_list_cells_v(a@);
                lemma_list_cells_v(gb);
                lemma_list_cells_v(b@);
                assert(list_cells_v(ga) =~= list_cells_v(a@));
                assert(list_cells_v(gb) =~= list_cells_v(b@));
            }
            Result::Ok(ColumnData::List(nt, out))
        },
        (ColumnData::Struct(va, fa), ColumnData::Struct(vb, fb)) => {
            if !all_valid_exec(va) || !all_valid_exec(vb) {
                return Result::Err(MergeError::StructOuterNull);
            }
            proof {
                assert(l->Struct_1 == *fa);
                assert(decreases_to!(*l => l->Struct_1));
                assert(fa@.skip(0) =~= fa@);
                assert(fb@.skip(0) =~= fb@);
            }
            let merged = merge_fields(
                fa,
                fb,
                ind,
                0,
                Ghost(va@.len() as int),
                Ghost(vb@.len() as int),
            );
            match merged {
                Result::Ok(fs) => {
                    let mut nv: Vec<bool> = Vec::new();
                    let mut i: usize = 0;
                    while i < ind.len()
                        invariant
                            i <= ind@.len(),
                            nv@ =~= Seq::new(i as nat, |j: int| true),
                        decreases ind@.len() - i,
                    {
                        nv.push(true);
                        i += 1;
                    }
                    proof {
                        lemma_struct_fields_v(fs@);
                        lemma_struct_fields_v(fa@);
                        assert(struct_fields_v(fa@).skip(0) =~= struct_fields_v(fa@));
                        assert(struct_fields_v(fb@).skip(0) =~= struct_fields_v(fb@));
                    }
                    Result::Ok(ColumnData::Struct(nv, fs))
                },
                Result::Err(e) => {
                    proof {
                        assert(struct_fields_v(fa@).skip(0) =~= struct_fields_v(fa@));
                        assert(struct_fields_v(fb@).skip(0) =~= struct_fields_v(fb@));
                    }
                    Result::Err(e)
                },
            }
        },
        (ColumnData::Categorical(o, a, dl), ColumnData::Categorical(_, b, dr)) => {
            let ca = clone_copy_vec(a);
            let cb = clone_copy_vec(b);
            let out = interleave(ca, cb, ind);
            match check_and_union_dictionaries(dl, dr) {
                Result::Ok(Option::None) => {
                    let nd = clone_dict(dl);
                    Result::Ok(ColumnData::Categorical(*o, out, nd))
                },
                Result::Ok(Option::Some(nd)) => Result::Ok(
                    ColumnData::Categorical(*o, out, nd),
                ),
                Result::Err(e) => Result::Err(e),
            }
        },
        _ => {
            proof {
                assert(false);
            }
            Result::Err(MergeError::InternalFault)
        },
    }
}

fn clone_cells(cells: &Vec<Option<ColumnData>>) -> (r: Vec<Option<ColumnData>>)
    ensures
        r@.len() == cells@.len(),
        forall|j: int| 0 <= j < cells@.len() ==> opt_data_v(r@[j]) == opt_data_v(cells@[j]),
{
    let n = cells.len();
    let mut out: Vec<Option<ColumnData>> = Vec::new();
    let mut i: usize = 0;
    while i < n
        invariant
            i <= n,
            n == cells@.len(),
            out@.len() == i,
            forall|j: int| 0 <= j < i ==> opt_data_v(out@[j]) == opt_data_v(cells@[j]),
        decreases n - i,
    {
        match &cells[i] {
            Option::None => out.push(Option::None),
            Option::Some(cd) => {
                let c = clone_data(cd);
                out.push(Option::Some(c));
            },
        }
        i += 1;
    }
    out
}

/// Merges the field pairs of two struct columns from position `k` on,
/// keeping the left side's field names.
fn merge_fields(
    fa: &Vec<(Vec<u8>, ColumnData)>,
    fb: &Vec<(Vec<u8>, ColumnData)>,
    ind: &Vec<bool>,
    k: usize,
    Ghost(nl): Ghost<int>,
    Ghost(nr): Ghost<int>,
) -> (res: Result<Vec<(Vec<u8>, ColumnData)>, MergeError>)
    requires
        k <= fa@.len(),
        fa@.len() == fb@.len(),
        fields_same_phys(fa@.skip(k as int), fb@.skip(k as int)),
        fields_wf(fa@.skip(k as int), nl),
        fields_wf(fb@.skip(k as int), nr),
        ind@.len() == nl + nr,
        count_true(ind@) == nl,
    ensures
        match res {
            Result::Ok(out) => spec_merge_fields(
                struct_fields_v(fa@).skip(k as int),
                struct_fields_v(fb@).skip(k as int),
                ind@,
            ) == Result::<Seq<(Seq<u8>, ColV)>, MergeError>::Ok(struct_fields_v(out@))
                && fields_same_phys(out@, fa@.skip(k as int)),
            Result::Err(e) => spec_merge_fields(
                struct_fields_v(fa@).skip(k as int),
                struct_fields_v(fb@).skip(k as int),
                ind@,
            ) == Result::<Seq<(Seq<u8>, ColV)>, MergeError>::Err(e),
        },
    decreases *fa, fa@.len() - k,
{
    proof {
        lemma_struct_fields_v(fa@);
        lemma_struct_fields_v(fb@);
    }
    let ghost sa = struct_fields_v(fa@).skip(k as int);
    let ghost sb = struct_fields_v(fb@).skip(k as int);
    if k == fa.len() {
        proof {
            assert(sa.len() == 0);
            assert(sb.len() == 0);
            assert(struct_fields_v(Seq::<(Vec<u8>, ColumnData)>::empty()) =~= Seq::<
                (Seq<u8>, ColV),
            >::empty());
            assert(fa@.skip(k as int).len() == 0);
        }
        let out: Vec<(Vec<u8>, ColumnData)> = Vec::new();
        proof {
            assert(struct_fields_v(out@) =~= Seq::<(Seq<u8>, ColV)>::empty());
            assert(fields_same_phys(out@, fa@.skip(k as int)));
        }
        return Result::Ok(out);
    }
    proof {
        assert(fa@.skip(k as int)[0] == fa@[k as int]);
        assert(fb@.skip(k as int)[0] == fb@[k as int]);
        assert(sa[0] == struct_fields_v(fa@)[k as int]);
        assert(sb[0] == struct_fields_v(fb@)[k as int]);
        assert(sa[0] == (fa@[k as int].0@, data_v(fa@[k as int].1)));
        assert(sb[0] == (fb@[k as int].0@, data_v(fb@[k as int].1)));
        assert(same_phys(fa@[k as int].1, fb@[k as int].1));
        assert(data_wf(fa@[k as int].1) && spec_data_len(fa@[k as int].1) == nl);
        assert(data_wf(fb@[k as int].1) && spec_data_len(fb@[k as int].1) == nr);
        assert(decreases_to!(*fa => fa@));
        assert(decreases_to!(fa@ => fa@[k as int]));
        assert(decreases_to!(fa@[k as int] => fa@[k as int].1));
        assert(sa.drop_first() =~= struct_fields_v(fa@).skip(k as int + 1));
        assert(sb.drop_first() =~= struct_fields_v(fb@).skip(k as int + 1));
        assert(fa@.skip(k as int).drop_first() =~= fa@.skip(k as int + 1));
        assert(fb@.skip(k as int).drop_first() =~= fb@.skip(k as int + 1));
    }
    match merge_column(&fa[k].1, &fb[k].1, ind) {
        Result::Err(e) => Result::Err(e),
        Result::Ok(d) => {
            match merge_fields(fa, fb, ind, k + 1, Ghost(nl), Ghost(nr)) {
                Result::Err(e) => Result::Err(e),
                Result::Ok(rest) => {
                    let ghost prev = rest@;
                    let nm = clone_bytes(&fa[k].0);
                    let mut out = rest;
                    out.insert(0, (nm, d));
                    proof {
                        lemma_struct_fields_v(out@);
                        lemma_struct_fields_v(prev);
                        assert(out@.drop_first() =~= prev);
                        assert(struct_fields_v(out@) =~= seq![(nm@, data_v(d))]
                            + struct_fields_v(prev));
                        assert(spec_merge_fields(sa, sb, ind@) == Result::<
                            Seq<(Seq<u8>, ColV)>,
                            MergeError,
                        >::Ok(seq![(sa[0].0, data_v(d))] + struct_fields_v(prev)));
                        assert(seq![(sa[0].0, data_v(d))] + struct_fields_v(prev)
                            =~= struct_fields_v(out@));
                        assert(fields_same_phys(out@, fa@.skip(k as int))) by {
                            assert(out@[0].0@ == fa@.skip(k as int)[0].0@);
                            assert(same_phys(out@[0].1, fa@.skip(k as int)[0].1));
                            assert(fields_same_phys(prev, fa@.skip(k as int + 1)));
                        }
                    }
                    Result::Ok(out)
                },
            }
        },
    }
}


/// Categorical union: merging two global categorical columns of one
/// namespace succeeds, the output's dictionary is the union of both, and —
/// when codes shared by both sides agree, as codes drawn from one interner
/// do — every code of either side decodes under it to its original string.
pub proof fn lemma_categorical_union(
    o: CatOrder,
    a: Seq<Option<u32>>,
    b: Seq<Option<u32>>,
    ind: Seq<bool>,
    ns: u64,
    le: Seq<(u32, Seq<u8>)>,
    re: Seq<(u32, Seq<u8>)>,
)
    requires
        unique_codes(le),
        unique_codes(re),
        forall|c: u32|
            global_contains(le, c) && global_contains(re, c) ==> global_lookup(le, c)
                == global_lookup(re, c),
    ensures
        spec_merge_data(
            ColV::Categorical(o, a, DictV::Global { namespace: ns, entries: le }),
            ColV::Categorical(o, b, DictV::Global { namespace: ns, entries: re }),
            ind,
        ) == Result::<ColV, MergeError>::Ok(
            ColV::Categorical(
                o,
                spec_interleave(a, b, ind),
                DictV::Global { namespace: ns, entries: spec_union_entries(le, re) },
            ),
        ),
        forall|c: u32|
            #[trigger] global_contains(le, c) ==> global_lookup(spec_union_entries(le, re), c)
                == global_lookup(le, c),
        forall|c: u32|
            #[trigger] global_contains(re, c) ==> global_lookup(spec_union_entries(le, re), c)
                == global_lookup(re, c),
{
    assert forall|c: u32| #[trigger] global_contains(le, c) implies global_lookup(
        spec_union_entries(le, re),
        c,
    ) == global_lookup(le, c) by {
        lemma_union_decodes_originals(le, re, c);
    }
    assert forall|c: u32| #[trigger] global_contains(re, c) implies global_lookup(
        spec_union_entries(le, re),
        c,
    ) == global_lookup(re, c) by {
        lemma_union_decodes_originals(le, re, c);
    }
}

/// Local mismatch: merging two local categorical columns whose dictionary
/// identities differ fails with the incompatibility error; codes are never
/// silently reinterpreted against the other side's dictionary.
pub proof fn lemma_local_mismatch(
    o: CatOrder,
    a: Seq<Option<u32>>,
    b: Seq<Option<u32>>,
    ind: Seq<bool>,
    lh: u64,
    rh: u64,
    le: Seq<Seq<u8>>,
    re: Seq<Seq<u8>>,
)
    requires
        lh != rh,
    ensures
        spec_merge_data(
            ColV::Categorical(o, a, DictV::Local { hash: lh, entries: le }),
            ColV::Categorical(o, b, DictV::Local { hash: rh, entries: re }),
            ind,
        ) == Result::<ColV, MergeError>::Err(MergeError::IncompatibleCategories),
{
}

/// Struct-null rejection: a struct column with an outer-level null on
/// either side never merges; the unsupported-operation error is returned
/// before any field is touched.
pub proof fn lemma_struct_null_rejected(
    va: Seq<bool>,
    fa: Seq<(Seq<u8>, ColV)>,
    vb: Seq<bool>,
    fb: Seq<(Seq<u8>, ColV)>,
    ind: Seq<bool>,
)
    requires
        !all_valid(va) || !all_valid(vb),
    ensures
        spec_merge_data(
            ColV::Struct(va, fa),
            ColV::Struct(vb, fb),
            ind,
        ) == Result::<ColV, MergeError>::Err(MergeError::StructOuterNull),
{
}

} // verus!
