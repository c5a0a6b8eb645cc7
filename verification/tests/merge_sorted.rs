use merge_sorted::MergeError;
use merge_sorted::column::{CatOrder, Column, ColumnData, DataType, NumericKind};
use merge_sorted::dict::{check_and_union_dictionaries, dict_decode_exec, Dictionary};
use merge_sorted::indicator::get_merge_indicator;
use merge_sorted::keys::Key;
use merge_sorted::table::{merge_sorted, Table};

fn get_merge_indicator_sliced(a: &[i128], b: &[i128]) -> Vec<bool> {
    let ka: Vec<Key> = a.iter().map(|x| Key::Int(*x)).collect();
    let kb: Vec<Key> = b.iter().map(|x| Key::Int(*x)).collect();
    get_merge_indicator(&ka, &kb)
}

fn numeric_column(name: &[u8], values: &[i128]) -> Column {
    Column {
        name: name.to_vec(),
        data: ColumnData::Numeric(
            NumericKind::I64,
            values.iter().map(|v| Some(*v)).collect(),
        ),
    }
}

fn numeric_table(name: &[u8], values: &[i128]) -> (Table, Column) {
    let col = numeric_column(name, values);
    let key = numeric_column(name, values);
    (
        Table {
            height: values.len(),
            columns: vec![col],
        },
        key,
    )
}

#[test]
fn test_merge_sorted() {
    let a = [1, 2, 4, 6, 9];
    let b = [2, 3, 4, 5, 10];

    let out = get_merge_indicator_sliced(&a, &b);
    let expected = [
        true, true, false, false, true, false, false, true, true, false,
    ];
    //                       1     2     2      3      4     4      5      6     9     10
    assert_eq!(out, expected);

    // swap
    // it is not the inverse because left is preferred when both are equal
    let out = get_merge_indicator_sliced(&b, &a);
    let expected = [
        false, true, false, true, true, false, true, false, false, true,
    ];
    assert_eq!(out, expected);

    let a = [5, 6, 7, 10];
    let b = [1, 2, 5];
    let out = get_merge_indicator_sliced(&a, &b);
    let expected = [false, false, true, false, true, true, true];
    assert_eq!(out, expected);

    // swap
    // it is not the inverse because left is preferred when both are equal
    let out = get_merge_indicator_sliced(&b, &a);
    let expected = [true, true, true, false, false, false, false];
    assert_eq!(out, expected);
}

#[test]
fn test_indicator_empty_sides() {
    let out = get_merge_indicator_sliced(&[], &[7, 8, 9]);
    assert_eq!(out, vec![false, false, false]);

    let out = get_merge_indicator_sliced(&[7, 8, 9], &[]);
    assert_eq!(out, vec![true, true, true]);

    let out = get_merge_indicator_sliced(&[], &[]);
    assert_eq!(out, Vec::<bool>::new());
}

#[test]
fn test_indicator_extremes_and_nulls() {
    // nulls order before every value; extremes compare as integers
    let ka = vec![Key::Null, Key::Int(i128::MIN), Key::Int(i128::MAX)];
    let kb = vec![Key::Int(0)];
    let out = get_merge_indicator(&ka, &kb);
    assert_eq!(out, vec![true, true, false, true]);
}

#[test]
fn test_indicator_all_equal_keys() {
    // on a run of ties the whole left side drains first
    let out = get_merge_indicator_sliced(&[3, 3, 3], &[3, 3]);
    assert_eq!(out, vec![true, true, true, false, false]);
}

#[test]
fn test_merge_numeric_round_trip() {
    let (left, lk) = numeric_table(b"k", &[1, 2, 4, 6, 9]);
    let (right, rk) = numeric_table(b"k", &[2, 3, 4, 5, 10]);
    let out = merge_sorted(&left, &right, &lk, &rk, true).unwrap();
    assert_eq!(out.height, 10);
    assert_eq!(out.columns.len(), 1);
    assert_eq!(out.columns[0].name, b"k".to_vec());
    match &out.columns[0].data {
        ColumnData::Numeric(NumericKind::I64, cells) => {
            let expected: Vec<Option<i128>> =
                [1, 2, 2, 3, 4, 4, 5, 6, 9, 10].iter().map(|v| Some(*v)).collect();
            assert_eq!(cells, &expected);
        }
        _ => panic!("unexpected column kind"),
    }
}

#[test]
fn test_merge_empty_right_returns_left() {
    let (left, lk) = numeric_table(b"k", &[1, 2, 3]);
    let (right, rk) = numeric_table(b"k", &[]);
    let out = merge_sorted(&left, &right, &lk, &rk, true).unwrap();
    assert_eq!(out.height, 3);
    match &out.columns[0].data {
        ColumnData::Numeric(_, cells) => {
            assert_eq!(cells, &vec![Some(1), Some(2), Some(3)]);
        }
        _ => panic!("unexpected column kind"),
    }

    let out = merge_sorted(&right, &left, &rk, &lk, true).unwrap();
    assert_eq!(out.height, 3);
}

#[test]
fn test_schema_mismatch() {
    let (left, lk) = numeric_table(b"a", &[1]);
    let (right, rk) = numeric_table(b"b", &[2]);
    let res = merge_sorted(&left, &right, &lk, &rk, true);
    assert!(matches!(res, Err(MergeError::SchemaMismatch)));
}

#[test]
fn test_key_type_mismatch() {
    let (left, lk) = numeric_table(b"k", &[1]);
    let (right, _) = numeric_table(b"k", &[2]);
    let rk = Column {
        name: b"k".to_vec(),
        data: ColumnData::Boolean(vec![Some(true)]),
    };
    let res = merge_sorted(&left, &right, &lk, &rk, false);
    match res {
        Err(MergeError::KeyTypeMismatch(a, b)) => {
            assert!(matches!(a, merge_sorted::column::DataType::Numeric(_)));
            assert!(matches!(b, merge_sorted::column::DataType::Boolean));
        }
        _ => panic!("expected a key type mismatch"),
    }
}

fn local_cat_column(name: &[u8], hash: u64, codes: &[u32], entries: &[&[u8]]) -> Column {
    Column {
        name: name.to_vec(),
        data: ColumnData::Categorical(
            CatOrder::Physical,
            codes.iter().map(|c| Some(*c)).collect(),
            Dictionary::Local {
                hash,
                entries: entries.iter().map(|e| e.to_vec()).collect(),
            },
        ),
    }
}

fn global_cat_column(name: &[u8], namespace: u64, codes: &[u32], entries: &[(u32, &[u8])]) -> Column {
    Column {
        name: name.to_vec(),
        data: ColumnData::Categorical(
            CatOrder::Physical,
            codes.iter().map(|c| Some(*c)).collect(),
            Dictionary::Global {
                namespace,
                entries: entries.iter().map(|(c, e)| (*c, e.to_vec())).collect(),
            },
        ),
    }
}

#[test]
fn test_local_mismatch_key() {
    let lk = local_cat_column(b"k", 11, &[0], &[b"a"]);
    let rk = local_cat_column(b"k", 22, &[0], &[b"z"]);
    let left = Table { height: 1, columns: vec![local_cat_column(b"k", 11, &[0], &[b"a"])] };
    let right = Table { height: 1, columns: vec![local_cat_column(b"k", 22, &[0], &[b"z"])] };
    let res = merge_sorted(&left, &right, &lk, &rk, true);
    assert!(matches!(res, Err(MergeError::IncompatibleCategories)));
}

#[test]
fn test_local_mismatch_data_column() {
    // the key columns agree; the categorical payload columns do not
    let (_, lk) = numeric_table(b"k", &[1]);
    let (_, rk) = numeric_table(b"k", &[2]);
    let left = Table { height: 1, columns: vec![local_cat_column(b"c", 11, &[0], &[b"a"])] };
    let right = Table { height: 1, columns: vec![local_cat_column(b"c", 22, &[0], &[b"z"])] };
    let res = merge_sorted(&left, &right, &lk, &rk, true);
    assert!(matches!(res, Err(MergeError::IncompatibleCategories)));
}

#[test]
fn test_local_global_pairing_is_a_fault() {
    let (_, lk) = numeric_table(b"k", &[1]);
    let (_, rk) = numeric_table(b"k", &[2]);
    let left = Table { height: 1, columns: vec![local_cat_column(b"c", 11, &[0], &[b"a"])] };
    let right = Table {
        height: 1,
        columns: vec![global_cat_column(b"c", 7, &[0], &[(0, b"a")])],
    };
    let res = merge_sorted(&left, &right, &lk, &rk, false);
    assert!(matches!(res, Err(MergeError::InternalFault)));
}

#[test]
fn test_global_union() {
    // overlapping, non-identical global dictionaries of one namespace
    let (_, lk) = numeric_table(b"k", &[1, 3]);
    let (_, rk) = numeric_table(b"k", &[2]);
    let left = Table {
        height: 2,
        columns: vec![global_cat_column(b"c", 7, &[10, 20], &[(10, b"ten"), (20, b"twenty")])],
    };
    let right = Table {
        height: 1,
        columns: vec![global_cat_column(b"c", 7, &[30], &[(20, b"twenty"), (30, b"thirty")])],
    };
    let out = merge_sorted(&left, &right, &lk, &rk, true).unwrap();
    match &out.columns[0].data {
        ColumnData::Categorical(_, codes, dict) => {
            // keys 1,3 vs 2: left, right, left
            assert_eq!(codes, &vec![Some(10), Some(30), Some(20)]);
            // every code decodes to its original string under the union
            assert_eq!(dict_decode_exec(dict, 10), b"ten".to_vec());
            assert_eq!(dict_decode_exec(dict, 20), b"twenty".to_vec());
            assert_eq!(dict_decode_exec(dict, 30), b"thirty".to_vec());
            match dict {
                Dictionary::Global { namespace, entries } => {
                    assert_eq!(*namespace, 7);
                    assert_eq!(entries.len(), 3);
                }
                _ => panic!("expected a global dictionary"),
            }
        }
        _ => panic!("unexpected column kind"),
    }
}

#[test]
fn test_identical_locals_keep_dictionary() {
    let lk = local_cat_column(b"k", 11, &[0, 1], &[b"a", b"b"]);
    let rk = local_cat_column(b"k", 11, &[1], &[b"a", b"b"]);
    let left = Table { height: 2, columns: vec![local_cat_column(b"k", 11, &[0, 1], &[b"a", b"b"])] };
    let right = Table { height: 1, columns: vec![local_cat_column(b"k", 11, &[1], &[b"a", b"b"])] };
    let out = merge_sorted(&left, &right, &lk, &rk, true).unwrap();
    match &out.columns[0].data {
        ColumnData::Categorical(_, codes, dict) => {
            // physical ordering compares raw codes: 0,1 vs 1 -> left, left, right
            assert_eq!(codes, &vec![Some(0), Some(1), Some(1)]);
            match dict {
                Dictionary::Local { hash, entries } => {
                    assert_eq!(*hash, 11);
                    assert_eq!(entries.len(), 2);
                    assert_eq!(entries[0], b"a".to_vec());
                }
                _ => panic!("expected a local dictionary"),
            }
        }
        _ => panic!("unexpected column kind"),
    }
}

#[test]
fn test_lexical_categorical_key() {
    // codes decode to strings before comparison: left "b" vs right "a","c"
    let mk = |codes: &[u32]| Column {
        name: b"k".to_vec(),
        data: ColumnData::Categorical(
            CatOrder::Lexical,
            codes.iter().map(|c| Some(*c)).collect(),
            Dictionary::Global {
                namespace: 7,
                entries: vec![(0, b"a".to_vec()), (1, b"b".to_vec()), (2, b"c".to_vec())],
            },
        ),
    };
    let left = Table { height: 1, columns: vec![mk(&[1])] };
    let right = Table { height: 2, columns: vec![mk(&[0, 2])] };
    let lk = mk(&[1]);
    let rk = mk(&[0, 2]);
    let out = merge_sorted(&left, &right, &lk, &rk, true).unwrap();
    match &out.columns[0].data {
        ColumnData::Categorical(_, codes, _) => {
            // "a" < "b" < "c": right, left, right
            assert_eq!(codes, &vec![Some(0), Some(1), Some(2)]);
        }
        _ => panic!("unexpected column kind"),
    }
}

#[test]
fn test_struct_null_rejection() {
    let mk_struct = |validity: Vec<bool>, values: Vec<Option<i128>>| ColumnData::Struct(
        validity,
        vec![(b"f".to_vec(), ColumnData::Numeric(NumericKind::I64, values))],
    );
    let (_, lk) = numeric_table(b"k", &[1, 2]);
    let (_, rk) = numeric_table(b"k", &[3]);
    let left = Table {
        height: 2,
        columns: vec![Column {
            name: b"s".to_vec(),
            data: mk_struct(vec![true, false], vec![Some(1), None]),
        }],
    };
    let right = Table {
        height: 1,
        columns: vec![Column {
            name: b"s".to_vec(),
            data: mk_struct(vec![true], vec![Some(3)]),
        }],
    };
    let res = merge_sorted(&left, &right, &lk, &rk, true);
    assert!(matches!(res, Err(MergeError::StructOuterNull)));
}

#[test]
fn test_struct_merge_recurses_fields() {
    let mk_struct = |values: Vec<Option<i128>>, texts: Vec<Option<Vec<u8>>>| {
        let n = values.len();
        ColumnData::Struct(
            vec![true; n],
            vec![
                (b"n".to_vec(), ColumnData::Numeric(NumericKind::I64, values)),
                (b"t".to_vec(), ColumnData::Text(texts)),
            ],
        )
    };
    let (_, lk) = numeric_table(b"k", &[1, 4]);
    let (_, rk) = numeric_table(b"k", &[2]);
    let left = Table {
        height: 2,
        columns: vec![Column {
            name: b"s".to_vec(),
            data: mk_struct(
                vec![Some(10), Some(40)],
                vec![Some(b"x".to_vec()), Some(b"y".to_vec())],
            ),
        }],
    };
    let right = Table {
        height: 1,
        columns: vec![Column {
            name: b"s".to_vec(),
            data: mk_struct(vec![Some(20)], vec![None]),
        }],
    };
    let out = merge_sorted(&left, &right, &lk, &rk, true).unwrap();
    match &out.columns[0].data {
        ColumnData::Struct(validity, fields) => {
            assert_eq!(validity, &vec![true, true, true]);
            assert_eq!(fields.len(), 2);
            assert_eq!(fields[0].0, b"n".to_vec());
            match &fields[0].1 {
                ColumnData::Numeric(_, cells) => {
                    assert_eq!(cells, &vec![Some(10), Some(20), Some(40)]);
                }
                _ => panic!("unexpected field kind"),
            }
            match &fields[1].1 {
                ColumnData::Text(cells) => {
                    assert_eq!(
                        cells,
                        &vec![Some(b"x".to_vec()), None, Some(b"y".to_vec())]
                    );
                }
                _ => panic!("unexpected field kind"),
            }
        }
        _ => panic!("unexpected column kind"),
    }
}

#[test]
fn test_text_and_binary_keys() {
    let mk = |vals: Vec<Option<Vec<u8>>>| Column {
        name: b"k".to_vec(),
        data: ColumnData::Text(vals),
    };
    let left = Table {
        height: 2,
        columns: vec![mk(vec![Some(b"apple".to_vec()), Some(b"pear".to_vec())])],
    };
    let right = Table { height: 1, columns: vec![mk(vec![Some(b"fig".to_vec())])] };
    let lk = mk(vec![Some(b"apple".to_vec()), Some(b"pear".to_vec())]);
    let rk = mk(vec![Some(b"fig".to_vec())]);
    let out = merge_sorted(&left, &right, &lk, &rk, true).unwrap();
    match &out.columns[0].data {
        ColumnData::Text(cells) => {
            assert_eq!(
                cells,
                &vec![
                    Some(b"apple".to_vec()),
                    Some(b"fig".to_vec()),
                    Some(b"pear".to_vec())
                ]
            );
        }
        _ => panic!("unexpected column kind"),
    }
}

#[test]
fn test_list_cells_move_opaquely() {
    let mk_list = |cells: Vec<Option<ColumnData>>| ColumnData::List(
        DataType::Numeric(NumericKind::I64),
        cells,
    );
    let (_, lk) = numeric_table(b"k", &[1]);
    let (_, rk) = numeric_table(b"k", &[2]);
    let left = Table {
        height: 1,
        columns: vec![Column {
            name: b"l".to_vec(),
            data: mk_list(vec![Some(ColumnData::Numeric(
                NumericKind::I64,
                vec![Some(5), Some(6)],
            ))]),
        }],
    };
    let right = Table {
        height: 1,
        columns: vec![Column { name: b"l".to_vec(), data: mk_list(vec![None]) }],
    };
    let out = merge_sorted(&left, &right, &lk, &rk, true).unwrap();
    match &out.columns[0].data {
        ColumnData::List(_, cells) => {
            assert_eq!(cells.len(), 2);
            match &cells[0] {
                Some(ColumnData::Numeric(_, inner)) => {
                    assert_eq!(inner, &vec![Some(5), Some(6)]);
                }
                _ => panic!("unexpected cell"),
            }
            assert!(cells[1].is_none());
        }
        _ => panic!("unexpected column kind"),
    }
}

#[test]
fn test_union_dictionaries_directly() {
    let l = Dictionary::Local { hash: 5, entries: vec![b"a".to_vec()] };
    let r = Dictionary::Local { hash: 5, entries: vec![b"a".to_vec()] };
    assert!(matches!(check_and_union_dictionaries(&l, &r), Ok(None)));

    let l = Dictionary::Global { namespace: 1, entries: vec![(0, b"a".to_vec())] };
    let r = Dictionary::Global { namespace: 1, entries: vec![(1, b"b".to_vec())] };
    match check_and_union_dictionaries(&l, &r) {
        Ok(Some(Dictionary::Global { namespace, entries })) => {
            assert_eq!(namespace, 1);
            assert_eq!(entries, vec![(0, b"a".to_vec()), (1, b"b".to_vec())]);
        }
        _ => panic!("expected a merged global dictionary"),
    }

    let l = Dictionary::Global { namespace: 1, entries: vec![(0, b"a".to_vec())] };
    let r = Dictionary::Global { namespace: 2, entries: vec![(0, b"a".to_vec())] };
    assert!(matches!(
        check_and_union_dictionaries(&l, &r),
        Err(MergeError::IncompatibleCategories)
    ));
}

#[test]
fn test_boolean_column_merge() {
    let mk = |vals: Vec<Option<bool>>| Column { name: b"k".to_vec(), data: ColumnData::Boolean(vals) };
    let left = Table { height: 2, columns: vec![mk(vec![Some(false), Some(true)])] };
    let right = Table { height: 1, columns: vec![mk(vec![Some(true)])] };
    let lk = mk(vec![Some(false), Some(true)]);
    let rk = mk(vec![Some(true)]);
    let out = merge_sorted(&left, &right, &lk, &rk, true).unwrap();
    match &out.columns[0].data {
        ColumnData::Boolean(cells) => {
            assert_eq!(cells, &vec![Some(false), Some(true), Some(true)]);
        }
        _ => panic!("unexpected column kind"),
    }
}

#[test]
fn test_indicator_counts_and_decode() {
    let a: [i128; 3] = [1, 3, 5];
    let b: [i128; 4] = [2, 4, 4, 6];
    let out = get_merge_indicator_sliced(&a, &b);
    assert_eq!(out.len(), a.len() + b.len());
    assert_eq!(out.iter().filter(|x| **x).count(), a.len());
    assert_eq!(out.iter().filter(|x| !**x).count(), b.len());
    // decoding by walking the indicator yields a non-decreasing sequence
    let mut ai = 0;
    let mut bi = 0;
    let mut decoded: Vec<i128> = Vec::new();
    for take_left in &out {
        if *take_left {
            decoded.push(a[ai]);
            ai += 1;
        } else {
            decoded.push(b[bi]);
            bi += 1;
        }
    }
    assert_eq!(decoded, vec![1, 2, 3, 4, 4, 5, 6]);
}

#[test]
fn test_merge_empty_right_keeps_dictionary() {
    let lk = global_cat_column(b"k", 9, &[4, 8], &[(4, b"d"), (8, b"h")]);
    let rk = global_cat_column(b"k", 9, &[], &[(4, b"d"), (8, b"h")]);
    let left = Table {
        height: 2,
        columns: vec![global_cat_column(b"k", 9, &[4, 8], &[(4, b"d"), (8, b"h")])],
    };
    let right = Table {
        height: 0,
        columns: vec![global_cat_column(b"k", 9, &[], &[(4, b"d"), (8, b"h")])],
    };
    let out = merge_sorted(&left, &right, &lk, &rk, true).unwrap();
    assert_eq!(out.height, 2);
    match &out.columns[0].data {
        ColumnData::Categorical(_, codes, Dictionary::Global { namespace, entries }) => {
            assert_eq!(codes, &vec![Some(4), Some(8)]);
            assert_eq!(*namespace, 9);
            assert_eq!(entries, &vec![(4, b"d".to_vec()), (8, b"h".to_vec())]);
        }
        _ => panic!("unexpected column kind"),
    }
}
