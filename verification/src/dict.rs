//! Dictionaries for categorical columns, and their reconciliation when two
//! categorical columns are merged: identical locals are kept as they are,
//! globals of one namespace are merged into a dictionary covering the union
//! of their entries, and everything else is an error.

use vstd::prelude::*;
use crate::MergeError;
use crate::bytes::clone_bytes;

verus! {

/// A mapping from integer codes to strings, attached to a categorical
/// column. A `Local` dictionary's codes index its entry list and are
/// meaningful only beside the identity hash of its contents; a `Global`
/// dictionary's codes are drawn from a shared interner identified by a
/// namespace id, so its entries carry their codes explicitly.
pub enum Dictionary {
    Local { hash: u64, entries: Vec<Vec<u8>> },
    Global { namespace: u64, entries: Vec<(u32, Vec<u8>)> },
}

/// The mathematical value of a `Dictionary`.
pub enum DictV {
    Local { hash: u64, entries: Seq<Seq<u8>> },
    Global { namespace: u64, entries: Seq<(u32, Seq<u8>)> },
}

pub open spec fn entry_v(e: (u32, Vec<u8>)) -> (u32, Seq<u8>) {
    (e.0, e.1@)
}

/// The mathematical values of a global entry list.
pub open spec fn entries_v(es: Seq<(u32, Vec<u8>)>) -> Seq<(u32, Seq<u8>)> {
    es.map(|i: int, e: (u32, Vec<u8>)| entry_v(e))
}

/// The mathematical values of a local entry list.
pub open spec fn local_entries_v(es: Seq<Vec<u8>>) -> Seq<Seq<u8>> {
    es.map(|i: int, e: Vec<u8>| e@)
}

pub open spec fn dict_v(d: Dictionary) -> DictV {
    match d {
        Dictionary::Local { hash, entries } => DictV::Local {
            hash,
            entries: local_entries_v(entries@),
        },
        Dictionary::Global { namespace, entries } => DictV::Global {
            namespace,
            entries: entries_v(entries@),
        },
    }
}

/// Whether a code occurs among global entries.
pub open spec fn global_contains(entries: Seq<(u32, Seq<u8>)>, c: u32) -> bool
    decreases entries.len(),
{
    if entries.len() == 0 {
        false
    } else {
        entries[0].0 == c || global_contains(entries.drop_first(), c)
    }
}

/// The string a code decodes to among global entries: the first entry that
/// carries it, or the empty string where none does.
pub open spec fn global_lookup(entries: Seq<(u32, Seq<u8>)>, c: u32) -> Seq<u8>
    decreases entries.len(),
{
    if entries.len() == 0 {
        Seq::empty()
    } else if entries[0].0 == c {
        entries[0].1
    } else {
        global_lookup(entries.drop_first(), c)
    }
}

/// No two global entries share a code.
pub open spec fn unique_codes(entries: Seq<(u32, Seq<u8>)>) -> bool {
    forall|i: int, j: int| 0 <= i < j < entries.len() ==> entries[i].0 != entries[j].0
}

pub open spec fn dict_wf(d: DictV) -> bool {
    match d {
        DictV::Local { .. } => true,
        DictV::Global { entries, .. } => unique_codes(entries),
    }
}

/// Whether a code is meaningful under a dictionary.
pub open spec fn dict_contains(d: DictV, c: u32) -> bool {
    match d {
        DictV::Local { entries, .. } => (c as int) < entries.len(),
        DictV::Global { entries, .. } => global_contains(entries, c),
    }
}

/// The string a code decodes to under a dictionary.
pub open spec fn dict_decode(d: DictV, c: u32) -> Seq<u8> {
    match d {
        DictV::Local { entries, .. } => entries[c as int],
        DictV::Global { entries, .. } => global_lookup(entries, c),
    }
}

/// Shared dictionary origin: identical local identity hashes, or one global
/// namespace. A local paired with a global never shares an origin.
pub open spec fn dict_same_src(l: DictV, r: DictV) -> bool {
    match (l, r) {
        (DictV::Local { hash: lh, .. }, DictV::Local { hash: rh, .. }) => lh == rh,
        (DictV::Global { namespace: ln, .. }, DictV::Global { namespace: rn, .. }) => ln == rn,
        _ => false,
    }
}

/// The union of two global entry lists: all of the left's entries in their
/// order, then each right entry whose code the left does not carry, in the
/// right's order.
pub open spec fn spec_union_entries(l: Seq<(u32, Seq<u8>)>, r: Seq<(u32, Seq<u8>)>) -> Seq<
    (u32, Seq<u8>),
>
    decreases r.len(),
{
    if r.len() == 0 {
        l
    } else {
        let rest = spec_union_entries(l, r.drop_last());
        if global_contains(l, r.last().0) {
            rest
        } else {
            rest.push(r.last())
        }
    }
}

proof fn lemma_contains_push(s: Seq<(u32, Seq<u8>)>, e: (u32, Seq<u8>), c: u32)
    ensures
        global_contains(s.push(e), c) == (global_contains(s, c) || e.0 == c),
        global_contains(s, c) ==> global_lookup(s.push(e), c) == global_lookup(s, c),
        !global_contains(s, c) && e.0 == c ==> global_lookup(s.push(e), c) == e.1,
        !global_contains(s, c) && e.0 != c ==> global_lookup(s.push(e), c) == global_lookup(
            s,
            c,
        ),
    decreases s.len(),
{
    let t = s.push(e);
    assert(t.len() == s.len() + 1);
    if s.len() == 0 {
        assert(t[0] == e);
        assert(t.drop_first() =~= Seq::<(u32, Seq<u8>)>::empty());
        assert(global_contains(t, c) == (t[0].0 == c || global_contains(t.drop_first(), c)));
        assert(!global_contains(t.drop_first(), c));
        assert(global_lookup(t, c) == (if t[0].0 == c {
            t[0].1
        } else {
            global_lookup(t.drop_first(), c)
        }));
        assert(global_lookup(t.drop_first(), c) == Seq::<u8>::empty());
        assert(global_lookup(s, c) == Seq::<u8>::empty());
    } else {
        assert(t[0] == s[0]);
        assert(t.drop_first() =~= s.drop_first().push(e));
        lemma_contains_push(s.drop_first(), e, c);
        assert(global_contains(t, c) == (t[0].0 == c || global_contains(t.drop_first(), c)));
        assert(global_contains(s, c) == (s[0].0 == c || global_contains(s.drop_first(), c)));
        assert(global_lookup(t, c) == (if t[0].0 == c {
            t[0].1
        } else {
            global_lookup(t.drop_first(), c)
        }));
        assert(global_lookup(s, c) == (if s[0].0 == c {
            s[0].1
        } else {
            global_lookup(s.drop_first(), c)
        }));
    }
}

/// What the union of two well-formed global entry lists holds: exactly the
/// codes of either side, the left's string for a code the left carries, the
/// right's string otherwise, and no code twice.
pub proof fn lemma_union_entries(l: Seq<(u32, Seq<u8>)>, r: Seq<(u32, Seq<u8>)>, c: u32)
    requires
        unique_codes(l),
        unique_codes(r),
    ensures
        unique_codes(spec_union_entries(l, r)),
        global_contains(spec_union_entries(l, r), c) == (global_contains(l, c)
            || global_contains(r, c)),
        global_lookup(spec_union_entries(l, r), c) == (if global_contains(l, c) {
            global_lookup(l, c)
        } else {
            global_lookup(r, c)
        }),
    decreases r.len(),
{
    if r.len() == 0 {
        if !global_contains(l, c) {
            lemma_lookup_absent(l, c);
        }
    } else {
        let r2 = r.drop_last();
        let e = r.last();
        assert(unique_codes(r2)) by {
            assert(forall|i: int, j: int|
                0 <= i < j < r2.len() ==> r2[i] == r[i] && r2[j] == r[j]);
        }
        let u2 = spec_union_entries(l, r2);
        lemma_union_entries(l, r2, c);
        lemma_union_entries(l, r2, e.0);
        assert(r =~= r2.push(e));
        lemma_contains_push(r2, e, c);
        if global_contains(l, e.0) {
            assert(spec_union_entries(l, r) == u2);
            if !global_contains(l, c) {
                if e.0 == c {
                    assert(global_contains(l, c));
                } else {
                    assert(global_lookup(r, c) == global_lookup(r2, c));
                }
            }
        } else {
            assert(!global_contains(r2, e.0)) by {
                if global_contains(r2, e.0) {
                    lemma_contains_index(r2, e.0);
                    let i = choose|i: int| 0 <= i < r2.len() && r2[i].0 == e.0;
                    assert(r[i].0 == r[r.len() - 1].0);
                }
            }
            assert(!global_contains(u2, e.0));
            lemma_contains_push(u2, e, c);
            assert(unique_codes(u2.push(e))) by {
                lemma_unique_push(u2, e);
            }
            assert(spec_union_entries(l, r) == u2.push(e));
            if global_contains(l, c) {
                assert(global_contains(u2, c));
                assert(global_lookup(u2.push(e), c) == global_lookup(u2, c));
            } else if e.0 == c {
                assert(!global_contains(r2, c));
                assert(!global_contains(u2, c));
                assert(global_lookup(u2.push(e), c) == e.1);
                assert(global_lookup(r, c) == e.1);
            } else {
                assert(global_lookup(u2.push(e), c) == global_lookup(u2, c));
                assert(global_lookup(r, c) == global_lookup(r2, c));
            }
        }
    }
}

/// A code no entry carries decodes to the empty string.
proof fn lemma_lookup_absent(s: Seq<(u32, Seq<u8>)>, c: u32)
    requires
        !global_contains(s, c),
    ensures
        global_lookup(s, c) == Seq::<u8>::empty(),
    decreases s.len(),
{
    if s.len() > 0 {
        lemma_lookup_absent(s.drop_first(), c);
    }
}

/// A contained code occurs at some index.
proof fn lemma_contains_index(s: Seq<(u32, Seq<u8>)>, c: u32)
    requires
        global_contains(s, c),
    ensures
        exists|i: int| 0 <= i < s.len() && s[i].0 == c,
    decreases s.len(),
{
    if s[0].0 == c {
    } else {
        lemma_contains_index(s.drop_first(), c);
        let i = choose|i: int| 0 <= i < s.drop_first().len() && s.drop_first()[i].0 == c;
        assert(s[i + 1].0 == c);
    }
}

proof fn lemma_unique_push(s: Seq<(u32, Seq<u8>)>, e: (u32, Seq<u8>))
    requires
        unique_codes(s),
        !global_contains(s, e.0),
    ensures
        unique_codes(s.push(e)),
    decreases s.len(),
{
    assert forall|i: int, j: int| 0 <= i < j < s.push(e).len() implies s.push(e)[i].0 != s.push(
        e,
    )[j].0 by {
        if j == s.len() {
            lemma_index_contains(s, i);
        }
    }
}

/// An indexed entry's code is contained.
proof fn lemma_index_contains(s: Seq<(u32, Seq<u8>)>, i: int)
    requires
        0 <= i < s.len(),
    ensures
        global_contains(s, s[i].0),
    decreases s.len(),
{
    if i > 0 {
        lemma_index_contains(s.drop_first(), i - 1);
        assert(s.drop_first()[i - 1] == s[i]);
    }
}

fn global_find(entries: &Vec<(u32, Vec<u8>)>, c: u32) -> (r: Option<usize>)
    ensures
        match r {
            Some(i) => i < entries@.len() && entries@[i as int].0 == c && global_contains(
                entries_v(entries@),
                c,
            ) && global_lookup(entries_v(entries@), c)
                == entries@[i as int].1@,
            None => !global_contains(entries_v(entries@), c),
        },
{
    let ghost ev = entries_v(entries@);
    let mut i: usize = 0;
    proof {
        assert(ev.skip(0) =~= ev);
    }
    while i < entries.len()
        invariant
            i <= entries@.len(),
            ev == entries_v(entries@),
            ev.len() == entries@.len(),
            global_contains(ev, c) == global_contains(ev.skip(i as int), c),
            global_contains(ev, c) ==> global_lookup(ev, c) == global_lookup(
                ev.skip(i as int),
                c,
            ),
        decreases entries@.len() - i,
    {
        proof {
            assert(ev.skip(i as int)[0] == ev[i as int]);
            assert(ev.skip(i as int).drop_first() =~= ev.skip(i as int + 1));
        }
        if entries[i].0 == c {
            return Some(i);
        }
        i += 1;
    }
    None
}

/// Reconciles the dictionaries of two categorical columns being merged.
/// Identical locals need no new dictionary; globals of one namespace are
/// merged into a fresh union dictionary; differing origins are the caller's
/// error, and a local paired with a global marks a broken invariant
/// upstream, since matching dtypes cannot produce that pairing.
pub fn check_and_union_dictionaries(l: &Dictionary, r: &Dictionary) -> (res: Result<
    Option<Dictionary>,
    MergeError,
>)
    requires
        dict_wf(dict_v(*l)),
        dict_wf(dict_v(*r)),
    ensures
        match res {
            Ok(out) => dict_same_src(dict_v(*l), dict_v(*r)) && match (dict_v(*l), out) {
                (DictV::Local { .. }, None) => true,
                (DictV::Global { namespace, entries }, Some(d)) => {
                    &&& dict_v(*r) matches DictV::Global { namespace: rn, entries: re }
                    &&& dict_v(d) matches DictV::Global { namespace: on, entries: oe }
                    &&& on == namespace
                    &&& oe == spec_union_entries(entries, re)
                    &&& dict_wf(dict_v(d))
                },
                _ => false,
            },
            Err(e) => {
                &&& !dict_same_src(dict_v(*l), dict_v(*r))
                &&& (e matches MergeError::InternalFault <==> !dict_kinds_match(
                    dict_v(*l),
                    dict_v(*r),
                ))
                &&& (e matches MergeError::IncompatibleCategories <==> dict_kinds_match(
                    dict_v(*l),
                    dict_v(*r),
                ))
            },
        },
{
    match (l, r) {
        (Dictionary::Local { hash: lh, .. }, Dictionary::Local { hash: rh, .. }) => {
            if *lh == *rh {
                Ok(None)
            } else {
                Err(MergeError::IncompatibleCategories)
            }
        },
        (
            Dictionary::Global { namespace: ln, entries: le },
            Dictionary::Global { namespace: rn, entries: re },
        ) => {
            if *ln != *rn {
                return Err(MergeError::IncompatibleCategories);
            }
            let ghost lv = entries_v(le@);
            let ghost rv = entries_v(re@);
            let mut out: Vec<(u32, Vec<u8>)> = Vec::new();
            let mut i: usize = 0;
            while i < le.len()
                invariant
                    i <= le@.len(),
                    lv == entries_v(le@),
                    lv.len() == le@.len(),
                    entries_v(out@) =~= lv.take(i as int),
                decreases le@.len() - i,
            {
                let ghost prev = out@;
                let code = le[i].0;
                let text = clone_bytes(&le[i].1);
                out.push((code, text));
                i += 1;
                proof {
                    assert(entries_v(out@) =~= entries_v(prev).push(entry_v((code, text))));
                    assert(entry_v((code, text)) == lv[i - 1]);
                    assert(lv.take(i as int) =~= lv.take(i - 1).push(lv[i - 1]));
                }
            }
            proof {
                assert(lv.take(lv.len() as int) =~= lv);
                assert(spec_union_entries(lv, rv.take(0)) == lv) by {
                    assert(rv.take(0).len() == 0);
                }
            }
            let mut j: usize = 0;
            while j < re.len()
                invariant
                    j <= re@.len(),
                    lv == entries_v(le@),
                    rv == entries_v(re@),
                    rv.len() == re@.len(),
                    entries_v(out@) == spec_union_entries(
                        lv,
                        rv.take(j as int),
                    ),
                decreases re@.len() - j,
            {
                let ghost prev = entries_v(out@);
                proof {
                    assert(rv.take(j as int + 1).drop_last() =~= rv.take(j as int));
                    assert(rv.take(j as int + 1).last() == rv[j as int]);
                }
                match global_find(le, re[j].0) {
                    Some(_) => (),
                    None => {
                        let code = re[j].0;
                        let text = clone_bytes(&re[j].1);
                        out.push((code, text));
                        proof {
                            assert(entries_v(out@) =~= prev.push(
                                rv[j as int],
                            ));
                        }
                    },
                }
                j += 1;
            }
            proof {
                assert(rv.take(rv.len() as int) =~= rv);
                lemma_union_entries(lv, rv, 0u32);
            }
            Ok(Some(Dictionary::Global { namespace: *ln, entries: out }))
        },
        _ => Err(MergeError::InternalFault),
    }
}

/// Whether the two dictionaries are of one kind, both local or both global;
/// a mismatch after the dtypes already agreed marks a fault elsewhere.
pub open spec fn dict_kinds_match(l: DictV, r: DictV) -> bool {
    match (l, r) {
        (DictV::Local { .. }, DictV::Local { .. }) => true,
        (DictV::Global { .. }, DictV::Global { .. }) => true,
        _ => false,
    }
}

/// Whether two dictionaries share an origin, as the assembler checks it for
/// the key columns before any merge work starts.
pub fn same_src(l: &Dictionary, r: &Dictionary) -> (r_: bool)
    ensures
        r_ == dict_same_src(dict_v(*l), dict_v(*r)),
{
    match (l, r) {
        (Dictionary::Local { hash: lh, .. }, Dictionary::Local { hash: rh, .. }) => *lh == *rh,
        (
            Dictionary::Global { namespace: ln, .. },
            Dictionary::Global { namespace: rn, .. },
        ) => *ln == *rn,
        _ => false,
    }
}

/// Categorical union: under one namespace a code carried by both sides
/// decodes identically on both, and then every code of either side decodes
/// under the union to the string it decoded to in its own dictionary.
pub proof fn lemma_union_decodes_originals(
    l: Seq<(u32, Seq<u8>)>,
    r: Seq<(u32, Seq<u8>)>,
    c: u32,
)
    requires
        unique_codes(l),
        unique_codes(r),
        forall|c2: u32|
            global_contains(l, c2) && global_contains(r, c2) ==> global_lookup(l, c2)
                == global_lookup(r, c2),
    ensures
        global_contains(l, c) ==> global_lookup(spec_union_entries(l, r), c) == global_lookup(
            l,
            c,
        ),
        global_contains(r, c) ==> global_lookup(spec_union_entries(l, r), c) == global_lookup(
            r,
            c,
        ),
{
    lemma_union_entries(l, r, c);
}

/// A fresh copy of a dictionary, equal to it as a mathematical value; the
/// copy a merged column keeps when the two sides already share their codes.
pub fn clone_dict(d: &Dictionary) -> (r: Dictionary)
    ensures
        dict_v(r) == dict_v(*d),
{
    match d {
        Dictionary::Local { hash, entries } => {
            let mut out: Vec<Vec<u8>> = Vec::new();
            let mut i: usize = 0;
            while i < entries.len()
                invariant
                    i <= entries@.len(),
                    out@.len() == i,
                    forall|j: int| 0 <= j < i ==> out@[j]@ == entries@[j]@,
                decreases entries@.len() - i,
            {
                let b = clone_bytes(&entries[i]);
                out.push(b);
                i += 1;
            }
            proof {
                assert(local_entries_v(out@) =~= local_entries_v(entries@));
            }
            Dictionary::Local { hash: *hash, entries: out }
        },
        Dictionary::Global { namespace, entries } => {
            let mut out: Vec<(u32, Vec<u8>)> = Vec::new();
            let mut i: usize = 0;
            while i < entries.len()
                invariant
                    i <= entries@.len(),
                    out@.len() == i,
                    forall|j: int| 0 <= j < i ==> entry_v(out@[j]) == entry_v(entries@[j]),
                decreases entries@.len() - i,
            {
                let code = entries[i].0;
                let b = clone_bytes(&entries[i].1);
                out.push((code, b));
                i += 1;
            }
            proof {
                assert(entries_v(out@) =~= entries_v(entries@));
            }
            Dictionary::Global { namespace: *namespace, entries: out }
        },
    }
}

/// Decodes one code under a dictionary, for the lexical comparison of
/// categorical keys.
pub fn dict_decode_exec(d: &Dictionary, c: u32) -> (r: Vec<u8>)
    requires
        dict_contains(dict_v(*d), c),
    ensures
        r@ == dict_decode(dict_v(*d), c),
{
    match d {
        Dictionary::Local { entries, .. } => clone_bytes(&entries[c as usize]),
        Dictionary::Global { entries, .. } => {
            match global_find(entries, c) {
                Some(i) => clone_bytes(&entries[i].1),
                None => Vec::new(),
            }
        },
    }
}

} // verus!
