//! The merge indicator generator: a two-pointer walk over two
//! ascending-sorted key sequences that decides, for every output row, which
//! side contributes it. `true` means the left side, `false` the right, and a
//! tie always takes the left side first.

use vstd::prelude::*;
use crate::keys::{Key, KeyV, key_v, keys_v, key_le, lemma_key_le_total, lemma_key_le_trans, key_le_exec};

verus! {

/// The indicator for keys `a` and `b`: take from the left while its head is
/// `<=` the right head, otherwise from the right; a side that runs out lets
/// the other drain.
pub open spec fn spec_indicator(a: Seq<KeyV>, b: Seq<KeyV>) -> Seq<bool>
    decreases a.len() + b.len(),
{
    if a.len() == 0 {
        Seq::new(b.len(), |i: int| false)
    } else if b.len() == 0 {
        Seq::new(a.len(), |i: int| true)
    } else if key_le(a[0], b[0]) {
        seq![true] + spec_indicator(a.drop_first(), b)
    } else {
        seq![false] + spec_indicator(a, b.drop_first())
    }
}

pub open spec fn count_true(s: Seq<bool>) -> int
    decreases s.len(),
{
    if s.len() == 0 {
        0
    } else {
        (if s[0] {
            1int
        } else {
            0int
        }) + count_true(s.drop_first())
    }
}

/// Walking an indicator: each `true` pulls the next unconsumed value from
/// `a`, each `false` from `b`. An exhausted side is skipped over, though a
/// well-formed indicator never asks for one.
pub open spec fn spec_interleave<T>(a: Seq<T>, b: Seq<T>, ind: Seq<bool>) -> Seq<T>
    decreases ind.len(),
{
    if ind.len() == 0 {
        Seq::empty()
    } else if ind[0] {
        if a.len() > 0 {
            seq![a[0]] + spec_interleave(a.drop_first(), b, ind.drop_first())
        } else {
            spec_interleave(a, b, ind.drop_first())
        }
    } else {
        if b.len() > 0 {
            seq![b[0]] + spec_interleave(a, b.drop_first(), ind.drop_first())
        } else {
            spec_interleave(a, b, ind.drop_first())
        }
    }
}

/// The sequence the indicator decodes to: the stable, left-biased merge of
/// the two key sequences.
pub open spec fn spec_merged(a: Seq<KeyV>, b: Seq<KeyV>) -> Seq<KeyV> {
    spec_interleave(a, b, spec_indicator(a, b))
}

pub open spec fn sorted_keys(s: Seq<KeyV>) -> bool {
    forall|i: int, j: int| 0 <= i <= j < s.len() ==> key_le(s[i], s[j])
}

pub proof fn lemma_count_cons(x: bool, s: Seq<bool>)
    ensures
        count_true(seq![x] + s) == (if x {
            1int
        } else {
            0int
        }) + count_true(s),
{
    let t = seq![x] + s;
    assert(t[0] == x);
    assert(t.drop_first() =~= s);
}

pub proof fn lemma_count_bounds(s: Seq<bool>)
    ensures
        0 <= count_true(s) <= s.len(),
    decreases s.len(),
{
    if s.len() > 0 {
        lemma_count_bounds(s.drop_first());
    }
}

proof fn lemma_count_const(n: nat, v: bool)
    ensures
        count_true(Seq::new(n, |i: int| v)) == if v {
            n as int
        } else {
            0int
        },
    decreases n,
{
    let s = Seq::new(n, |i: int| v);
    if n > 0 {
        lemma_count_const((n - 1) as nat, v);
        assert(s.drop_first() =~= Seq::new((n - 1) as nat, |i: int| v));
    }
}

/// The indicator always has one entry per input row: as many `true`s as the
/// left has rows, and the rest `false`.
pub proof fn lemma_indicator_shape(a: Seq<KeyV>, b: Seq<KeyV>)
    ensures
        spec_indicator(a, b).len() == a.len() + b.len(),
        count_true(spec_indicator(a, b)) == a.len(),
        spec_indicator(a, b).len() - count_true(spec_indicator(a, b)) == b.len(),
    decreases a.len() + b.len(),
{
    if a.len() == 0 {
        lemma_count_const(b.len(), false);
    } else if b.len() == 0 {
        lemma_count_const(a.len(), true);
    } else if key_le(a[0], b[0]) {
        lemma_indicator_shape(a.drop_first(), b);
        lemma_count_cons(true, spec_indicator(a.drop_first(), b));
    } else {
        lemma_indicator_shape(a, b.drop_first());
        lemma_count_cons(false, spec_indicator(a, b.drop_first()));
    }
}

proof fn lemma_sorted_drop_first(s: Seq<KeyV>)
    requires
        s.len() > 0,
        sorted_keys(s),
    ensures
        sorted_keys(s.drop_first()),
{
    assert forall|i: int, j: int| 0 <= i <= j < s.drop_first().len() implies key_le(
        s.drop_first()[i],
        s.drop_first()[j],
    ) by {
        assert(s.drop_first()[i] == s[i + 1]);
        assert(s.drop_first()[j] == s[j + 1]);
    }
}

proof fn lemma_interleave_all_false(a: Seq<KeyV>, b: Seq<KeyV>, n: nat)
    requires
        n == b.len(),
    ensures
        spec_interleave(a, b, Seq::new(n, |i: int| false)) == b,
    decreases n,
{
    let ind = Seq::new(n, |i: int| false);
    if n == 0 {
        assert(spec_interleave(a, b, ind) =~= b);
    } else {
        lemma_interleave_all_false(a, b.drop_first(), (n - 1) as nat);
        assert(ind.drop_first() =~= Seq::new((n - 1) as nat, |i: int| false));
        assert(seq![b[0]] + b.drop_first() =~= b);
    }
}

proof fn lemma_interleave_all_true(a: Seq<KeyV>, b: Seq<KeyV>, n: nat)
    requires
        n == a.len(),
    ensures
        spec_interleave(a, b, Seq::new(n, |i: int| true)) == a,
    decreases n,
{
    let ind = Seq::new(n, |i: int| true);
    if n == 0 {
        assert(spec_interleave(a, b, ind) =~= a);
    } else {
        lemma_interleave_all_true(a.drop_first(), b, (n - 1) as nat);
        assert(ind.drop_first() =~= Seq::new((n - 1) as nat, |i: int| true));
        assert(seq![a[0]] + a.drop_first() =~= a);
    }
}

/// Decoding the indicator of two ascending key sequences yields an ascending
/// sequence of the combined length, headed by one of the two input heads.
pub proof fn lemma_merged_sorted(a: Seq<KeyV>, b: Seq<KeyV>)
    requires
        sorted_keys(a),
        sorted_keys(b),
    ensures
        sorted_keys(spec_merged(a, b)),
        spec_merged(a, b).len() == a.len() + b.len(),
        a.len() + b.len() > 0 ==> ((a.len() > 0 && spec_merged(a, b)[0] == a[0]) || (b.len() > 0
            && spec_merged(a, b)[0] == b[0])),
    decreases a.len() + b.len(),
{
    let m = spec_merged(a, b);
    if a.len() == 0 {
        lemma_interleave_all_false(a, b, b.len());
    } else if b.len() == 0 {
        lemma_interleave_all_true(a, b, a.len());
    } else if key_le(a[0], b[0]) {
        let a2 = a.drop_first();
        let ind = spec_indicator(a, b);
        assert(ind.drop_first() =~= spec_indicator(a2, b));
        lemma_sorted_drop_first(a);
        lemma_merged_sorted(a2, b);
        let m2 = spec_merged(a2, b);
        assert(m == seq![a[0]] + m2);
        assert forall|i: int, j: int| 0 <= i <= j < m.len() implies key_le(m[i], m[j]) by {
            if i == 0 {
                if j > 0 {
                    assert(m[j] == m2[j - 1]);
                    if a2.len() > 0 && m2[0] == a2[0] {
                        assert(key_le(a[0], m2[0]));
                    } else {
                        assert(m2[0] == b[0]);
                    }
                    assert(key_le(m2[0], m2[j - 1]));
                    lemma_key_le_trans(a[0], m2[0], m2[j - 1]);
                }
            } else {
                assert(m[i] == m2[i - 1]);
                assert(m[j] == m2[j - 1]);
            }
        }
    } else {
        lemma_key_le_total(a[0], b[0]);
        let b2 = b.drop_first();
        let ind = spec_indicator(a, b);
        assert(ind.drop_first() =~= spec_indicator(a, b2));
        lemma_sorted_drop_first(b);
        lemma_merged_sorted(a, b2);
        let m2 = spec_merged(a, b2);
        assert(m == seq![b[0]] + m2);
        assert forall|i: int, j: int| 0 <= i <= j < m.len() implies key_le(m[i], m[j]) by {
            if i == 0 {
                if j > 0 {
                    assert(m[j] == m2[j - 1]);
                    if a.len() > 0 && m2[0] == a[0] {
                        assert(key_le(b[0], a[0]));
                    } else {
                        assert(m2[0] == b2[0]);
                        assert(key_le(b[0], b2[0]));
                    }
                    assert(key_le(m2[0], m2[j - 1]));
                    lemma_key_le_trans(b[0], m2[0], m2[j - 1]);
                }
            } else {
                assert(m[i] == m2[i - 1]);
                assert(m[j] == m2[j - 1]);
            }
        }
    }
}

/// Computes the merge indicator for two key sequences: one entry per output
/// row, `true` where the next row comes from `a`, `false` where it comes
/// from `b`, with ties taking `a` first.
pub fn get_merge_indicator(a: &Vec<Key>, b: &Vec<Key>) -> (out: Vec<bool>)
    ensures
        out@ == spec_indicator(keys_v(a@), keys_v(b@)),
{
    let ghost ga = keys_v(a@);
    let ghost gb = keys_v(b@);
    let mut out: Vec<bool> = Vec::new();
    let mut i: usize = 0;
    let mut j: usize = 0;
    proof {
        assert(ga.skip(0) =~= ga);
        assert(gb.skip(0) =~= gb);
        assert(Seq::<bool>::empty() + spec_indicator(ga, gb) =~= spec_indicator(ga, gb));
    }
    while i < a.len() || j < b.len()
        invariant
            i <= a@.len(),
            j <= b@.len(),
            ga == keys_v(a@),
            gb == keys_v(b@),
            ga.len() == a@.len(),
            gb.len() == b@.len(),
            out@.len() == i + j,
            spec_indicator(ga, gb) == out@ + spec_indicator(
                ga.skip(i as int),
                gb.skip(j as int),
            ),
        decreases a@.len() - i + b@.len() - j,
    {
        let ghost sa = ga.skip(i as int);
        let ghost sb = gb.skip(j as int);
        if i < a.len() && (j >= b.len() || key_le_exec(&a[i], &b[j])) {
            proof {
                assert(sa[0] == ga[i as int]);
                assert(ga[i as int] == key_v(a@[i as int]));
                assert(sa.drop_first() =~= ga.skip(i as int + 1));
                if j >= b.len() {
                    assert(sb.len() == 0);
                    assert(spec_indicator(sa, sb) =~= Seq::new(sa.len(), |k: int| true));
                    assert(spec_indicator(sa.drop_first(), sb) =~= Seq::new(
                        (sa.len() - 1) as nat,
                        |k: int| true,
                    ));
                    assert(spec_indicator(sa, sb) =~= seq![true] + spec_indicator(
                        sa.drop_first(),
                        sb,
                    ));
                } else {
                    assert(sb[0] == gb[j as int]);
                    assert(gb[j as int] == key_v(b@[j as int]));
                    assert(key_le(sa[0], sb[0]));
                    assert(spec_indicator(sa, sb) == seq![true] + spec_indicator(
                        sa.drop_first(),
                        sb,
                    ));
                }
                assert((out@ + seq![true]) + spec_indicator(ga.skip(i as int + 1), sb) =~= out@
                    + (seq![true] + spec_indicator(ga.skip(i as int + 1), sb)));
            }
            out.push(true);
            i += 1;
        } else {
            proof {
                assert(sb[0] == gb[j as int]);
                assert(sb.drop_first() =~= gb.skip(j as int + 1));
                if i >= a.len() {
                    assert(sa.len() == 0);
                    assert(spec_indicator(sa, sb) =~= Seq::new(sb.len(), |k: int| false));
                    assert(spec_indicator(sa, sb.drop_first()) =~= Seq::new(
                        (sb.len() - 1) as nat,
                        |k: int| false,
                    ));
                    assert(spec_indicator(sa, sb) =~= seq![false] + spec_indicator(
                        sa,
                        sb.drop_first(),
                    ));
                } else {
                    assert(sa[0] == ga[i as int]);
                    assert(ga[i as int] == key_v(a@[i as int]));
                    assert(gb[j as int] == key_v(b@[j as int]));
                    assert(!key_le(sa[0], sb[0]));
                    assert(spec_indicator(sa, sb) == seq![false] + spec_indicator(
                        sa,
                        sb.drop_first(),
                    ));
                }
                assert((out@ + seq![false]) + spec_indicator(sa, gb.skip(j as int + 1)) =~= out@
                    + (seq![false] + spec_indicator(sa, gb.skip(j as int + 1))));
            }
            out.push(false);
            j += 1;
        }
    }
    proof {
        assert(ga.skip(i as int).len() == 0);
        assert(gb.skip(j as int).len() == 0);
        assert(spec_indicator(ga.skip(i as int), gb.skip(j as int)) =~= Seq::<bool>::empty());
        assert(out@ + Seq::<bool>::empty() =~= out@);
    }
    out
}

/// Interleaves two value sequences by a precomputed indicator, pulling the
/// next unconsumed value from the side each entry designates.
pub fn interleave<T>(a: Vec<T>, b: Vec<T>, ind: &Vec<bool>) -> (out: Vec<T>)
    requires
        ind@.len() == a@.len() + b@.len(),
        count_true(ind@) == a@.len(),
    ensures
        out@ == spec_interleave(a@, b@, ind@),
        out@.len() == ind@.len(),
{
    let ghost ga = a@;
    let ghost gb = b@;
    let mut aa = a;
    let mut bb = b;
    let mut out: Vec<T> = Vec::new();
    let mut k: usize = 0;
    proof {
        assert(ind@.skip(0) =~= ind@);
        assert(Seq::<T>::empty() + spec_interleave(ga, gb, ind@) =~= spec_interleave(
            ga,
            gb,
            ind@,
        ));
    }
    while k < ind.len()
        invariant
            k <= ind@.len(),
            ind@.len() - k == aa@.len() + bb@.len(),
            count_true(ind@.skip(k as int)) == aa@.len(),
            out@.len() == k,
            spec_interleave(ga, gb, ind@) == out@ + spec_interleave(
                aa@,
                bb@,
                ind@.skip(k as int),
            ),
        decreases ind@.len() - k,
    {
        let ghost sk = ind@.skip(k as int);
        proof {
            assert(sk[0] == ind@[k as int]);
            assert(sk.drop_first() =~= ind@.skip(k as int + 1));
            assert(count_true(sk) == (if sk[0] {
                1int
            } else {
                0int
            }) + count_true(sk.drop_first()));
            lemma_count_bounds(sk.drop_first());
        }
        if ind[k] {
            let ghost prev_a = aa@;
            let ghost prev_out = out@;
            proof {
                assert(aa@.len() > 0);
                assert(spec_interleave(aa@, bb@, sk) == seq![aa@[0]] + spec_interleave(
                    aa@.drop_first(),
                    bb@,
                    sk.drop_first(),
                ));
            }
            let v = aa.remove(0);
            out.push(v);
            k += 1;
            proof {
                assert(aa@ =~= prev_a.drop_first());
                assert(out@ =~= prev_out + seq![prev_a[0]]);
                assert((prev_out + seq![prev_a[0]]) + spec_interleave(
                    aa@,
                    bb@,
                    ind@.skip(k as int),
                ) =~= prev_out + (seq![prev_a[0]] + spec_interleave(
                    aa@,
                    bb@,
                    ind@.skip(k as int),
                )));
            }
        } else {
            let ghost prev_b = bb@;
            let ghost prev_out = out@;
            proof {
                assert(count_true(sk) <= sk.len() - 1);
                assert(bb@.len() > 0);
                assert(spec_interleave(aa@, bb@, sk) == seq![bb@[0]] + spec_interleave(
                    aa@,
                    bb@.drop_first(),
                    sk.drop_first(),
                ));
            }
            let v = bb.remove(0);
            out.push(v);
            k += 1;
            proof {
                assert(bb@ =~= prev_b.drop_first());
                assert(out@ =~= prev_out + seq![prev_b[0]]);
                assert((prev_out + seq![prev_b[0]]) + spec_interleave(
                    aa@,
                    bb@,
                    ind@.skip(k as int),
                ) =~= prev_out + (seq![prev_b[0]] + spec_interleave(
                    aa@,
                    bb@,
                    ind@.skip(k as int),
                )));
            }
        }
    }
    proof {
        assert(spec_interleave(aa@, bb@, ind@.skip(k as int)) =~= Seq::<T>::empty());
        assert(out@ + Seq::<T>::empty() =~= out@);
    }
    out
}


/// An empty left side gives an all-`false` indicator of the right's length;
/// an empty right side an all-`true` indicator of the left's length.
pub proof fn lemma_indicator_empty(a: Seq<KeyV>, b: Seq<KeyV>)
    ensures
        a.len() == 0 ==> spec_indicator(a, b) == Seq::new(b.len(), |i: int| false),
        b.len() == 0 && a.len() > 0 ==> spec_indicator(a, b) == Seq::new(
            a.len(),
            |i: int| true,
        ),
{
}

proof fn lemma_to_multiset_cons<T>(x: T, s: Seq<T>)
    ensures
        (seq![x] + s).to_multiset() == s.to_multiset().insert(x),
{
    broadcast use vstd::seq_lib::group_to_multiset_ensures;
    broadcast use vstd::multiset::group_multiset_axioms;

    let t = seq![x] + s;
    assert(t[0] == x);
    assert(t.remove(0) =~= s);
    assert(t.remove(0).to_multiset() =~= t.to_multiset().remove(t[0]));
    assert(t.contains(x));
    assert(t.to_multiset().count(x) > 0);
    assert(s.to_multiset().insert(x) =~= t.to_multiset());
}

/// Walking a well-formed indicator neither loses nor invents a value: the
/// interleave holds exactly the values of both sides.
pub proof fn lemma_interleave_multiset<T>(a: Seq<T>, b: Seq<T>, ind: Seq<bool>)
    requires
        ind.len() == a.len() + b.len(),
        count_true(ind) == a.len(),
    ensures
        spec_interleave(a, b, ind).to_multiset() == a.to_multiset().add(b.to_multiset()),
    decreases ind.len(),
{
    broadcast use vstd::seq_lib::group_to_multiset_ensures;
    broadcast use vstd::multiset::group_multiset_axioms;

    lemma_count_bounds(ind);
    if ind.len() == 0 {
        assert(a =~= Seq::<T>::empty());
        assert(b =~= Seq::<T>::empty());
        vstd::multiset::lemma_multiset_empty_len(a.to_multiset());
        vstd::multiset::lemma_multiset_empty_len(b.to_multiset());
        vstd::multiset::lemma_multiset_empty_len(
            spec_interleave(a, b, ind).to_multiset(),
        );
        assert(spec_interleave(a, b, ind).to_multiset() =~= a.to_multiset().add(
            b.to_multiset(),
        ));
    } else {
        assert(count_true(ind) == (if ind[0] {
            1int
        } else {
            0int
        }) + count_true(ind.drop_first()));
        lemma_count_bounds(ind.drop_first());
        if ind[0] {
            assert(a.len() > 0);
            lemma_interleave_multiset(a.drop_first(), b, ind.drop_first());
            lemma_to_multiset_cons(a[0], spec_interleave(a.drop_first(), b, ind.drop_first()));
            lemma_to_multiset_cons(a[0], a.drop_first());
            assert(seq![a[0]] + a.drop_first() =~= a);
            assert(a.drop_first().to_multiset().add(b.to_multiset()).insert(a[0])
                =~= a.drop_first().to_multiset().insert(a[0]).add(b.to_multiset()));
        } else {
            assert(b.len() > 0);
            lemma_interleave_multiset(a, b.drop_first(), ind.drop_first());
            lemma_to_multiset_cons(b[0], spec_interleave(a, b.drop_first(), ind.drop_first()));
            lemma_to_multiset_cons(b[0], b.drop_first());
            assert(seq![b[0]] + b.drop_first() =~= b);
            assert(a.to_multiset().add(b.drop_first().to_multiset()).insert(b[0])
                =~= a.to_multiset().add(b.drop_first().to_multiset().insert(b[0])));
        }
    }
}

/// The interleave of a well-formed indicator has the indicator's length.
pub proof fn lemma_interleave_len<T>(a: Seq<T>, b: Seq<T>, ind: Seq<bool>)
    requires
        ind.len() == a.len() + b.len(),
        count_true(ind) == a.len(),
    ensures
        spec_interleave(a, b, ind).len() == ind.len(),
    decreases ind.len(),
{
    lemma_count_bounds(ind);
    if ind.len() > 0 {
        assert(count_true(ind) == (if ind[0] {
            1int
        } else {
            0int
        }) + count_true(ind.drop_first()));
        lemma_count_bounds(ind.drop_first());
        if ind[0] {
            lemma_interleave_len(a.drop_first(), b, ind.drop_first());
        } else {
            lemma_interleave_len(a, b.drop_first(), ind.drop_first());
        }
    }
}


} // verus!
