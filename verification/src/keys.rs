use vstd::prelude::*;

verus! {

/// A merge key as the indicator generator sees one: a scalar of one of the
/// orderable kinds, or a pre-encoded byte string standing in for a composite
/// key, or a null. Nulls order before every non-null value, as they do when
/// the underlying columns are walked with their validity markers.
pub enum Key {
    Null,
    Bool(bool),
    Int(i128),
    Bytes(Vec<u8>),
}

/// The mathematical value of a `Key`.
pub enum KeyV {
    Null,
    Bool(bool),
    Int(int),
    Bytes(Seq<u8>),
}

pub open spec fn key_v(k: Key) -> KeyV {
    match k {
        Key::Null => KeyV::Null,
        Key::Bool(b) => KeyV::Bool(b),
        Key::Int(i) => KeyV::Int(i as int),
        Key::Bytes(b) => KeyV::Bytes(b@),
    }
}

pub open spec fn keys_v(s: Seq<Key>) -> Seq<KeyV> {
    s.map(|i: int, k: Key| key_v(k))
}

/// Lexicographic order on byte strings: a strict prefix orders first.
pub open spec fn lex_le(u: Seq<u8>, v: Seq<u8>) -> bool
    decreases u.len(),
{
    if u.len() == 0 {
        true
    } else if v.len() == 0 {
        false
    } else if u[0] < v[0] {
        true
    } else if u[0] > v[0] {
        false
    } else {
        lex_le(u.drop_first(), v.drop_first())
    }
}

/// Rank used to order keys of different kinds; within one merge all non-null
/// keys share a kind, so only the null-first part of this order is exercised.
pub open spec fn key_rank(k: KeyV) -> int {
    match k {
        KeyV::Null => 0,
        KeyV::Bool(_) => 1,
        KeyV::Int(_) => 2,
        KeyV::Bytes(_) => 3,
    }
}

/// The total order the merge indicator compares keys with.
pub open spec fn key_le(x: KeyV, y: KeyV) -> bool {
    if key_rank(x) != key_rank(y) {
        key_rank(x) < key_rank(y)
    } else {
        match (x, y) {
            (KeyV::Bool(p), KeyV::Bool(q)) => !p || q,
            (KeyV::Int(i), KeyV::Int(j)) => i <= j,
            (KeyV::Bytes(u), KeyV::Bytes(v)) => lex_le(u, v),
            _ => true,
        }
    }
}

pub proof fn lemma_lex_le_total(u: Seq<u8>, v: Seq<u8>)
    ensures
        lex_le(u, v) || lex_le(v, u),
    decreases u.len(),
{
    if u.len() == 0 {
    } else if v.len() == 0 {
    } else if u[0] == v[0] {
        lemma_lex_le_total(u.drop_first(), v.drop_first());
    }
}

pub proof fn lemma_lex_le_trans(u: Seq<u8>, v: Seq<u8>, w: Seq<u8>)
    requires
        lex_le(u, v),
        lex_le(v, w),
    ensures
        lex_le(u, w),
    decreases u.len(),
{
    if u.len() == 0 {
    } else {
        if u[0] == v[0] && v[0] == w[0] {
            lemma_lex_le_trans(u.drop_first(), v.drop_first(), w.drop_first());
        }
    }
}

pub proof fn lemma_key_le_total(x: KeyV, y: KeyV)
    ensures
        key_le(x, y) || key_le(y, x),
{
    if key_rank(x) == key_rank(y) {
        match (x, y) {
            (KeyV::Bytes(u), KeyV::Bytes(v)) => lemma_lex_le_total(u, v),
            _ => {},
        }
    }
}

pub proof fn lemma_key_le_trans(x: KeyV, y: KeyV, z: KeyV)
    requires
        key_le(x, y),
        key_le(y, z),
    ensures
        key_le(x, z),
{
    if key_rank(x) == key_rank(y) && key_rank(y) == key_rank(z) {
        match (x, y) {
            (KeyV::Bytes(u), KeyV::Bytes(v)) => match z {
                KeyV::Bytes(w) => lemma_lex_le_trans(u, v, w),
                _ => {},
            },
            _ => {},
        }
    }
}

fn lex_le_exec(u: &Vec<u8>, v: &Vec<u8>) -> (r: bool)
    ensures
        r == lex_le(u@, v@),
{
    let mut i: usize = 0;
    proof {
        assert(u@.skip(0) =~= u@);
        assert(v@.skip(0) =~= v@);
    }
    loop
        invariant
            i <= u@.len(),
            i <= v@.len(),
            lex_le(u@, v@) == lex_le(u@.skip(i as int), v@.skip(i as int)),
        decreases u@.len() - i,
    {
        if i >= u.len() {
            return true;
        }
        if i >= v.len() {
            return false;
        }
        let a = u[i];
        let b = v[i];
        if a < b {
            proof {
                assert(u@.skip(i as int)[0] == u@[i as int]);
                assert(v@.skip(i as int)[0] == v@[i as int]);
            }
            return true;
        }
        if a > b {
            proof {
                assert(u@.skip(i as int)[0] == u@[i as int]);
                assert(v@.skip(i as int)[0] == v@[i as int]);
            }
            return false;
        }
        proof {
            let iu = i as int;
            assert(u@.skip(iu)[0] == u@[iu]);
            assert(v@.skip(iu)[0] == v@[iu]);
            assert(u@.skip(iu).drop_first() =~= u@.skip(iu + 1));
            assert(v@.skip(iu).drop_first() =~= v@.skip(iu + 1));
        }
        i += 1;
    }
}

/// Compares two keys under the order the contracts speak of.
pub fn key_le_exec(x: &Key, y: &Key) -> (r: bool)
    ensures
        r == key_le(key_v(*x), key_v(*y)),
{
    match (x, y) {
        (Key::Null, _) => true,
        (_, Key::Null) => false,
        (Key::Bool(p), Key::Bool(q)) => !*p || *q,
        (Key::Bool(_), _) => true,
        (_, Key::Bool(_)) => false,
        (Key::Int(i), Key::Int(j)) => *i <= *j,
        (Key::Int(_), _) => true,
        (_, Key::Int(_)) => false,
        (Key::Bytes(u), Key::Bytes(v)) => lex_le_exec(u, v),
    }
}

} // verus!
