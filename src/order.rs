use vstd::prelude::*;

verus! {

/// `s` with `x` inserted after every element that `le` puts at or before
/// it, up to the first that it does not: one step of a stable insertion
/// sort.
pub open spec fn insert_by<T>(s: Seq<T>, x: T, le: spec_fn(T, T) -> bool) -> Seq<T>
    decreases s.len(),
{
    if s.len() == 0 {
        seq![x]
    } else if le(s[0], x) {
        seq![s[0]] + insert_by(s.drop_first(), x, le)
    } else {
        seq![x] + s
    }
}

/// Where the elements before `pos` go at or before `x` and the one at `pos`
/// does not, `insert_by` puts `x` at `pos`.
pub proof fn lemma_insert_by<T>(s: Seq<T>, x: T, le: spec_fn(T, T) -> bool, pos: int)
    requires
        0 <= pos <= s.len(),
        forall|k: int| 0 <= k < pos ==> le(#[trigger] s[k], x),
        pos < s.len() ==> !le(s[pos], x),
    ensures
        insert_by(s, x, le) == s.insert(pos, x),
    decreases s.len(),
{
    if s.len() == 0 {
        assert(s.insert(pos, x) =~= seq![x]);
    } else if pos == 0 {
        assert(s.insert(pos, x) =~= seq![x] + s);
    } else {
        let t = s.drop_first();
        assert forall|k: int| 0 <= k < pos - 1 implies le(#[trigger] t[k], x) by {
            assert(t[k] == s[k + 1]);
        }
        lemma_insert_by(t, x, le, pos - 1);
        assert(s.insert(pos, x) =~= seq![s[0]] + t.insert(pos - 1, x));
    }
}

/// Inserting keeps every element and adds `x`.
pub proof fn lemma_insert_by_len<T>(s: Seq<T>, x: T, le: spec_fn(T, T) -> bool)
    ensures
        insert_by(s, x, le).len() == s.len() + 1,
        insert_by(s, x, le).to_multiset() == s.to_multiset().insert(x),
    decreases s.len(),
{
    broadcast use vstd::multiset::group_multiset_axioms;
    broadcast use vstd::seq_lib::group_to_multiset_ensures;
    if s.len() == 0 {
        assert(seq![x] =~= Seq::<T>::empty().push(x));
    } else if le(s[0], x) {
        let t = s.drop_first();
        lemma_insert_by_len(t, x, le);
        vstd::seq_lib::lemma_multiset_commutative(seq![s[0]], insert_by(t, x, le));
        vstd::seq_lib::lemma_multiset_commutative(seq![s[0]], t);
        assert(seq![s[0]] + t =~= s);
        assert(seq![s[0]] =~= Seq::<T>::empty().push(s[0]));
    } else {
        vstd::seq_lib::lemma_multiset_commutative(seq![x], s);
        assert(seq![x] =~= Seq::<T>::empty().push(x));
    }
}

} // verus!

verus! {

/// Each element goes at or before the next.
pub open spec fn sorted_by<T>(s: Seq<T>, le: spec_fn(T, T) -> bool) -> bool {
    forall|k: int| 0 <= k < s.len() - 1 ==> #[trigger] le(s[k], s[k + 1])
}

/// Any two elements are ordered one way or the other.
pub open spec fn total<T>(le: spec_fn(T, T) -> bool) -> bool {
    forall|a: T, b: T| #[trigger] le(a, b) || le(b, a)
}

/// Inserting into a sorted sequence keeps it sorted.
pub proof fn lemma_insert_by_sorted<T>(s: Seq<T>, x: T, le: spec_fn(T, T) -> bool)
    requires
        sorted_by(s, le),
        total(le),
    ensures
        sorted_by(insert_by(s, x, le), le),
        insert_by(s, x, le).len() == s.len() + 1,
        insert_by(s, x, le)[0] == if s.len() > 0 && le(s[0], x) {
            s[0]
        } else {
            x
        },
    decreases s.len(),
{
    if s.len() == 0 {
    } else if le(s[0], x) {
        let t = s.drop_first();
        assert forall|k: int| 0 <= k < t.len() - 1 implies #[trigger] le(t[k], t[k + 1]) by {
            let j = k + 1;
            assert(0 <= j < s.len() - 1);
            assert(le(s[j], s[j + 1]));
            assert(t[k] == s[j] && t[k + 1] == s[j + 1]);
        }
        lemma_insert_by_sorted(t, x, le);
        let r = insert_by(s, x, le);
        let u = insert_by(t, x, le);
        assert forall|k: int| 0 <= k < r.len() - 1 implies #[trigger] le(r[k], r[k + 1]) by {
            if k == 0 {
                if t.len() > 0 && le(t[0], x) {
                    assert(le(s[0], s[1]));
                }
            } else {
                assert(r[k] == u[k - 1] && r[k + 1] == u[k]);
            }
        }
    } else {
        assert(le(x, s[0]));
        let r = insert_by(s, x, le);
        assert forall|k: int| 0 <= k < r.len() - 1 implies #[trigger] le(r[k], r[k + 1]) by {
            assert(r =~= seq![x] + s);
            if k > 0 {
                let j = k - 1;
                assert(le(s[j], s[j + 1]));
                assert(r[k] == s[j] && r[k + 1] == s[j + 1]);
            } else {
                assert(r[0] == x && r[1] == s[0]);
            }
        }
    }
}

} // verus!
