use vstd::prelude::*;

verus! {

/// In a sequence without duplicates, the element at `i` is found at `i`.
pub proof fn lemma_index_of_distinct<A>(s: Seq<A>, i: int)
    requires
        s.no_duplicates(),
        0 <= i < s.len(),
    ensures
        s.contains(s[i]),
        s.index_of(s[i]) == i,
{
    assert(s.contains(s[i]));
    let j = s.index_of(s[i]);
    assert(0 <= j < s.len() && s[j] == s[i]);
}

/// Appending a fresh element keeps a sequence free of duplicates and adds
/// exactly that element to its set.
pub proof fn lemma_push_distinct<A>(s: Seq<A>, x: A)
    requires
        s.no_duplicates(),
        !s.contains(x),
    ensures
        s.push(x).no_duplicates(),
        s.push(x).to_set() == s.to_set().insert(x),
{
    let t = s.push(x);
    assert forall|i: int, j: int| 0 <= i < t.len() && 0 <= j < t.len() && i != j implies t[i]
        != t[j] by {
        if i == s.len() {
            assert(t[j] == s[j]);
        } else if j == s.len() {
            assert(t[i] == s[i]);
        } else {
            assert(t[i] == s[i] && t[j] == s[j]);
        }
    }
    assert forall|y: A| #[trigger] t.contains(y) <==> s.to_set().insert(x).contains(y) by {
        if t.contains(y) {
            let k = t.index_of(y);
            if k < s.len() {
                assert(s[k] == y);
            }
        }
        if s.contains(y) {
            let k = s.index_of(y);
            assert(t[k] == y);
        }
        if y == x {
            assert(t[s.len() as int] == y);
        }
    }
    assert(t.to_set() =~= s.to_set().insert(x));
}

/// Removing the element at `i` keeps a sequence free of duplicates and takes
/// exactly that element out of its set.
pub proof fn lemma_remove_distinct<A>(s: Seq<A>, i: int)
    requires
        s.no_duplicates(),
        0 <= i < s.len(),
    ensures
        s.remove(i).no_duplicates(),
        s.remove(i).to_set() == s.to_set().remove(s[i]),
        s.remove(i).len() == s.len() - 1,
        forall|k: int| 0 <= k < i ==> #[trigger] s.remove(i)[k] == s[k],
        forall|k: int| i <= k < s.len() - 1 ==> #[trigger] s.remove(i)[k] == s[k + 1],
{
    let t = s.remove(i);
    assert(t.len() == s.len() - 1);
    assert forall|k: int| 0 <= k < i implies #[trigger] t[k] == s[k] by {}
    assert forall|k: int| i <= k < s.len() - 1 implies #[trigger] t[k] == s[k + 1] by {}
    assert forall|a: int, b: int| 0 <= a < t.len() && 0 <= b < t.len() && a != b implies t[a]
        != t[b] by {
        let sa = if a < i { a } else { a + 1 };
        let sb = if b < i { b } else { b + 1 };
        assert(t[a] == s[sa]);
        assert(t[b] == s[sb]);
    }
    assert forall|y: A| #[trigger] t.contains(y) <==> s.to_set().remove(s[i]).contains(y) by {
        if t.contains(y) {
            let k = t.index_of(y);
            let sk = if k < i { k } else { k + 1 };
            assert(t[k] == s[sk]);
            assert(s.contains(y));
        }
        if s.contains(y) && y != s[i] {
            let k = s.index_of(y);
            if k < i {
                assert(t[k] == y);
            } else {
                assert(k != i);
                assert(t[k - 1] == y);
            }
        }
    }
    assert(t.to_set() =~= s.to_set().remove(s[i]));
}

} // verus!
