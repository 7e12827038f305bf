//! Facts about sequences without duplicates, the shape of every id list
//! kept here.

use vstd::prelude::*;

verus! {

/// Appending a value that is not there keeps a sequence free of
/// duplicates; the result holds the old values and the new one.
pub proof fn lemma_push_fresh<A>(s: Seq<A>, x: A)
    requires
        s.no_duplicates(),
        !s.contains(x),
    ensures
        s.push(x).no_duplicates(),
        forall|y: A| #[trigger] s.push(x).contains(y) <==> (s.contains(y) || y == x),
{
    let t = s.push(x);
    assert forall|a: int, b: int| 0 <= a < t.len() && 0 <= b < t.len() && a != b implies t[a]
        != t[b] by {
        if a < s.len() && b < s.len() {
            assert(t[a] == s[a] && t[b] == s[b]);
        } else if a < s.len() {
            assert(s.contains(t[a]));
        } else {
            assert(s.contains(t[b]));
        }
    }
    assert forall|y: A| #[trigger] t.contains(y) implies (s.contains(y) || y == x) by {
        let k = t.index_of(y);
        if k < s.len() {
            assert(s[k] == y);
        }
    }
    assert forall|y: A| s.contains(y) implies #[trigger] t.contains(y) by {
        let k = s.index_of(y);
        assert(t[k] == y);
    }
    assert(t[s.len() as int] == x);
}

/// Removing the value at `i` keeps a sequence free of duplicates; the
/// result holds every other value and not that one.
pub proof fn lemma_remove_at<A>(s: Seq<A>, i: int)
    requires
        s.no_duplicates(),
        0 <= i < s.len(),
    ensures
        s.remove(i).no_duplicates(),
        forall|y: A| #[trigger] s.remove(i).contains(y) <==> (s.contains(y) && y != s[i]),
{
    let t = s.remove(i);
    assert forall|a: int, b: int| 0 <= a < t.len() && 0 <= b < t.len() && a != b implies t[a]
        != t[b] by {
        let oa = if a < i {
            a
        } else {
            a + 1
        };
        let ob = if b < i {
            b
        } else {
            b + 1
        };
        assert(t[a] == s[oa]);
        assert(t[b] == s[ob]);
    }
    assert forall|y: A| #[trigger] t.contains(y) implies s.contains(y) && y != s[i] by {
        let k = t.index_of(y);
        if k < i {
            assert(s[k] == y);
        } else {
            assert(s[k + 1] == y);
        }
    }
    assert forall|y: A| s.contains(y) && y != s[i] implies #[trigger] t.contains(y) by {
        let k = s.index_of(y);
        if k < i {
            assert(t[k] == y);
        } else {
            assert(t[k - 1] == y);
        }
    }
}

} // verus!
