//! Strictly ascending sequences of integers.

use vstd::prelude::*;

verus! {

/// Each element of `s` is less than the ones after it.
pub open spec fn ascending(s: Seq<int>) -> bool {
    forall|i: int, j: int| 0 <= i < j < s.len() ==> s[i] < s[j]
}

/// `s` holds exactly the members of `members`, in ascending order.
pub open spec fn lists_in_order(s: Seq<int>, members: Set<int>) -> bool {
    &&& ascending(s)
    &&& forall|x: int| s.contains(x) <==> members.contains(x)
}

/// The members of `members` in ascending order. Meaningful for a finite set.
pub open spec fn in_order(members: Set<int>) -> Seq<int> {
    choose|s: Seq<int>| lists_in_order(s, members)
}

/// Two ascending sequences with the same members are the same sequence.
pub proof fn lemma_ascending_unique(a: Seq<int>, b: Seq<int>)
    requires
        ascending(a),
        ascending(b),
        forall|x: int| a.contains(x) <==> b.contains(x),
    ensures
        a == b,
    decreases a.len(),
{
    if a.len() == 0 {
        if b.len() > 0 {
            assert(b.contains(b[0]));
        }
        assert(a =~= b);
    } else {
        assert(a.contains(a[0]));
        assert(b.contains(a[0]));
        let ib = choose|i: int| 0 <= i < b.len() && b[i] == a[0];
        assert(b.contains(b[0]));
        assert(a.contains(b[0]));
        let ia = choose|i: int| 0 <= i < a.len() && a[i] == b[0];
        assert(a[0] == b[0]);
        let a1 = a.drop_first();
        let b1 = b.drop_first();
        assert forall|x: int| a1.contains(x) <==> b1.contains(x) by {
            if a1.contains(x) {
                let i = choose|i: int| 0 <= i < a1.len() && a1[i] == x;
                assert(a[i + 1] == x);
                assert(a.contains(x));
                let j = choose|j: int| 0 <= j < b.len() && b[j] == x;
                assert(j > 0);
                assert(b1[j - 1] == x);
            }
            if b1.contains(x) {
                let i = choose|i: int| 0 <= i < b1.len() && b1[i] == x;
                assert(b[i + 1] == x);
                assert(b.contains(x));
                let j = choose|j: int| 0 <= j < a.len() && a[j] == x;
                assert(j > 0);
                assert(a1[j - 1] == x);
            }
        }
        lemma_ascending_unique(a1, b1);
        assert(a =~= seq![a[0]] + a1);
        assert(b =~= seq![b[0]] + b1);
    }
}

/// A sequence that lists a set in ascending order is the set's order.
pub proof fn lemma_in_order_is(s: Seq<int>, members: Set<int>)
    requires
        lists_in_order(s, members),
    ensures
        in_order(members) == s,
{
    let chosen = in_order(members);
    assert(lists_in_order(chosen, members));
    lemma_ascending_unique(chosen, s);
}

/// `s` with `x` put in its place, unless it is there already.
pub open spec fn insert_sorted(s: Seq<int>, x: int) -> Seq<int>
    decreases s.len(),
{
    if s.len() == 0 {
        seq![x]
    } else if x < s[0] {
        seq![x] + s
    } else if x == s[0] {
        s
    } else {
        seq![s[0]] + insert_sorted(s.drop_first(), x)
    }
}

/// Putting `x` in its place in a list of `members` lists `members` with `x`.
pub proof fn lemma_insert_sorted(s: Seq<int>, members: Set<int>, x: int)
    requires
        lists_in_order(s, members),
    ensures
        lists_in_order(insert_sorted(s, x), members.insert(x)),
        insert_sorted(s, x).len() > 0,
        insert_sorted(s, x)[0] == if s.len() == 0 || x < s[0] {
            x
        } else {
            s[0]
        },
    decreases s.len(),
{
    let r = insert_sorted(s, x);
    if s.len() == 0 {
        assert(r[0] == x);
        assert forall|y: int| r.contains(y) <==> members.insert(x).contains(y) by {
            if r.contains(y) {
                let i = choose|i: int| 0 <= i < r.len() && r[i] == y;
            }
            if members.contains(y) {
                assert(s.contains(y));
            }
        }
    } else if x < s[0] {
        assert forall|y: int| r.contains(y) <==> members.insert(x).contains(y) by {
            if r.contains(y) {
                let i = choose|i: int| 0 <= i < r.len() && r[i] == y;
                if i > 0 {
                    assert(s[i - 1] == y);
                    assert(s.contains(y));
                }
            }
            if members.contains(y) {
                assert(s.contains(y));
                let i = choose|i: int| 0 <= i < s.len() && s[i] == y;
                assert(r[i + 1] == y);
            }
            if y == x {
                assert(r[0] == y);
            }
        }
    } else if x == s[0] {
        assert(s.contains(s[0]));
        assert(members.insert(x) =~= members);
    } else {
        let s1 = s.drop_first();
        let m1 = members.remove(s[0]);
        assert forall|y: int| s1.contains(y) <==> m1.contains(y) by {
            if s1.contains(y) {
                let i = choose|i: int| 0 <= i < s1.len() && s1[i] == y;
                assert(s[i + 1] == y);
                assert(s.contains(y));
            }
            if m1.contains(y) {
                assert(s.contains(y));
                let i = choose|i: int| 0 <= i < s.len() && s[i] == y;
                assert(s1[i - 1] == y);
            }
        }
        lemma_insert_sorted(s1, m1, x);
        let r1 = insert_sorted(s1, x);
        assert(r =~= seq![s[0]] + r1);
        assert forall|i: int, j: int| 0 <= i < j < r.len() implies r[i] < r[j] by {
            if i == 0 {
                assert(r1.contains(r1[j - 1]));
                assert(m1.insert(x).contains(r1[j - 1]));
                if r1[j - 1] != x {
                    assert(s1.contains(r1[j - 1]));
                    let k = choose|k: int| 0 <= k < s1.len() && s1[k] == r1[j - 1];
                    assert(s[k + 1] == r1[j - 1]);
                }
            } else {
                assert(r1[i - 1] < r1[j - 1]);
            }
        }
        assert forall|y: int| r.contains(y) <==> members.insert(x).contains(y) by {
            if r.contains(y) {
                let i = choose|i: int| 0 <= i < r.len() && r[i] == y;
                if i == 0 {
                    assert(s.contains(s[0]));
                } else {
                    assert(r1.contains(r1[i - 1]));
                }
            }
            if members.insert(x).contains(y) {
                if y == s[0] {
                    assert(r[0] == y);
                } else {
                    assert(m1.insert(x).contains(y));
                    assert(r1.contains(y));
                    let i = choose|i: int| 0 <= i < r1.len() && r1[i] == y;
                    assert(r[i + 1] == y);
                }
            }
        }
    }
}

/// In an ascending list, a member that is greater than the element at
/// `i` stands behind it.
pub proof fn lemma_next_in_order(s: Seq<int>, i: int, x: int)
    requires
        ascending(s),
        0 <= i < s.len(),
        s.contains(x),
        s[i] < x,
    ensures
        i + 1 < s.len(),
        s[i + 1] <= x,
{
    let k = choose|k: int| 0 <= k < s.len() && s[k] == x;
    if k <= i {
        if k < i {
            assert(s[k] < s[i]);
        }
    }
    if k > i + 1 {
        assert(s[i + 1] < s[k]);
    }
}

} // verus!
