use vstd::prelude::*;

use crate::system::ComponentId;

verus! {

/// The ids ascend strictly.
pub open spec fn sorted_strict(r: Seq<ComponentId>) -> bool {
    forall|i: int, j: int| 0 <= i < j < r.len() ==> r[i] < r[j]
}

/// The ids of the finite set `u`, in ascending order.
pub open spec fn sorted_ids(u: Set<ComponentId>) -> Seq<ComponentId> {
    choose|r: Seq<ComponentId>| sorted_strict(r) && r.to_set() == u
}

/// Two strictly ascending sequences with the same items are equal.
pub proof fn lemma_sorted_unique(a: Seq<ComponentId>, b: Seq<ComponentId>)
    requires
        sorted_strict(a),
        sorted_strict(b),
        a.to_set() == b.to_set(),
    ensures
        a == b,
    decreases a.len(),
{
    if a.len() == 0 {
        if b.len() > 0 {
            assert(b.to_set().contains(b[0]));
        }
        assert(a =~= b);
    } else {
        assert(a.to_set().contains(a[0]));
        assert(b.len() > 0);
        assert(b.to_set().contains(b[0]));
        let ka = choose|k: int| 0 <= k < b.len() && b[k] == a[0];
        let kb = choose|k: int| 0 <= k < a.len() && a[k] == b[0];
        assert(a[0] == b[0]) by {
            if ka > 0 {
                assert(b[0] < b[ka]);
            }
            if kb > 0 {
                assert(a[0] < a[kb]);
            }
        }
        let ra = a.drop_first();
        let rb = b.drop_first();
        assert(ra.to_set() =~= a.to_set().remove(a[0])) by {
            assert forall|x: ComponentId| ra.to_set().contains(x) implies x != a[0] by {
                let k = choose|k: int| 0 <= k < ra.len() && ra[k] == x;
                assert(a[k + 1] == x);
            }
            assert forall|x: ComponentId| a.to_set().contains(x) && x != a[0] implies ra.to_set().contains(x) by {
                let k = choose|k: int| 0 <= k < a.len() && a[k] == x;
                assert(ra[k - 1] == x);
            }
        }
        assert(rb.to_set() =~= b.to_set().remove(b[0])) by {
            assert forall|x: ComponentId| rb.to_set().contains(x) implies x != b[0] by {
                let k = choose|k: int| 0 <= k < rb.len() && rb[k] == x;
                assert(b[k + 1] == x);
            }
            assert forall|x: ComponentId| b.to_set().contains(x) && x != b[0] implies rb.to_set().contains(x) by {
                let k = choose|k: int| 0 <= k < b.len() && b[k] == x;
                assert(rb[k - 1] == x);
            }
        }
        lemma_sorted_unique(ra, rb);
        assert(a =~= seq![a[0]] + ra);
        assert(b =~= seq![b[0]] + rb);
    }
}

/// `x` inserted into the strictly ascending `r`, unless it is there already.
pub open spec fn ins_sorted(r: Seq<ComponentId>, x: ComponentId) -> Seq<ComponentId>
    decreases r.len(),
{
    if r.len() == 0 {
        seq![x]
    } else if x < r[0] {
        seq![x] + r
    } else if x == r[0] {
        r
    } else {
        seq![r[0]] + ins_sorted(r.drop_first(), x)
    }
}

proof fn lemma_ins_sorted(r: Seq<ComponentId>, x: ComponentId)
    requires
        sorted_strict(r),
    ensures
        sorted_strict(ins_sorted(r, x)),
        ins_sorted(r, x).to_set() == r.to_set().insert(x),
    decreases r.len(),
{
    let t = ins_sorted(r, x);
    if r.len() == 0 {
        assert(t.to_set() =~= r.to_set().insert(x)) by {
            assert(t[0] == x);
        }
    } else if x < r[0] {
        assert(t.to_set() =~= r.to_set().insert(x)) by {
            assert forall|y: ComponentId| t.to_set().contains(y) <==> r.to_set().insert(x).contains(y) by {
                if t.to_set().contains(y) {
                    let k = choose|k: int| 0 <= k < t.len() && t[k] == y;
                    if k > 0 {
                        assert(r[k - 1] == y);
                    }
                }
                if r.to_set().contains(y) {
                    let k = choose|k: int| 0 <= k < r.len() && r[k] == y;
                    assert(t[k + 1] == y);
                }
                if y == x {
                    assert(t[0] == x);
                }
            }
        }
        assert forall|a: int, b: int| 0 <= a < b < t.len() implies t[a] < t[b] by {
            if a > 0 {
                assert(t[a] == r[a - 1] && t[b] == r[b - 1]);
            } else {
                assert(t[b] == r[b - 1]);
                assert(r[0] <= r[b - 1]) by {
                    if b - 1 > 0 {
                        assert(r[0] < r[b - 1]);
                    }
                }
            }
        }
    } else if x == r[0] {
        assert(r.to_set().contains(x));
        assert(t.to_set() =~= r.to_set().insert(x));
    } else {
        let tail = r.drop_first();
        lemma_ins_sorted(tail, x);
        let rest = ins_sorted(tail, x);
        assert(t == seq![r[0]] + rest);
        assert forall|y: ComponentId| rest.to_set().contains(y) implies r[0] < y by {
            assert(tail.to_set().insert(x).contains(y));
            if y != x {
                let k = choose|k: int| 0 <= k < tail.len() && tail[k] == y;
                assert(r[k + 1] == y);
            }
        }
        assert forall|a: int, b: int| 0 <= a < b < t.len() implies t[a] < t[b] by {
            if a == 0 {
                assert(t[b] == rest[b - 1]);
                assert(rest.to_set().contains(rest[b - 1]));
            } else {
                assert(t[a] == rest[a - 1] && t[b] == rest[b - 1]);
            }
        }
        assert forall|y: ComponentId| t.to_set().contains(y) <==> r.to_set().insert(x).contains(y) by {
            if t.to_set().contains(y) {
                let k = choose|k: int| 0 <= k < t.len() && t[k] == y;
                if k > 0 {
                    assert(rest.to_set().contains(y));
                    if y != x {
                        assert(tail.to_set().contains(y));
                        let m = choose|m: int| 0 <= m < tail.len() && tail[m] == y;
                        assert(r[m + 1] == y);
                    }
                } else {
                    assert(r[0] == y);
                }
            }
            if r.to_set().contains(y) {
                let k = choose|k: int| 0 <= k < r.len() && r[k] == y;
                if k == 0 {
                    assert(t[0] == y);
                } else {
                    assert(tail[k - 1] == y);
                    assert(tail.to_set().insert(x).contains(y));
                    assert(rest.to_set().contains(y));
                    let m = choose|m: int| 0 <= m < rest.len() && rest[m] == y;
                    assert(t[m + 1] == y);
                }
            }
            if y == x {
                assert(rest.to_set().contains(x));
                let m = choose|m: int| 0 <= m < rest.len() && rest[m] == x;
                assert(t[m + 1] == x);
            }
        }
        assert(t.to_set() =~= r.to_set().insert(x));
    }
}

/// The items of `xs` that satisfy `p` can be listed in ascending order, and
/// `sorted_ids` lists them so.
pub proof fn lemma_sorted_filter(xs: Seq<ComponentId>, p: spec_fn(ComponentId) -> bool)
    ensures
        sorted_strict(sorted_ids(Set::new(|c: ComponentId| xs.contains(c) && p(c)))),
        sorted_ids(Set::new(|c: ComponentId| xs.contains(c) && p(c))).to_set() == Set::new(
            |c: ComponentId| xs.contains(c) && p(c),
        ),
{
    let u = Set::new(|c: ComponentId| xs.contains(c) && p(c));
    let r = lemma_sorted_witness(xs, p);
    assert(sorted_strict(r) && r.to_set() == u);
}

proof fn lemma_sorted_witness(xs: Seq<ComponentId>, p: spec_fn(ComponentId) -> bool) -> (r: Seq<ComponentId>)
    ensures
        sorted_strict(r),
        r.to_set() == Set::new(|c: ComponentId| xs.contains(c) && p(c)),
    decreases xs.len(),
{
    if xs.len() == 0 {
        let r = Seq::<ComponentId>::empty();
        assert(r.to_set() =~= Set::new(|c: ComponentId| xs.contains(c) && p(c)));
        r
    } else {
        let init = xs.drop_last();
        let x = xs.last();
        let r0 = lemma_sorted_witness(init, p);
        assert forall|c: ComponentId| #[trigger] xs.contains(c) <==> init.contains(c) || c == x by {
            if xs.contains(c) {
                let k = choose|k: int| 0 <= k < xs.len() && xs[k] == c;
                if k < init.len() {
                    assert(init[k] == c);
                }
            }
            if init.contains(c) {
                let k = choose|k: int| 0 <= k < init.len() && init[k] == c;
                assert(xs[k] == c);
            }
            if c == x {
                assert(xs[xs.len() - 1] == c);
            }
        }
        if p(x) {
            lemma_ins_sorted(r0, x);
            let r = ins_sorted(r0, x);
            assert(r.to_set() =~= Set::new(|c: ComponentId| xs.contains(c) && p(c)));
            r
        } else {
            assert(r0.to_set() =~= Set::new(|c: ComponentId| xs.contains(c) && p(c)));
            r0
        }
    }
}

/// Inserts `x` into the strictly ascending `v`, unless it is there already.
pub fn insert_sorted(v: &mut Vec<ComponentId>, x: ComponentId)
    requires
        sorted_strict(old(v)@),
    ensures
        sorted_strict(final(v)@),
        final(v)@.to_set() == old(v)@.to_set().insert(x),
{
    let mut i: usize = 0;
    while i < v.len() && v[i] < x
        invariant
            0 <= i <= v@.len(),
            forall|j: int| 0 <= j < i ==> v@[j] < x,
        decreases v@.len() - i,
    {
        i = i + 1;
    }
    if i < v.len() && v[i] == x {
        assert(v@.to_set().insert(x) =~= v@.to_set());
        return;
    }
    let ghost w = v@;
    v.insert(i, x);
    proof {
        let n = v@;
        assert forall|a: int, b: int| 0 <= a < b < n.len() implies n[a] < n[b] by {
            if b < i {
            } else if b == i {
            } else if a < i {
                assert(w[b - 1] >= w[i as int] || b - 1 == i);
            } else if a == i {
                assert(w[i as int] > x);
                assert(w[b - 1] >= w[i as int] || b - 1 == i);
            } else {
            }
        }
        assert forall|y: ComponentId| n.to_set().contains(y) <==> w.to_set().insert(x).contains(y) by {
            if n.to_set().contains(y) {
                let k = choose|k: int| 0 <= k < n.len() && n[k] == y;
                if k < i {
                    assert(w[k] == y);
                } else if k > i {
                    assert(w[k - 1] == y);
                }
            }
            if w.to_set().contains(y) {
                let k = choose|k: int| 0 <= k < w.len() && w[k] == y;
                if k < i {
                    assert(n[k] == y);
                } else {
                    assert(n[k + 1] == y);
                }
            }
            if y == x {
                assert(n[i as int] == x);
            }
        }
        assert(n.to_set() =~= w.to_set().insert(x));
    }
}

/// The ids that occur in `a` or `b`, each once, in ascending order.
pub fn sorted_union(a: &[ComponentId], b: &[ComponentId]) -> (r: Vec<ComponentId>)
    ensures
        sorted_strict(r@),
        r@.to_set() == a@.to_set() + b@.to_set(),
        r@ == sorted_ids(a@.to_set() + b@.to_set()),
{
    let mut v: Vec<ComponentId> = Vec::new();
    let mut i: usize = 0;
    while i < a.len()
        invariant
            0 <= i <= a@.len(),
            sorted_strict(v@),
            v@.to_set() == a@.take(i as int).to_set(),
        decreases a@.len() - i,
    {
        insert_sorted(&mut v, a[i]);
        assert(a@.take(i + 1) =~= a@.take(i as int).push(a@[i as int]));
        proof {
            a@.take(i as int).lemma_push_to_set_commute(a@[i as int]);
        }
        i = i + 1;
    }
    assert(a@.take(a@.len() as int) =~= a@);
    let mut i: usize = 0;
    while i < b.len()
        invariant
            0 <= i <= b@.len(),
            sorted_strict(v@),
            v@.to_set() == a@.to_set() + b@.take(i as int).to_set(),
        decreases b@.len() - i,
    {
        insert_sorted(&mut v, b[i]);
        assert(b@.take(i + 1) =~= b@.take(i as int).push(b@[i as int]));
        proof {
            b@.take(i as int).lemma_push_to_set_commute(b@[i as int]);
            assert(v@.to_set() =~= a@.to_set() + b@.take(i + 1).to_set());
        }
        i = i + 1;
    }
    assert(b@.take(b@.len() as int) =~= b@);
    proof {
        let u = a@.to_set() + b@.to_set();
        assert(sorted_strict(v@) && v@.to_set() == u);
        let c = sorted_ids(u);
        lemma_sorted_unique(v@, c);
    }
    v
}

} // verus!
