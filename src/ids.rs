use vstd::prelude::*;

verus! {

/// Every element is strictly smaller than every element after it.
pub open spec fn strictly_sorted(s: Seq<u64>) -> bool {
    forall|i: int, j: int| 0 <= i < j < s.len() ==> s[i] < s[j]
}

/// The two sequences hold the same values, ignoring order and repetition.
pub open spec fn same_elements(a: Seq<u64>, b: Seq<u64>) -> bool {
    forall|x: u64| a.contains(x) <==> b.contains(x)
}

/// Two strictly sorted sequences with the same values are equal: the sorted
/// form of a set of ids does not depend on the order in which it was given.
pub proof fn lemma_sorted_unique_is_canonical(a: Seq<u64>, b: Seq<u64>)
    requires
        strictly_sorted(a),
        strictly_sorted(b),
        same_elements(a, b),
    ensures
        a == b,
    decreases a.len(),
{
    if a.len() == 0 {
        if b.len() > 0 {
            assert(b.contains(b[0]));
        }
        assert(a =~= b);
    } else if b.len() == 0 {
        assert(a.contains(a[0]));
    } else {
        assert(a.contains(a[0]));
        assert(b.contains(b[0]));
        let j = choose|j: int| 0 <= j < b.len() && b[j] == a[0];
        let i = choose|i: int| 0 <= i < a.len() && a[i] == b[0];
        assert(a[0] == b[0]) by {
            if a[0] < b[0] {
                assert(j > 0);
            } else if b[0] < a[0] {
                assert(i > 0);
            }
        }
        let ta = a.drop_first();
        let tb = b.drop_first();
        assert forall|x: u64| ta.contains(x) <==> tb.contains(x) by {
            if ta.contains(x) {
                let k = choose|k: int| 0 <= k < ta.len() && ta[k] == x;
                assert(a[k + 1] == x);
                assert(a.contains(x));
                let m = choose|m: int| 0 <= m < b.len() && b[m] == x;
                assert(m > 0);
                assert(tb[m - 1] == x);
            }
            if tb.contains(x) {
                let k = choose|k: int| 0 <= k < tb.len() && tb[k] == x;
                assert(b[k + 1] == x);
                assert(b.contains(x));
                let m = choose|m: int| 0 <= m < a.len() && a[m] == x;
                assert(m > 0);
                assert(ta[m - 1] == x);
            }
        }
        lemma_sorted_unique_is_canonical(ta, tb);
        assert(a =~= seq![a[0]] + ta);
        assert(b =~= seq![b[0]] + tb);
    }
}

/// The strictly sorted sequence holding the values of `v` and `x`.
fn insert_sorted(v: &Vec<u64>, x: u64) -> (r: Vec<u64>)
    requires
        strictly_sorted(v@),
    ensures
        strictly_sorted(r@),
        forall|y: u64| r@.contains(y) <==> (v@.contains(y) || y == x),
{
    let mut r: Vec<u64> = Vec::new();
    let mut i: usize = 0;
    while i < v.len() && v[i] < x
        invariant
            i <= v.len(),
            strictly_sorted(v@),
            r@ == v@.take(i as int),
            forall|j: int| 0 <= j < i ==> v@[j] < x,
        decreases v.len() - i,
    {
        r.push(v[i]);
        i += 1;
    }
    let split = i;
    let present = i < v.len() && v[i] == x;
    if !present {
        r.push(x);
    }
    let ghost mid = r@;
    while i < v.len()
        invariant
            split <= i <= v.len(),
            strictly_sorted(v@),
            r@ == mid + v@.subrange(split as int, i as int),
            present ==> mid == v@.take(split as int),
            !present ==> mid == v@.take(split as int).push(x),
            forall|j: int| 0 <= j < split ==> v@[j] < x,
            split < v.len() ==> x <= v@[split as int],
        decreases v.len() - i,
    {
        r.push(v[i]);
        i += 1;
    }
    assert(v@.subrange(split as int, v.len() as int) == v@.skip(split as int));
    assert(v@ =~= v@.take(split as int) + v@.skip(split as int));
    assert forall|y: u64| r@.contains(y) <==> (v@.contains(y) || y == x) by {
        if r@.contains(y) {
            let k = choose|k: int| 0 <= k < r@.len() && r@[k] == y;
            if k < split {
                assert(v@[k] == y);
            } else if !present && k == split {
            } else {
                let d: int = if present { 0 } else { 1 };
                assert(v@[k - d] == y);
            }
        }
        if v@.contains(y) {
            let k = choose|k: int| 0 <= k < v@.len() && v@[k] == y;
            let d: int = if present || k < split { 0 } else { 1 };
            assert(r@[k + d] == y);
        }
        if y == x {
            if present {
                assert(r@[split as int] == y);
            } else {
                assert(r@[split as int] == y);
            }
        }
    }
    r
}

/// The values of `ids`, strictly sorted and without repetition.
pub fn sorted_unique(ids: &Vec<u64>) -> (r: Vec<u64>)
    ensures
        strictly_sorted(r@),
        same_elements(r@, ids@),
{
    let mut r: Vec<u64> = Vec::new();
    let mut i: usize = 0;
    while i < ids.len()
        invariant
            i <= ids.len(),
            strictly_sorted(r@),
            same_elements(r@, ids@.take(i as int)),
        decreases ids.len() - i,
    {
        let x = ids[i];
        r = insert_sorted(&r, x);
        let ghost t = ids@.take(i as int);
        let ghost t1 = ids@.take(i + 1);
        assert(t1 =~= t.push(x));
        assert forall|y: u64| t1.contains(y) <==> (t.contains(y) || y == x) by {
            if t1.contains(y) {
                let k = choose|k: int| 0 <= k < t1.len() && t1[k] == y;
                if k < i {
                    assert(t[k] == y);
                }
            }
            if t.contains(y) {
                let k = choose|k: int| 0 <= k < t.len() && t[k] == y;
                assert(t1[k] == y);
            }
            if y == x {
                assert(t1[i as int] == y);
            }
        }
        i += 1;
    }
    assert(ids@.take(ids.len() as int) =~= ids@);
    r
}

/// A set of `u64` ids held in strictly increasing order.
pub struct SortedIds {
    ids: Vec<u64>,
}

impl View for SortedIds {
    type V = Seq<u64>;

    closed spec fn view(&self) -> Seq<u64> {
        self.ids@
    }
}

impl SortedIds {
    /// The type's invariant: the ids are strictly increasing.
    pub open spec fn wf(&self) -> bool {
        strictly_sorted(self@)
    }

    /// The set holding the values of `ids`, in any order and with repeats.
    pub fn new(ids: &Vec<u64>) -> (r: SortedIds)
        ensures
            r.wf(),
            same_elements(r@, ids@),
    {
        SortedIds { ids: sorted_unique(ids) }
    }

    /// The empty set.
    pub fn empty() -> (r: SortedIds)
        ensures
            r.wf(),
            r@.len() == 0,
    {
        SortedIds { ids: Vec::new() }
    }

    pub fn len(&self) -> (r: usize)
        ensures
            r == self@.len(),
    {
        self.ids.len()
    }

    pub fn is_empty(&self) -> (r: bool)
        ensures
            r == (self@.len() == 0),
    {
        self.ids.len() == 0
    }

    /// The id at position `i` in increasing order.
    pub fn get(&self, i: usize) -> (r: u64)
        requires
            i < self@.len(),
        ensures
            r == self@[i as int],
    {
        self.ids[i]
    }

    /// The set without `x`; the remaining ids keep their order.
    pub fn without(&self, x: u64) -> (r: SortedIds)
        requires
            self.wf(),
        ensures
            r.wf(),
            forall|y: u64| r@.contains(y) <==> (self@.contains(y) && y != x),
    {
        let mut out: Vec<u64> = Vec::new();
        let mut i: usize = 0;
        while i < self.ids.len()
            invariant
                i <= self@.len(),
                strictly_sorted(self@),
                strictly_sorted(out@),
                forall|k: int|
                    #![trigger out@[k]]
                    0 <= k < out@.len() ==> exists|j: int|
                        0 <= j < i && self@[j] == out@[k] && out@[k] != x,
                forall|j: int| 0 <= j < i && self@[j] != x ==> out@.contains(#[trigger] self@[j]),
            decreases self@.len() - i,
        {
            let v = self.ids[i];
            if v != x {
                proof {
                    assert forall|k: int| 0 <= k < out@.len() implies out@[k] < v by {
                        let j = choose|j: int| 0 <= j < i && self@[j] == out@[k] && out@[k] != x;
                    }
                }
                let ghost before = out@;
                out.push(v);
                proof {
                    assert(out@[out@.len() - 1] == self@[i as int]);
                    assert forall|j: int| 0 <= j < i + 1 && self@[j] != x implies out@.contains(#[trigger] self@[j]) by {
                        if j < i {
                            assert(before.contains(self@[j]));
                            let k = choose|k: int| 0 <= k < before.len() && before[k] == self@[j];
                            assert(out@[k] == self@[j]);
                        } else {
                            assert(out@[out@.len() - 1] == self@[j]);
                        }
                    }
                }
            }
            i += 1;
        }
        proof {
            assert forall|y: u64| out@.contains(y) <==> (self@.contains(y) && y != x) by {
                if out@.contains(y) {
                    let k = choose|k: int| 0 <= k < out@.len() && out@[k] == y;
                    let j = choose|j: int| 0 <= j < i && self@[j] == out@[k] && out@[k] != x;
                }
                if self@.contains(y) && y != x {
                    let j = choose|j: int| 0 <= j < self@.len() && self@[j] == y;
                    assert(out@.contains(self@[j]));
                }
            }
        }
        SortedIds { ids: out }
    }

    /// Whether the two sets hold the same ids.
    pub fn same_as(&self, other: &SortedIds) -> (r: bool)
        ensures
            r == (self@ == other@),
    {
        if self.ids.len() != other.ids.len() {
            return false;
        }
        let mut i: usize = 0;
        while i < self.ids.len()
            invariant
                i <= self@.len(),
                self@.len() == other@.len(),
                forall|k: int| 0 <= k < i ==> self@[k] == other@[k],
            decreases self@.len() - i,
        {
            if self.ids[i] != other.ids[i] {
                return false;
            }
            i += 1;
        }
        assert(self@ =~= other@);
        true
    }

    /// The ids in increasing order.
    pub fn as_vec(&self) -> (r: &Vec<u64>)
        ensures
            r@ == self@,
    {
        &self.ids
    }
}

} // verus!
