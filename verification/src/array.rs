//! An ordered, heterogeneous sequence of JSON-like values.
//!
//! [`JSONArray`] keeps one list per value kind and tags every stored element
//! with a logical position.  Across the seven lists the positions always form
//! the dense range `[0, len)`: appending assigns the next free position, and
//! removing an element closes the gap by decrementing every position above the
//! removed one — the index-repair step proved correct here.

use crate::object::JSONObject;
use crate::Null;
use vstd::prelude::*;

verus! {

/// The logical positions carried by an element list, in storage order.
pub open spec fn idxs<T>(s: Seq<(T, usize)>) -> Seq<int> {
    s.map_values(|e: (T, usize)| e.1 as int)
}

/// Does the position list `l` contain position `p`?
pub open spec fn seq_has_pos(l: Seq<int>, p: int) -> bool {
    exists|i: int| 0 <= i < l.len() && l[i] == p
}

/// The storage index at which `l` holds position `p`; unique when `l` is
/// strictly increasing.
pub open spec fn seq_pos_index(l: Seq<int>, p: int) -> int {
    choose|i: int| 0 <= i < l.len() && l[i] == p
}

/// Is the position list strictly increasing in storage order?
pub open spec fn seq_increasing(l: Seq<int>) -> bool {
    forall|i: int, j: int| 0 <= i < j < l.len() ==> l[i] < l[j]
}

/// A position after the slot `p` is closed up: positions above `p` fall by
/// one, positions below it stay.
pub open spec fn shifted(q: int, p: int) -> int {
    if q > p {
        q - 1
    } else {
        q
    }
}

/// The position that `shifted(_, p)` maps onto `q`; never equal to `p`.
pub open spec fn unshifted(q: int, p: int) -> int {
    if q >= p {
        q + 1
    } else {
        q
    }
}

/// A position list after the slot `p` is closed up.
pub open spec fn seq_shift(l: Seq<int>, p: int) -> Seq<int> {
    l.map_values(|q: int| shifted(q, p))
}

/// One element after the slot `p` is closed up: the payload stays, the
/// position moves as `shifted` says.
pub open spec fn shift_entry<T>(e: (T, usize), p: int) -> (T, usize) {
    (
        e.0,
        if e.1 > p {
            (e.1 - 1) as usize
        } else {
            e.1
        },
    )
}

/// An element list after the slot `p` is closed up.
pub open spec fn shift_entries<T>(s: Seq<(T, usize)>, p: int) -> Seq<(T, usize)> {
    s.map_values(|e: (T, usize)| shift_entry(e, p))
}

/// One summand of [`JSONArray::kinds_at`].
pub open spec fn indicator(b: bool) -> int {
    if b {
        1
    } else {
        0
    }
}

/// An ordered sequence of heterogeneous values, stored as seven per-kind
/// element lists whose logical positions together enumerate the sequence.
/// Each stored element is a pair of payload and logical position.
///
/// Float payloads are carried as raw bit patterns (`f32::to_bits`); the
/// container never interprets them.
#[derive(Debug)]
pub struct JSONArray {
    ints: Vec<(i32, usize)>,
    floats: Vec<(u32, usize)>,
    bools: Vec<(bool, usize)>,
    strings: Vec<(String, usize)>,
    arrays: Vec<(JSONArray, usize)>,
    objects: Vec<(JSONObject, usize)>,
    nulls: Vec<(Null, usize)>,
    item_count: usize,
}

impl JSONArray {
    /// The stored integer elements, in storage order.
    pub closed spec fn int_items(self) -> Seq<(i32, usize)> {
        self.ints@
    }

    /// The stored float elements (as bit patterns), in storage order.
    pub closed spec fn float_items(self) -> Seq<(u32, usize)> {
        self.floats@
    }

    /// The stored boolean elements, in storage order.
    pub closed spec fn bool_items(self) -> Seq<(bool, usize)> {
        self.bools@
    }

    /// The stored text elements, in storage order.
    pub closed spec fn string_items(self) -> Seq<(String, usize)> {
        self.strings@
    }

    /// The stored nested-array elements, in storage order.
    pub closed spec fn array_items(self) -> Seq<(JSONArray, usize)> {
        self.arrays@
    }

    /// The stored nested-object elements, in storage order.
    pub closed spec fn object_items(self) -> Seq<(JSONObject, usize)> {
        self.objects@
    }

    /// The stored null elements, in storage order.
    pub closed spec fn null_items(self) -> Seq<(Null, usize)> {
        self.nulls@
    }

    /// The number of stored elements, over all seven lists.
    pub closed spec fn spec_len(self) -> usize {
        self.item_count
    }

    /// The seven per-kind position lists.
    pub open spec fn pos_lists(self) -> Seq<Seq<int>> {
        seq![
            idxs(self.int_items()),
            idxs(self.float_items()),
            idxs(self.bool_items()),
            idxs(self.string_items()),
            idxs(self.array_items()),
            idxs(self.object_items()),
            idxs(self.null_items()),
        ]
    }

    /// In how many of the seven lists does position `p` occur?
    pub open spec fn kinds_at(self, p: int) -> int {
        indicator(seq_has_pos(self.pos_lists()[0], p)) + indicator(
            seq_has_pos(self.pos_lists()[1], p),
        ) + indicator(seq_has_pos(self.pos_lists()[2], p)) + indicator(
            seq_has_pos(self.pos_lists()[3], p),
        ) + indicator(seq_has_pos(self.pos_lists()[4], p)) + indicator(
            seq_has_pos(self.pos_lists()[5], p),
        ) + indicator(seq_has_pos(self.pos_lists()[6], p))
    }

    /// The array's invariant: every per-kind position list is strictly
    /// increasing, every logical position below the length is held by exactly
    /// one list, and no other position is held at all.  The positions in use
    /// therefore form the dense range `[0, len)`, without duplicate or gap.
    pub open spec fn wf(self) -> bool {
        &&& forall|j: int| 0 <= j < 7 ==> seq_increasing(#[trigger] self.pos_lists()[j])
        &&& forall|p: int| 0 <= p < self.spec_len() ==> self.kinds_at(p) == 1
        &&& forall|p: int| !(0 <= p < self.spec_len()) ==> self.kinds_at(p) == 0
    }
}

/// Every logical position below the length is held by exactly one kind's
/// list, and no position at or beyond the length is held at all.
pub proof fn lemma_positions_dense(a: JSONArray, p: int)
    requires
        a.wf(),
    ensures
        0 <= p < a.spec_len() ==> a.kinds_at(p) == 1,
        !(0 <= p < a.spec_len()) ==> a.kinds_at(p) == 0,
{
}

/// Closing up a removed slot keeps the relative order of the surviving
/// elements: `shifted(_, p)` is strictly monotone on positions other than `p`.
pub proof fn lemma_shift_keeps_order(q1: int, q2: int, p: int)
    requires
        q1 < q2,
        q1 != p,
        q2 != p,
    ensures
        shifted(q1, p) < shifted(q2, p),
{
}

/// Closing up a removed slot moves elements, never rewrites them: entry `i`
/// of a shifted list keeps its payload, and its position moves as `shifted`
/// says.
pub proof fn lemma_shift_entries_pointwise<T>(s: Seq<(T, usize)>, p: int, i: int)
    requires
        0 <= i < s.len(),
        0 <= p,
    ensures
        shift_entries(s, p).len() == s.len(),
        shift_entries(s, p)[i].0 == s[i].0,
        shift_entries(s, p)[i].1 as int == shifted(s[i].1 as int, p),
{
}

proof fn lemma_idxs_push<T>(s: Seq<(T, usize)>, e: (T, usize))
    ensures
        idxs(s.push(e)) == idxs(s).push(e.1 as int),
{
    assert(idxs(s.push(e)) =~= idxs(s).push(e.1 as int));
}

proof fn lemma_idxs_remove<T>(s: Seq<(T, usize)>, j: int)
    requires
        0 <= j < s.len(),
    ensures
        idxs(s.remove(j)) == idxs(s).remove(j),
{
    s.remove_ensures(j);
    idxs(s).remove_ensures(j);
    assert(idxs(s.remove(j)) =~= idxs(s).remove(j));
}

proof fn lemma_idxs_shift<T>(s: Seq<(T, usize)>, p: int)
    requires
        0 <= p,
    ensures
        idxs(shift_entries(s, p)) == seq_shift(idxs(s), p),
{
    assert(idxs(shift_entries(s, p)) =~= seq_shift(idxs(s), p));
}

proof fn lemma_seq_push_has(l: Seq<int>, v: int)
    ensures
        forall|q: int| #[trigger] seq_has_pos(l.push(v), q) <==> (seq_has_pos(l, q) || q == v),
{
    assert forall|q: int| #[trigger] seq_has_pos(l.push(v), q) <==> (seq_has_pos(l, q) || q
        == v) by {
        if seq_has_pos(l.push(v), q) {
            let i = seq_pos_index(l.push(v), q);
            assert(0 <= i < l.push(v).len() && l.push(v)[i] == q);
            if i < l.len() {
                assert(l[i] == q);
                assert(seq_has_pos(l, q));
            }
        }
        if seq_has_pos(l, q) {
            let i = seq_pos_index(l, q);
            assert(0 <= i < l.len() && l[i] == q);
            assert(l.push(v)[i] == q);
            assert(seq_has_pos(l.push(v), q));
        }
        if q == v {
            assert(l.push(v)[l.len() as int] == v);
            assert(seq_has_pos(l.push(v), q));
        }
    }
}

proof fn lemma_seq_push_increasing(l: Seq<int>, v: int)
    requires
        seq_increasing(l),
        forall|i: int| 0 <= i < l.len() ==> #[trigger] l[i] < v,
    ensures
        seq_increasing(l.push(v)),
{
    let l2 = l.push(v);
    assert forall|a: int, b: int| 0 <= a < b < l2.len() implies l2[a] < l2[b] by {
        assert(l2[a] == l[a]);
        if b < l.len() {
            assert(l2[b] == l[b]);
        } else {
            assert(l2[b] == v);
        }
    }
}

proof fn lemma_seq_remove_has(l: Seq<int>, j: int)
    requires
        seq_increasing(l),
        0 <= j < l.len(),
    ensures
        seq_increasing(l.remove(j)),
        !seq_has_pos(l.remove(j), l[j]),
        forall|q: int|
            q != l[j] ==> (#[trigger] seq_has_pos(l.remove(j), q) <==> seq_has_pos(l, q)),
{
    l.remove_ensures(j);
    let l2 = l.remove(j);
    assert forall|a: int, b: int| 0 <= a < b < l2.len() implies l2[a] < l2[b] by {
        let a0: int = if a < j {
            a
        } else {
            a + 1
        };
        let b0: int = if b < j {
            b
        } else {
            b + 1
        };
        assert(l2[a] == l[a0]);
        assert(l2[b] == l[b0]);
    }
    assert forall|i: int| 0 <= i < l2.len() implies l2[i] != l[j] by {
        let i0: int = if i < j {
            i
        } else {
            i + 1
        };
        assert(l2[i] == l[i0]);
        if i0 < j {
            assert(l[i0] < l[j]);
        } else {
            assert(l[j] < l[i0]);
        }
    }
    assert(!seq_has_pos(l2, l[j]));
    assert forall|q: int|
        q != l[j] implies (#[trigger] seq_has_pos(l2, q) <==> seq_has_pos(l, q)) by {
        if seq_has_pos(l2, q) {
            let i = seq_pos_index(l2, q);
            assert(0 <= i < l2.len() && l2[i] == q);
            let i0: int = if i < j {
                i
            } else {
                i + 1
            };
            assert(l[i0] == q);
            assert(seq_has_pos(l, q));
        }
        if seq_has_pos(l, q) {
            let i0 = seq_pos_index(l, q);
            assert(0 <= i0 < l.len() && l[i0] == q);
            assert(i0 != j);
            let i: int = if i0 < j {
                i0
            } else {
                i0 - 1
            };
            assert(l2[i] == l[i0]);
            assert(seq_has_pos(l2, q));
        }
    }
}

proof fn lemma_seq_pos_unique(l: Seq<int>, i: int)
    requires
        seq_increasing(l),
        0 <= i < l.len(),
    ensures
        seq_has_pos(l, l[i]),
        seq_pos_index(l, l[i]) == i,
{
    assert(seq_has_pos(l, l[i]));
    let j = seq_pos_index(l, l[i]);
    assert(0 <= j < l.len() && l[j] == l[i]);
    if i < j {
        assert(l[i] < l[j]);
    }
    if j < i {
        assert(l[j] < l[i]);
    }
}

proof fn lemma_seq_shift_has(l: Seq<int>, p: int)
    requires
        !seq_has_pos(l, p),
    ensures
        forall|q: int| #[trigger] seq_has_pos(seq_shift(l, p), q) <==> seq_has_pos(
            l,
            unshifted(q, p),
        ),
        seq_increasing(l) ==> seq_increasing(seq_shift(l, p)),
{
    let l2 = seq_shift(l, p);
    assert forall|q: int| #[trigger] seq_has_pos(l2, q) <==> seq_has_pos(l, unshifted(q, p)) by {
        if seq_has_pos(l2, q) {
            let i = seq_pos_index(l2, q);
            assert(0 <= i < l2.len() && l2[i] == q);
            assert(l2[i] == shifted(l[i], p));
            if l[i] == p {
                assert(seq_has_pos(l, p));
            }
            assert(l[i] == unshifted(q, p));
            assert(seq_has_pos(l, unshifted(q, p)));
        }
        if seq_has_pos(l, unshifted(q, p)) {
            let i = seq_pos_index(l, unshifted(q, p));
            assert(0 <= i < l.len() && l[i] == unshifted(q, p));
            assert(l2[i] == shifted(l[i], p));
            assert(l2[i] == q);
            assert(seq_has_pos(l2, q));
        }
    }
    if seq_increasing(l) {
        assert forall|a: int, b: int| 0 <= a < b < l2.len() implies l2[a] < l2[b] by {
            assert(l2[a] == shifted(l[a], p));
            assert(l2[b] == shifted(l[b], p));
            assert(l[a] < l[b]);
            if l[a] == p {
                assert(seq_has_pos(l, p));
            }
            if l[b] == p {
                assert(seq_has_pos(l, p));
            }
        }
        assert(seq_increasing(l2));
    }
}

proof fn lemma_pos_in_range(a: JSONArray, j: int, x: int)
    requires
        a.wf(),
        0 <= j < 7,
        seq_has_pos(a.pos_lists()[j], x),
    ensures
        0 <= x < a.spec_len(),
        a.kinds_at(x) == 1,
{
    if !(0 <= x < a.spec_len()) {
        assert(a.kinds_at(x) == 0);
        assert(false);
    }
}

proof fn lemma_only_kind(a: JSONArray, kind: int, p: int)
    requires
        a.wf(),
        0 <= kind < 7,
        seq_has_pos(a.pos_lists()[kind], p),
    ensures
        forall|j: int| 0 <= j < 7 && j != kind ==> !seq_has_pos(#[trigger] a.pos_lists()[j], p),
        0 <= p < a.spec_len(),
{
    lemma_pos_in_range(a, kind, p);
    assert forall|j: int| 0 <= j < 7 && j != kind implies !seq_has_pos(
        #[trigger] a.pos_lists()[j],
        p,
    ) by {
        if seq_has_pos(a.pos_lists()[j], p) {
            assert(a.kinds_at(p) == 1);
            assert(false);
        }
    }
}

proof fn lemma_append_assemble(pre: JSONArray, post: JSONArray, kind: int)
    requires
        pre.wf(),
        pre.spec_len() < usize::MAX,
        0 <= kind < 7,
        post.spec_len() == pre.spec_len() + 1,
        post.pos_lists() == pre.pos_lists().update(
            kind,
            pre.pos_lists()[kind].push(pre.spec_len() as int),
        ),
    ensures
        post.wf(),
{
    let n = pre.spec_len() as int;
    let lk = pre.pos_lists()[kind];
    assert forall|i: int| 0 <= i < lk.len() implies #[trigger] lk[i] < n by {
        assert(seq_has_pos(lk, lk[i]));
        lemma_pos_in_range(pre, kind, lk[i]);
    }
    lemma_seq_push_increasing(lk, n);
    lemma_seq_push_has(lk, n);
    assert forall|j: int| 0 <= j < 7 implies seq_increasing(#[trigger] post.pos_lists()[j]) by {
        if j == kind {
            assert(post.pos_lists()[j] == lk.push(n));
        } else {
            assert(post.pos_lists()[j] == pre.pos_lists()[j]);
        }
    }
    assert forall|j: int, q: int|
        0 <= j < 7 implies (#[trigger] seq_has_pos(post.pos_lists()[j], q) <==> (seq_has_pos(
        pre.pos_lists()[j],
        q,
    ) || (j == kind && q == n))) by {
        if j == kind {
            assert(post.pos_lists()[j] == lk.push(n));
        } else {
            assert(post.pos_lists()[j] == pre.pos_lists()[j]);
            if seq_has_pos(pre.pos_lists()[j], q) && q == n {
                lemma_pos_in_range(pre, j, q);
            }
        }
    }
    assert forall|q: int| 0 <= q < post.spec_len() implies post.kinds_at(q) == 1 by {
        if q < n {
            assert(pre.kinds_at(q) == 1);
            assert(post.kinds_at(q) == pre.kinds_at(q));
        } else {
            assert(q == n);
            assert(pre.kinds_at(n) == 0);
            assert(seq_has_pos(post.pos_lists()[kind], n));
        }
    }
    assert forall|q: int| !(0 <= q < post.spec_len()) implies post.kinds_at(q) == 0 by {
        assert(pre.kinds_at(q) == 0);
        assert(q != n);
        assert(post.kinds_at(q) == pre.kinds_at(q));
    }
}

proof fn lemma_remove_assemble(
    pre: JSONArray,
    mid: JSONArray,
    post: JSONArray,
    kind: int,
    at: int,
    p: int,
)
    requires
        pre.wf(),
        0 <= kind < 7,
        0 <= at < pre.pos_lists()[kind].len(),
        pre.pos_lists()[kind][at] == p,
        mid.pos_lists() == pre.pos_lists().update(kind, pre.pos_lists()[kind].remove(at)),
        post.pos_lists() == mid.pos_lists().map_values(|l: Seq<int>| seq_shift(l, p)),
        post.spec_len() == pre.spec_len() - 1,
    ensures
        post.wf(),
{
    let n = pre.spec_len() as int;
    let lk = pre.pos_lists()[kind];
    assert(seq_has_pos(lk, p));
    lemma_only_kind(pre, kind, p);
    assert(seq_increasing(lk));
    lemma_seq_remove_has(lk, at);
    assert forall|j: int| 0 <= j < 7 implies seq_increasing(#[trigger] post.pos_lists()[j])
        && (forall|q: int| #[trigger] seq_has_pos(post.pos_lists()[j], q) <==> seq_has_pos(
        pre.pos_lists()[j],
        unshifted(q, p),
    )) by {
        if j == kind {
            let m = lk.remove(at);
            assert(mid.pos_lists()[j] == m);
            assert(post.pos_lists()[j] == seq_shift(m, p));
            lemma_seq_shift_has(m, p);
            assert forall|q: int| #[trigger] seq_has_pos(post.pos_lists()[j], q) <==> seq_has_pos(
                pre.pos_lists()[j],
                unshifted(q, p),
            ) by {
                assert(seq_has_pos(seq_shift(m, p), q) <==> seq_has_pos(m, unshifted(q, p)));
                assert(unshifted(q, p) != p);
            }
        } else {
            let m = pre.pos_lists()[j];
            assert(mid.pos_lists()[j] == m);
            assert(post.pos_lists()[j] == seq_shift(m, p));
            assert(!seq_has_pos(m, p));
            lemma_seq_shift_has(m, p);
        }
    }
    assert forall|q: int| 0 <= q < post.spec_len() implies post.kinds_at(q) == 1 by {
        assert(post.kinds_at(q) == pre.kinds_at(unshifted(q, p)));
        assert(0 <= unshifted(q, p) < n);
        assert(pre.kinds_at(unshifted(q, p)) == 1);
    }
    assert forall|q: int| !(0 <= q < post.spec_len()) implies post.kinds_at(q) == 0 by {
        assert(post.kinds_at(q) == pre.kinds_at(unshifted(q, p)));
        if q < 0 {
            assert(unshifted(q, p) == q);
        } else {
            assert(q >= n - 1);
            assert(unshifted(q, p) == q + 1);
        }
        assert(pre.kinds_at(unshifted(q, p)) == 0);
    }
}

/// Decrements, in place, the logical position of every element above the
/// closed-up slot `removed`.
fn shift_indexes_above<T>(list: &mut Vec<(T, usize)>, removed: usize)
    ensures
        final(list)@ == shift_entries(old(list)@, removed as int),
{
    let n = list.len();
    let mut i: usize = 0;
    while i < n
        invariant
            n == list@.len(),
            list@.len() == old(list)@.len(),
            i <= n,
            forall|t: int| i <= t < n ==> list@[t] == old(list)@[t],
            forall|t: int| 0 <= t < i ==> list@[t] == shift_entry(old(list)@[t], removed as int),
        decreases n - i,
    {
        if list[i].1 > removed {
            list[i].1 = list[i].1 - 1;
        }
        i += 1;
    }
    proof {
        assert(list@ =~= shift_entries(old(list)@, removed as int));
    }
}

impl JSONArray {
    /// Creates an empty array.
    pub fn new() -> (a: JSONArray)
        ensures
            a.wf(),
            a.spec_len() == 0,
            a.int_items() == Seq::<(i32, usize)>::empty(),
            a.float_items() == Seq::<(u32, usize)>::empty(),
            a.bool_items() == Seq::<(bool, usize)>::empty(),
            a.string_items() == Seq::<(String, usize)>::empty(),
            a.array_items() == Seq::<(JSONArray, usize)>::empty(),
            a.object_items() == Seq::<(JSONObject, usize)>::empty(),
            a.null_items() == Seq::<(Null, usize)>::empty(),
    {
        let a = JSONArray {
            ints: Vec::new(),
            floats: Vec::new(),
            bools: Vec::new(),
            strings: Vec::new(),
            arrays: Vec::new(),
            objects: Vec::new(),
            nulls: Vec::new(),
            item_count: 0,
        };
        proof {
            assert forall|p: int| a.kinds_at(p) == 0 by {
                assert(idxs(a.int_items()).len() == 0);
                assert(idxs(a.float_items()).len() == 0);
                assert(idxs(a.bool_items()).len() == 0);
                assert(idxs(a.string_items()).len() == 0);
                assert(idxs(a.array_items()).len() == 0);
                assert(idxs(a.object_items()).len() == 0);
                assert(idxs(a.null_items()).len() == 0);
            }
        }
        a
    }

    /// The number of stored elements.
    pub fn len(&self) -> (n: usize)
        ensures
            n == self.spec_len(),
    {
        self.item_count
    }

    /// Decrements the logical position of every element above the closed-up
    /// slot `removed`, in all seven lists; the element count is untouched.
    fn fix_indexes(&mut self, removed: usize)
        ensures
            final(self).int_items() == shift_entries(old(self).int_items(), removed as int),
            final(self).float_items() == shift_entries(old(self).float_items(), removed as int),
            final(self).bool_items() == shift_entries(old(self).bool_items(), removed as int),
            final(self).string_items() == shift_entries(old(self).string_items(), removed as int),
            final(self).array_items() == shift_entries(old(self).array_items(), removed as int),
            final(self).object_items() == shift_entries(old(self).object_items(), removed as int),
            final(self).null_items() == shift_entries(old(self).null_items(), removed as int),
            final(self).spec_len() == old(self).spec_len(),
    {
        shift_indexes_above(&mut self.ints, removed);
        shift_indexes_above(&mut self.floats, removed);
        shift_indexes_above(&mut self.bools, removed);
        shift_indexes_above(&mut self.strings, removed);
        shift_indexes_above(&mut self.arrays, removed);
        shift_indexes_above(&mut self.objects, removed);
        shift_indexes_above(&mut self.nulls, removed);
    }

    /// Appends `value` as a integer element at the next logical position, which
    /// equals the array's length before the call.
    pub fn add_int(&mut self, value: i32)
        requires
            old(self).wf(),
            old(self).spec_len() < usize::MAX,
        ensures
            final(self).wf(),
            final(self).int_items() == old(self).int_items().push((value, old(self).spec_len())),
            final(self).float_items() == old(self).float_items(),
            final(self).bool_items() == old(self).bool_items(),
            final(self).string_items() == old(self).string_items(),
            final(self).array_items() == old(self).array_items(),
            final(self).object_items() == old(self).object_items(),
            final(self).null_items() == old(self).null_items(),
            final(self).spec_len() == old(self).spec_len() + 1,
    {
        let idx = self.item_count;
        self.ints.push((value, idx));
        self.item_count += 1;
        proof {
            let pre = *old(self);
            lemma_idxs_push(pre.int_items(), (value, idx));
            assert(self.pos_lists() =~= pre.pos_lists().update(
                0,
                pre.pos_lists()[0].push(pre.spec_len() as int),
            ));
            lemma_append_assemble(pre, *self, 0);
        }
    }

    /// Appends `value` as a float bit pattern at the next logical position, which
    /// equals the array's length before the call.
    pub fn add_float(&mut self, value: u32)
        requires
            old(self).wf(),
            old(self).spec_len() < usize::MAX,
        ensures
            final(self).wf(),
            final(self).float_items() == old(self).float_items().push((value, old(self).spec_len())),
            final(self).int_items() == old(self).int_items(),
            final(self).bool_items() == old(self).bool_items(),
            final(self).string_items() == old(self).string_items(),
            final(self).array_items() == old(self).array_items(),
            final(self).object_items() == old(self).object_items(),
            final(self).null_items() == old(self).null_items(),
            final(self).spec_len() == old(self).spec_len() + 1,
    {
        let idx = self.item_count;
        self.floats.push((value, idx));
        self.item_count += 1;
        proof {
            let pre = *old(self);
            lemma_idxs_push(pre.float_items(), (value, idx));
            assert(self.pos_lists() =~= pre.pos_lists().update(
                1,
                pre.pos_lists()[1].push(pre.spec_len() as int),
            ));
            lemma_append_assemble(pre, *self, 1);
        }
    }

    /// Appends `value` as a boolean element at the next logical position, which
    /// equals the array's length before the call.
    pub fn add_bool(&mut self, value: bool)
        requires
            old(self).wf(),
            old(self).spec_len() < usize::MAX,
        ensures
            final(self).wf(),
            final(self).bool_items() == old(self).bool_items().push((value, old(self).spec_len())),
            final(self).int_items() == old(self).int_items(),
            final(self).float_items() == old(self).float_items(),
            final(self).string_items() == old(self).string_items(),
            final(self).array_items() == old(self).array_items(),
            final(self).object_items() == old(self).object_items(),
            final(self).null_items() == old(self).null_items(),
            final(self).spec_len() == old(self).spec_len() + 1,
    {
        let idx = self.item_count;
        self.bools.push((value, idx));
        self.item_count += 1;
        proof {
            let pre = *old(self);
            lemma_idxs_push(pre.bool_items(), (value, idx));
            assert(self.pos_lists() =~= pre.pos_lists().update(
                2,
                pre.pos_lists()[2].push(pre.spec_len() as int),
            ));
            lemma_append_assemble(pre, *self, 2);
        }
    }

    /// Appends `value` as a text element at the next logical position, which
    /// equals the array's length before the call.
    pub fn add_string(&mut self, value: String)
        requires
            old(self).wf(),
            old(self).spec_len() < usize::MAX,
        ensures
            final(self).wf(),
            final(self).string_items() == old(self).string_items().push((value, old(self).spec_len())),
            final(self).int_items() == old(self).int_items(),
            final(self).float_items() == old(self).float_items(),
            final(self).bool_items() == old(self).bool_items(),
            final(self).array_items() == old(self).array_items(),
            final(self).object_items() == old(self).object_items(),
            final(self).null_items() == old(self).null_items(),
            final(self).spec_len() == old(self).spec_len() + 1,
    {
        let idx = self.item_count;
        self.strings.push((value, idx));
        self.item_count += 1;
        proof {
            let pre = *old(self);
            lemma_idxs_push(pre.string_items(), (value, idx));
            assert(self.pos_lists() =~= pre.pos_lists().update(
                3,
                pre.pos_lists()[3].push(pre.spec_len() as int),
            ));
            lemma_append_assemble(pre, *self, 3);
        }
    }

    /// Appends `value` as a nested-array element at the next logical position, which
    /// equals the array's length before the call.
    pub fn add_array(&mut self, value: JSONArray)
        requires
            old(self).wf(),
            old(self).spec_len() < usize::MAX,
        ensures
            final(self).wf(),
            final(self).array_items() == old(self).array_items().push((value, old(self).spec_len())),
            final(self).int_items() == old(self).int_items(),
            final(self).float_items() == old(self).float_items(),
            final(self).bool_items() == old(self).bool_items(),
            final(self).string_items() == old(self).string_items(),
            final(self).object_items() == old(self).object_items(),
            final(self).null_items() == old(self).null_items(),
            final(self).spec_len() == old(self).spec_len() + 1,
    {
        let idx = self.item_count;
        self.arrays.push((value, idx));
        self.item_count += 1;
        proof {
            let pre = *old(self);
            lemma_idxs_push(pre.array_items(), (value, idx));
            assert(self.pos_lists() =~= pre.pos_lists().update(
                4,
                pre.pos_lists()[4].push(pre.spec_len() as int),
            ));
            lemma_append_assemble(pre, *self, 4);
        }
    }

    /// Appends `value` as a nested-object element at the next logical position, which
    /// equals the array's length before the call.
    pub fn add_object(&mut self, value: JSONObject)
        requires
            old(self).wf(),
            old(self).spec_len() < usize::MAX,
        ensures
            final(self).wf(),
            final(self).object_items() == old(self).object_items().push((value, old(self).spec_len())),
            final(self).int_items() == old(self).int_items(),
            final(self).float_items() == old(self).float_items(),
            final(self).bool_items() == old(self).bool_items(),
            final(self).string_items() == old(self).string_items(),
            final(self).array_items() == old(self).array_items(),
            final(self).null_items() == old(self).null_items(),
            final(self).spec_len() == old(self).spec_len() + 1,
    {
        let idx = self.item_count;
        self.objects.push((value, idx));
        self.item_count += 1;
        proof {
            let pre = *old(self);
            lemma_idxs_push(pre.object_items(), (value, idx));
            assert(self.pos_lists() =~= pre.pos_lists().update(
                5,
                pre.pos_lists()[5].push(pre.spec_len() as int),
            ));
            lemma_append_assemble(pre, *self, 5);
        }
    }

    /// Appends `value` as a null at the next logical position, which
    /// equals the array's length before the call.
    pub fn add_null(&mut self, value: Null)
        requires
            old(self).wf(),
            old(self).spec_len() < usize::MAX,
        ensures
            final(self).wf(),
            final(self).null_items() == old(self).null_items().push((value, old(self).spec_len())),
            final(self).int_items() == old(self).int_items(),
            final(self).float_items() == old(self).float_items(),
            final(self).bool_items() == old(self).bool_items(),
            final(self).string_items() == old(self).string_items(),
            final(self).array_items() == old(self).array_items(),
            final(self).object_items() == old(self).object_items(),
            final(self).spec_len() == old(self).spec_len() + 1,
    {
        let idx = self.item_count;
        self.nulls.push((value, idx));
        self.item_count += 1;
        proof {
            let pre = *old(self);
            lemma_idxs_push(pre.null_items(), (value, idx));
            assert(self.pos_lists() =~= pre.pos_lists().update(
                6,
                pre.pos_lists()[6].push(pre.spec_len() as int),
            ));
            lemma_append_assemble(pre, *self, 6);
        }
    }

    /// Removes the integer element whose logical position is `index`.  When
    /// the integer list holds no such position — also when another kind's
    /// list holds it — the array is left untouched and `Err` is returned.
    /// On success the removed slot is closed up: every position above
    /// `index`, in every list, falls by one, and the payload is returned.
    pub fn remove_int(&mut self, index: usize) -> (r: Result<i32, &'static str>)
        requires
            old(self).wf(),
        ensures
            final(self).wf(),
            r is Ok <==> seq_has_pos(idxs(old(self).int_items()), index as int),
            r is Err ==> *final(self) == *old(self),
            r matches Err(m) ==> m@ == "Index doesn't exist"@,
            (match r {
                Ok(v) => ({
                    let li = old(self).int_items();
                    let at = seq_pos_index(idxs(li), index as int);
                    &&& v == li[at].0
                    &&& final(self).int_items() == shift_entries(li.remove(at), index as int)
                    &&& final(self).float_items() == shift_entries(old(self).float_items(), index as int)
                    &&& final(self).bool_items() == shift_entries(old(self).bool_items(), index as int)
                    &&& final(self).string_items() == shift_entries(old(self).string_items(), index as int)
                    &&& final(self).array_items() == shift_entries(old(self).array_items(), index as int)
                    &&& final(self).object_items() == shift_entries(old(self).object_items(), index as int)
                    &&& final(self).null_items() == shift_entries(old(self).null_items(), index as int)
                    &&& final(self).spec_len() == old(self).spec_len() - 1
                }),
                Err(_) => true,
            }),
    {
        let n = self.ints.len();
        let mut i: usize = 0;
        let mut found: bool = false;
        let mut at: usize = 0;
        while i < n
            invariant
                *self == *old(self),
                n == self.ints@.len(),
                i <= n,
                !found ==> forall|t: int| 0 <= t < i ==> (#[trigger] self.ints@[t]).1 != index,
                found ==> at < n && self.ints@[at as int].1 == index,
            decreases n - i,
        {
            if self.ints[i].1 == index {
                found = true;
                at = i;
            }
            i += 1;
        }
        if !found {
            proof {
                assert forall|t: int|
                    0 <= t < idxs(self.int_items()).len() implies idxs(self.int_items())[t] != index
                    as int by {
                    assert(self.ints@[t].1 != index);
                }
                assert(!seq_has_pos(idxs(self.int_items()), index as int));
            }
            return Err("Index doesn't exist");
        }
        proof {
            assert(self.pos_lists()[0] == idxs(self.int_items()));
            assert(idxs(self.int_items())[at as int] == index as int);
            assert(seq_increasing(self.pos_lists()[0]));
            lemma_seq_pos_unique(idxs(self.int_items()), at as int);
            assert(seq_has_pos(self.pos_lists()[0], index as int));
            lemma_pos_in_range(*self, 0, index as int);
            lemma_idxs_remove(self.int_items(), at as int);
        }
        let removed = self.ints.remove(at);
        let ghost mid = *self;
        self.fix_indexes(index);
        self.item_count -= 1;
        proof {
            let pre = *old(self);
            let p = index as int;
            assert(mid.pos_lists() =~= pre.pos_lists().update(
                0,
                pre.pos_lists()[0].remove(at as int),
            ));
            lemma_idxs_shift(mid.int_items(), p);
            lemma_idxs_shift(mid.float_items(), p);
            lemma_idxs_shift(mid.bool_items(), p);
            lemma_idxs_shift(mid.string_items(), p);
            lemma_idxs_shift(mid.array_items(), p);
            lemma_idxs_shift(mid.object_items(), p);
            lemma_idxs_shift(mid.null_items(), p);
            assert(self.pos_lists() =~= mid.pos_lists().map_values(
                |l: Seq<int>| seq_shift(l, p),
            ));
            lemma_remove_assemble(pre, mid, *self, 0, at as int, p);
        }
        Ok(removed.0)
    }

    /// Removes the float element whose logical position is `index`.  When
    /// the float list holds no such position — also when another kind's
    /// list holds it — the array is left untouched and `Err` is returned.
    /// On success the removed slot is closed up: every position above
    /// `index`, in every list, falls by one, and the payload is returned.
    pub fn remove_float(&mut self, index: usize) -> (r: Result<u32, &'static str>)
        requires
            old(self).wf(),
        ensures
            final(self).wf(),
            r is Ok <==> seq_has_pos(idxs(old(self).float_items()), index as int),
            r is Err ==> *final(self) == *old(self),
            r matches Err(m) ==> m@ == "Index doesn't exist"@,
            (match r {
                Ok(v) => ({
                    let li = old(self).float_items();
                    let at = seq_pos_index(idxs(li), index as int);
                    &&& v == li[at].0
                    &&& final(self).float_items() == shift_entries(li.remove(at), index as int)
                    &&& final(self).int_items() == shift_entries(old(self).int_items(), index as int)
                    &&& final(self).bool_items() == shift_entries(old(self).bool_items(), index as int)
                    &&& final(self).string_items() == shift_entries(old(self).string_items(), index as int)
                    &&& final(self).array_items() == shift_entries(old(self).array_items(), index as int)
                    &&& final(self).object_items() == shift_entries(old(self).object_items(), index as int)
                    &&& final(self).null_items() == shift_entries(old(self).null_items(), index as int)
                    &&& final(self).spec_len() == old(self).spec_len() - 1
                }),
                Err(_) => true,
            }),
    {
        let n = self.floats.len();
        let mut i: usize = 0;
        let mut found: bool = false;
        let mut at: usize = 0;
        while i < n
            invariant
                *self == *old(self),
                n == self.floats@.len(),
                i <= n,
                !found ==> forall|t: int| 0 <= t < i ==> (#[trigger] self.floats@[t]).1 != index,
                found ==> at < n && self.floats@[at as int].1 == index,
            decreases n - i,
        {
            if self.floats[i].1 == index {
                found = true;
                at = i;
            }
            i += 1;
        }
        if !found {
            proof {
                assert forall|t: int|
                    0 <= t < idxs(self.float_items()).len() implies idxs(self.float_items())[t] != index
                    as int by {
                    assert(self.floats@[t].1 != index);
                }
                assert(!seq_has_pos(idxs(self.float_items()), index as int));
            }
            return Err("Index doesn't exist");
        }
        proof {
            assert(self.pos_lists()[1] == idxs(self.float_items()));
            assert(idxs(self.float_items())[at as int] == index as int);
            assert(seq_increasing(self.pos_lists()[1]));
            lemma_seq_pos_unique(idxs(self.float_items()), at as int);
            assert(seq_has_pos(self.pos_lists()[1], index as int));
            lemma_pos_in_range(*self, 1, index as int);
            lemma_idxs_remove(self.float_items(), at as int);
        }
        let removed = self.floats.remove(at);
        let ghost mid = *self;
        self.fix_indexes(index);
        self.item_count -= 1;
        proof {
            let pre = *old(self);
            let p = index as int;
            assert(mid.pos_lists() =~= pre.pos_lists().update(
                1,
                pre.pos_lists()[1].remove(at as int),
            ));
            lemma_idxs_shift(mid.int_items(), p);
            lemma_idxs_shift(mid.float_items(), p);
            lemma_idxs_shift(mid.bool_items(), p);
            lemma_idxs_shift(mid.string_items(), p);
            lemma_idxs_shift(mid.array_items(), p);
            lemma_idxs_shift(mid.object_items(), p);
            lemma_idxs_shift(mid.null_items(), p);
            assert(self.pos_lists() =~= mid.pos_lists().map_values(
                |l: Seq<int>| seq_shift(l, p),
            ));
            lemma_remove_assemble(pre, mid, *self, 1, at as int, p);
        }
        Ok(removed.0)
    }

    /// Removes the boolean element whose logical position is `index`.  When
    /// the boolean list holds no such position — also when another kind's
    /// list holds it — the array is left untouched and `Err` is returned.
    /// On success the removed slot is closed up: every position above
    /// `index`, in every list, falls by one, and the payload is returned.
    pub fn remove_bool(&mut self, index: usize) -> (r: Result<bool, &'static str>)
        requires
            old(self).wf(),
        ensures
            final(self).wf(),
            r is Ok <==> seq_has_pos(idxs(old(self).bool_items()), index as int),
            r is Err ==> *final(self) == *old(self),
            r matches Err(m) ==> m@ == "Index doesn't exist"@,
            (match r {
                Ok(v) => ({
                    let li = old(self).bool_items();
                    let at = seq_pos_index(idxs(li), index as int);
                    &&& v == li[at].0
                    &&& final(self).bool_items() == shift_entries(li.remove(at), index as int)
                    &&& final(self).int_items() == shift_entries(old(self).int_items(), index as int)
                    &&& final(self).float_items() == shift_entries(old(self).float_items(), index as int)
                    &&& final(self).string_items() == shift_entries(old(self).string_items(), index as int)
                    &&& final(self).array_items() == shift_entries(old(self).array_items(), index as int)
                    &&& final(self).object_items() == shift_entries(old(self).object_items(), index as int)
                    &&& final(self).null_items() == shift_entries(old(self).null_items(), index as int)
                    &&& final(self).spec_len() == old(self).spec_len() - 1
                }),
                Err(_) => true,
            }),
    {
        let n = self.bools.len();
        let mut i: usize = 0;
        let mut found: bool = false;
        let mut at: usize = 0;
        while i < n
            invariant
                *self == *old(self),
                n == self.bools@.len(),
                i <= n,
                !found ==> forall|t: int| 0 <= t < i ==> (#[trigger] self.bools@[t]).1 != index,
                found ==> at < n && self.bools@[at as int].1 == index,
            decreases n - i,
        {
            if self.bools[i].1 == index {
                found = true;
                at = i;
            }
            i += 1;
        }
        if !found {
            proof {
                assert forall|t: int|
                    0 <= t < idxs(self.bool_items()).len() implies idxs(self.bool_items())[t] != index
                    as int by {
                    assert(self.bools@[t].1 != index);
                }
                assert(!seq_has_pos(idxs(self.bool_items()), index as int));
            }
            return Err("Index doesn't exist");
        }
        proof {
            assert(self.pos_lists()[2] == idxs(self.bool_items()));
            assert(idxs(self.bool_items())[at as int] == index as int);
            assert(seq_increasing(self.pos_lists()[2]));
            lemma_seq_pos_unique(idxs(self.bool_items()), at as int);
            assert(seq_has_pos(self.pos_lists()[2], index as int));
            lemma_pos_in_range(*self, 2, index as int);
            lemma_idxs_remove(self.bool_items(), at as int);
        }
        let removed = self.bools.remove(at);
        let ghost mid = *self;
        self.fix_indexes(index);
        self.item_count -= 1;
        proof {
            let pre = *old(self);
            let p = index as int;
            assert(mid.pos_lists() =~= pre.pos_lists().update(
                2,
                pre.pos_lists()[2].remove(at as int),
            ));
            lemma_idxs_shift(mid.int_items(), p);
            lemma_idxs_shift(mid.float_items(), p);
            lemma_idxs_shift(mid.bool_items(), p);
            lemma_idxs_shift(mid.string_items(), p);
            lemma_idxs_shift(mid.array_items(), p);
            lemma_idxs_shift(mid.object_items(), p);
            lemma_idxs_shift(mid.null_items(), p);
            assert(self.pos_lists() =~= mid.pos_lists().map_values(
                |l: Seq<int>| seq_shift(l, p),
            ));
            lemma_remove_assemble(pre, mid, *self, 2, at as int, p);
        }
        Ok(removed.0)
    }

    /// Removes the text element whose logical position is `index`.  When
    /// the text list holds no such position — also when another kind's
    /// list holds it — the array is left untouched and `Err` is returned.
    /// On success the removed slot is closed up: every position above
    /// `index`, in every list, falls by one, and the payload is returned.
    pub fn remove_string(&mut self, index: usize) -> (r: Result<String, &'static str>)
        requires
            old(self).wf(),
        ensures
            final(self).wf(),
            r is Ok <==> seq_has_pos(idxs(old(self).string_items()), index as int),
            r is Err ==> *final(self) == *old(self),
            r matches Err(m) ==> m@ == "Index doesn't exist"@,
            (match r {
                Ok(v) => ({
                    let li = old(self).string_items();
                    let at = seq_pos_index(idxs(li), index as int);
                    &&& v == li[at].0
                    &&& final(self).string_items() == shift_entries(li.remove(at), index as int)
                    &&& final(self).int_items() == shift_entries(old(self).int_items(), index as int)
                    &&& final(self).float_items() == shift_entries(old(self).float_items(), index as int)
                    &&& final(self).bool_items() == shift_entries(old(self).bool_items(), index as int)
                    &&& final(self).array_items() == shift_entries(old(self).array_items(), index as int)
                    &&& final(self).object_items() == shift_entries(old(self).object_items(), index as int)
                    &&& final(self).null_items() == shift_entries(old(self).null_items(), index as int)
                    &&& final(self).spec_len() == old(self).spec_len() - 1
                }),
                Err(_) => true,
            }),
    {
        let n = self.strings.len();
        let mut i: usize = 0;
        let mut found: bool = false;
        let mut at: usize = 0;
        while i < n
            invariant
                *self == *old(self),
                n == self.strings@.len(),
                i <= n,
                !found ==> forall|t: int| 0 <= t < i ==> (#[trigger] self.strings@[t]).1 != index,
                found ==> at < n && self.strings@[at as int].1 == index,
            decreases n - i,
        {
            if self.strings[i].1 == index {
                found = true;
                at = i;
            }
            i += 1;
        }
        if !found {
            proof {
                assert forall|t: int|
                    0 <= t < idxs(self.string_items()).len() implies idxs(self.string_items())[t] != index
                    as int by {
                    assert(self.strings@[t].1 != index);
                }
                assert(!seq_has_pos(idxs(self.string_items()), index as int));
            }
            return Err("Index doesn't exist");
        }
        proof {
            assert(self.pos_lists()[3] == idxs(self.string_items()));
            assert(idxs(self.string_items())[at as int] == index as int);
            assert(seq_increasing(self.pos_lists()[3]));
            lemma_seq_pos_unique(idxs(self.string_items()), at as int);
            assert(seq_has_pos(self.pos_lists()[3], index as int));
            lemma_pos_in_range(*self, 3, index as int);
            lemma_idxs_remove(self.string_items(), at as int);
        }
        let removed = self.strings.remove(at);
        let ghost mid = *self;
        self.fix_indexes(index);
        self.item_count -= 1;
        proof {
            let pre = *old(self);
            let p = index as int;
            assert(mid.pos_lists() =~= pre.pos_lists().update(
                3,
                pre.pos_lists()[3].remove(at as int),
            ));
            lemma_idxs_shift(mid.int_items(), p);
            lemma_idxs_shift(mid.float_items(), p);
            lemma_idxs_shift(mid.bool_items(), p);
            lemma_idxs_shift(mid.string_items(), p);
            lemma_idxs_shift(mid.array_items(), p);
            lemma_idxs_shift(mid.object_items(), p);
            lemma_idxs_shift(mid.null_items(), p);
            assert(self.pos_lists() =~= mid.pos_lists().map_values(
                |l: Seq<int>| seq_shift(l, p),
            ));
            lemma_remove_assemble(pre, mid, *self, 3, at as int, p);
        }
        Ok(removed.0)
    }

    /// Removes the nested-array element whose logical position is `index`.  When
    /// the nested-array list holds no such position — also when another kind's
    /// list holds it — the array is left untouched and `Err` is returned.
    /// On success the removed slot is closed up: every position above
    /// `index`, in every list, falls by one, and the payload is returned.
    pub fn remove_array(&mut self, index: usize) -> (r: Result<JSONArray, &'static str>)
        requires
            old(self).wf(),
        ensures
            final(self).wf(),
            r is Ok <==> seq_has_pos(idxs(old(self).array_items()), index as int),
            r is Err ==> *final(self) == *old(self),
            r matches Err(m) ==> m@ == "Index doesn't exist"@,
            (match r {
                Ok(v) => ({
                    let li = old(self).array_items();
                    let at = seq_pos_index(idxs(li), index as int);
                    &&& v == li[at].0
                    &&& final(self).array_items() == shift_entries(li.remove(at), index as int)
                    &&& final(self).int_items() == shift_entries(old(self).int_items(), index as int)
                    &&& final(self).float_items() == shift_entries(old(self).float_items(), index as int)
                    &&& final(self).bool_items() == shift_entries(old(self).bool_items(), index as int)
                    &&& final(self).string_items() == shift_entries(old(self).string_items(), index as int)
                    &&& final(self).object_items() == shift_entries(old(self).object_items(), index as int)
                    &&& final(self).null_items() == shift_entries(old(self).null_items(), index as int)
                    &&& final(self).spec_len() == old(self).spec_len() - 1
                }),
                Err(_) => true,
            }),
    {
        let n = self.arrays.len();
        let mut i: usize = 0;
        let mut found: bool = false;
        let mut at: usize = 0;
        while i < n
            invariant
                *self == *old(self),
                n == self.arrays@.len(),
                i <= n,
                !found ==> forall|t: int| 0 <= t < i ==> (#[trigger] self.arrays@[t]).1 != index,
                found ==> at < n && self.arrays@[at as int].1 == index,
            decreases n - i,
        {
            if self.arrays[i].1 == index {
                found = true;
                at = i;
            }
            i += 1;
        }
        if !found {
            proof {
                assert forall|t: int|
                    0 <= t < idxs(self.array_items()).len() implies idxs(self.array_items())[t] != index
                    as int by {
                    assert(self.arrays@[t].1 != index);
                }
                assert(!seq_has_pos(idxs(self.array_items()), index as int));
            }
            return Err("Index doesn't exist");
        }
        proof {
            assert(self.pos_lists()[4] == idxs(self.array_items()));
            assert(idxs(self.array_items())[at as int] == index as int);
            assert(seq_increasing(self.pos_lists()[4]));
            lemma_seq_pos_unique(idxs(self.array_items()), at as int);
            assert(seq_has_pos(self.pos_lists()[4], index as int));
            lemma_pos_in_range(*self, 4, index as int);
            lemma_idxs_remove(self.array_items(), at as int);
        }
        let removed = self.arrays.remove(at);
        let ghost mid = *self;
        self.fix_indexes(index);
        self.item_count -= 1;
        proof {
            let pre = *old(self);
            let p = index as int;
            assert(mid.pos_lists() =~= pre.pos_lists().update(
                4,
                pre.pos_lists()[4].remove(at as int),
            ));
            lemma_idxs_shift(mid.int_items(), p);
            lemma_idxs_shift(mid.float_items(), p);
            lemma_idxs_shift(mid.bool_items(), p);
            lemma_idxs_shift(mid.string_items(), p);
            lemma_idxs_shift(mid.array_items(), p);
            lemma_idxs_shift(mid.object_items(), p);
            lemma_idxs_shift(mid.null_items(), p);
            assert(self.pos_lists() =~= mid.pos_lists().map_values(
                |l: Seq<int>| seq_shift(l, p),
            ));
            lemma_remove_assemble(pre, mid, *self, 4, at as int, p);
        }
        Ok(removed.0)
    }

    /// Removes the nested-object element whose logical position is `index`.  When
    /// the nested-object list holds no such position — also when another kind's
    /// list holds it — the array is left untouched and `Err` is returned.
    /// On success the removed slot is closed up: every position above
    /// `index`, in every list, falls by one, and the payload is returned.
    pub fn remove_object(&mut self, index: usize) -> (r: Result<JSONObject, &'static str>)
        requires
            old(self).wf(),
        ensures
            final(self).wf(),
            r is Ok <==> seq_has_pos(idxs(old(self).object_items()), index as int),
            r is Err ==> *final(self) == *old(self),
            r matches Err(m) ==> m@ == "Index doesn't exist"@,
            (match r {
                Ok(v) => ({
                    let li = old(self).object_items();
                    let at = seq_pos_index(idxs(li), index as int);
                    &&& v == li[at].0
                    &&& final(self).object_items() == shift_entries(li.remove(at), index as int)
                    &&& final(self).int_items() == shift_entries(old(self).int_items(), index as int)
                    &&& final(self).float_items() == shift_entries(old(self).float_items(), index as int)
                    &&& final(self).bool_items() == shift_entries(old(self).bool_items(), index as int)
                    &&& final(self).string_items() == shift_entries(old(self).string_items(), index as int)
                    &&& final(self).array_items() == shift_entries(old(self).array_items(), index as int)
                    &&& final(self).null_items() == shift_entries(old(self).null_items(), index as int)
                    &&& final(self).spec_len() == old(self).spec_len() - 1
                }),
                Err(_) => true,
            }),
    {
        let n = self.objects.len();
        let mut i: usize = 0;
        let mut found: bool = false;
        let mut at: usize = 0;
        while i < n
            invariant
                *self == *old(self),
                n == self.objects@.len(),
                i <= n,
                !found ==> forall|t: int| 0 <= t < i ==> (#[trigger] self.objects@[t]).1 != index,
                found ==> at < n && self.objects@[at as int].1 == index,
            decreases n - i,
        {
            if self.objects[i].1 == index {
                found = true;
                at = i;
            }
            i += 1;
        }
        if !found {
            proof {
                assert forall|t: int|
                    0 <= t < idxs(self.object_items()).len() implies idxs(self.object_items())[t] != index
                    as int by {
                    assert(self.objects@[t].1 != index);
                }
                assert(!seq_has_pos(idxs(self.object_items()), index as int));
            }
            return Err("Index doesn't exist");
        }
        proof {
            assert(self.pos_lists()[5] == idxs(self.object_items()));
            assert(idxs(self.object_items())[at as int] == index as int);
            assert(seq_increasing(self.pos_lists()[5]));
            lemma_seq_pos_unique(idxs(self.object_items()), at as int);
            assert(seq_has_pos(self.pos_lists()[5], index as int));
            lemma_pos_in_range(*self, 5, index as int);
            lemma_idxs_remove(self.object_items(), at as int);
        }
        let removed = self.objects.remove(at);
        let ghost mid = *self;
        self.fix_indexes(index);
        self.item_count -= 1;
        proof {
            let pre = *old(self);
            let p = index as int;
            assert(mid.pos_lists() =~= pre.pos_lists().update(
                5,
                pre.pos_lists()[5].remove(at as int),
            ));
            lemma_idxs_shift(mid.int_items(), p);
            lemma_idxs_shift(mid.float_items(), p);
            lemma_idxs_shift(mid.bool_items(), p);
            lemma_idxs_shift(mid.string_items(), p);
            lemma_idxs_shift(mid.array_items(), p);
            lemma_idxs_shift(mid.object_items(), p);
            lemma_idxs_shift(mid.null_items(), p);
            assert(self.pos_lists() =~= mid.pos_lists().map_values(
                |l: Seq<int>| seq_shift(l, p),
            ));
            lemma_remove_assemble(pre, mid, *self, 5, at as int, p);
        }
        Ok(removed.0)
    }

    /// Removes the null element whose logical position is `index`.  When
    /// the null list holds no such position — also when another kind's
    /// list holds it — the array is left untouched and `Err` is returned.
    /// On success the removed slot is closed up: every position above
    /// `index`, in every list, falls by one, and the payload is returned.
    pub fn remove_null(&mut self, index: usize) -> (r: Result<Null, &'static str>)
        requires
            old(self).wf(),
        ensures
            final(self).wf(),
            r is Ok <==> seq_has_pos(idxs(old(self).null_items()), index as int),
            r is Err ==> *final(self) == *old(self),
            r matches Err(m) ==> m@ == "Index doesn't exist"@,
            (match r {
                Ok(v) => ({
                    let li = old(self).null_items();
                    let at = seq_pos_index(idxs(li), index as int);
                    &&& v == li[at].0
                    &&& final(self).null_items() == shift_entries(li.remove(at), index as int)
                    &&& final(self).int_items() == shift_entries(old(self).int_items(), index as int)
                    &&& final(self).float_items() == shift_entries(old(self).float_items(), index as int)
                    &&& final(self).bool_items() == shift_entries(old(self).bool_items(), index as int)
                    &&& final(self).string_items() == shift_entries(old(self).string_items(), index as int)
                    &&& final(self).array_items() == shift_entries(old(self).array_items(), index as int)
                    &&& final(self).object_items() == shift_entries(old(self).object_items(), index as int)
                    &&& final(self).spec_len() == old(self).spec_len() - 1
                }),
                Err(_) => true,
            }),
    {
        let n = self.nulls.len();
        let mut i: usize = 0;
        let mut found: bool = false;
        let mut at: usize = 0;
        while i < n
            invariant
                *self == *old(self),
                n == self.nulls@.len(),
                i <= n,
                !found ==> forall|t: int| 0 <= t < i ==> (#[trigger] self.nulls@[t]).1 != index,
                found ==> at < n && self.nulls@[at as int].1 == index,
            decreases n - i,
        {
            if self.nulls[i].1 == index {
                found = true;
                at = i;
            }
            i += 1;
        }
        if !found {
            proof {
                assert forall|t: int|
                    0 <= t < idxs(self.null_items()).len() implies idxs(self.null_items())[t] != index
                    as int by {
                    assert(self.nulls@[t].1 != index);
                }
                assert(!seq_has_pos(idxs(self.null_items()), index as int));
            }
            return Err("Index doesn't exist");
        }
        proof {
            assert(self.pos_lists()[6] == idxs(self.null_items()));
            assert(idxs(self.null_items())[at as int] == index as int);
            assert(seq_increasing(self.pos_lists()[6]));
            lemma_seq_pos_unique(idxs(self.null_items()), at as int);
            assert(seq_has_pos(self.pos_lists()[6], index as int));
            lemma_pos_in_range(*self, 6, index as int);
            lemma_idxs_remove(self.null_items(), at as int);
        }
        let removed = self.nulls.remove(at);
        let ghost mid = *self;
        self.fix_indexes(index);
        self.item_count -= 1;
        proof {
            let pre = *old(self);
            let p = index as int;
            assert(mid.pos_lists() =~= pre.pos_lists().update(
                6,
                pre.pos_lists()[6].remove(at as int),
            ));
            lemma_idxs_shift(mid.int_items(), p);
            lemma_idxs_shift(mid.float_items(), p);
            lemma_idxs_shift(mid.bool_items(), p);
            lemma_idxs_shift(mid.string_items(), p);
            lemma_idxs_shift(mid.array_items(), p);
            lemma_idxs_shift(mid.object_items(), p);
            lemma_idxs_shift(mid.null_items(), p);
            assert(self.pos_lists() =~= mid.pos_lists().map_values(
                |l: Seq<int>| seq_shift(l, p),
            ));
            lemma_remove_assemble(pre, mid, *self, 6, at as int, p);
        }
        Ok(removed.0)
    }

    /// Reads the integer element at logical position `index`, or `None`
    /// when the integer list holds no such position.
    pub fn get_int(&self, index: usize) -> (r: Option<&i32>)
        requires
            self.wf(),
        ensures
            (match r {
                Some(v) => seq_has_pos(idxs(self.int_items()), index as int) && *v == self.int_items(
                )[seq_pos_index(idxs(self.int_items()), index as int)].0,
                None => !seq_has_pos(idxs(self.int_items()), index as int),
            }),
    {
        let n = self.ints.len();
        let mut i: usize = 0;
        while i < n
            invariant
                self.wf(),
                n == self.ints@.len(),
                i <= n,
                forall|t: int| 0 <= t < i ==> (#[trigger] self.ints@[t]).1 != index,
            decreases n - i,
        {
            if self.ints[i].1 == index {
                proof {
                    assert(self.pos_lists()[0] == idxs(self.int_items()));
                    assert(idxs(self.int_items())[i as int] == index as int);
                    assert(seq_increasing(self.pos_lists()[0]));
                    lemma_seq_pos_unique(idxs(self.int_items()), i as int);
                }
                return Some(&self.ints[i].0);
            }
            i += 1;
        }
        proof {
            assert forall|t: int|
                0 <= t < idxs(self.int_items()).len() implies idxs(self.int_items())[t] != index
                as int by {
                assert(self.ints@[t].1 != index);
            }
            assert(!seq_has_pos(idxs(self.int_items()), index as int));
        }
        None
    }

    /// Reads the float element at logical position `index`, or `None`
    /// when the float list holds no such position.
    pub fn get_float(&self, index: usize) -> (r: Option<&u32>)
        requires
            self.wf(),
        ensures
            (match r {
                Some(v) => seq_has_pos(idxs(self.float_items()), index as int) && *v == self.float_items(
                )[seq_pos_index(idxs(self.float_items()), index as int)].0,
                None => !seq_has_pos(idxs(self.float_items()), index as int),
            }),
    {
        let n = self.floats.len();
        let mut i: usize = 0;
        while i < n
            invariant
                self.wf(),
                n == self.floats@.len(),
                i <= n,
                forall|t: int| 0 <= t < i ==> (#[trigger] self.floats@[t]).1 != index,
            decreases n - i,
        {
            if self.floats[i].1 == index {
                proof {
                    assert(self.pos_lists()[1] == idxs(self.float_items()));
                    assert(idxs(self.float_items())[i as int] == index as int);
                    assert(seq_increasing(self.pos_lists()[1]));
                    lemma_seq_pos_unique(idxs(self.float_items()), i as int);
                }
                return Some(&self.floats[i].0);
            }
            i += 1;
        }
        proof {
            assert forall|t: int|
                0 <= t < idxs(self.float_items()).len() implies idxs(self.float_items())[t] != index
                as int by {
                assert(self.floats@[t].1 != index);
            }
            assert(!seq_has_pos(idxs(self.float_items()), index as int));
        }
        None
    }

    /// Reads the boolean element at logical position `index`, or `None`
    /// when the boolean list holds no such position.
    pub fn get_bool(&self, index: usize) -> (r: Option<&bool>)
        requires
            self.wf(),
        ensures
            (match r {
                Some(v) => seq_has_pos(idxs(self.bool_items()), index as int) && *v == self.bool_items(
                )[seq_pos_index(idxs(self.bool_items()), index as int)].0,
                None => !seq_has_pos(idxs(self.bool_items()), index as int),
            }),
    {
        let n = self.bools.len();
        let mut i: usize = 0;
        while i < n
            invariant
                self.wf(),
                n == self.bools@.len(),
                i <= n,
                forall|t: int| 0 <= t < i ==> (#[trigger] self.bools@[t]).1 != index,
            decreases n - i,
        {
            if self.bools[i].1 == index {
                proof {
                    assert(self.pos_lists()[2] == idxs(self.bool_items()));
                    assert(idxs(self.bool_items())[i as int] == index as int);
                    assert(seq_increasing(self.pos_lists()[2]));
                    lemma_seq_pos_unique(idxs(self.bool_items()), i as int);
                }
                return Some(&self.bools[i].0);
            }
            i += 1;
        }
        proof {
            assert forall|t: int|
                0 <= t < idxs(self.bool_items()).len() implies idxs(self.bool_items())[t] != index
                as int by {
                assert(self.bools@[t].1 != index);
            }
            assert(!seq_has_pos(idxs(self.bool_items()), index as int));
        }
        None
    }

    /// Reads the text element at logical position `index`, or `None`
    /// when the text list holds no such position.
    pub fn get_string(&self, index: usize) -> (r: Option<&String>)
        requires
            self.wf(),
        ensures
            (match r {
                Some(v) => seq_has_pos(idxs(self.string_items()), index as int) && *v == self.string_items(
                )[seq_pos_index(idxs(self.string_items()), index as int)].0,
                None => !seq_has_pos(idxs(self.string_items()), index as int),
            }),
    {
        let n = self.strings.len();
        let mut i: usize = 0;
        while i < n
            invariant
                self.wf(),
                n == self.strings@.len(),
                i <= n,
                forall|t: int| 0 <= t < i ==> (#[trigger] self.strings@[t]).1 != index,
            decreases n - i,
        {
            if self.strings[i].1 == index {
                proof {
                    assert(self.pos_lists()[3] == idxs(self.string_items()));
                    assert(idxs(self.string_items())[i as int] == index as int);
                    assert(seq_increasing(self.pos_lists()[3]));
                    lemma_seq_pos_unique(idxs(self.string_items()), i as int);
                }
                return Some(&self.strings[i].0);
            }
            i += 1;
        }
        proof {
            assert forall|t: int|
                0 <= t < idxs(self.string_items()).len() implies idxs(self.string_items())[t] != index
                as int by {
                assert(self.strings@[t].1 != index);
            }
            assert(!seq_has_pos(idxs(self.string_items()), index as int));
        }
        None
    }

    /// Reads the nested-array element at logical position `index`, or `None`
    /// when the nested-array list holds no such position.
    pub fn get_array(&self, index: usize) -> (r: Option<&JSONArray>)
        requires
            self.wf(),
        ensures
            (match r {
                Some(v) => seq_has_pos(idxs(self.array_items()), index as int) && *v == self.array_items(
                )[seq_pos_index(idxs(self.array_items()), index as int)].0,
                None => !seq_has_pos(idxs(self.array_items()), index as int),
            }),
    {
        let n = self.arrays.len();
        let mut i: usize = 0;
        while i < n
            invariant
                self.wf(),
                n == self.arrays@.len(),
                i <= n,
                forall|t: int| 0 <= t < i ==> (#[trigger] self.arrays@[t]).1 != index,
            decreases n - i,
        {
            if self.arrays[i].1 == index {
                proof {
                    assert(self.pos_lists()[4] == idxs(self.array_items()));
                    assert(idxs(self.array_items())[i as int] == index as int);
                    assert(seq_increasing(self.pos_lists()[4]));
                    lemma_seq_pos_unique(idxs(self.array_items()), i as int);
                }
                return Some(&self.arrays[i].0);
            }
            i += 1;
        }
        proof {
            assert forall|t: int|
                0 <= t < idxs(self.array_items()).len() implies idxs(self.array_items())[t] != index
                as int by {
                assert(self.arrays@[t].1 != index);
            }
            assert(!seq_has_pos(idxs(self.array_items()), index as int));
        }
        None
    }

    /// Reads the nested-object element at logical position `index`, or `None`
    /// when the nested-object list holds no such position.
    pub fn get_object(&self, index: usize) -> (r: Option<&JSONObject>)
        requires
            self.wf(),
        ensures
            (match r {
                Some(v) => seq_has_pos(idxs(self.object_items()), index as int) && *v == self.object_items(
                )[seq_pos_index(idxs(self.object_items()), index as int)].0,
                None => !seq_has_pos(idxs(self.object_items()), index as int),
            }),
    {
        let n = self.objects.len();
        let mut i: usize = 0;
        while i < n
            invariant
                self.wf(),
                n == self.objects@.len(),
                i <= n,
                forall|t: int| 0 <= t < i ==> (#[trigger] self.objects@[t]).1 != index,
            decreases n - i,
        {
            if self.objects[i].1 == index {
                proof {
                    assert(self.pos_lists()[5] == idxs(self.object_items()));
                    assert(idxs(self.object_items())[i as int] == index as int);
                    assert(seq_increasing(self.pos_lists()[5]));
                    lemma_seq_pos_unique(idxs(self.object_items()), i as int);
                }
                return Some(&self.objects[i].0);
            }
            i += 1;
        }
        proof {
            assert forall|t: int|
                0 <= t < idxs(self.object_items()).len() implies idxs(self.object_items())[t] != index
                as int by {
                assert(self.objects@[t].1 != index);
            }
            assert(!seq_has_pos(idxs(self.object_items()), index as int));
        }
        None
    }

    /// Reads the null element at logical position `index`, or `None`
    /// when the null list holds no such position.
    pub fn get_null(&self, index: usize) -> (r: Option<&Null>)
        requires
            self.wf(),
        ensures
            (match r {
                Some(v) => seq_has_pos(idxs(self.null_items()), index as int) && *v == self.null_items(
                )[seq_pos_index(idxs(self.null_items()), index as int)].0,
                None => !seq_has_pos(idxs(self.null_items()), index as int),
            }),
    {
        let n = self.nulls.len();
        let mut i: usize = 0;
        while i < n
            invariant
                self.wf(),
                n == self.nulls@.len(),
                i <= n,
                forall|t: int| 0 <= t < i ==> (#[trigger] self.nulls@[t]).1 != index,
            decreases n - i,
        {
            if self.nulls[i].1 == index {
                proof {
                    assert(self.pos_lists()[6] == idxs(self.null_items()));
                    assert(idxs(self.null_items())[i as int] == index as int);
                    assert(seq_increasing(self.pos_lists()[6]));
                    lemma_seq_pos_unique(idxs(self.null_items()), i as int);
                }
                return Some(&self.nulls[i].0);
            }
            i += 1;
        }
        proof {
            assert forall|t: int|
                0 <= t < idxs(self.null_items()).len() implies idxs(self.null_items())[t] != index
                as int by {
                assert(self.nulls@[t].1 != index);
            }
            assert(!seq_has_pos(idxs(self.null_items()), index as int));
        }
        None
    }
}

} // verus!
