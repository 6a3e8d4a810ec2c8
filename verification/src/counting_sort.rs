//! Counting sort over small non-negative integers, yielding the sorted
//! values one at a time.
use vstd::prelude::*;

verus! {

broadcast use {vstd::seq_lib::group_to_multiset_ensures, vstd::multiset::group_multiset_axioms};

/// The values `from`, `from + 1`, ... in order, each repeated as often as
/// `counts` says.
pub open spec fn expand(counts: Seq<usize>, from: int) -> Seq<i32>
    decreases counts.len() - from,
{
    if from < 0 || from >= counts.len() {
        Seq::empty()
    } else {
        Seq::new(counts[from] as nat, |k: int| from as i32) + expand(counts, from + 1)
    }
}

/// The sequence is in ascending order.
pub open spec fn ascending(s: Seq<i32>) -> bool {
    forall|i: int, j: int| 0 <= i <= j < s.len() ==> s[i] <= s[j]
}

/// Every value lies in `[0, max)`.
pub open spec fn within(s: Seq<i32>, max: i32) -> bool {
    forall|i: int| 0 <= i < s.len() ==> 0 <= #[trigger] s[i] < max
}

/// An expansion is ascending, and holds nothing below where it starts.
proof fn lemma_expand_ascending(counts: Seq<usize>, from: int)
    requires
        0 <= from,
        counts.len() <= i32::MAX + 1,
    ensures
        ascending(expand(counts, from)),
        forall|i: int| 0 <= i < expand(counts, from).len() ==> #[trigger] expand(counts, from)[i] >= from,
    decreases counts.len() - from,
{
    if from < counts.len() {
        lemma_expand_ascending(counts, from + 1);
        let head = Seq::new(counts[from] as nat, |k: int| from as i32);
        let tail = expand(counts, from + 1);
        assert(expand(counts, from) == head + tail);
        assert forall|i: int| 0 <= i < (head + tail).len() implies #[trigger] (head + tail)[i] >= from by {
            if i >= head.len() {
                assert((head + tail)[i] == tail[i - head.len()]);
            }
        }
        assert forall|i: int, j: int| 0 <= i <= j < (head + tail).len() implies (head + tail)[i] <= (
        head + tail)[j] by {
            if j >= head.len() {
                assert((head + tail)[j] == tail[j - head.len()]);
                if i >= head.len() {
                    assert((head + tail)[i] == tail[i - head.len()]);
                }
            }
        }
    }
}

/// How often a value occurs in an expansion.
proof fn lemma_expand_count(counts: Seq<usize>, from: int, v: i32)
    requires
        0 <= from,
        counts.len() <= i32::MAX + 1,
    ensures
        expand(counts, from).to_multiset().count(v) == if from <= v < counts.len() {
            counts[v as int] as nat
        } else {
            0
        },
    decreases counts.len() - from,
{
    if from < counts.len() {
        lemma_expand_count(counts, from + 1, v);
        let head = Seq::new(counts[from] as nat, |k: int| from as i32);
        let tail = expand(counts, from + 1);
        vstd::seq_lib::lemma_multiset_commutative(head, tail);
        lemma_constant_count(counts[from] as nat, from as i32, v);
    }
}

/// How often a value occurs in a sequence of one repeated value.
proof fn lemma_constant_count(n: nat, x: i32, v: i32)
    ensures
        Seq::new(n, |k: int| x).to_multiset().count(v) == if v == x {
            n
        } else {
            0
        },
    decreases n,
{
    if n > 0 {
        lemma_constant_count((n - 1) as nat, x, v);
        assert(Seq::new(n, |k: int| x) =~= Seq::new((n - 1) as nat, |k: int| x).push(x));
    } else {
        assert(Seq::new(n, |k: int| x) =~= Seq::<i32>::empty());
    }
}

/// Positions before `from` do not matter to an expansion from `from`.
proof fn lemma_expand_frame(counts: Seq<usize>, other: Seq<usize>, from: int)
    requires
        0 <= from,
        counts.len() == other.len(),
        forall|i: int| from <= i < counts.len() ==> counts[i] == other[i],
    ensures
        expand(counts, from) == expand(other, from),
    decreases counts.len() - from,
{
    if from < counts.len() {
        lemma_expand_frame(counts, other, from + 1);
        assert(Seq::new(counts[from] as nat, |k: int| from as i32) =~= Seq::new(
            other[from] as nat,
            |k: int| from as i32,
        ));
    }
}

pub struct LazyCountingSort<'a> {
    array: &'a [i32],
    counter: Vec<usize>,
    next_value: usize,
}

impl<'a> LazyCountingSort<'a> {
    /// The values still to come out, in the order they come out.
    pub closed spec fn rest(&self) -> Seq<i32> {
        expand(self.counter@, self.next_value as int)
    }

    pub closed spec fn wf(&self) -> bool {
        &&& self.counter@.len() <= i32::MAX
        &&& self.next_value <= self.counter@.len()
    }

    /// Counts the values of `array`, each of which lies in `[0, max)`.
    pub fn new(array: &'a [i32], max: i32) -> (s: Self)
        requires
            0 <= max,
            within(array@, max),
        ensures
            s.wf(),
            s.rest().to_multiset() == array@.to_multiset(),
            ascending(s.rest()),
    {
        let size = max as usize;
        let mut counter: Vec<usize> = Vec::with_capacity(size);
        let mut v: usize = 0;
        while v < size
            invariant
                v <= size,
                size == max,
                counter@.len() == v,
                forall|i: int| 0 <= i < v ==> counter@[i] == 0,
            decreases size - v,
        {
            counter.push(0);
            v += 1;
        }
        let mut i: usize = 0;
        while i < array.len()
            invariant
                i <= array@.len(),
                counter@.len() == size,
                size == max,
                within(array@, max),
                forall|w: int| 0 <= w < size ==> #[trigger] counter@[w] <= i,
                forall|w: int|
                    0 <= w < size ==> #[trigger] counter@[w] == array@.take(i as int).to_multiset().count(
                        w as i32,
                    ),
            decreases array@.len() - i,
        {
            let x = array[i];
            let ghost before = counter@;
            proof {
                assert(array@.take(i + 1 as int) =~= array@.take(i as int).push(x));
            }
            counter.set(x as usize, counter[x as usize] + 1);
            i += 1;
        }
        proof {
            assert(array@.take(array@.len() as int) =~= array@);
            assert forall|w: i32| #[trigger] expand(counter@, 0).to_multiset().count(w)
                == array@.to_multiset().count(w) by {
                lemma_expand_count(counter@, 0, w);
                if !(0 <= w < size) {
                    if array@.to_multiset().count(w) > 0 {
                        assert(array@.contains(w));
                        let k = choose|k: int| 0 <= k < array@.len() && array@[k] == w;
                        assert(0 <= array@[k] < max);
                    }
                }
            }
            assert(expand(counter@, 0).to_multiset() =~= array@.to_multiset());
            lemma_expand_ascending(counter@, 0);
        }
        LazyCountingSort { array, counter, next_value: 0 }
    }

    /// The next value in ascending order, if any is left.
    pub fn next(&mut self) -> (r: Option<i32>)
        requires
            old(self).wf(),
        ensures
            final(self).wf(),
            old(self).rest().len() == 0 ==> r is None && final(self).rest() == old(self).rest(),
            old(self).rest().len() > 0 ==> r == Some(old(self).rest()[0])
                && final(self).rest() == old(self).rest().drop_first(),
    {
        while self.next_value < self.counter.len() && self.counter[self.next_value] == 0
            invariant
                self.wf(),
                self.rest() == old(self).rest(),
                self.counter@.len() == old(self).counter@.len(),
            decreases self.counter@.len() - self.next_value,
        {
            proof {
                assert(Seq::new(0nat, |k: int| self.next_value as i32) + expand(
                    self.counter@,
                    self.next_value + 1,
                ) =~= expand(self.counter@, self.next_value + 1));
            }
            self.next_value += 1;
        }
        if self.next_value == self.counter.len() {
            return None;
        }
        let v = self.next_value;
        let ghost before = self.counter@;
        let c = self.counter[v];
        self.counter.set(v, c - 1);
        proof {
            lemma_expand_frame(before, self.counter@, v + 1);
            let head = Seq::new(c as nat, |k: int| v as i32);
            let head2 = Seq::new((c - 1) as nat, |k: int| v as i32);
            assert(expand(before, v as int) == head + expand(before, v + 1));
            assert(expand(self.counter@, v as int) == head2 + expand(self.counter@, v + 1));
            assert((head + expand(before, v + 1)).drop_first() =~= head2 + expand(before, v + 1));
            assert((head + expand(before, v + 1))[0] == v as i32);
        }
        Some(v as i32)
    }
}

/// Counting sort: the values of `array`, each in `[0, max)`, in ascending order.
pub fn sort(array: &[i32], max: i32) -> (r: Vec<i32>)
    requires
        0 <= max,
        within(array@, max),
    ensures
        ascending(r@),
        r@.to_multiset() == array@.to_multiset(),
{
    let mut values = LazyCountingSort::new(array, max);
    let ghost all = values.rest();
    let mut out: Vec<i32> = Vec::new();
    loop
        invariant
            values.wf(),
            all == out@ + values.rest(),
        ensures
            out@ == all,
        decreases values.rest().len(),
    {
        let ghost rest_before = values.rest();
        match values.next() {
            Some(v) => {
                let ghost before = out@;
                out.push(v);
                proof {
                    assert(out@ + values.rest() =~= before + rest_before);
                }
            },
            None => {
                proof {
                    assert(out@ =~= all);
                }
                break;
            },
        }
    }
    out
}

} // verus!
