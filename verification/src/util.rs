//! Runs of neighbouring items of a slice that a test joins together.

use vstd::prelude::*;

verus! {

/// Does `by` join each neighbouring pair among the first `n` items (as far as its
/// contract lets a call answer `true`)?
pub open spec fn joined<I, B: Fn(&I, &I) -> bool>(s: Seq<I>, by: B, n: int) -> bool {
    forall|k: int| #![trigger s[k]] 1 <= k < n ==> call_ensures(by, (&s[k - 1], &s[k]), true)
}

/// Is `n` where the first run of `s` ends: each neighbouring pair before it joined,
/// and the pair across it, if there is one, not?
pub open spec fn first_run_ends_at<I, B: Fn(&I, &I) -> bool>(s: Seq<I>, by: B, n: int) -> bool {
    &&& 1 <= n <= s.len()
    &&& joined(s, by, n)
    &&& (n == s.len() || call_ensures(by, (&s[n - 1], &s[n]), false))
}

/// Can `by` be asked about any two items?
pub open spec fn answers_all<I, B: Fn(&I, &I) -> bool>(by: B) -> bool {
    forall|x: &I, y: &I| #[trigger] call_requires(by, (x, y))
}

/// Splitting a slice into runs.
pub trait GroupRuns {
    type Item;

    /// The items of the slice.
    spec fn items(&self) -> Seq<Self::Item>;

    /// The runs of the slice, in order; `by` tells whether two neighbours belong
    /// to one run.
    fn group_runs<B>(&self, by: B) -> (r: GroupedRuns<'_, Self::Item, B>)
        where
            B: Fn(&Self::Item, &Self::Item) -> bool,
        ensures
            r.rest() == self.items(),
            r.test() == by;

    /// The runs of the slice, each to be changed in place.
    fn group_runs_mut<B>(&mut self, by: B) -> (r: GroupedRunsMut<'_, Self::Item, B>)
        where
            B: Fn(&Self::Item, &Self::Item) -> bool,
        ensures
            r.rest() == old(self).items(),
            r.test() == by;
}

impl<I> GroupRuns for [I] {
    type Item = I;

    open spec fn items(&self) -> Seq<I> {
        self@
    }

    fn group_runs<B>(&self, by: B) -> (r: GroupedRuns<'_, I, B>)
        where
            B: Fn(&I, &I) -> bool,
    {
        GroupedRuns { slice: self, by }
    }

    fn group_runs_mut<B>(&mut self, by: B) -> (r: GroupedRunsMut<'_, I, B>)
        where
            B: Fn(&I, &I) -> bool,
    {
        GroupedRunsMut { slice: self, by }
    }
}

/// The runs not yet handed out of a slice.
pub struct GroupedRuns<'a, I: 'a, B> {
    slice: &'a [I],
    by: B,
}

/// The runs not yet handed out of a slice, each to be changed in place.
pub struct GroupedRunsMut<'a, I: 'a, B> {
    slice: &'a mut [I],
    by: B,
}

/// The length of the first run of `slice`.
fn first_run_len<I, B>(slice: &[I], by: &B) -> (n: usize)
    where
        B: Fn(&I, &I) -> bool,
    requires
        slice@.len() > 0,
        answers_all(*by),
    ensures
        first_run_ends_at(slice@, *by, n as int),
{
    let mut i: usize = 1;
    while i < slice.len()
        invariant
            1 <= i <= slice@.len(),
            answers_all(*by),
            joined(slice@, *by, i as int),
        decreases slice@.len() - i,
    {
        assert(call_requires(*by, (&slice@[i - 1], &slice@[i as int])));
        let joins = by(&slice[i - 1], &slice[i]);
        if !joins {
            return i;
        }
        i = i + 1;
    }
    i
}

impl<'a, I: 'a, B> GroupedRuns<'a, I, B> where B: Fn(&I, &I) -> bool {
    /// The items not yet handed out.
    pub closed spec fn rest(&self) -> Seq<I> {
        self.slice@
    }

    /// The test that joins neighbours.
    pub closed spec fn test(&self) -> B {
        self.by
    }

    /// The next run: the longest start of the rest whose neighbours `by` joins.
    pub fn next(&mut self) -> (r: Option<&'a [I]>)
        requires
            answers_all(old(self).test()),
        ensures
            final(self).test() == old(self).test(),
            match r {
                None => old(self).rest().len() == 0 && final(self).rest() == old(self).rest(),
                Some(run) => {
                    &&& first_run_ends_at(old(self).rest(), old(self).test(), run@.len() as int)
                    &&& run@ == old(self).rest().subrange(0, run@.len() as int)
                    &&& final(self).rest() == old(self).rest().subrange(run@.len() as int, old(self).rest().len() as int)
                },
            },
    {
        if self.slice.len() == 0 {
            return None;
        }
        let i = first_run_len(self.slice, &self.by);
        let slice = self.slice;
        let (a, b) = slice.split_at(i);
        self.slice = b;
        Some(a)
    }
}

impl<'a, I: 'a, B> GroupedRunsMut<'a, I, B> where B: Fn(&I, &I) -> bool {
    /// The items not yet handed out.
    pub closed spec fn rest(&self) -> Seq<I> {
        self.slice@
    }

    /// The test that joins neighbours.
    pub closed spec fn test(&self) -> B {
        self.by
    }

    /// The next run: the longest start of the rest whose neighbours `by` joins.
    pub fn next(&mut self) -> (r: Option<&'a mut [I]>)
        requires
            answers_all(old(self).test()),
        ensures
            final(self).test() == old(self).test(),
            match r {
                None => old(self).rest().len() == 0 && final(self).rest() == old(self).rest(),
                Some(run) => {
                    &&& first_run_ends_at(old(self).rest(), old(self).test(), run@.len() as int)
                    &&& run@ == old(self).rest().subrange(0, run@.len() as int)
                    &&& final(self).rest() == old(self).rest().subrange(run@.len() as int, old(self).rest().len() as int)
                },
            },
    {
        if self.slice.len() == 0 {
            return None;
        }
        let i = first_run_len(&*self.slice, &self.by);
        let mut taken: &'a mut [I] = &mut [];
        std::mem::swap(&mut taken, &mut self.slice);
        let (a, b) = taken.split_at_mut(i);
        self.slice = b;
        Some(a)
    }
}

/// Does `s` split into `runs`, each the first run of what is left, leaving `rest`?
pub open spec fn runs_then<I, B: Fn(&I, &I) -> bool>(s: Seq<I>, by: B, runs: Seq<Seq<I>>, rest: Seq<I>) -> bool
    decreases runs.len(),
{
    if runs.len() == 0 {
        s == rest
    } else {
        &&& first_run_ends_at(s, by, runs[0].len() as int)
        &&& runs[0] == s.take(runs[0].len() as int)
        &&& runs_then(s.skip(runs[0].len() as int), by, runs.drop_first(), rest)
    }
}

/// The runs one after the other.
pub open spec fn concat_runs<I>(runs: Seq<Seq<I>>) -> Seq<I>
    decreases runs.len(),
{
    if runs.len() == 0 {
        Seq::empty()
    } else {
        runs[0] + concat_runs(runs.drop_first())
    }
}

/// Splitting further: one more first run of what is left.
proof fn lemma_runs_then_push<I, B: Fn(&I, &I) -> bool>(
    s: Seq<I>,
    by: B,
    runs: Seq<Seq<I>>,
    rest: Seq<I>,
    m: int,
)
    requires
        runs_then(s, by, runs, rest),
        first_run_ends_at(rest, by, m),
    ensures
        runs_then(s, by, runs.push(rest.take(m)), rest.skip(m)),
    decreases runs.len(),
{
    let x = rest.take(m);
    let p = runs.push(x);
    if runs.len() == 0 {
        assert(p.len() == 1 && p[0] == x && x.len() == m);
        assert(s == rest);
        assert(p.drop_first() =~= Seq::<Seq<I>>::empty());
        assert(s.skip(m) =~= rest.skip(m));
        assert(runs_then(s.skip(m), by, p.drop_first(), rest.skip(m)));
    } else {
        let n = runs[0].len() as int;
        lemma_runs_then_push(s.skip(n), by, runs.drop_first(), rest, m);
        assert(p[0] == runs[0]);
        assert(p.drop_first() =~= runs.drop_first().push(x));
    }
}

/// A first run taken from `s` has each neighbouring pair joined.
proof fn lemma_first_run_joined<I, B: Fn(&I, &I) -> bool>(s: Seq<I>, by: B, r: Seq<I>)
    requires
        first_run_ends_at(s, by, r.len() as int),
        r == s.take(r.len() as int),
    ensures
        joined(r, by, r.len() as int),
{
    assert forall|k: int| #![trigger r[k]] 1 <= k < r.len() implies call_ensures(by, (&r[k - 1], &r[k]), true) by {
        assert(r[k] == s[k] && r[k - 1] == s[k - 1]);
        assert(s[k] == s[k]);
    }
}

/// What the runs after the first put together start with.
proof fn lemma_concat_first<I>(runs: Seq<Seq<I>>)
    requires
        runs.len() >= 1,
        runs[0].len() >= 1,
    ensures
        concat_runs(runs).len() >= 1,
        concat_runs(runs)[0] == runs[0][0],
{
    assert(concat_runs(runs) == runs[0] + concat_runs(runs.drop_first()));
}

/// The law of a whole walk over the runs: where `s` splits into `runs` with
/// nothing left, the runs put together are `s`, none is empty, `by` joins each
/// neighbouring pair within a run, and does not join the last item of a run to
/// the first of the next (each run is as long as it can be).
#[verifier::rlimit(40)]
pub proof fn lemma_runs_cover<I, B: Fn(&I, &I) -> bool>(s: Seq<I>, by: B, runs: Seq<Seq<I>>)
    requires
        runs_then(s, by, runs, Seq::empty()),
    ensures
        concat_runs(runs) == s,
        forall|j: int| 0 <= j < runs.len() ==> (#[trigger] runs[j]).len() >= 1 && joined(runs[j], by, runs[j].len() as int),
        forall|j: int|
            0 <= j < runs.len() - 1 ==> call_ensures(
                by,
                (&(#[trigger] runs[j])[runs[j].len() - 1], &runs[j + 1][0]),
                false,
            ),
    decreases runs.len(),
{
    if runs.len() == 0 {
        assert(s =~= Seq::<I>::empty());
    } else {
        let n = runs[0].len() as int;
        let t = s.skip(n);
        let rs = runs.drop_first();
        lemma_runs_cover(t, by, rs);
        assert(s =~= runs[0] + t);
        lemma_first_run_joined(s, by, runs[0]);
        assert forall|j: int| 0 <= j < runs.len() implies (#[trigger] runs[j]).len() >= 1 && joined(
            runs[j],
            by,
            runs[j].len() as int,
        ) by {
            if j > 0 {
                assert(runs[j] == rs[j - 1]);
            }
        }
        if runs.len() > 1 {
            assert(runs[1] == rs[0]);
            lemma_concat_first(rs);
            assert(t[0] == s[n]);
            assert(runs[0][n - 1] == s[n - 1]);
        }
        assert forall|j: int| 0 <= j < runs.len() - 1 implies call_ensures(
            by,
            (&(#[trigger] runs[j])[runs[j].len() - 1], &runs[j + 1][0]),
            false,
        ) by {
            if j > 0 {
                assert(runs[j] == rs[j - 1] && runs[j + 1] == rs[j]);
            }
        }
    }
}

impl<'a, I: 'a, B> GroupedRuns<'a, I, B> where B: Fn(&I, &I) -> bool {
    /// All the runs left, in order: calls `next` until it gives none.
    pub fn collect_all(&mut self) -> (runs: Vec<&'a [I]>)
        requires
            answers_all(old(self).test()),
        ensures
            final(self).test() == old(self).test(),
            final(self).rest().len() == 0,
            runs_then(old(self).rest(), old(self).test(), runs@.map_values(|r: &'a [I]| r@), Seq::empty()),
    {
        let ghost start = self.rest();
        let ghost by = self.test();
        let mut runs: Vec<&'a [I]> = Vec::new();
        proof {
            assert(runs@.map_values(|r: &'a [I]| r@) =~= Seq::<Seq<I>>::empty());
        }
        loop
            invariant
                self.test() == by,
                answers_all(by),
                runs_then(start, by, runs@.map_values(|r: &'a [I]| r@), self.rest()),
            ensures
                self.test() == by,
                self.rest().len() == 0,
                runs_then(start, by, runs@.map_values(|r: &'a [I]| r@), self.rest()),
            decreases self.rest().len(),
        {
            let ghost before = self.rest();
            let ghost views = runs@.map_values(|r: &'a [I]| r@);
            match self.next() {
                Some(run) => {
                    proof {
                        lemma_runs_then_push(start, by, views, before, run@.len() as int);
                    }
                    runs.push(run);
                    proof {
                        assert(runs@.map_values(|r: &'a [I]| r@) =~= views.push(before.take(run@.len() as int)));
                        assert(self.rest() =~= before.skip(run@.len() as int));
                    }
                },
                None => {
                    break;
                },
            }
        }
        proof {
            assert(self.rest() =~= Seq::<I>::empty());
        }
        runs
    }
}

} // verus!
