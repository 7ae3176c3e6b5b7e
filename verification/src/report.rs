//! The report each conformance check returns.

use vstd::prelude::*;
use crate::text::strs;

verus! {

/// The outcome of one check: its number and name, what failed (one message
/// per violation), and notes that are no failure.
#[derive(Debug)]
pub struct CheckReport {
    pub number: u8,
    pub name: &'static str,
    pub failures: Vec<String>,
    pub notes: Vec<String>,
}

/// A report as values: number, name, failure messages, notes.
pub struct ReportView {
    pub number: u8,
    pub name: Seq<char>,
    pub failures: Seq<Seq<char>>,
    pub notes: Seq<Seq<char>>,
}

impl View for CheckReport {
    type V = ReportView;

    open spec fn view(&self) -> ReportView {
        ReportView {
            number: self.number,
            name: self.name@,
            failures: strs(self.failures@),
            notes: strs(self.notes@),
        }
    }
}

/// Concatenation of `f(0)`, ..., `f(n - 1)`.
pub open spec fn gather(n: nat, f: spec_fn(int) -> Seq<Seq<char>>) -> Seq<Seq<char>>
    decreases n,
{
    if n == 0 {
        seq![]
    } else {
        gather((n - 1) as nat, f) + f(n - 1)
    }
}

/// `gather` is empty exactly when every piece is.
pub proof fn lemma_gather_empty(n: nat, f: spec_fn(int) -> Seq<Seq<char>>)
    ensures
        gather(n, f).len() == 0 <==> forall|i: int| 0 <= i < n ==> #[trigger] f(i).len() == 0,
    decreases n,
{
    if n > 0 {
        lemma_gather_empty((n - 1) as nat, f);
    }
}

/// A message of one piece is among the gathered messages.
pub proof fn lemma_gather_has_piece(n: nat, f: spec_fn(int) -> Seq<Seq<char>>, k: int, x: Seq<char>)
    requires
        0 <= k < n,
        f(k).contains(x),
    ensures
        gather(n, f).contains(x),
    decreases n,
{
    let init = gather((n - 1) as nat, f);
    if k < n - 1 {
        lemma_gather_has_piece((n - 1) as nat, f, k, x);
        let i = choose|i: int| 0 <= i < init.len() && init[i] == x;
        assert(gather(n, f)[i] == x);
    } else {
        let last = f(k);
        let i = choose|i: int| 0 <= i < last.len() && last[i] == x;
        assert(gather(n, f)[init.len() + i] == x);
    }
}

/// `gather` reads `f` only below `n`.
pub proof fn lemma_gather_congruent(n: nat, f: spec_fn(int) -> Seq<Seq<char>>, g: spec_fn(int) -> Seq<Seq<char>>)
    requires
        forall|i: int| 0 <= i < n ==> #[trigger] f(i) == g(i),
    ensures
        gather(n, f) == gather(n, g),
    decreases n,
{
    if n > 0 {
        lemma_gather_congruent((n - 1) as nat, f, g);
        assert(f(n - 1) == g(n - 1));
    }
}

/// Gathering `n + m` pieces is gathering the first `n`, then the next `m`.
pub proof fn lemma_gather_split(n: nat, m: nat, f: spec_fn(int) -> Seq<Seq<char>>)
    ensures
        gather(n + m, f) == gather(n, f) + gather(m, |j: int| f(n + j)),
    decreases m,
{
    if m > 0 {
        lemma_gather_split(n, (m - 1) as nat, f);
        let g = |j: int| f(n + j);
        assert(gather(m, g) == gather((m - 1) as nat, g) + g(m - 1));
        assert(gather(n + m, f) == gather((n + m - 1) as nat, f) + f(n + m - 1));
        assert(gather(n + m, f) =~= gather(n, f) + gather(m, g));
    }
}

/// Where every piece of `f` holds only messages of the same piece of `g`,
/// everything gathered from `f` is gathered from `g`.
pub proof fn lemma_gather_contains(n: nat, f: spec_fn(int) -> Seq<Seq<char>>, g: spec_fn(int) -> Seq<Seq<char>>)
    requires
        forall|i: int, x: Seq<char>| 0 <= i < n && #[trigger] f(i).contains(x) ==> g(i).contains(x),
    ensures
        forall|x: Seq<char>| #[trigger] gather(n, f).contains(x) ==> gather(n, g).contains(x),
    decreases n,
{
    if n > 0 {
        lemma_gather_contains((n - 1) as nat, f, g);
        let a = gather((n - 1) as nat, f);
        let b = gather((n - 1) as nat, g);
        assert forall|x: Seq<char>| #[trigger] gather(n, f).contains(x) implies gather(n, g).contains(x) by {
            let k = choose|k: int| 0 <= k < gather(n, f).len() && gather(n, f)[k] == x;
            if k < a.len() {
                assert(a[k] == x);
                assert(a.contains(x));
                let k2 = choose|k2: int| 0 <= k2 < b.len() && b[k2] == x;
                assert(gather(n, g)[k2] == x);
            } else {
                assert(f(n - 1)[k - a.len()] == x);
                assert(f(n - 1).contains(x));
                assert(g(n - 1).contains(x));
                let last = g(n - 1);
                let k2 = choose|k2: int| 0 <= k2 < last.len() && last[k2] == x;
                assert(gather(n, g)[b.len() + k2] == x);
            }
        }
    }
}

impl CheckReport {
    /// A report with no failures and no notes.
    pub fn new(number: u8, name: &'static str) -> (r: Self)
        ensures
            r.number == number,
            r.name@ == name@,
            r.failures@.len() == 0,
            r.notes@.len() == 0,
    {
        CheckReport { number, name, failures: Vec::new(), notes: Vec::new() }
    }

    /// The check passed: it found no failure (notes do not count).
    pub fn passed(&self) -> (r: bool)
        ensures
            r == (self.failures@.len() == 0),
    {
        self.failures.len() == 0
    }

    /// Records a failure.
    pub fn fail(&mut self, msg: String)
        ensures
            final(self).number == old(self).number,
            final(self).name == old(self).name,
            final(self).notes == old(self).notes,
            final(self)@.failures == old(self)@.failures.push(msg@),
    {
        self.failures.push(msg);
        proof {
            assert(strs(self.failures@) =~= strs(old(self).failures@).push(msg@));
        }
    }

    /// Records each failure of `msgs`, in order.
    pub fn fail_all(&mut self, msgs: Vec<String>)
        ensures
            final(self).number == old(self).number,
            final(self).name == old(self).name,
            final(self).notes == old(self).notes,
            final(self)@.failures == old(self)@.failures + strs(msgs@),
    {
        let mut i: usize = 0;
        while i < msgs.len()
            invariant
                i <= msgs.len(),
                self.number == old(self).number,
                self.name == old(self).name,
                self.notes == old(self).notes,
                self@.failures == old(self)@.failures + strs(msgs@).take(i as int),
            decreases msgs.len() - i,
        {
            self.fail(msgs[i].clone());
            assert(strs(msgs@).take(i + 1) == strs(msgs@).take(i as int).push(msgs@[i as int]@));
            i = i + 1;
        }
        assert(strs(msgs@).take(msgs.len() as int) == strs(msgs@));
    }

    /// Records a note.
    pub fn note(&mut self, msg: String)
        ensures
            final(self).number == old(self).number,
            final(self).name == old(self).name,
            final(self).failures == old(self).failures,
            final(self)@.notes == old(self)@.notes.push(msg@),
    {
        self.notes.push(msg);
        proof {
            assert(strs(self.notes@) =~= strs(old(self).notes@).push(msg@));
        }
    }
}

} // verus!
