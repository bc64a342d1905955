//! Progress accounting of a compression run: the completion counter, the
//! `[completed/total] path` line rendered for each finished item, and the
//! fatal-error flag that stops a run.

use vstd::prelude::*;

verus! {

/// The decimal digits of a number, most significant first (byte 48 is `0`).
pub open spec fn decimal_rep(n: nat) -> Seq<u8>
    decreases n,
{
    if n < 10 {
        seq![(48 + n) as u8]
    } else {
        decimal_rep(n / 10).push((48 + n % 10) as u8)
    }
}

/// Renders a number in decimal.
pub fn decimal_digits(n: usize) -> (r: Vec<u8>)
    ensures
        r@ == decimal_rep(n as nat),
    decreases n,
{
    if n < 10 {
        let mut r: Vec<u8> = Vec::new();
        r.push(48 + n as u8);
        proof {
            assert(r@ =~= decimal_rep(n as nat));
        }
        r
    } else {
        let mut r = decimal_digits(n / 10);
        r.push(48 + (n % 10) as u8);
        r
    }
}

/// Appends one byte string to another.
fn push_all(dst: &mut Vec<u8>, src: &Vec<u8>)
    ensures
        final(dst)@ == old(dst)@ + src@,
{
    let n = src.len();
    let mut i: usize = 0;
    while i < n
        invariant
            0 <= i <= n,
            n == src@.len(),
            dst@ == old(dst)@ + src@.take(i as int),
        decreases n - i,
    {
        dst.push(src[i]);
        proof {
            assert(old(dst)@ + src@.take(i + 1) =~= (old(dst)@ + src@.take(i as int)).push(
                src@[i as int],
            ));
        }
        i = i + 1;
    }
    proof {
        assert(src@.take(n as int) =~= src@);
    }
}

/// The progress line for one completed item:
/// `[completed/total] path` (bytes 91 47 93 32 are `[`, `/`, `]`, space).
pub open spec fn progress_line_rep(completed: nat, total: nat, path: Seq<u8>) -> Seq<u8> {
    seq![91u8] + decimal_rep(completed) + seq![47u8] + decimal_rep(total) + seq![93u8, 32u8]
        + path
}

/// Renders the progress line for one completed item.
pub fn progress_line(completed: usize, total: usize, path: &Vec<u8>) -> (r: Vec<u8>)
    ensures
        r@ == progress_line_rep(completed as nat, total as nat, path@),
{
    let mut r: Vec<u8> = Vec::new();
    r.push(91);
    let c = decimal_digits(completed);
    push_all(&mut r, &c);
    r.push(47);
    let t = decimal_digits(total);
    push_all(&mut r, &t);
    r.push(93);
    r.push(32);
    push_all(&mut r, path);
    proof {
        assert(r@ =~= progress_line_rep(completed as nat, total as nat, path@));
    }
    r
}

/// The state of one compression run over a fixed work list: how many items
/// have completed, and whether a fatal error has been seen. The completion
/// counter starts at 1 and each completion takes the next value, so the
/// numbers handed out over a whole run are exactly 1 through `total`.
pub struct Run {
    total: usize,
    next: usize,
    failed: bool,
    issued: Ghost<Seq<usize>>,
}

impl Run {
    /// The fixed size of the work list.
    pub closed spec fn total_spec(self) -> usize {
        self.total
    }

    /// A fatal error has been reported.
    pub closed spec fn failed_spec(self) -> bool {
        self.failed
    }

    /// The completion numbers handed out so far, in the order they were
    /// handed out.
    pub closed spec fn issued_spec(self) -> Seq<usize> {
        self.issued@
    }

    /// The run's invariant: the counter has handed out exactly the numbers
    /// 1 through its position, in order, and never more than `total`.
    pub closed spec fn wf(self) -> bool {
        &&& self.total < usize::MAX
        &&& self.next as int == self.issued@.len() + 1
        &&& self.issued@.len() <= self.total as int
        &&& forall|i: int| 0 <= i < self.issued@.len() ==> self.issued@[i] as int == i + 1
    }

    /// Starts a run over a work list of the given size.
    pub fn new(total: usize) -> (r: Run)
        requires
            total < usize::MAX,
        ensures
            r.wf(),
            r.total_spec() == total,
            !r.failed_spec(),
            r.issued_spec() == Seq::<usize>::empty(),
    {
        Run { total, next: 1, failed: false, issued: Ghost(Seq::empty()) }
    }

    /// How many items have completed.
    pub fn completed(&self) -> (n: usize)
        requires
            self.wf(),
        ensures
            n as int == self.issued_spec().len(),
    {
        self.next - 1
    }

    /// The fixed size of the work list.
    pub fn total(&self) -> (n: usize)
        ensures
            n == self.total_spec(),
    {
        self.total
    }

    /// A fatal error has been reported.
    pub fn is_failed(&self) -> (b: bool)
        ensures
            b == self.failed_spec(),
    {
        self.failed
    }

    /// Records one completed item: takes the next completion number and
    /// renders its progress line. In-flight items may still complete and be
    /// reported after a failure, so the fatal flag does not gate this.
    pub fn on_success(&mut self, path: &Vec<u8>) -> (line: Vec<u8>)
        requires
            old(self).wf(),
            old(self).issued_spec().len() < old(self).total_spec(),
        ensures
            final(self).wf(),
            final(self).total_spec() == old(self).total_spec(),
            final(self).failed_spec() == old(self).failed_spec(),
            final(self).issued_spec() == old(self).issued_spec().push(
                (old(self).issued_spec().len() + 1) as usize,
            ),
            line@ == progress_line_rep(
                old(self).issued_spec().len() + 1,
                old(self).total_spec() as nat,
                path@,
            ),
    {
        let completed = self.next;
        self.next = self.next + 1;
        proof {
            self.issued@ = self.issued@.push(completed);
        }
        progress_line(completed, self.total, path)
    }

    /// Records a fatal error: the run is failed from here on. Already
    /// completed items keep their numbers; the flag never clears.
    pub fn on_failure(&mut self)
        ensures
            final(self).failed_spec(),
            final(self).total_spec() == old(self).total_spec(),
            final(self).issued_spec() == old(self).issued_spec(),
            final(self).wf() == old(self).wf(),
    {
        self.failed = true;
    }
}

/// The sequence holds the number `k` somewhere.
pub open spec fn covers(s: Seq<usize>, k: int) -> bool {
    exists|i: int| 0 <= i < s.len() && (#[trigger] s[i]) as int == k
}

/// Law: over a run in which every item completed, the completion numbers
/// handed out cover each integer 1 through `total` exactly once.
pub proof fn lemma_counter_coverage(r: Run)
    requires
        r.wf(),
        r.issued_spec().len() == r.total_spec(),
    ensures
        forall|k: int| 1 <= k <= r.total_spec() ==> #[trigger] covers(r.issued_spec(), k),
        forall|i: int, j: int|
            0 <= i < r.issued_spec().len() && 0 <= j < r.issued_spec().len() && r.issued_spec()[i]
                == r.issued_spec()[j] ==> i == j,
{
    assert forall|k: int| 1 <= k <= r.total_spec() implies #[trigger] covers(
        r.issued_spec(),
        k,
    ) by {
        assert(r.issued_spec()[k - 1] as int == k);
    }
}

} // verus!
