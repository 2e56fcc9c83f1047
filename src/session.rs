//! One equality-saturation session: its seeded roots, its run state, the
//! per-iteration history of best extractions, and the queries on them.
use vstd::prelude::*;
use crate::fold::ConstantFold;

verus! {

/// Why a run ended.
#[derive(Clone, Copy, Debug, PartialEq, Eq, Structural)]
pub enum StopReason {
    Saturated,
    IterationLimit,
    NodeLimit,
    Other,
}

/// A failed history lookup; both mean that the history and the graph's
/// canonical ids have diverged, or that nothing was run.
#[derive(Clone, Copy, Debug, PartialEq, Eq, Structural)]
pub enum LookupError {
    NoIterations,
    MissingExtraction,
}

/// The lowest-cost expression found for one root.
#[derive(Clone, Debug)]
pub struct Extracted {
    pub best: String,
    pub cost: u64,
}

/// What one run iteration recorded: one extraction per root, in the order
/// of the session's roots, the graph's size, and how often each rule fired.
pub struct IterData {
    pub extracted: Vec<Extracted>,
    pub nodes: u64,
    pub classes: u64,
    pub applied: Vec<(String, u64)>,
}

/// The top-level shape of a node: its operator text and its arity.
pub struct Shape {
    pub op: String,
    pub arity: usize,
}

pub open spec fn same_shape(a: Shape, b: Shape) -> bool {
    a.op@ == b.op@ && a.arity == b.arity
}

/// How often the rule `name` fired in one iteration: the count of its first
/// entry, or zero.
pub open spec fn applied_in(a: Seq<(String, u64)>, name: Seq<char>) -> nat
    decreases a.len(),
{
    if a.len() == 0 {
        0
    } else if a[0].0@ == name {
        a[0].1 as nat
    } else {
        applied_in(a.subrange(1, a.len() as int), name)
    }
}

/// How often the rule `name` fired over all iterations.
pub open spec fn applied_total(its: Seq<IterData>, name: Seq<char>) -> nat
    decreases its.len(),
{
    if its.len() == 0 {
        0
    } else {
        applied_total(its.drop_last(), name) + applied_in(its.last().applied@, name)
    }
}

/// The iteration that a lookup of `iter` reads: never one of the last
/// `(3 if unsound else 1)` recorded, since an aborted run may repeat its
/// final iteration.
pub open spec fn sound_index(len: nat, unsound: bool, iter: nat) -> int {
    let back: int = if unsound { 3 } else { 1 };
    let top: int = if len as int >= back { len - back } else { 0 };
    if top < iter { top } else { iter as int }
}

pub struct Context {
    pub roots: Vec<u32>,
    pub stop_reason: Option<StopReason>,
    pub iterations: Vec<IterData>,
    pub rules: Vec<String>,
}

impl Context {
    /// Each recorded iteration holds one extraction per root.
    pub open spec fn wf(&self) -> bool {
        forall|i: int|
            0 <= i < self.iterations@.len() ==> (#[trigger] self.iterations@[i]).extracted@.len()
                == self.roots@.len()
    }

    pub open spec fn is_fresh(&self) -> bool {
        self.roots@.len() == 0
    }

    pub fn new() -> (r: Context)
        ensures
            r.wf(),
            r.is_fresh(),
            r.stop_reason is None,
            r.iterations@.len() == 0,
            r.rules@.len() == 0,
    {
        Context { roots: Vec::new(), stop_reason: None, iterations: Vec::new(), rules: Vec::new() }
    }

    /// Records the class of the seeded expression; returns its 1-based id.
    pub fn seed(&mut self, root: u32) -> (r: u32)
        requires
            old(self).is_fresh(),
            old(self).stop_reason is None,
            old(self).iterations@.len() == 0,
            root < u32::MAX,
        ensures
            final(self).wf(),
            final(self).roots@ == seq![root],
            final(self).stop_reason is None,
            final(self).iterations@.len() == 0,
            final(self).rules@ == old(self).rules@,
            r == root + 1,
    {
        self.roots.push(root);
        root + 1
    }

    /// Starts a run: when no run has ended yet, installs the rule set and
    /// the folding switch and returns true; otherwise changes nothing.
    pub fn begin_run(&mut self, analysis: &mut ConstantFold, fold: bool, rules: Vec<String>) -> (r:
        bool)
        ensures
            r == (old(self).stop_reason is None),
            r ==> final(self).rules@ == rules@ && *final(analysis) == (ConstantFold {
                constant_fold: fold,
                ..*old(analysis)
            }),
            !r ==> final(self).rules@ == old(self).rules@ && *final(analysis) == *old(analysis),
            final(self).roots@ == old(self).roots@,
            final(self).stop_reason == old(self).stop_reason,
            final(self).iterations@ == old(self).iterations@,
    {
        if self.stop_reason.is_none() {
            self.rules = rules;
            analysis.constant_fold = fold;
            true
        } else {
            false
        }
    }

    /// Ends a run with its stop reason and the iterations it recorded; a
    /// session whose run has already ended keeps its history.
    pub fn finish_run(&mut self, stop: StopReason, iterations: Vec<IterData>) -> (r: bool)
        requires
            old(self).wf(),
            forall|i: int|
                0 <= i < iterations@.len() ==> (#[trigger] iterations@[i]).extracted@.len()
                    == old(self).roots@.len(),
        ensures
            final(self).wf(),
            r == (old(self).stop_reason is None),
            r ==> final(self).stop_reason == Some(stop) && final(self).iterations@ == iterations@,
            !r ==> final(self).stop_reason == old(self).stop_reason && final(self).iterations@
                == old(self).iterations@,
            final(self).roots@ == old(self).roots@,
            final(self).rules@ == old(self).rules@,
    {
        if self.stop_reason.is_none() {
            self.stop_reason = Some(stop);
            self.iterations = iterations;
            true
        } else {
            false
        }
    }

    /// The stop reason as a code: Saturated 0, IterationLimit 1, NodeLimit
    /// 2, Other 3, and 4 before any run has ended.
    pub fn stop_code(&self) -> (r: u32)
        ensures
            r == match self.stop_reason {
                Some(StopReason::Saturated) => 0u32,
                Some(StopReason::IterationLimit) => 1u32,
                Some(StopReason::NodeLimit) => 2u32,
                Some(StopReason::Other) => 3u32,
                None => 4u32,
            },
    {
        match self.stop_reason {
            Some(StopReason::Saturated) => 0,
            Some(StopReason::IterationLimit) => 1,
            Some(StopReason::NodeLimit) => 2,
            Some(StopReason::Other) => 3,
            None => 4,
        }
    }

    /// The index of the iteration that a lookup of `iter` reads.
    pub fn sound_iteration(&self, unsound: bool, iter: u32) -> (r: usize)
        ensures
            r == sound_index(self.iterations@.len(), unsound, iter as nat),
    {
        let back: usize = if unsound { 3 } else { 1 };
        let top: usize = if self.iterations.len() >= back { self.iterations.len() - back } else { 0 };
        if top < iter as usize {
            top
        } else {
            iter as usize
        }
    }

    /// The extraction recorded for the class `target` at iteration `iter`
    /// (moved back by `sound_iteration`): the first root whose canonical id,
    /// `canon[j]` for root `j`, is `target`.
    pub fn find_extracted(&self, canon: &Vec<u32>, target: u32, unsound: bool, iter: u32) -> (r:
        Result<&Extracted, LookupError>)
        requires
            self.wf(),
        ensures
            self.iterations@.len() == 0 ==> r == Err::<&Extracted, LookupError>(
                LookupError::NoIterations,
            ),
            self.iterations@.len() > 0 ==> ({
                let k = sound_index(self.iterations@.len(), unsound, iter as nat);
                let ex = self.iterations@[k].extracted@;
                &&& r is Err ==> r == Err::<&Extracted, LookupError>(LookupError::MissingExtraction)
                &&& r is Err <==> (forall|j: int|
                    0 <= j < ex.len() && j < canon@.len() ==> #[trigger] canon@[j] != target)
                &&& r matches Ok(e) ==> exists|j: int|
                    0 <= j < ex.len() && j < canon@.len() && #[trigger] canon@[j] == target && *e
                        == ex[j] && forall|l: int| 0 <= l < j ==> canon@[l] != target
            }),
    {
        if self.iterations.len() == 0 {
            return Err(LookupError::NoIterations);
        }
        let k = self.sound_iteration(unsound, iter);
        let ex = &self.iterations[k].extracted;
        let mut j: usize = 0;
        while j < ex.len() && j < canon.len()
            invariant
                self.iterations@.len() > 0,
                k == sound_index(self.iterations@.len(), unsound, iter as nat),
                ex@ == self.iterations@[k as int].extracted@,
                j <= ex.len(),
                j <= canon.len(),
                forall|l: int| 0 <= l < j ==> canon@[l] != target,
            decreases ex.len() - j,
        {
            if canon[j] == target {
                return Ok(&ex[j]);
            }
            j = j + 1;
        }
        Err(LookupError::MissingExtraction)
    }

    /// How often the rule `name` fired over all iterations, saturating at
    /// the largest `u64`.
    pub fn times_applied(&self, name: &String) -> (r: u64)
        ensures
            r == (if applied_total(self.iterations@, name@) > u64::MAX {
                u64::MAX as nat
            } else {
                applied_total(self.iterations@, name@)
            }),
    {
        let mut total: u64 = 0;
        let mut i: usize = 0;
        while i < self.iterations.len()
            invariant
                i <= self.iterations.len(),
                total == (if applied_total(self.iterations@.subrange(0, i as int), name@)
                    > u64::MAX {
                    u64::MAX as nat
                } else {
                    applied_total(self.iterations@.subrange(0, i as int), name@)
                }),
            decreases self.iterations.len() - i,
        {
            let c = count_applied(&self.iterations[i].applied, name);
            proof {
                let s = self.iterations@.subrange(0, i as int + 1);
                assert(s.drop_last() =~= self.iterations@.subrange(0, i as int));
            }
            total = total.saturating_add(c);
            i = i + 1;
        }
        proof {
            assert(self.iterations@.subrange(0, self.iterations@.len() as int) =~= self.iterations@);
        }
        total
    }

    /// The node count of the last iteration, or 0 before any.
    pub fn size(&self) -> (r: u64)
        ensures
            r == (if self.iterations@.len() == 0 {
                0
            } else {
                self.iterations@.last().nodes
            }),
    {
        if self.iterations.len() == 0 {
            0
        } else {
            self.iterations[self.iterations.len() - 1].nodes
        }
    }
}

fn count_applied(a: &Vec<(String, u64)>, name: &String) -> (r: u64)
    ensures
        r == applied_in(a@, name@),
{
    let mut i: usize = 0;
    proof {
        assert(a@.subrange(0, a@.len() as int) =~= a@);
    }
    while i < a.len()
        invariant
            i <= a.len(),
            applied_in(a@, name@) == applied_in(a@.subrange(i as int, a@.len() as int), name@),
        decreases a.len() - i,
    {
        let ghost rest = a@.subrange(i as int, a@.len() as int);
        if a[i].0 == *name {
            return a[i].1;
        }
        proof {
            assert(rest.subrange(1, rest.len() as int) =~= a@.subrange(
                i as int + 1,
                a@.len() as int,
            ));
        }
        i = i + 1;
    }
    0
}

/// The positions, in order, of the nodes whose shape differs from `orig`:
/// the alternatives worth listing as variants of a class.
pub fn select_variants(orig: &Shape, shapes: &Vec<Shape>) -> (r: Vec<usize>)
    ensures
        forall|k: int| 0 <= k < r@.len() ==> (#[trigger] r@[k]) < shapes@.len(),
        forall|k: int|
            0 <= k < r@.len() ==> !same_shape(#[trigger] shapes@[r@[k] as int], *orig),
        forall|j: int|
            0 <= j < shapes@.len() && !same_shape(#[trigger] shapes@[j], *orig) ==> r@.contains(
                j as usize,
            ),
        forall|k: int, l: int| 0 <= k < l < r@.len() ==> r@[k] < r@[l],
{
    let mut r: Vec<usize> = Vec::new();
    let mut i: usize = 0;
    while i < shapes.len()
        invariant
            i <= shapes.len(),
            forall|k: int| 0 <= k < r@.len() ==> (#[trigger] r@[k]) < i,
            forall|k: int|
                0 <= k < r@.len() ==> !same_shape(#[trigger] shapes@[r@[k] as int], *orig),
            forall|j: int|
                0 <= j < i && !same_shape(#[trigger] shapes@[j], *orig) ==> r@.contains(j as usize),
            forall|k: int, l: int| 0 <= k < l < r@.len() ==> r@[k] < r@[l],
        decreases shapes.len() - i,
    {
        let s = &shapes[i];
        if !(s.op == orig.op && s.arity == orig.arity) {
            let ghost r0 = r@;
            r.push(i);
            proof {
                assert(r@[r@.len() - 1] == i);
                assert forall|j: int|
                    0 <= j < i + 1 && !same_shape(#[trigger] shapes@[j], *orig) implies r@.contains(
                    j as usize,
                ) by {
                    if j < i {
                        assert(r0.contains(j as usize));
                        let k = choose|k: int| 0 <= k < r0.len() && r0[k] == j as usize;
                        assert(r@[k] == j as usize);
                    } else {
                        assert(r@[r@.len() - 1] == j as usize);
                    }
                }
            }
        }
        i = i + 1;
    }
    r
}

/// Whether the run should go on after an iteration: not once unsoundness
/// has been detected.
pub fn iteration_checkpoint(analysis: &ConstantFold) -> (r: bool)
    ensures
        r == !analysis.unsound,
{
    !analysis.unsound
}

} // verus!
