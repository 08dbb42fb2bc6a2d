//! The decisions of a migration run: which shards to visit and, after each
//! outside step, which step comes next. A failed step is recorded and the
//! run goes on with the next user or shard.

use vstd::prelude::*;

verus! {

/// The shards visited when none is configured to start at.
pub const DEFAULT_START_BSO: u32 = 0;

/// The end (exclusive) of the shards visited when none is configured.
pub const DEFAULT_END_BSO: u32 = 19;

/// The shards to visit, in order: the pinned user's shard alone, else the
/// configured half-open range, by default `[0, 19)`.
pub open spec fn shard_list(start_bso: Option<u32>, end_bso: Option<u32>, pinned: Option<u32>) -> Seq<u32> {
    match pinned {
        Some(p) => seq![p],
        None => {
            let start = match start_bso {
                Some(s) => s,
                None => DEFAULT_START_BSO,
            };
            let end = match end_bso {
                Some(e) => e,
                None => DEFAULT_END_BSO,
            };
            if start < end {
                Seq::new((end - start) as nat, |i: int| (start + i) as u32)
            } else {
                Seq::empty()
            }
        },
    }
}

/// The shards to visit, in order.
pub fn shards_to_visit(start_bso: Option<u32>, end_bso: Option<u32>, pinned: Option<u32>) -> (r: Vec<u32>)
    ensures
        r@ == shard_list(start_bso, end_bso, pinned),
{
    match pinned {
        Some(p) => {
            let r: Vec<u32> = vec![p];
            r
        },
        None => {
            let start = match start_bso {
                Some(s) => s,
                None => DEFAULT_START_BSO,
            };
            let end = match end_bso {
                Some(e) => e,
                None => DEFAULT_END_BSO,
            };
            let mut r: Vec<u32> = Vec::new();
            let mut s: u32 = start;
            while s < end
                invariant
                    start <= s <= end || (start >= end && s == start),
                    r@ =~= Seq::new((s - start) as nat, |i: int| (start + i) as u32),
                decreases end - s,
            {
                r.push(s);
                s = s + 1;
            }
            if start >= end {
                assert(r@ =~= Seq::<u32>::empty());
            }
            r
        },
    }
}

/// The part of a user's migration that a step performs.
#[derive(Clone, Copy, Debug, PartialEq, Eq, Structural)]
pub enum Phase {
    FetchUsers,
    InsertCollections,
    InsertBsos,
}

/// The next outside step of a run. `user` is the position of the user in
/// the list fetched for `shard`.
#[derive(Clone, Copy, Debug, PartialEq, Eq, Structural)]
pub enum Step {
    FetchUsers { shard: u32 },
    InsertCollections { shard: u32, user: usize },
    InsertBsos { shard: u32, user: usize },
    Done,
}

/// How an outside step ended.
#[derive(Clone, Copy, Debug, PartialEq, Eq, Structural)]
pub enum Outcome {
    /// The users of the shard were fetched: this many.
    Users(usize),
    /// The statement was executed, or there was none to execute.
    Succeeded,
    /// The step failed.
    Failed,
}

/// A step that failed; `user` is absent for a failed fetch.
#[derive(Clone, Copy, Debug, PartialEq, Eq, Structural)]
pub struct Failure {
    pub shard: u32,
    pub user: Option<usize>,
    pub phase: Phase,
}

/// The model of a run.
pub struct Progress {
    pub shards: Seq<u32>,
    pub shard_pos: nat,
    pub users: nat,
    pub step: Step,
    pub failures: Seq<Failure>,
}

/// Whether an outcome can end a step.
pub open spec fn fits(step: Step, o: Outcome) -> bool {
    match step {
        Step::FetchUsers { .. } => !(o is Succeeded),
        Step::InsertCollections { .. } => !(o is Users),
        Step::InsertBsos { .. } => !(o is Users),
        Step::Done => false,
    }
}

/// The step after the last of the current shard: the next shard's fetch,
/// or the end of the run.
pub open spec fn next_shard_step(p: Progress) -> Step {
    if p.shard_pos + 1 < p.shards.len() {
        Step::FetchUsers { shard: p.shards[p.shard_pos + 1 as int] }
    } else {
        Step::Done
    }
}

/// The step after the current user: the next user's collections, or the
/// next shard.
pub open spec fn next_user_step(p: Progress, shard: u32, user: usize) -> Step {
    if user + 1 < p.users {
        Step::InsertCollections { shard, user: (user + 1) as usize }
    } else {
        next_shard_step(p)
    }
}

/// The shard position after a step that was followed by `step`.
pub open spec fn position_after(p: Progress, step: Step) -> nat {
    if step is FetchUsers {
        p.shard_pos + 1
    } else {
        p.shard_pos
    }
}

/// The run after `o` ended the current step: a failure is recorded and the
/// run goes on; a failed collection insert skips that user's records.
pub open spec fn next(p: Progress, o: Outcome) -> Progress {
    match p.step {
        Step::FetchUsers { shard } => match o {
            Outcome::Users(n) => if n > 0 {
                Progress { users: n as nat, step: Step::InsertCollections { shard, user: 0 }, ..p }
            } else {
                let s = next_shard_step(p);
                Progress { users: 0, shard_pos: position_after(p, s), step: s, ..p }
            },
            _ => {
                let s = next_shard_step(p);
                Progress {
                    users: 0,
                    shard_pos: position_after(p, s),
                    step: s,
                    failures: p.failures.push(Failure { shard, user: None, phase: Phase::FetchUsers }),
                    ..p
                }
            },
        },
        Step::InsertCollections { shard, user } => match o {
            Outcome::Failed => {
                let s = next_user_step(p, shard, user);
                Progress {
                    shard_pos: position_after(p, s),
                    step: s,
                    failures: p.failures.push(Failure { shard, user: Some(user), phase: Phase::InsertCollections }),
                    ..p
                }
            },
            _ => Progress { step: Step::InsertBsos { shard, user }, ..p },
        },
        Step::InsertBsos { shard, user } => {
            let s = next_user_step(p, shard, user);
            let failures = if o is Failed {
                p.failures.push(Failure { shard, user: Some(user), phase: Phase::InsertBsos })
            } else {
                p.failures
            };
            Progress { shard_pos: position_after(p, s), step: s, failures, ..p }
        },
        Step::Done => p,
    }
}

/// Whether the step agrees with the shard and user positions.
pub open spec fn progress_wf(p: Progress) -> bool {
    match p.step {
        Step::FetchUsers { shard } => p.shard_pos < p.shards.len() && shard == p.shards[p.shard_pos as int],
        Step::InsertCollections { shard, user } => p.shard_pos < p.shards.len() && shard == p.shards[p.shard_pos as int]
            && user < p.users,
        Step::InsertBsos { shard, user } => p.shard_pos < p.shards.len() && shard == p.shards[p.shard_pos as int]
            && user < p.users,
        Step::Done => true,
    }
}

/// A migration run over a list of shards.
pub struct Migration {
    shards: Vec<u32>,
    shard_pos: usize,
    users: usize,
    step: Step,
    failures: Vec<Failure>,
}

impl View for Migration {
    type V = Progress;

    closed spec fn view(&self) -> Progress {
        Progress {
            shards: self.shards@,
            shard_pos: self.shard_pos as nat,
            users: self.users as nat,
            step: self.step,
            failures: self.failures@,
        }
    }
}

impl Migration {
    /// The step positions agree with the shards.
    pub open spec fn wf(&self) -> bool {
        progress_wf(self@)
    }

    /// A run over the shards to visit, starting with the first one's fetch.
    pub fn new(start_bso: Option<u32>, end_bso: Option<u32>, pinned: Option<u32>) -> (r: Migration)
        ensures
            r.wf(),
            r@.shards == shard_list(start_bso, end_bso, pinned),
            r@.shard_pos == 0,
            r@.users == 0,
            r@.failures.len() == 0,
            r@.step == if r@.shards.len() > 0 {
                Step::FetchUsers { shard: r@.shards[0] }
            } else {
                Step::Done
            },
    {
        let shards = shards_to_visit(start_bso, end_bso, pinned);
        let step = if shards.len() > 0 {
            Step::FetchUsers { shard: shards[0] }
        } else {
            Step::Done
        };
        Migration { shards, shard_pos: 0, users: 0, step, failures: Vec::new() }
    }

    /// The next outside step.
    pub fn step(&self) -> (r: Step)
        ensures
            r == self@.step,
    {
        self.step
    }

    /// The steps that failed so far, in order.
    pub fn failures(&self) -> (r: &Vec<Failure>)
        ensures
            r@ == self@.failures,
    {
        &self.failures
    }

    /// Takes the outcome of the current step and moves to the next step.
    pub fn advance(&mut self, outcome: Outcome)
        requires
            old(self).wf(),
            fits(old(self)@.step, outcome),
        ensures
            final(self).wf(),
            final(self)@ == next(old(self)@, outcome),
    {
        match self.step {
            Step::FetchUsers { shard } => match outcome {
                Outcome::Users(n) => {
                    if n > 0 {
                        self.users = n;
                        self.step = Step::InsertCollections { shard, user: 0 };
                    } else {
                        self.users = 0;
                        self.next_shard();
                    }
                },
                _ => {
                    self.users = 0;
                    self.failures.push(Failure { shard, user: None, phase: Phase::FetchUsers });
                    self.next_shard();
                },
            },
            Step::InsertCollections { shard, user } => match outcome {
                Outcome::Failed => {
                    self.failures.push(Failure { shard, user: Some(user), phase: Phase::InsertCollections });
                    self.next_user(shard, user);
                },
                _ => {
                    self.step = Step::InsertBsos { shard, user };
                },
            },
            Step::InsertBsos { shard, user } => {
                if outcome == Outcome::Failed {
                    self.failures.push(Failure { shard, user: Some(user), phase: Phase::InsertBsos });
                }
                self.next_user(shard, user);
            },
            Step::Done => {},
        }
    }

    fn next_shard(&mut self)
        requires
            old(self).shard_pos < old(self).shards@.len(),
        ensures
            final(self).shards == old(self).shards,
            final(self).users == old(self).users,
            final(self).failures == old(self).failures,
            final(self).step == next_shard_step(old(self)@),
            final(self).shard_pos == position_after(old(self)@, final(self).step),
    {
        if self.shard_pos < self.shards.len() - 1 {
            self.shard_pos = self.shard_pos + 1;
            self.step = Step::FetchUsers { shard: self.shards[self.shard_pos] };
        } else {
            self.step = Step::Done;
        }
    }

    fn next_user(&mut self, shard: u32, user: usize)
        requires
            old(self).shard_pos < old(self).shards@.len(),
            user < old(self).users,
        ensures
            final(self).shards == old(self).shards,
            final(self).users == old(self).users,
            final(self).failures == old(self).failures,
            final(self).step == next_user_step(old(self)@, shard, user),
            final(self).shard_pos == position_after(old(self)@, final(self).step),
    {
        if user + 1 < self.users {
            self.step = Step::InsertCollections { shard, user: user + 1 };
        } else {
            self.next_shard();
        }
    }
}

/// A failed record insert for a user is recorded, and the next user of
/// the shard, if there is one, is migrated next.
pub proof fn lemma_failure_moves_on(p: Progress, shard: u32, user: usize)
    requires
        progress_wf(p),
        p.step == (Step::InsertBsos { shard, user }),
        user + 1 < p.users,
    ensures
        next(p, Outcome::Failed).step == (Step::InsertCollections { shard, user: (user + 1) as usize }),
        next(p, Outcome::Failed).failures == p.failures.push(
            Failure { shard, user: Some(user), phase: Phase::InsertBsos },
        ),
        progress_wf(next(p, Outcome::Failed)),
{
}

} // verus!
