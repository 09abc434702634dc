use vstd::prelude::*;

use crate::geometry::{Pos2, Rect};

verus! {

/// One entry of a level: a terminal target is clicked once; any other target is clicked
/// once per letter of its label, each letter shown on its own.
pub struct Target {
    pub position: Rect,
    pub label: Vec<char>,
    pub required_success: usize,
    pub terminal: bool,
}

/// A level: targets to click in order, the progress made, and where the misses landed.
pub struct Level {
    pub targets: Vec<Target>,
    pub success: usize,
    pub misses: Vec<Pos2>,
    pub win_message: Vec<char>,
}

/// How many clicks a target takes.
pub open spec fn steps(t: Target) -> nat {
    if t.terminal {
        1
    } else {
        t.label@.len()
    }
}

/// How many clicks the first `i` targets take together.
pub open spec fn prefix_steps(ts: Seq<Target>, i: int) -> nat
    decreases i,
{
    if i <= 0 {
        0
    } else {
        prefix_steps(ts, i - 1) + steps(ts[i - 1])
    }
}

/// Each target opens when the targets before it are done.
pub open spec fn consecutive(ts: Seq<Target>) -> bool {
    forall|i: int| 0 <= i < ts.len() ==> #[trigger] ts[i].required_success == prefix_steps(ts, i)
}

/// Whether the target is the one to click at this progress.
pub open spec fn active(t: Target, success: int) -> bool {
    t.required_success <= success < t.required_success + steps(t)
}

/// Whether a press at `p` is the click the level waits for.
pub open spec fn on_target(ts: Seq<Target>, success: int, p: Pos2) -> bool {
    exists|i: int| 0 <= i < ts.len() && active(ts[i], success) && #[trigger] ts[i].position.spec_contains(p)
}

proof fn lemma_prefix_monotone(ts: Seq<Target>, i: int, j: int)
    requires
        0 <= i <= j,
    ensures
        prefix_steps(ts, i) <= prefix_steps(ts, j),
    decreases j - i,
{
    if i < j {
        lemma_prefix_monotone(ts, i, j - 1);
    }
}

impl Level {
    pub open spec fn total(&self) -> nat {
        prefix_steps(self.targets@, self.targets@.len() as int)
    }

    /// Targets follow one another, and progress never passes the number of clicks the
    /// level takes.
    pub open spec fn wf(&self) -> bool {
        &&& consecutive(self.targets@)
        &&& self.total() <= usize::MAX
        &&& self.success <= self.total()
    }

    /// A level with no progress and no misses, or `None` when a target does not open
    /// exactly when the ones before it are done, or the clicks do not fit a `usize`.
    pub fn new(targets: Vec<Target>, win_message: Vec<char>) -> (r: Option<Level>)
        ensures
            r is Some <==> consecutive(targets@) && prefix_steps(targets@, targets@.len() as int)
                <= usize::MAX,
            r matches Some(l) ==> {
                &&& l.wf()
                &&& l.targets@ == targets@
                &&& l.success == 0
                &&& l.misses@.len() == 0
                &&& l.win_message@ == win_message@
            },
    {
        let n = targets.len();
        let mut acc: usize = 0;
        let mut i: usize = 0;
        while i < n
            invariant
                n == targets@.len(),
                0 <= i <= n,
                acc == prefix_steps(targets@, i as int),
                forall|j: int|
                    0 <= j < i ==> #[trigger] targets@[j].required_success == prefix_steps(
                        targets@,
                        j,
                    ),
            decreases n - i,
        {
            let t = &targets[i];
            if t.required_success != acc {
                return None;
            }
            let s: usize = if t.terminal {
                1
            } else {
                t.label.len()
            };
            if acc > usize::MAX - s {
                proof {
                    lemma_prefix_monotone(targets@, i as int + 1, n as int);
                }
                return None;
            }
            acc = acc + s;
            i = i + 1;
        }
        Some(Level { targets, success: 0, misses: Vec::new(), win_message })
    }

    /// A press at `p`: on the target the level waits for it counts one step of progress;
    /// anywhere else it is recorded as a miss and progress stays.
    pub fn click(&mut self, p: Pos2) -> (hit: bool)
        requires
            old(self).wf(),
        ensures
            final(self).wf(),
            hit == on_target(old(self).targets@, old(self).success as int, p),
            final(self).targets@ == old(self).targets@,
            final(self).win_message@ == old(self).win_message@,
            final(self).success == if hit {
                old(self).success + 1
            } else {
                old(self).success as int
            },
            final(self).misses@ == if hit {
                old(self).misses@
            } else {
                old(self).misses@.push(p)
            },
    {
        let n = self.targets.len();
        let mut i: usize = 0;
        let mut hit = false;
        while i < n
            invariant
                n == self.targets@.len(),
                0 <= i <= n,
                self.wf(),
                *self == *old(self),
                hit ==> on_target(self.targets@, self.success as int, p),
                hit ==> self.success + 1 <= self.total(),
                !hit ==> forall|j: int|
                    0 <= j < i ==> !(active(self.targets@[j], self.success as int)
                        && #[trigger] self.targets@[j].position.spec_contains(p)),
            decreases n - i,
        {
            let t = &self.targets[i];
            let s: usize = if t.terminal {
                1
            } else {
                t.label.len()
            };
            proof {
                lemma_prefix_monotone(self.targets@, i as int + 1, n as int);
            }
            if !hit && t.required_success <= self.success && self.success - t.required_success < s
                && t.position.contains(p) {
                hit = true;
                assert(active(self.targets@[i as int], self.success as int));
                assert(self.targets@[i as int].required_success == prefix_steps(
                    self.targets@,
                    i as int,
                ));
                assert(self.success + 1 <= self.total());
            }
            i = i + 1;
        }
        if hit {
            self.success = self.success + 1;
        } else {
            self.misses.push(p);
        }
        hit
    }

    /// The letter a non-terminal target shows for clicking now, while it is the active
    /// target.
    pub fn next_letter(&self, i: usize) -> (r: Option<char>)
        requires
            self.wf(),
            i < self.targets@.len(),
        ensures
            r == if !self.targets@[i as int].terminal && active(
                self.targets@[i as int],
                self.success as int,
            ) {
                Some(
                    self.targets@[i as int].label@[self.success - self.targets@[i as int].required_success],
                )
            } else {
                None
            },
    {
        let t = &self.targets[i];
        if !t.terminal && t.required_success <= self.success && self.success - t.required_success
            < t.label.len() {
            Some(t.label[self.success - t.required_success])
        } else {
            None
        }
    }

    /// The win message split where progress stands: one letter revealed per step made,
    /// and the letters still to come.
    pub fn progress(&self) -> (r: (Vec<char>, Vec<char>))
        ensures
            r.0@ == self.win_message@.take(revealed_len(self.success as int, self.win_message@.len() as int)),
            r.1@ == self.win_message@.skip(revealed_len(self.success as int, self.win_message@.len() as int)),
    {
        let n = self.win_message.len();
        let k: usize = if self.success < n {
            self.success
        } else {
            n
        };
        let mut shown: Vec<char> = Vec::new();
        let mut rest: Vec<char> = Vec::new();
        let mut i: usize = 0;
        while i < n
            invariant
                n == self.win_message@.len(),
                k <= n,
                0 <= i <= n,
                shown@ == self.win_message@.take(if i < k { i as int } else { k as int }),
                rest@ == if i <= k {
                    Seq::<char>::empty()
                } else {
                    self.win_message@.subrange(k as int, i as int)
                },
            decreases n - i,
        {
            if i < k {
                shown.push(self.win_message[i]);
                assert(shown@ =~= self.win_message@.take(i as int + 1));
            } else {
                rest.push(self.win_message[i]);
                assert(rest@ =~= self.win_message@.subrange(k as int, i as int + 1));
            }
            i = i + 1;
        }
        assert(rest@ =~= self.win_message@.skip(k as int));
        (shown, rest)
    }
}

/// How many letters of a win message of length `len` are revealed at this progress.
pub open spec fn revealed_len(success: int, len: int) -> int {
    if success < len {
        success
    } else {
        len
    }
}

proof fn lemma_active_exists(ts: Seq<Target>, s: int, n: int)
    requires
        consecutive(ts),
        0 <= n <= ts.len(),
        0 <= s < prefix_steps(ts, n),
    ensures
        exists|i: int| 0 <= i < n && #[trigger] active(ts[i], s),
    decreases n,
{
    if s < prefix_steps(ts, n - 1) {
        lemma_active_exists(ts, s, n - 1);
        let i = choose|i: int| 0 <= i < n - 1 && #[trigger] active(ts[i], s);
        assert(0 <= i < n && active(ts[i], s));
    } else {
        assert(ts[n - 1].required_success == prefix_steps(ts, n - 1));
        assert(active(ts[n - 1], s));
    }
}

/// In a level whose targets follow one another, at any progress short of the end
/// exactly one target is the one to click: clicks in order move progress on one step at
/// a time, and [`Level::click`] counts a press there and only there.
pub proof fn lemma_one_active_target(l: Level)
    requires
        l.wf(),
    ensures
        l.success < l.total() ==> exists|i: int|
            0 <= i < l.targets@.len() && #[trigger] active(l.targets@[i], l.success as int),
        forall|i: int, j: int|
            0 <= i < l.targets@.len() && 0 <= j < l.targets@.len() && active(
                #[trigger] l.targets@[i],
                l.success as int,
            ) && active(#[trigger] l.targets@[j], l.success as int) ==> i == j,
{
    let ts = l.targets@;
    if l.success < l.total() {
        lemma_active_exists(ts, l.success as int, ts.len() as int);
    }
    assert forall|i: int, j: int|
        0 <= i < ts.len() && 0 <= j < ts.len() && active(#[trigger] ts[i], l.success as int)
            && active(#[trigger] ts[j], l.success as int) implies i == j by {
        assert(ts[i].required_success == prefix_steps(ts, i));
        assert(ts[j].required_success == prefix_steps(ts, j));
        if i < j {
            lemma_prefix_monotone(ts, i + 1, j);
        } else if j < i {
            lemma_prefix_monotone(ts, j + 1, i);
        }
    }
}

} // verus!
