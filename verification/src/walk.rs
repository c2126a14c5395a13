//! Walking the commit graph down from a commit (`find_commits`).
//!
//! The walk asks git about commits as it goes, so it is a state machine: each
//! call hands in git's answer and returns the next question ([`WalkAction`]).
//! The caller runs the git commands and feeds the answers back.

use vstd::prelude::*;
use crate::assoc::{has_key, insert, put};
use crate::refs::contains_str;
use crate::text::{str_eq, views};
use crate::assoc::find_key;

verus! {

/// Where the walk stands.
#[derive(PartialEq, Eq, Structural, Clone, Copy)]
pub enum WalkPhase {
    /// Taking the next commit off the list.
    Popping,
    /// Testing whether the current commit is rooted, at a rooted commit.
    Testing,
    /// Waiting for the parents of the current commit.
    Awaiting,
    /// Done; the commit tree is complete.
    Finished,
    /// Git could not give the parents of a commit.
    Failed,
}

/// The walk as values: commits still to look at (the last is next), the
/// commits walked with their parents, the rooted commits where the walk
/// stops, the commits already visited, the phase, the current commit and
/// the index of the rooted commit it is being tested against.
pub struct WalkModel {
    pub start: Seq<char>,
    pub pending: Seq<Seq<char>>,
    pub commits: Seq<(Seq<char>, Seq<Seq<char>>)>,
    pub rooted: Seq<Seq<char>>,
    pub visited: Seq<Seq<char>>,
    pub phase: WalkPhase,
    pub cur: Seq<char>,
    pub idx: int,
}

/// The question the walk asks next, as values.
pub enum Ask {
    /// Is `ancestor` an ancestor of `commit`?
    Ancestor { commit: Seq<char>, ancestor: Seq<char> },
    /// What are the parents of `commit`?
    Parents { commit: Seq<char> },
    /// The walk is complete.
    Done,
    /// The parents of `commit` could not be read.
    Fail { commit: Seq<char> },
}

/// Takes commits off the list until one needs looking at: commits visited
/// before or already walked are skipped; the walk ends when the list is empty.
pub open spec fn pop_next(m: WalkModel) -> (WalkModel, Ask)
    decreases m.pending.len(), 1int,
{
    if m.pending.len() == 0 {
        (WalkModel { phase: WalkPhase::Finished, ..m }, Ask::Done)
    } else {
        let cur = m.pending.last();
        let rest = WalkModel { pending: m.pending.drop_last(), ..m };
        if m.visited.contains(cur) || has_key(m.commits, cur) {
            pop_next(rest)
        } else {
            test_rooted(WalkModel { cur: cur, idx: 0, phase: WalkPhase::Testing, ..rest })
        }
    }
}

/// Tests the current commit against the rooted commit at `idx`: equal to it
/// means rooted (the walk goes on with the next commit); otherwise git is
/// asked whether the current commit is an ancestor of it.  Past the last
/// rooted commit, the commit is not rooted and its parents are asked for.
pub open spec fn test_rooted(m: WalkModel) -> (WalkModel, Ask)
    decreases m.pending.len(), 2int,
{
    if m.idx < 0 || m.idx >= m.rooted.len() {
        (
            WalkModel { phase: WalkPhase::Awaiting, ..m },
            Ask::Parents { commit: m.cur },
        )
    } else if m.cur == m.rooted[m.idx] {
        pop_next(WalkModel { phase: WalkPhase::Popping, ..m })
    } else {
        (
            WalkModel { phase: WalkPhase::Testing, ..m },
            Ask::Ancestor { commit: m.rooted[m.idx], ancestor: m.cur },
        )
    }
}

/// The answer of git on ancestry: rooted when it is an ancestor; otherwise
/// the test goes on with the next rooted commit.
pub open spec fn on_ancestor(m: WalkModel, is_ancestor: bool) -> (WalkModel, Ask) {
    if is_ancestor {
        pop_next(WalkModel { phase: WalkPhase::Popping, ..m })
    } else {
        test_rooted(WalkModel { idx: m.idx + 1, ..m })
    }
}

/// The parents given by git: they are queued and recorded for the current
/// commit, and the walk goes on.
pub open spec fn on_parents(m: WalkModel, parents: Option<Seq<Seq<char>>>) -> (WalkModel, Ask) {
    match parents {
        None => (WalkModel { phase: WalkPhase::Failed, ..m }, Ask::Fail { commit: m.cur }),
        Some(ps) => pop_next(
            WalkModel {
                pending: m.pending + ps,
                commits: put(m.commits, m.cur, ps),
                phase: WalkPhase::Popping,
                ..m
            },
        ),
    }
}

/// The walk at its start.
pub open spec fn initial(start: Seq<char>, rooted: Seq<Seq<char>>, visited: Seq<Seq<char>>) -> WalkModel {
    WalkModel {
        start,
        pending: seq![start],
        commits: Seq::empty(),
        rooted,
        visited,
        phase: WalkPhase::Popping,
        cur: Seq::empty(),
        idx: 0,
    }
}

proof fn lemma_pop_next(m: WalkModel)
    ensures
        pop_next(m).1 matches Ask::Parents { commit } ==> !m.rooted.contains(commit),
        pop_next(m).0.commits == m.commits,
        m.rooted.len() > 0 ==> !(pop_next(m).1 is Parents),
    decreases m.pending.len(), 1int,
{
    if m.pending.len() > 0 {
        let cur = m.pending.last();
        let rest = WalkModel { pending: m.pending.drop_last(), ..m };
        if m.visited.contains(cur) || has_key(m.commits, cur) {
            lemma_pop_next(rest);
        } else {
            let t = WalkModel { cur: cur, idx: 0, phase: WalkPhase::Testing, ..rest };
            lemma_test_rooted(t);
            if let Ask::Parents { commit } = test_rooted(t).1 {
                assert forall|j: int| 0 <= j < m.rooted.len() implies m.rooted[j] != commit by {
                    assert(t.idx <= j < t.rooted.len());
                }
            }
        }
    }
}

proof fn lemma_test_rooted(m: WalkModel)
    requires
        m.idx >= 0,
    ensures
        test_rooted(m).1 matches Ask::Parents { commit } ==> forall|j: int|
            m.idx <= j < m.rooted.len() ==> m.rooted[j] != commit,
        test_rooted(m).0.commits == m.commits,
        m.idx < m.rooted.len() ==> !(test_rooted(m).1 is Parents),
    decreases m.pending.len(), 2int,
{
    if m.idx < m.rooted.len() && m.cur == m.rooted[m.idx] {
        let n = WalkModel { phase: WalkPhase::Popping, ..m };
        lemma_pop_next(n);
        if let Ask::Parents { commit } = pop_next(n).1 {
            assert forall|j: int| m.idx <= j < m.rooted.len() implies m.rooted[j] != commit by {
                if m.rooted[j] == commit {
                    assert(m.rooted.contains(commit));
                }
            }
        }
    }
}

/// Rooted commits are never walked below: a commit taken off the list is
/// given to git for its parents only when it is none of the rooted commits,
/// and, where there are rooted commits, only after git was asked about it;
/// taking commits off the list or testing them records nothing in the
/// walked tree; the one commit recorded is the commit whose parents git gave.
pub proof fn law_rooted_never_expanded(m: WalkModel, parents: Seq<Seq<char>>)
    ensures
        pop_next(m).1 matches Ask::Parents { commit } ==> !m.rooted.contains(commit),
        m.rooted.len() > 0 ==> !(pop_next(m).1 is Parents),
        pop_next(m).0.commits == m.commits,
        m.idx >= 0 ==> test_rooted(m).0.commits == m.commits,
        on_parents(m, Some(parents)).0.commits == put(m.commits, m.cur, parents),
{
    lemma_pop_next(m);
    if m.idx >= 0 {
        lemma_test_rooted(m);
    }
    lemma_pop_next(
        WalkModel {
            pending: m.pending + parents,
            commits: put(m.commits, m.cur, parents),
            phase: WalkPhase::Popping,
            ..m
        },
    );
}

/// Every rooted commit is tested before the parents of a commit are asked
/// for: after git answers that the current commit is not an ancestor of the
/// rooted commit at `idx`, the walk asks about the next rooted commit (unless
/// the current commit is that very commit, which ends its walk); it asks for
/// the parents of a commit only when none of the rooted commits after `idx`
/// is that commit; after a `true` the current commit is done with and no
/// parents are asked for; and neither answer records anything in the walked
/// tree.
pub proof fn law_walk_tests_every_root(m: WalkModel)
    requires
        m.phase == WalkPhase::Testing,
        0 <= m.idx < m.rooted.len(),
    ensures
        m.idx + 1 < m.rooted.len() && m.cur != m.rooted[m.idx + 1] ==> on_ancestor(m, false).1 == (Ask::Ancestor {
            commit: m.rooted[m.idx + 1],
            ancestor: m.cur,
        }),
        m.idx + 1 < m.rooted.len() ==> on_ancestor(m, false).1 != (Ask::Parents { commit: m.cur }),
        on_ancestor(m, false).1 matches Ask::Parents { commit } ==> forall|j: int|
            m.idx < j < m.rooted.len() ==> m.rooted[j] != commit,
        !(on_ancestor(m, true).1 is Parents),
        on_ancestor(m, false).0.commits == m.commits,
        on_ancestor(m, true).0.commits == m.commits,
{
    let n = WalkModel { idx: m.idx + 1, ..m };
    lemma_test_rooted(n);
    lemma_pop_next(WalkModel { phase: WalkPhase::Popping, ..m });
    if m.idx + 1 < m.rooted.len() && on_ancestor(m, false).1 == (Ask::Parents { commit: m.cur }) {
        assert(m.rooted[m.idx + 1] != m.cur);
    }
}

/// The next question of the walk.
pub enum WalkAction {
    /// Run `git merge-base --is-ancestor <ancestor> <commit>` and hand in its
    /// success with [`CommitWalk::answer_ancestor`].
    IsAncestor { commit: String, ancestor: String },
    /// Run `git show -s --pretty=%P <commit>` and hand in the parents with
    /// [`CommitWalk::answer_parents`].
    GetParents { commit: String },
    /// The walk is complete: take the tree with [`CommitWalk::into_commits`].
    Done,
    /// Git gave no parents for this commit; the tool stops here.
    Fail { commit: String },
}

/// The value of an action.
pub open spec fn action_view(a: WalkAction) -> Ask {
    match a {
        WalkAction::IsAncestor { commit, ancestor } => Ask::Ancestor { commit: commit@, ancestor: ancestor@ },
        WalkAction::GetParents { commit } => Ask::Parents { commit: commit@ },
        WalkAction::Done => Ask::Done,
        WalkAction::Fail { commit } => Ask::Fail { commit: commit@ },
    }
}

/// A walk down the commit graph.
pub struct CommitWalk {
    start: String,
    pending: Vec<String>,
    commits: Vec<(String, Vec<String>)>,
    rooted: Vec<String>,
    visited: Vec<String>,
    phase: WalkPhase,
    cur: String,
    idx: usize,
}

impl CommitWalk {
    /// The walk as values.
    pub closed spec fn model(&self) -> WalkModel {
        WalkModel {
            start: self.start@,
            pending: views(self.pending@),
            commits: self.commits.deep_view(),
            rooted: views(self.rooted@),
            visited: views(self.visited@),
            phase: self.phase,
            cur: self.cur@,
            idx: self.idx as int,
        }
    }

    /// Takes commits off the list until git must be asked something.
    fn pop(&mut self) -> (res: WalkAction)
        requires
            old(self).phase == WalkPhase::Popping,
            old(self).wf(),
        ensures
            (final(self).model(), action_view(res)) == pop_next(old(self).model()),
            final(self).wf(),
        decreases old(self).pending.len(), 1int,
    {
        if self.pending.len() == 0 {
            self.phase = WalkPhase::Finished;
            return WalkAction::Done;
        }
        let ghost m = self.model();
        let cur = self.pending.pop().unwrap();
        proof {
            assert(views(self.pending@) =~= m.pending.drop_last());
        }
        let skip = contains_str(&self.visited, cur.as_str()) || find_key(&self.commits, cur.as_str()).is_some();
        if skip {
            self.pop()
        } else {
            self.cur = cur;
            self.idx = 0;
            self.phase = WalkPhase::Testing;
            self.test()
        }
    }

    /// Tests the current commit against the rooted commit at `idx`.
    fn test(&mut self) -> (res: WalkAction)
        requires
            old(self).phase == WalkPhase::Testing,
            old(self).idx <= old(self).rooted.len(),
        ensures
            (final(self).model(), action_view(res)) == test_rooted(old(self).model()),
            final(self).wf(),
        decreases old(self).pending.len(), 2int,
    {
        if self.idx >= self.rooted.len() {
            self.phase = WalkPhase::Awaiting;
            let commit = self.cur.clone();
            return WalkAction::GetParents { commit };
        }
        if str_eq(self.cur.as_str(), self.rooted[self.idx].as_str()) {
            self.phase = WalkPhase::Popping;
            self.pop()
        } else {
            WalkAction::IsAncestor { commit: self.rooted[self.idx].clone(), ancestor: self.cur.clone() }
        }
    }

    /// Starts a walk from `start`, stopping at `rooted` commits (and at their
    /// ancestors) and skipping `visited` ones; returns the first question.
    pub fn new(start: String, rooted: Vec<String>, visited: Vec<String>) -> (res: (CommitWalk, WalkAction))
        ensures
            (res.0.model(), action_view(res.1)) == pop_next(initial(start@, views(rooted@), views(visited@))),
            res.0.wf(),
    {
        let mut w = CommitWalk {
            start: start.clone(),
            pending: vec![start],
            commits: Vec::new(),
            rooted,
            visited,
            phase: WalkPhase::Popping,
            cur: String::new(),
            idx: 0,
        };
        proof {
            assert(w.model() == initial(w.start@, views(w.rooted@), views(w.visited@))) by {
                assert(views(w.pending@) =~= seq![w.start@]);
                assert(w.commits.deep_view() =~= Seq::<(Seq<char>, Seq<Seq<char>>)>::empty());
            }
        }
        let a = w.pop();
        (w, a)
    }

    /// The phase of the walk.
    pub fn phase(&self) -> (res: WalkPhase)
        ensures
            res == self.model().phase,
    {
        self.phase
    }

    /// Hands in whether the current commit is an ancestor of the rooted
    /// commit asked about.
    pub fn answer_ancestor(&mut self, is_ancestor: bool) -> (res: WalkAction)
        requires
            old(self).wf(),
            old(self).model().phase == WalkPhase::Testing,
        ensures
            (final(self).model(), action_view(res)) == on_ancestor(old(self).model(), is_ancestor),
            final(self).wf(),
    {

        if is_ancestor {
            self.phase = WalkPhase::Popping;
            self.pop()
        } else {
            self.idx = self.idx + 1;
            self.test()
        }
    }

    /// Hands in the parents of the commit asked about (`None` when git
    /// failed).
    pub fn answer_parents(&mut self, parents: Option<Vec<String>>) -> (res: WalkAction)
        requires
            old(self).wf(),
            old(self).model().phase == WalkPhase::Awaiting,
        ensures
            final(self).wf(),
            (final(self).model(), action_view(res)) == on_parents(
                old(self).model(),
                match parents {
                    Some(ps) => Some(views(ps@)),
                    None => None,
                },
            ),
    {

        match parents {
            None => {
                self.phase = WalkPhase::Failed;
                WalkAction::Fail { commit: self.cur.clone() }
            },
            Some(ps) => {
                let ghost m = self.model();
                let mut i: usize = 0;
                while i < ps.len()
                    invariant
                        i <= ps.len(),
                        self.model() == (WalkModel { pending: m.pending + views(ps@).take(i as int), ..m }),
                        self.wf(),
                        self.phase == WalkPhase::Awaiting,
                    decreases ps.len() - i,
                {
                    let ghost op = views(self.pending@);
                    self.pending.push(ps[i].clone());
                    proof {
                        assert(views(self.pending@) =~= op.push(ps@[i as int]@));
                        assert(views(ps@).take(i + 1) =~= views(ps@).take(i as int).push(ps@[i as int]@));
                        assert(views(self.pending@) =~= m.pending + views(ps@).take(i + 1));
                    }
                    i += 1;
                }
                proof {
                    assert(views(ps@).take(ps@.len() as int) =~= views(ps@));
                    assert(views(self.pending@) == m.pending + views(ps@));
                }
                proof {
                    assert(ps.deep_view() =~= views(ps@));
                }
                insert(&mut self.commits, self.cur.clone(), ps);
                self.phase = WalkPhase::Popping;
                self.pop()
            },
        }
    }

    /// The commits walked, each with its parents.
    pub fn into_commits(self) -> (res: Vec<(String, Vec<String>)>)
        ensures
            res.deep_view() == self.model().commits,
    {
        self.commits
    }

    /// The index of the rooted commit under test never passes their number,
    /// and names one of them while a test is under way.
    pub closed spec fn wf(&self) -> bool {
        &&& self.idx <= self.rooted.len()
        &&& self.phase == WalkPhase::Testing ==> self.idx < self.rooted.len()
    }
}


/// The rooted commits for walking a changed branch in a snapshot export: a
/// branch at one of the primary commits is walked to its end, any other
/// branch down to the primary commits.
pub fn roots_for(head: &str, primary: &Vec<String>) -> (res: Vec<String>)
    ensures
        views(res@) == (if views(primary@).contains(head@) { Seq::<Seq<char>>::empty() } else { views(primary@) }),
{
    if contains_str(primary, head) {
        let res: Vec<String> = Vec::new();
        proof {
            assert(views(res@) =~= Seq::<Seq<char>>::empty());
        }
        res
    } else {
        crate::scan::copy_strings(primary)
    }
}
} // verus!
