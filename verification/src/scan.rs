//! Finding the objects to export from the walked commit trees
//! (`scan_changes` of the pack export, `affected` of the lfs export).
//!
//! For each commit in order, the scan follows first parents down the commit
//! tree; at a merge it asks for the objects between the merge and its first
//! parent and queues every parent; at the end of a line it asks for the
//! objects between the scanned commit and that end.  Asking git for objects
//! is input/output, so the scan is a state machine like the walk.

use vstd::prelude::*;
use crate::assoc::{del, find_key, get, has_key, key_index, lemma_get_del, lemma_key_index, remove};
use crate::refs::contains_str;
use crate::text::{str_eq, views};

verus! {

/// Where the scan stands.
#[derive(PartialEq, Eq, Structural, Clone, Copy)]
pub enum ScanPhase {
    Running,
    Awaiting,
    Finished,
    Failed,
}

/// The scan as values.
pub struct ScanModel {
    /// The commits to scan, in order, and the next one.
    pub order: Seq<Seq<char>>,
    pub next: int,
    /// Commits already taken from `order`.
    pub seen: Seq<Seq<char>>,
    /// The commit tree: commit to parents; walked entries are removed.
    pub tree: Seq<(Seq<char>, Seq<Seq<char>>)>,
    /// The tree as it was at the start (the lfs scan starts every commit from it).
    pub base_tree: Seq<(Seq<char>, Seq<Seq<char>>)>,
    /// Commits the import side must already have.
    pub required: Seq<Seq<char>>,
    /// The objects found so far, scan after scan.
    pub objects: Seq<Seq<char>>,
    /// Whether a scan of one commit is under way, of which commit, its
    /// queues of merge parents and of commits, the line's head, and the
    /// objects found in it.
    pub active: bool,
    pub start: Seq<char>,
    pub pq: Seq<Seq<char>>,
    pub cq: Seq<Seq<char>>,
    pub parent: Seq<char>,
    pub changes: Seq<Seq<char>>,
    pub phase: ScanPhase,
    /// After the answer, check whether this commit is required.
    pub check: bool,
    pub check_commit: Seq<char>,
    /// The pack export's scan (keeps the tree, skips commits outside it and
    /// records required commits) or the lfs export's.
    pub pack: bool,
}

/// The question of the scan.
pub enum ScanAsk {
    /// The objects of `ancestor..commit` (of `commit` alone when `ancestor`
    /// is empty).
    Objects { commit: Seq<char>, ancestor: Seq<char> },
    Done,
    Fail,
}

/// Removes consecutive repeats (`Vec::dedup`).
pub open spec fn dedup(s: Seq<Seq<char>>) -> Seq<Seq<char>>
    decreases s.len(),
{
    if s.len() <= 1 {
        s
    } else {
        let r = dedup(s.drop_last());
        if s.last() == s[s.len() - 2] {
            r
        } else {
            r.push(s.last())
        }
    }
}

/// Takes the next commit in order: its scan starts when it is in the tree
/// (always, for the lfs scan, from the whole tree); otherwise it is skipped.
pub open spec fn next_commit(m: ScanModel) -> (ScanModel, ScanAsk)
    decreases m.order.len() - m.next, 1int, 0int, 0int,
{
    if m.next < 0 || m.next >= m.order.len() {
        (ScanModel { phase: ScanPhase::Finished, ..m }, ScanAsk::Done)
    } else {
        let c = m.order[m.next];
        let m1 = ScanModel { seen: m.seen.push(c), next: m.next + 1, ..m };
        if !m.pack || has_key(m.tree, c) {
            inner(
                ScanModel {
                    active: true,
                    start: c,
                    pq: seq![c],
                    cq: Seq::empty(),
                    changes: Seq::empty(),
                    tree: if m.pack { m.tree } else { m.base_tree },
                    ..m1
                },
            )
        } else {
            next_commit(m1)
        }
    }
}

/// One step of the scan of a commit.
pub open spec fn inner(m: ScanModel) -> (ScanModel, ScanAsk)
    decreases m.order.len() - m.next + 1, 0int, m.tree.len(), 2 * m.pq.len() + m.cq.len(),
{
    if m.next < 0 || m.next > m.order.len() {
        (ScanModel { phase: ScanPhase::Finished, ..m }, ScanAsk::Done)
    } else if m.cq.len() == 0 {
        if m.pq.len() == 0 {
            next_commit(
                ScanModel { objects: m.objects + dedup(m.changes), active: false, ..m },
            )
        } else {
            inner(ScanModel { parent: m.pq.last(), pq: m.pq.drop_last(), cq: seq![m.pq.last()], ..m })
        }
    } else {
        let cur = m.cq.last();
        let m1 = ScanModel { cq: m.cq.drop_last(), ..m };
        if has_key(m.tree, cur) {
            let ps = get(m.tree, cur)->0;
            let m2 = ScanModel { tree: del(m.tree, cur), ..m1 };
            proof {
                lemma_key_index(m.tree, cur);
            }
            if ps.len() == 0 {
                (
                    ScanModel { phase: ScanPhase::Awaiting, check: false, ..m2 },
                    ScanAsk::Objects {
                        commit: m.start,
                        ancestor: if m.start != cur { cur } else { Seq::empty() },
                    },
                )
            } else if ps.len() == 1 {
                inner(ScanModel { cq: m2.cq.push(ps[0]), ..m2 })
            } else {
                (
                    ScanModel { phase: ScanPhase::Awaiting, check: false, pq: m2.pq + ps, ..m2 },
                    ScanAsk::Objects { commit: m.parent, ancestor: ps[0] },
                )
            }
        } else if cur != m.parent {
            (
                ScanModel { phase: ScanPhase::Awaiting, check: m.pack, check_commit: cur, ..m1 },
                ScanAsk::Objects { commit: m.parent, ancestor: cur },
            )
        } else if m.pack && !m.seen.contains(cur) {
            inner(ScanModel { required: m1.required.push(cur), ..m1 })
        } else {
            inner(m1)
        }
    }
}

/// Each commit of `line` but the last has the next as its only parent in
/// `tree`, and no commit occurs twice: a first-parent line.
pub open spec fn first_parent_line(tree: Seq<(Seq<char>, Seq<Seq<char>>)>, line: Seq<Seq<char>>) -> bool {
    &&& line.len() >= 1
    &&& line.no_duplicates()
    &&& forall|i: int| 0 <= i < line.len() - 1 ==> #[trigger] get(tree, line[i]) == Some(seq![line[i + 1]])
}

/// Following a first-parent line from the top of the commit queue, the scan
/// asks at its end: at a merge, for the range from the merge's first parent
/// up to the head of the line, queueing the merge's parents; at a commit
/// without parents, for the range from that commit up to the scanned commit;
/// at a commit outside the tree, for the range from it up to the head.
proof fn lemma_line(m: ScanModel, line: Seq<Seq<char>>)
    requires
        0 <= m.next <= m.order.len(),
        m.cq.len() > 0,
        m.cq.last() == line[0],
        first_parent_line(m.tree, line),
    ensures
        get(m.tree, line.last()) matches Some(ps) ==> ps.len() >= 2 ==> {
            &&& inner(m).1 == (ScanAsk::Objects { commit: m.parent, ancestor: ps[0] })
            &&& inner(m).0.pq == m.pq + ps
            &&& inner(m).0.phase == ScanPhase::Awaiting
        },
        get(m.tree, line.last()) == Some(Seq::<Seq<char>>::empty()) ==> inner(m).1 == (ScanAsk::Objects {
            commit: m.start,
            ancestor: if m.start != line.last() { line.last() } else { Seq::empty() },
        }),
        get(m.tree, line.last()) is None && line.last() != m.parent ==> inner(m).1 == (ScanAsk::Objects {
            commit: m.parent,
            ancestor: line.last(),
        }),
    decreases line.len(),
{
    let cur = line[0];
    lemma_key_index(m.tree, cur);
    if line.len() == 1 {
        assert(line.last() == cur);
    } else {
        assert(get(m.tree, line[0]) == Some(seq![line[1]]));
        let m1 = ScanModel { cq: m.cq.drop_last(), ..m };
        let m2 = ScanModel { tree: del(m.tree, cur), ..m1 };
        let m3 = ScanModel { cq: m2.cq.push(line[1]), ..m2 };
        let rest = line.drop_first();
        assert forall|i: int| 0 <= i < rest.len() - 1 implies #[trigger] get(m3.tree, rest[i]) == Some(
            seq![rest[i + 1]],
        ) by {
            assert(rest[i] == line[i + 1]);
            assert(line[i + 1] != line[0]);
            lemma_get_del(m.tree, cur, line[i + 1]);
            assert(get(m.tree, line[i + 1]) == Some(seq![line[i + 2]]));
        }
        assert(rest.last() == line.last());
        assert(line.last() != line[0]);
        lemma_get_del(m.tree, cur, line.last());
        lemma_line(m3, rest);
        assert(inner(m) == inner(m3));
    }
}

/// The commit tree the scan of the next commit walks: what is left of the
/// tree for the pack export, the whole tree for the lfs export.
pub open spec fn walked_tree(m: ScanModel) -> Seq<(Seq<char>, Seq<Seq<char>>)> {
    if m.pack {
        m.tree
    } else {
        m.base_tree
    }
}

/// The ranges asked for cover the first-parent line of the scanned commit
/// `c = line[0]` down to where it ends: at a merge with parents `ps`, the
/// range from the merge's first parent up to `c` (the head of the line, not
/// the merge), so that `c` and the whole line down to the merge lie inside
/// it, every parent of the merge being queued for a line of its own; at a
/// commit `r` without parents, the range `r..c` (all of `c` when `c` is
/// `r`); at a commit `x` outside the tree (walked earlier, or below a rooted
/// commit), the range `x..c`.
pub proof fn law_line_ranges(m: ScanModel, line: Seq<Seq<char>>)
    requires
        0 <= m.next < m.order.len(),
        line[0] == m.order[m.next],
        first_parent_line(walked_tree(m), line),
    ensures
        get(walked_tree(m), line.last()) matches Some(ps) ==> ps.len() >= 2 ==> {
            &&& next_commit(m).1 == (ScanAsk::Objects { commit: line[0], ancestor: ps[0] })
            &&& next_commit(m).0.pq == ps
            &&& next_commit(m).0.phase == ScanPhase::Awaiting
        },
        get(walked_tree(m), line.last()) == Some(Seq::<Seq<char>>::empty()) ==> next_commit(m).1 == (
        ScanAsk::Objects {
            commit: line[0],
            ancestor: if line.len() > 1 { line.last() } else { Seq::empty() },
        }),
        get(walked_tree(m), line.last()) is None && line.len() > 1 ==> next_commit(m).1 == (ScanAsk::Objects {
            commit: line[0],
            ancestor: line.last(),
        }),
{
    let c = m.order[m.next];
    let t = walked_tree(m);
    lemma_key_index(t, c);
    if line.len() == 1 {
        assert(line.last() == c);
    } else {
        assert(get(t, line[0]) == Some(seq![line[1]]));
        assert(line.last() != line[0]);
    }
    if has_key(t, c) {
        let m1 = ScanModel { seen: m.seen.push(c), next: m.next + 1, ..m };
        let s0 = ScanModel {
            active: true,
            start: c,
            pq: seq![c],
            cq: Seq::empty(),
            changes: Seq::empty(),
            tree: t,
            ..m1
        };
        let s1 = ScanModel { parent: s0.pq.last(), pq: s0.pq.drop_last(), cq: seq![s0.pq.last()], ..s0 };
        assert(next_commit(m) == inner(s0));
        assert(inner(s0) == inner(s1));
        lemma_line(s1, line);
        assert(s1.pq + Seq::<Seq<char>>::empty() =~= Seq::<Seq<char>>::empty());
        if let Some(ps) = get(t, line.last()) {
            assert(s1.pq + ps =~= ps);
        }
    }
}

/// The objects handed in: they are added to the scan's findings; when asked
/// for a commit outside the tree, that commit is required unless it is among
/// the findings or already seen.
pub open spec fn on_objects(m: ScanModel, objs: Option<Seq<Seq<char>>>) -> (ScanModel, ScanAsk) {
    match objs {
        None => (ScanModel { phase: ScanPhase::Failed, ..m }, ScanAsk::Fail),
        Some(o) => {
            let changes = m.changes + o;
            let required = if m.check && !changes.contains(m.check_commit) && !m.seen.contains(
                m.check_commit,
            ) {
                m.required.push(m.check_commit)
            } else {
                m.required
            };
            inner(ScanModel { changes, required, phase: ScanPhase::Running, check: false, ..m })
        },
    }
}

/// The scan at its start.
pub open spec fn scan_initial(order: Seq<Seq<char>>, tree: Seq<(Seq<char>, Seq<Seq<char>>)>, required: Seq<Seq<char>>, pack: bool) -> ScanModel {
    ScanModel {
        order,
        next: 0,
        seen: Seq::empty(),
        tree,
        base_tree: tree,
        required,
        objects: Seq::empty(),
        active: false,
        start: Seq::empty(),
        pq: Seq::empty(),
        cq: Seq::empty(),
        parent: Seq::empty(),
        changes: Seq::empty(),
        phase: ScanPhase::Running,
        check: false,
        check_commit: Seq::empty(),
        pack,
    }
}

/// The next question of the scan.
pub enum ScanAction {
    /// Run `git rev-list --objects` on the range (the pack export), or
    /// `--filter=object:type=blob` (the lfs export), and hand in the objects
    /// with [`ChangeScan::answer`].
    Objects { commit: String, ancestor: String },
    /// The scan is complete.
    Done,
    /// Git gave no objects; the tool stops here.
    Fail,
}

/// The value of an action.
pub open spec fn scan_action_view(a: ScanAction) -> ScanAsk {
    match a {
        ScanAction::Objects { commit, ancestor } => ScanAsk::Objects { commit: commit@, ancestor: ancestor@ },
        ScanAction::Done => ScanAsk::Done,
        ScanAction::Fail => ScanAsk::Fail,
    }
}

/// A scan of commits for the objects to export.
pub struct ChangeScan {
    order: Vec<String>,
    next: usize,
    seen: Vec<String>,
    tree: Vec<(String, Vec<String>)>,
    base_tree: Vec<(String, Vec<String>)>,
    required: Vec<String>,
    objects: Vec<String>,
    active: bool,
    start: String,
    pq: Vec<String>,
    cq: Vec<String>,
    parent: String,
    changes: Vec<String>,
    phase: ScanPhase,
    check: bool,
    check_commit: String,
    pack: bool,
}

fn dedup_exec(v: &Vec<String>) -> (res: Vec<String>)
    ensures
        views(res@) == dedup(views(v@)),
{
    let mut res: Vec<String> = Vec::new();
    let mut i: usize = 0;
    while i < v.len()
        invariant
            i <= v.len(),
            views(res@) == dedup(views(v@).take(i as int)),
        decreases v.len() - i,
    {
        let ghost s = views(v@).take(i + 1);
        proof {
            assert(s.drop_last() =~= views(v@).take(i as int));
            assert(s.last() == v@[i as int]@);
            if i >= 1 {
                assert(s[s.len() - 2] == v@[i - 1]@);
            }
        }
        if i == 0 || !str_eq(v[i].as_str(), v[i - 1].as_str()) {
            let ghost o = views(res@);
            res.push(v[i].clone());
            proof {
                assert(views(res@) =~= o.push(v@[i as int]@));
            }
        }
        i += 1;
    }
    proof {
        assert(views(v@).take(v@.len() as int) =~= views(v@));
    }
    res
}

fn append_all(dst: &mut Vec<String>, src: &Vec<String>)
    ensures
        views(final(dst)@) == views(old(dst)@) + views(src@),
{
    let ghost d0 = views(dst@);
    let mut i: usize = 0;
    while i < src.len()
        invariant
            i <= src.len(),
            views(dst@) == d0 + views(src@).take(i as int),
        decreases src.len() - i,
    {
        let ghost o = views(dst@);
        dst.push(src[i].clone());
        proof {
            assert(views(dst@) =~= o.push(src@[i as int]@));
            assert(views(src@).take(i + 1) =~= views(src@).take(i as int).push(src@[i as int]@));
        }
        i += 1;
    }
    proof {
        assert(views(src@).take(src@.len() as int) =~= views(src@));
    }
}

pub(crate) fn copy_strings(v: &Vec<String>) -> (res: Vec<String>)
    ensures
        views(res@) == views(v@),
{
    let mut res: Vec<String> = Vec::new();
    append_all(&mut res, v);
    proof {
        assert(views(Seq::<String>::empty()) =~= Seq::<Seq<char>>::empty());
        assert(views(res@) =~= views(v@));
    }
    res
}

fn copy_tree(t: &Vec<(String, Vec<String>)>) -> (res: Vec<(String, Vec<String>)>)
    ensures
        res.deep_view() == t.deep_view(),
{
    let mut res: Vec<(String, Vec<String>)> = Vec::new();
    let mut i: usize = 0;
    while i < t.len()
        invariant
            i <= t.len(),
            res.deep_view() == t.deep_view().take(i as int),
        decreases t.len() - i,
    {
        let ghost o = res.deep_view();
        let ps = copy_strings(&t[i].1);
        res.push((t[i].0.clone(), ps));
        proof {
            assert(ps.deep_view() =~= views(ps@));
            assert(t@[i as int].1.deep_view() =~= views(t@[i as int].1@));
            assert(res.deep_view() =~= o.push(t.deep_view()[i as int]));
            assert(t.deep_view().take(i + 1) =~= t.deep_view().take(i as int).push(t.deep_view()[i as int]));
        }
        i += 1;
    }
    proof {
        assert(t.deep_view().take(t@.len() as int) =~= t.deep_view());
    }
    res
}

pub(crate) fn push_str(dst: &mut Vec<String>, s: String)
    ensures
        views(final(dst)@) == views(old(dst)@).push(s@),
{
    let ghost o = views(dst@);
    dst.push(s);
    proof {
        assert(views(dst@) =~= o.push(s@));
    }
}

impl ChangeScan {
    /// The scan as values.
    pub closed spec fn model(&self) -> ScanModel {
        ScanModel {
            order: views(self.order@),
            next: self.next as int,
            seen: views(self.seen@),
            tree: self.tree.deep_view(),
            base_tree: self.base_tree.deep_view(),
            required: views(self.required@),
            objects: views(self.objects@),
            active: self.active,
            start: self.start@,
            pq: views(self.pq@),
            cq: views(self.cq@),
            parent: self.parent@,
            changes: views(self.changes@),
            phase: self.phase,
            check: self.check,
            check_commit: self.check_commit@,
            pack: self.pack,
        }
    }

    /// The position in the order never passes its end.
    pub closed spec fn wf(&self) -> bool {
        self.next <= self.order.len()
    }

    fn next_exec(&mut self) -> (res: ScanAction)
        requires
            old(self).wf(),
            old(self).phase == ScanPhase::Running,
        ensures
            (final(self).model(), scan_action_view(res)) == next_commit(old(self).model()),
            final(self).wf(),
        decreases old(self).order.len() - old(self).next, 1int, 0int, 0int,
    {
        if self.next >= self.order.len() {
            self.phase = ScanPhase::Finished;
            return ScanAction::Done;
        }
        let c = self.order[self.next].clone();
        push_str(&mut self.seen, c.clone());
        self.next = self.next + 1;
        let in_tree = find_key(&self.tree, c.as_str()).is_some();
        if !self.pack || in_tree {
            self.active = true;
            self.start = c.clone();
            self.pq = vec![c];
            self.cq = Vec::new();
            self.changes = Vec::new();
            if !self.pack {
                self.tree = copy_tree(&self.base_tree);
            }
            proof {
                assert(views(self.pq@) =~= seq![self.start@]);
                assert(views(self.cq@) =~= Seq::<Seq<char>>::empty());
                assert(views(self.changes@) =~= Seq::<Seq<char>>::empty());
            }
            self.inner_exec()
        } else {
            self.next_exec()
        }
    }

    fn inner_exec(&mut self) -> (res: ScanAction)
        requires
            old(self).wf(),
            old(self).phase == ScanPhase::Running,
        ensures
            (final(self).model(), scan_action_view(res)) == inner(old(self).model()),
            final(self).wf(),
        decreases old(self).order.len() - old(self).next + 1, 0int, old(self).tree.len(), 2 * old(self).pq.len() + old(self).cq.len(),
    {
        if self.cq.len() == 0 {
            if self.pq.len() == 0 {
                let d = dedup_exec(&self.changes);
                append_all(&mut self.objects, &d);
                self.active = false;
                return self.next_exec();
            }
            let ghost m = self.model();
            let p = self.pq.pop().unwrap();
            proof {
                assert(views(self.pq@) =~= m.pq.drop_last());
            }
            self.parent = p.clone();
            self.cq = vec![p];
            proof {
                assert(views(self.cq@) =~= seq![m.pq.last()]);
            }
            return self.inner_exec();
        }
        let ghost m = self.model();
        let cur = self.cq.pop().unwrap();
        proof {
            assert(views(self.cq@) =~= m.cq.drop_last());
            lemma_key_index(m.tree, cur@);
        }
        let ghost m1 = self.model();
        match remove(&mut self.tree, cur.as_str()) {
            Some(ps) => {
                proof {
                    assert(ps.deep_view() == views(ps@));
                    assert(self.tree.deep_view().len() < m.tree.len());
                }
                if ps.len() == 0 {
                    self.phase = ScanPhase::Awaiting;
                    self.check = false;
                    let ancestor = if !str_eq(self.start.as_str(), cur.as_str()) { cur } else { String::new() };
                    ScanAction::Objects { commit: self.start.clone(), ancestor }
                } else if ps.len() == 1 {
                    push_str(&mut self.cq, ps[0].clone());
                    self.inner_exec()
                } else {
                    self.phase = ScanPhase::Awaiting;
                    self.check = false;
                    append_all(&mut self.pq, &ps);
                    ScanAction::Objects { commit: self.parent.clone(), ancestor: ps[0].clone() }
                }
            },
            None => {
                if !str_eq(cur.as_str(), self.parent.as_str()) {
                    self.phase = ScanPhase::Awaiting;
                    self.check = self.pack;
                    self.check_commit = cur.clone();
                    ScanAction::Objects { commit: self.parent.clone(), ancestor: cur }
                } else if self.pack && !contains_str(&self.seen, cur.as_str()) {
                    push_str(&mut self.required, cur);
                    self.inner_exec()
                } else {
                    self.inner_exec()
                }
            },
        }
    }

    /// Starts a scan of the commits in `order` over the commit tree; the
    /// pack export's scan (`pack`) adds the commits its pack lacks to
    /// `required`.  Returns the first question.
    pub fn new(order: Vec<String>, tree: Vec<(String, Vec<String>)>, required: Vec<String>, pack: bool) -> (res: (ChangeScan, ScanAction))
        ensures
            (res.0.model(), scan_action_view(res.1)) == next_commit(
                scan_initial(views(order@), tree.deep_view(), views(required@), pack),
            ),
            res.0.wf(),
    {
        let mut s = ChangeScan {
            order,
            next: 0,
            seen: Vec::new(),
            base_tree: copy_tree(&tree),
            tree,
            required,
            objects: Vec::new(),
            active: false,
            start: String::new(),
            pq: Vec::new(),
            cq: Vec::new(),
            parent: String::new(),
            changes: Vec::new(),
            phase: ScanPhase::Running,
            check: false,
            check_commit: String::new(),
            pack,
        };
        proof {
            assert(s.base_tree.deep_view() =~= s.tree.deep_view());
            assert(views(s.seen@) =~= Seq::<Seq<char>>::empty());
            assert(views(s.objects@) =~= Seq::<Seq<char>>::empty());
            assert(views(s.pq@) =~= Seq::<Seq<char>>::empty());
            assert(views(s.cq@) =~= Seq::<Seq<char>>::empty());
            assert(views(s.changes@) =~= Seq::<Seq<char>>::empty());
        }
        let a = s.next_exec();
        (s, a)
    }

    /// The phase of the scan.
    pub fn phase(&self) -> (res: ScanPhase)
        ensures
            res == self.model().phase,
    {
        self.phase
    }

    /// Hands in the objects git gave for the range asked (`None` when git
    /// failed).
    pub fn answer(&mut self, objs: Option<Vec<String>>) -> (res: ScanAction)
        requires
            old(self).wf(),
            old(self).model().phase == ScanPhase::Awaiting,
        ensures
            (final(self).model(), scan_action_view(res)) == on_objects(
                old(self).model(),
                match objs {
                    Some(o) => Some(views(o@)),
                    None => None,
                },
            ),
            final(self).wf(),
    {
        match objs {
            None => {
                self.phase = ScanPhase::Failed;
                ScanAction::Fail
            },
            Some(o) => {
                append_all(&mut self.changes, &o);
                if self.check && !contains_str(&self.changes, self.check_commit.as_str()) && !contains_str(
                    &self.seen,
                    self.check_commit.as_str(),
                ) {
                    push_str(&mut self.required, self.check_commit.clone());
                }
                self.phase = ScanPhase::Running;
                self.check = false;
                self.inner_exec()
            },
        }
    }

    /// The objects found, scan after scan, each scan's repeats removed.
    pub fn objects(&self) -> (res: Vec<String>)
        ensures
            views(res@) == self.model().objects,
    {
        self.objects.clone()
    }

    /// The commits the import side must already have.
    pub fn required(&self) -> (res: Vec<String>)
        ensures
            views(res@) == self.model().required,
    {
        self.required.clone()
    }
}

} // verus!
