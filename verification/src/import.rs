//! The import rules: what the import does to each branch and tag of the
//! export, given what the local repository has and the overwrite rule.
//!
//! Hard always updates or deletes; Mixed always deletes, and updates a ref
//! when it holds the expected commit or moves forward; Soft replaces only a
//! ref that holds the expected commit.  A ref new to the export (no previous
//! commit) is updated whatever the rule.

use vstd::prelude::*;
use crate::assoc::{get, insert, find_key};
use crate::refs::{heads_prefix, parse_ref_line, ref_line_of, strip_front, tags_prefix, without};
use crate::text::{has_prefix, starts_with, str_eq, views};

verus! {

/// The overwrite rule of an import.
#[derive(PartialEq, Eq, Structural, Clone, Copy)]
pub enum Overwrite {
    Soft,
    Mixed,
    Hard,
}

/// Which kind of refs a step of the import applies to (`--importing`,
/// `--retiring`).
#[derive(PartialEq, Eq, Structural, Clone, Copy)]
pub enum Selection {
    Nothing,
    Tags,
    Branches,
    Both,
}

/// Whether the selection takes in branches.
pub open spec fn selects_branches(s: Selection) -> bool {
    s == Selection::Branches || s == Selection::Both
}

/// Whether the selection takes in tags.
pub open spec fn selects_tags(s: Selection) -> bool {
    s == Selection::Tags || s == Selection::Both
}

impl Selection {
    /// Whether branches are taken in.
    pub fn branches(&self) -> (res: bool)
        ensures
            res == selects_branches(*self),
    {
        *self == Selection::Branches || *self == Selection::Both
    }

    /// Whether tags are taken in.
    pub fn tags(&self) -> (res: bool)
        ensures
            res == selects_tags(*self),
    {
        *self == Selection::Tags || *self == Selection::Both
    }
}

// ---------------------------------------------------------------------------
// Active branches
// ---------------------------------------------------------------------------

/// What the import does to an exported branch.
#[derive(PartialEq, Eq, Structural, Clone, Copy)]
pub enum BranchAction {
    /// The branch is missing: create it at the exported commit.
    Create,
    /// Move the branch to the exported commit (`git update-ref`).
    Update,
    /// Leave it, warning that it is not the expected version though it is
    /// a fast forward.
    WarnExpectedFastForward,
    /// Leave it, warning that it is neither a fast forward nor the expected
    /// version.
    WarnNotFastForward,
    /// It already holds the exported commit.
    Keep,
}

/// The rule for an exported branch (`current`, and `previous` unless it is
/// new) against the local branch, if any.  `fast_forward` is git's answer to
/// whether the local commit is an ancestor of the exported one.
pub open spec fn branch_rule(current: Seq<char>, previous: Option<Seq<char>>, local: Option<Seq<char>>, overwrite: Overwrite, fast_forward: bool) -> BranchAction {
    match local {
        None => BranchAction::Create,
        Some(l) => if current == l {
            BranchAction::Keep
        } else if previous is None || previous == Some(l) || overwrite == Overwrite::Hard || (overwrite == Overwrite::Mixed
            && fast_forward) {
            BranchAction::Update
        } else if !fast_forward {
            BranchAction::WarnExpectedFastForward
        } else {
            BranchAction::WarnNotFastForward
        },
    }
}

/// Decides what to do with an exported branch.
pub fn branch_action(current: &str, previous: &Option<String>, local: &Option<String>, overwrite: Overwrite, fast_forward: bool) -> (res: BranchAction)
    ensures
        res == branch_rule(
            current@,
            match previous {
                Some(p) => Some(p@),
                None => None,
            },
            match local {
                Some(l) => Some(l@),
                None => None,
            },
            overwrite,
            fast_forward,
        ),
{
    match local {
        None => BranchAction::Create,
        Some(l) => {
            if str_eq(current, l.as_str()) {
                BranchAction::Keep
            } else if (match previous {
                Some(p) => str_eq(p.as_str(), l.as_str()),
                None => true,
            }) || overwrite == Overwrite::Hard || (overwrite == Overwrite::Mixed && fast_forward) {
                BranchAction::Update
            } else if !fast_forward {
                BranchAction::WarnExpectedFastForward
            } else {
                BranchAction::WarnNotFastForward
            }
        },
    }
}

// ---------------------------------------------------------------------------
// Retired branches
// ---------------------------------------------------------------------------

/// What the import does to a retired branch.
#[derive(PartialEq, Eq, Structural, Clone, Copy)]
pub enum RetireAction {
    /// Delete the local branch or tag.
    Delete,
    /// Leave it: it is not the expected version.
    WarnSoft,
    /// There is nothing local to retire.
    Absent,
}

/// The rule for a retired branch last exported at `exported`: Hard and
/// Mixed always delete the local branch; Soft only when it holds the last
/// exported commit.
pub open spec fn retire_branch_rule(exported: Seq<char>, local: Option<Seq<char>>, overwrite: Overwrite) -> RetireAction {
    match local {
        None => RetireAction::Absent,
        Some(l) => if exported == l || overwrite != Overwrite::Soft {
            RetireAction::Delete
        } else {
            RetireAction::WarnSoft
        },
    }
}

/// Decides what to do with a retired branch.
pub fn retire_branch_action(exported: &str, local: &Option<String>, overwrite: Overwrite) -> (res: RetireAction)
    ensures
        res == retire_branch_rule(
            exported@,
            match local {
                Some(l) => Some(l@),
                None => None,
            },
            overwrite,
        ),
{
    match local {
        None => RetireAction::Absent,
        Some(l) => {
            if str_eq(exported, l.as_str()) || overwrite != Overwrite::Soft {
                RetireAction::Delete
            } else {
                RetireAction::WarnSoft
            }
        },
    }
}

// ---------------------------------------------------------------------------
// Tags
// ---------------------------------------------------------------------------

/// What the import does to an exported tag.
#[derive(PartialEq, Eq, Structural, Clone, Copy)]
pub enum TagAction {
    /// The tag holds the exported commit already.
    Keep,
    /// Delete the local tag, then create the exported one.
    Replace,
    /// Create the exported tag.
    Create,
    /// Leave it: it exists and is not being updated.
    WarnExists,
    /// Leave it: it exists as a tag of the other kind.
    WarnOtherKind,
}

/// The rule for a tag of the same kind as the local one at `local`.
pub open spec fn same_kind_rule(current: Seq<char>, previous: Option<Seq<char>>, local: Seq<char>, overwrite: Overwrite) -> TagAction {
    if local == current {
        TagAction::Keep
    } else if overwrite == Overwrite::Hard || previous is None || previous == Some(local) {
        TagAction::Replace
    } else {
        TagAction::WarnExists
    }
}

/// The rule for a tag that exists locally as the other kind.
pub open spec fn other_kind_rule(overwrite: Overwrite) -> TagAction {
    if overwrite == Overwrite::Hard || overwrite == Overwrite::Mixed {
        TagAction::Replace
    } else {
        TagAction::WarnOtherKind
    }
}

/// The rule for an exported light tag against the local light and
/// annotated tags of that name.
pub open spec fn light_tag_rule(current: Seq<char>, previous: Option<Seq<char>>, light: Option<Seq<char>>, annotated: Option<Seq<char>>, overwrite: Overwrite) -> TagAction {
    match light {
        Some(l) => same_kind_rule(current, previous, l, overwrite),
        None => if annotated is Some {
            other_kind_rule(overwrite)
        } else {
            TagAction::Create
        },
    }
}

/// The rule for an exported annotated tag against the local light and
/// annotated tags of that name.
pub open spec fn annotated_tag_rule(current: Seq<char>, previous: Option<Seq<char>>, light: Option<Seq<char>>, annotated: Option<Seq<char>>, overwrite: Overwrite) -> TagAction {
    match annotated {
        Some(a) => same_kind_rule(current, previous, a, overwrite),
        None => if light is Some {
            other_kind_rule(overwrite)
        } else {
            TagAction::Create
        },
    }
}

fn same_kind(current: &str, previous: &Option<String>, local: &String, overwrite: Overwrite) -> (res: TagAction)
    ensures
        res == same_kind_rule(
            current@,
            match previous {
                Some(p) => Some(p@),
                None => None,
            },
            local@,
            overwrite,
        ),
{
    if str_eq(local.as_str(), current) {
        TagAction::Keep
    } else if overwrite == Overwrite::Hard || (match previous {
        Some(p) => str_eq(p.as_str(), local.as_str()),
        None => true,
    }) {
        TagAction::Replace
    } else {
        TagAction::WarnExists
    }
}

fn other_kind(overwrite: Overwrite) -> (res: TagAction)
    ensures
        res == other_kind_rule(overwrite),
{
    if overwrite == Overwrite::Hard || overwrite == Overwrite::Mixed {
        TagAction::Replace
    } else {
        TagAction::WarnOtherKind
    }
}

/// Decides what to do with an exported light tag.
pub fn light_tag_action(current: &str, previous: &Option<String>, light: &Option<String>, annotated: &Option<String>, overwrite: Overwrite) -> (res: TagAction)
    ensures
        res == light_tag_rule(
            current@,
            match previous {
                Some(p) => Some(p@),
                None => None,
            },
            match light {
                Some(l) => Some(l@),
                None => None,
            },
            match annotated {
                Some(a) => Some(a@),
                None => None,
            },
            overwrite,
        ),
{
    match light {
        Some(l) => same_kind(current, previous, l, overwrite),
        None => if annotated.is_some() {
            other_kind(overwrite)
        } else {
            TagAction::Create
        },
    }
}

/// Decides what to do with an exported annotated tag.
pub fn annotated_tag_action(current: &str, previous: &Option<String>, light: &Option<String>, annotated: &Option<String>, overwrite: Overwrite) -> (res: TagAction)
    ensures
        res == annotated_tag_rule(
            current@,
            match previous {
                Some(p) => Some(p@),
                None => None,
            },
            match light {
                Some(l) => Some(l@),
                None => None,
            },
            match annotated {
                Some(a) => Some(a@),
                None => None,
            },
            overwrite,
        ),
{
    match annotated {
        Some(a) => same_kind(current, previous, a, overwrite),
        None => if light.is_some() {
            other_kind(overwrite)
        } else {
            TagAction::Create
        },
    }
}

/// The rule for a retired tag last exported at `exported`: deleted when a
/// local tag of either kind holds that commit, or under any rule but Soft.
pub open spec fn retire_tag_rule(exported: Seq<char>, light: Option<Seq<char>>, annotated: Option<Seq<char>>, overwrite: Overwrite) -> RetireAction {
    if (light matches Some(l) && (l == exported || overwrite != Overwrite::Soft)) || (annotated matches Some(
        a,
    ) && (a == exported || overwrite != Overwrite::Soft)) {
        RetireAction::Delete
    } else if light is Some || annotated is Some {
        RetireAction::WarnSoft
    } else {
        RetireAction::Absent
    }
}

/// Decides what to do with a retired tag.
pub fn retire_tag_action(exported: &str, light: &Option<String>, annotated: &Option<String>, overwrite: Overwrite) -> (res: RetireAction)
    ensures
        res == retire_tag_rule(
            exported@,
            match light {
                Some(l) => Some(l@),
                None => None,
            },
            match annotated {
                Some(a) => Some(a@),
                None => None,
            },
            overwrite,
        ),
{
    let by_light = match light {
        Some(l) => str_eq(l.as_str(), exported) || overwrite != Overwrite::Soft,
        None => false,
    };
    let by_annotated = match annotated {
        Some(a) => str_eq(a.as_str(), exported) || overwrite != Overwrite::Soft,
        None => false,
    };
    if by_light || by_annotated {
        RetireAction::Delete
    } else if light.is_some() || annotated.is_some() {
        RetireAction::WarnSoft
    } else {
        RetireAction::Absent
    }
}

// ---------------------------------------------------------------------------
// The overwrite rules as laws
// ---------------------------------------------------------------------------

/// Whether one rule is at least as forceful as another: Soft, then Mixed,
/// then Hard.
pub open spec fn at_least(a: Overwrite, b: Overwrite) -> bool {
    match b {
        Overwrite::Soft => true,
        Overwrite::Mixed => a != Overwrite::Soft,
        Overwrite::Hard => a == Overwrite::Hard,
    }
}

/// Importing a branch that already holds the exported commit changes
/// nothing, whatever the rule.
pub proof fn law_branch_already_current(current: Seq<char>, previous: Option<Seq<char>>, overwrite: Overwrite, fast_forward: bool)
    ensures
        branch_rule(current, previous, Some(current), overwrite, fast_forward) == BranchAction::Keep,
{
}

/// Hard always updates a branch that differs from the export, and a missing
/// branch is always created.
pub proof fn law_branch_hard_updates(current: Seq<char>, previous: Option<Seq<char>>, local: Option<Seq<char>>, fast_forward: bool)
    ensures
        local is None ==> branch_rule(current, previous, local, Overwrite::Hard, fast_forward) == BranchAction::Create,
        local matches Some(l) && l != current ==> branch_rule(current, previous, local, Overwrite::Hard, fast_forward)
            == BranchAction::Update,
{
}

/// Soft moves a branch only when it holds the expected (previous) commit;
/// Mixed also when the move is a fast forward.
pub proof fn law_branch_update_when(current: Seq<char>, previous: Seq<char>, l: Seq<char>, fast_forward: bool)
    requires
        l != current,
    ensures
        branch_rule(current, Some(previous), Some(l), Overwrite::Soft, fast_forward) == BranchAction::Update <==> previous
            == l,
        branch_rule(current, Some(previous), Some(l), Overwrite::Mixed, fast_forward) == BranchAction::Update <==> (
        previous == l || fast_forward),
{
}

/// A branch new to the export (no previous commit) that exists locally at
/// another commit is updated, whatever the rule.
pub proof fn law_branch_new_but_present(current: Seq<char>, l: Seq<char>, overwrite: Overwrite, fast_forward: bool)
    requires
        l != current,
    ensures
        branch_rule(current, None, Some(l), overwrite, fast_forward) == BranchAction::Update,
{
}

/// A more forceful rule updates every branch that a less forceful one
/// updates.
pub proof fn law_branch_monotone(current: Seq<char>, previous: Option<Seq<char>>, local: Option<Seq<char>>, weak: Overwrite, strong: Overwrite, fast_forward: bool)
    requires
        at_least(strong, weak),
    ensures
        branch_rule(current, previous, local, weak, fast_forward) == BranchAction::Update ==> branch_rule(
            current,
            previous,
            local,
            strong,
            fast_forward,
        ) == BranchAction::Update,
{
}

/// Retiring a branch: Hard and Mixed always delete it; Soft only when it
/// holds the last exported commit.  A more forceful rule deletes whatever a
/// less forceful one deletes.
pub proof fn law_retire_branch(exported: Seq<char>, l: Seq<char>, weak: Overwrite, strong: Overwrite)
    requires
        at_least(strong, weak),
    ensures
        retire_branch_rule(exported, Some(l), Overwrite::Hard) == RetireAction::Delete,
        retire_branch_rule(exported, Some(l), Overwrite::Mixed) == RetireAction::Delete,
        retire_branch_rule(exported, Some(l), Overwrite::Soft) == RetireAction::Delete <==> exported == l,
        retire_branch_rule(exported, Some(l), weak) == RetireAction::Delete ==> retire_branch_rule(
            exported,
            Some(l),
            strong,
        ) == RetireAction::Delete,
        retire_branch_rule(exported, None, weak) == RetireAction::Absent,
{
}

/// Importing a light tag that already points at the exported commit changes
/// nothing; under Hard one that points elsewhere is replaced; under Soft and
/// under Mixed alike it is replaced only when it points at the expected
/// (previous) commit or the tag is new to the export, and is otherwise left
/// with a warning.
pub proof fn law_light_tag(current: Seq<char>, previous: Option<Seq<char>>, l: Seq<char>, annotated: Option<Seq<char>>)
    ensures
        light_tag_rule(current, previous, Some(current), annotated, Overwrite::Soft) == TagAction::Keep,
        light_tag_rule(current, previous, Some(current), annotated, Overwrite::Mixed) == TagAction::Keep,
        light_tag_rule(current, previous, Some(current), annotated, Overwrite::Hard) == TagAction::Keep,
        l != current ==> light_tag_rule(current, previous, Some(l), annotated, Overwrite::Hard) == TagAction::Replace,
        l != current ==> (light_tag_rule(current, previous, Some(l), annotated, Overwrite::Soft) == TagAction::Replace
            <==> (previous is None || previous == Some(l))),
        l != current ==> (light_tag_rule(current, previous, Some(l), annotated, Overwrite::Mixed) == TagAction::Replace
            <==> (previous is None || previous == Some(l))),
        l != current && !(previous is None || previous == Some(l)) ==> light_tag_rule(
            current,
            previous,
            Some(l),
            annotated,
            Overwrite::Mixed,
        ) == TagAction::WarnExists,
        light_tag_rule(current, previous, Some(l), annotated, Overwrite::Mixed) == light_tag_rule(
            current,
            previous,
            Some(l),
            annotated,
            Overwrite::Soft,
        ),
{
}

/// Importing an annotated tag follows the same rules against the local
/// annotated tag: one already at the exported commit is kept; under Hard
/// one elsewhere is replaced; under Soft and under Mixed alike only one at
/// the expected commit (or one new to the export), the others being left
/// with a warning.
pub proof fn law_annotated_tag(current: Seq<char>, previous: Option<Seq<char>>, a: Seq<char>, light: Option<Seq<char>>)
    ensures
        annotated_tag_rule(current, previous, light, Some(current), Overwrite::Soft) == TagAction::Keep,
        annotated_tag_rule(current, previous, light, Some(current), Overwrite::Mixed) == TagAction::Keep,
        annotated_tag_rule(current, previous, light, Some(current), Overwrite::Hard) == TagAction::Keep,
        a != current ==> annotated_tag_rule(current, previous, light, Some(a), Overwrite::Hard) == TagAction::Replace,
        a != current ==> (annotated_tag_rule(current, previous, light, Some(a), Overwrite::Soft) == TagAction::Replace
            <==> (previous is None || previous == Some(a))),
        a != current ==> (annotated_tag_rule(current, previous, light, Some(a), Overwrite::Mixed) == TagAction::Replace
            <==> (previous is None || previous == Some(a))),
        a != current && !(previous is None || previous == Some(a)) ==> annotated_tag_rule(
            current,
            previous,
            light,
            Some(a),
            Overwrite::Mixed,
        ) == TagAction::WarnExists,
        annotated_tag_rule(current, previous, light, Some(a), Overwrite::Mixed) == annotated_tag_rule(
            current,
            previous,
            light,
            Some(a),
            Overwrite::Soft,
        ),
{
}

/// A tag that exists locally as the other kind is replaced under Mixed and
/// Hard, and left under Soft; a tag missing locally is created.
pub proof fn law_tag_kind_change(current: Seq<char>, previous: Option<Seq<char>>, other: Seq<char>)
    ensures
        light_tag_rule(current, previous, None, Some(other), Overwrite::Soft) == TagAction::WarnOtherKind,
        light_tag_rule(current, previous, None, Some(other), Overwrite::Mixed) == TagAction::Replace,
        light_tag_rule(current, previous, None, Some(other), Overwrite::Hard) == TagAction::Replace,
        annotated_tag_rule(current, previous, Some(other), None, Overwrite::Soft) == TagAction::WarnOtherKind,
        annotated_tag_rule(current, previous, Some(other), None, Overwrite::Mixed) == TagAction::Replace,
        annotated_tag_rule(current, previous, Some(other), None, Overwrite::Hard) == TagAction::Replace,
        light_tag_rule(current, previous, None, None, Overwrite::Soft) == TagAction::Create,
        annotated_tag_rule(current, previous, None, None, Overwrite::Soft) == TagAction::Create,
{
}

/// Retiring a tag: under Mixed and Hard a local tag of the name is always
/// deleted; under Soft only one that points at the last exported commit.
pub proof fn law_retire_tag(exported: Seq<char>, light: Option<Seq<char>>, annotated: Option<Seq<char>>)
    ensures
        (light is Some || annotated is Some) ==> retire_tag_rule(exported, light, annotated, Overwrite::Mixed)
            == RetireAction::Delete,
        (light is Some || annotated is Some) ==> retire_tag_rule(exported, light, annotated, Overwrite::Hard)
            == RetireAction::Delete,
        retire_tag_rule(exported, light, annotated, Overwrite::Soft) == RetireAction::Delete <==> (light == Some(
            exported,
        ) || annotated == Some(exported)),
        (light is None && annotated is None) ==> retire_tag_rule(exported, light, annotated, Overwrite::Soft)
            == RetireAction::Absent,
{
}

} // verus!

verus! {

// ---------------------------------------------------------------------------
// Local refs and required commits
// ---------------------------------------------------------------------------

/// The local refs: branches, light tags and annotated tags, each name with
/// its sha.
pub struct LocalRefs {
    pub branches: Vec<(String, String)>,
    pub light: Vec<(String, String)>,
    pub annotated: Vec<(String, String)>,
}

/// The local refs read from the lines of `git show-ref --tags --heads`; for
/// each line, `types` holds git's object type of its sha (`git cat-file -t`),
/// used for tags: a tag whose object is a commit is light.  `None` where the
/// tool stops: a line without a space, or a tag without a type.
pub open spec fn local_of(ls: Seq<Seq<char>>, types: Seq<Option<Seq<char>>>) -> Option<(
    Seq<(Seq<char>, Seq<char>)>,
    Seq<(Seq<char>, Seq<char>)>,
    Seq<(Seq<char>, Seq<char>)>,
)>
    decreases ls.len(),
{
    if ls.len() == 0 {
        Some((Seq::empty(), Seq::empty(), Seq::empty()))
    } else {
        match (local_of(ls.drop_last(), types), ref_line_of(ls.last())) {
            (Some((b, l, a)), Some((id, obj))) => {
                let b2 = if has_prefix(obj, heads_prefix()) {
                    crate::assoc::put(b, without(obj, 11), id)
                } else {
                    b
                };
                if has_prefix(obj, tags_prefix()) {
                    match types[ls.len() - 1] {
                        None => None,
                        Some(t) => if t == "commit"@ {
                            Some((b2, crate::assoc::put(l, without(obj, 10), id), a))
                        } else {
                            Some((b2, l, crate::assoc::put(a, without(obj, 10), id)))
                        },
                    }
                } else {
                    Some((b2, l, a))
                }
            },
            _ => None,
        }
    }
}

/// The views of optional strings.
pub open spec fn opt_views(v: Seq<Option<String>>) -> Seq<Option<Seq<char>>> {
    v.map_values(|o: Option<String>| match o {
        Some(s) => Some(s@),
        None => None,
    })
}

/// Sorts the local refs into branches, light tags and annotated tags.
pub fn get_local(refs: &Vec<String>, types: &Vec<Option<String>>) -> (res: Option<LocalRefs>)
    requires
        refs.len() == types.len(),
    ensures
        res is None <==> local_of(views(refs@), opt_views(types@)) is None,
        res matches Some(r) ==> local_of(views(refs@), opt_views(types@)) == Some(
            (r.branches.deep_view(), r.light.deep_view(), r.annotated.deep_view()),
        ),
{
    let mut branches: Vec<(String, String)> = Vec::new();
    let mut light: Vec<(String, String)> = Vec::new();
    let mut annotated: Vec<(String, String)> = Vec::new();
    let mut i: usize = 0;
    while i < refs.len()
        invariant
            i <= refs.len() == types.len(),
            local_of(views(refs@).take(i as int), opt_views(types@)) == Some(
                (branches.deep_view(), light.deep_view(), annotated.deep_view()),
            ),
        decreases refs.len() - i,
    {
        let ghost ls = views(refs@).take(i + 1);
        proof {
            assert(ls.drop_last() =~= views(refs@).take(i as int));
            assert(ls.last() == refs@[i as int]@);
            assert(ls.len() - 1 == i);
        }
        match parse_ref_line(refs[i].as_str()) {
            None => {
                proof {
                    lemma_local_none(views(refs@), opt_views(types@), i as int);
                }
                return None;
            },
            Some((id, obj)) => {
                if starts_with(obj.as_str(), "refs/heads/") {
                    insert(&mut branches, strip_front(obj.as_str(), 11), id.clone());
                }
                if starts_with(obj.as_str(), "refs/tags/") {
                    match &types[i] {
                        None => {
                            proof {
                                assert(opt_views(types@)[i as int] is None);
                                lemma_local_none(views(refs@), opt_views(types@), i as int);
                            }
                            return None;
                        },
                        Some(t) => {
                            proof {
                                assert(opt_views(types@)[i as int] == Some(t@));
                            }
                            if str_eq(t.as_str(), "commit") {
                                insert(&mut light, strip_front(obj.as_str(), 10), id);
                            } else {
                                insert(&mut annotated, strip_front(obj.as_str(), 10), id);
                            }
                        },
                    }
                }
            },
        }
        i += 1;
    }
    proof {
        assert(views(refs@).take(refs@.len() as int) =~= views(refs@));
    }
    Some(LocalRefs { branches, light, annotated })
}

proof fn lemma_local_none(ls: Seq<Seq<char>>, types: Seq<Option<Seq<char>>>, i: int)
    requires
        0 <= i < ls.len(),
        local_of(ls.take(i + 1), types) is None,
    ensures
        local_of(ls, types) is None,
    decreases ls.len() - i,
{
    if i + 1 < ls.len() {
        assert(ls.take(i + 2).drop_last() =~= ls.take(i + 1));
        lemma_local_none(ls, types, i + 1);
    } else {
        assert(ls.take(i + 1) =~= ls);
    }
}

/// The required commits that the local repository lacks: those for which
/// `present` (git knows the object) is false, in order.
pub open spec fn missing_of(required: Seq<Seq<char>>, present: Seq<bool>) -> Seq<Seq<char>>
    decreases required.len(),
{
    if required.len() == 0 {
        Seq::empty()
    } else {
        let r = missing_of(required.drop_last(), present);
        if present[required.len() - 1] {
            r
        } else {
            r.push(required.last())
        }
    }
}

/// The required commits that are missing; the import stops when there are any.
pub fn missing_commits(required: &Vec<String>, present: &Vec<bool>) -> (res: Vec<String>)
    requires
        required.len() == present.len(),
    ensures
        views(res@) == missing_of(views(required@), present@),
{
    let mut res: Vec<String> = Vec::new();
    let mut i: usize = 0;
    while i < required.len()
        invariant
            i <= required.len() == present.len(),
            views(res@) == missing_of(views(required@).take(i as int), present@),
        decreases required.len() - i,
    {
        proof {
            assert(views(required@).take(i + 1).drop_last() =~= views(required@).take(i as int));
            assert(views(required@).take(i + 1).last() == required@[i as int]@);
        }
        if !present[i] {
            let ghost o = views(res@);
            res.push(required[i].clone());
            proof {
                assert(views(res@) =~= o.push(required@[i as int]@));
            }
        }
        i += 1;
    }
    proof {
        assert(views(required@).take(required@.len() as int) =~= views(required@));
    }
    res
}

/// The value of `key` in a list of name and sha pairs.
pub fn lookup(v: &Vec<(String, String)>, key: &str) -> (res: Option<String>)
    ensures
        res matches Some(s) ==> get(v.deep_view(), key@) == Some(s@),
        res is None ==> get(v.deep_view(), key@) is None,
{
    match find_key(v, key) {
        Some(i) => {
            proof {
                crate::assoc::lemma_key_index(v.deep_view(), key@);
            }
            Some(v[i].1.clone())
        },
        None => None,
    }
}

} // verus!
