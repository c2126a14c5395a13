//! The manifest of a pack export: the tags and branches it records, the tag
//! objects it packs, and the commits the importing side must already have.

use vstd::prelude::*;
use crate::assoc::{find_key, get, has_key, insert, lemma_get_put, lemma_key_index, put, unique_keys};
use crate::listing::{JsonRef, ObjRef, RefView};
use crate::scan::push_str;
use crate::text::views;

verus! {

/// A recorded previous sha: none (JSON null) when it is empty.
pub open spec fn prev_view(p: Seq<char>) -> RefView {
    if p.len() == 0 {
        RefView::Null
    } else {
        RefView::Text(p)
    }
}

/// The record of a changed ref: current sha, previous sha or null.
pub open spec fn change_view(prev: Seq<char>, cur: Seq<char>) -> (RefView, RefView) {
    (RefView::Text(cur), prev_view(prev))
}

/// The tags of an export sorted into light and annotated ones.
pub struct TagClasses {
    /// Light tags: name, current and previous.
    pub light: Vec<(String, ObjRef)>,
    /// Annotated tags.
    pub annotated: Vec<(String, ObjRef)>,
    /// The tag objects of the annotated tags, to be packed.
    pub objects: Vec<String>,
    /// The commits the tags point at that the export's commit tree lacks.
    pub required: Vec<String>,
}

/// The tag classes as values.
pub struct ClassesView {
    pub light: Seq<(Seq<char>, (RefView, RefView))>,
    pub annotated: Seq<(Seq<char>, (RefView, RefView))>,
    pub objects: Seq<Seq<char>>,
    pub required: Seq<Seq<char>>,
}

impl TagClasses {
    /// The classes as values.
    pub open spec fn view(&self) -> ClassesView {
        ClassesView {
            light: self.light.deep_view(),
            annotated: self.annotated.deep_view(),
            objects: views(self.objects@),
            required: views(self.required@),
        }
    }
}

/// Sorting the tags (name, previous sha, current sha), each with what
/// `tag_commit` found for its current sha (the commit, and whether the tag
/// is annotated).  A light tag requires its sha when the commit tree lacks
/// it; an annotated tag packs its tag object and requires its commit when
/// the tree lacks that.
pub open spec fn classify(
    tags: Seq<(Seq<char>, (Seq<char>, Seq<char>))>,
    infos: Seq<(Seq<char>, bool)>,
    tree: Seq<(Seq<char>, Seq<Seq<char>>)>,
) -> ClassesView
    decreases tags.len(),
{
    if tags.len() == 0 || infos.len() == 0 {
        ClassesView { light: Seq::empty(), annotated: Seq::empty(), objects: Seq::empty(), required: Seq::empty() }
    } else {
        let c = classify(tags.drop_last(), infos.drop_last(), tree);
        let name = tags.last().0;
        let prev = tags.last().1.0;
        let cur = tags.last().1.1;
        let info = infos.last();
        if !info.1 {
            ClassesView {
                light: put(c.light, name, change_view(prev, cur)),
                required: if has_key(tree, cur) { c.required } else { c.required.push(cur) },
                ..c
            }
        } else {
            ClassesView {
                annotated: put(c.annotated, name, change_view(prev, cur)),
                objects: c.objects.push(cur),
                required: if has_key(tree, info.0) { c.required } else { c.required.push(info.0) },
                ..c
            }
        }
    }
}

fn prev_ref(prev: &String) -> (res: JsonRef)
    ensures
        res.deep_view() == prev_view(prev@),
{
    if prev.as_str().is_empty() {
        JsonRef::Null
    } else {
        JsonRef::Text(prev.clone())
    }
}

/// Sorts the tags of an export (see [`classify`]); `infos[i]` is what
/// `tag_commit` found for `tags[i]`.
pub fn classify_tags(
    tags: &Vec<(String, (String, String))>,
    infos: &Vec<(String, bool)>,
    tree: &Vec<(String, Vec<String>)>,
) -> (res: TagClasses)
    requires
        infos.len() == tags.len(),
    ensures
        res.view() == classify(tags.deep_view(), infos.deep_view(), tree.deep_view()),
{
    let mut res = TagClasses { light: Vec::new(), annotated: Vec::new(), objects: Vec::new(), required: Vec::new() };
    proof {
        assert(tags.deep_view().take(0).len() == 0);
        assert(res.light.deep_view() =~= Seq::<(Seq<char>, (RefView, RefView))>::empty());
        assert(res.annotated.deep_view() =~= Seq::<(Seq<char>, (RefView, RefView))>::empty());
        assert(views(res.objects@) =~= Seq::<Seq<char>>::empty());
        assert(views(res.required@) =~= Seq::<Seq<char>>::empty());
    }
    let mut i: usize = 0;
    while i < tags.len()
        invariant
            i <= tags.len() == infos.len(),
            res.view() == classify(tags.deep_view().take(i as int), infos.deep_view().take(i as int), tree.deep_view()),
        decreases tags.len() - i,
    {
        let ghost c = res.view();
        proof {
            assert(tags.deep_view().take(i + 1).drop_last() =~= tags.deep_view().take(i as int));
            assert(infos.deep_view().take(i + 1).drop_last() =~= infos.deep_view().take(i as int));
            assert(tags.deep_view().take(i + 1).last() == tags.deep_view()[i as int]);
            assert(infos.deep_view().take(i + 1).last() == infos.deep_view()[i as int]);
            assert(tags.deep_view()[i as int] == (tags@[i as int].0@, (tags@[i as int].1.0@, tags@[i as int].1.1@)));
            assert(infos.deep_view()[i as int] == (infos@[i as int].0@, infos@[i as int].1));
        }
        let name = &tags[i].0;
        let cur = &tags[i].1.1;
        let entry = ObjRef { current: JsonRef::Text(cur.clone()), previous: prev_ref(&tags[i].1.0) };
        if !infos[i].1 {
            insert(&mut res.light, name.clone(), entry);
            if find_key(tree, cur.as_str()).is_none() {
                push_str(&mut res.required, cur.clone());
            }
        } else {
            insert(&mut res.annotated, name.clone(), entry);
            push_str(&mut res.objects, cur.clone());
            if find_key(tree, infos[i].0.as_str()).is_none() {
                push_str(&mut res.required, infos[i].0.clone());
            }
        }
        i += 1;
    }
    proof {
        assert(tags.deep_view().take(tags@.len() as int) =~= tags.deep_view());
        assert(infos.deep_view().take(infos@.len() as int) =~= infos.deep_view());
    }
    res
}

/// The records of the changed branches, in order, a later one replacing an
/// earlier one of the same name.
pub open spec fn branch_records(branches: Seq<(Seq<char>, (Seq<char>, Seq<char>))>) -> Seq<(Seq<char>, (RefView, RefView))>
    decreases branches.len(),
{
    if branches.len() == 0 {
        Seq::empty()
    } else {
        put(branch_records(branches.drop_last()), branches.last().0, change_view(branches.last().1.0, branches.last().1.1))
    }
}

/// The records of the changed branches (name, previous sha, current sha):
/// the current sha, and the previous one or null when it is empty.
pub fn branch_refs(branches: &Vec<(String, (String, String))>) -> (res: Vec<(String, ObjRef)>)
    ensures
        res.deep_view() == branch_records(branches.deep_view()),
{
    let mut res: Vec<(String, ObjRef)> = Vec::new();
    proof {
        assert(res.deep_view() =~= branch_records(branches.deep_view().take(0)));
    }
    let mut i: usize = 0;
    while i < branches.len()
        invariant
            i <= branches.len(),
            res.deep_view() == branch_records(branches.deep_view().take(i as int)),
        decreases branches.len() - i,
    {
        proof {
            assert(branches.deep_view().take(i + 1).drop_last() =~= branches.deep_view().take(i as int));
            assert(branches.deep_view().take(i + 1).last() == branches.deep_view()[i as int]);
        }
        let entry = ObjRef { current: JsonRef::Text(branches[i].1.1.clone()), previous: prev_ref(&branches[i].1.0) };
        insert(&mut res, branches[i].0.clone(), entry);
        i += 1;
    }
    proof {
        assert(branches.deep_view().take(branches@.len() as int) =~= branches.deep_view());
    }
    res
}

/// Whether an export records anything: the export refuses to write an
/// export whose five ref maps are all empty.
pub fn has_changes(
    light: &Vec<(String, ObjRef)>,
    annotated: &Vec<(String, ObjRef)>,
    retired_tags: &Vec<(String, String)>,
    active: &Vec<(String, ObjRef)>,
    retired_branches: &Vec<(String, String)>,
) -> (res: bool)
    ensures
        res == !(light@.len() == 0 && annotated@.len() == 0 && retired_tags@.len() == 0 && active@.len() == 0
            && retired_branches@.len() == 0),
{
    !(light.len() == 0 && annotated.len() == 0 && retired_tags.len() == 0 && active.len() == 0 && retired_branches.len() == 0)
}

/// Adds a walked commit tree to the export's tree: every entry (`replace`),
/// or only commits the tree does not have yet.
pub open spec fn merged(
    into: Seq<(Seq<char>, Seq<Seq<char>>)>,
    from: Seq<(Seq<char>, Seq<Seq<char>>)>,
    replace: bool,
) -> Seq<(Seq<char>, Seq<Seq<char>>)>
    decreases from.len(),
{
    if from.len() == 0 {
        into
    } else {
        let m = merged(into, from.drop_last(), replace);
        if replace || !has_key(m, from.last().0) {
            put(m, from.last().0, from.last().1)
        } else {
            m
        }
    }
}

/// Adds the walked tree `from` to `into` (see [`merged`]).
pub fn merge_tree(into: &mut Vec<(String, Vec<String>)>, from: &Vec<(String, Vec<String>)>, replace: bool)
    ensures
        final(into).deep_view() == merged(old(into).deep_view(), from.deep_view(), replace),
{
    let ghost start = into.deep_view();
    let mut i: usize = 0;
    while i < from.len()
        invariant
            i <= from.len(),
            into.deep_view() == merged(start, from.deep_view().take(i as int), replace),
        decreases from.len() - i,
    {
        proof {
            assert(from.deep_view().take(i + 1).drop_last() =~= from.deep_view().take(i as int));
            assert(from.deep_view().take(i + 1).last() == from.deep_view()[i as int]);
            assert(from.deep_view()[i as int] == (from@[i as int].0@, from@[i as int].1.deep_view()));
        }
        if replace || find_key(into, from[i].0.as_str()).is_none() {
            let ps = crate::scan::copy_strings(&from[i].1);
            proof {
                assert(ps.deep_view() =~= views(ps@));
                assert(from@[i as int].1.deep_view() =~= views(from@[i as int].1@));
            }
            insert(into, from[i].0.clone(), ps);
        }
        i += 1;
    }
    proof {
        assert(from.deep_view().take(from@.len() as int) =~= from.deep_view());
    }
}


/// Merging walked trees: every walked commit ends up in the export's tree;
/// without replacing, a commit already there keeps its parents; with
/// replacing, each walked commit has the parents the walk found (a walked
/// tree names each commit once), and other commits keep theirs.
pub proof fn law_merge_tree(
    into: Seq<(Seq<char>, Seq<Seq<char>>)>,
    from: Seq<(Seq<char>, Seq<Seq<char>>)>,
    k: Seq<char>,
)
    ensures
        has_key(from, k) ==> has_key(merged(into, from, false), k) && has_key(merged(into, from, true), k),
        has_key(into, k) ==> get(merged(into, from, false), k) == get(into, k),
        !has_key(from, k) ==> get(merged(into, from, true), k) == get(into, k),
        has_key(from, k) && unique_keys(from) ==> get(merged(into, from, true), k) == get(from, k),
    decreases from.len(),
{
    if from.len() > 0 {
        let f = from.drop_last();
        let k2 = from.last().0;
        let v2 = from.last().1;
        assert(from.last() == from[from.len() - 1]);
        assert(unique_keys(from) ==> unique_keys(f)) by {
            if unique_keys(from) {
                assert forall|i: int, j: int| 0 <= i < j < f.len() implies #[trigger] f[i].0 != #[trigger] f[j].0 by {
                    assert(f[i] == from[i] && f[j] == from[j]);
                }
            }
        }
        law_merge_tree(into, f, k);
        lemma_get_put(merged(into, f, false), k2, v2, k);
        lemma_get_put(merged(into, f, true), k2, v2, k);
        lemma_key_index(from, k);
        lemma_key_index(f, k);
        if has_key(f, k) {
            let i = crate::assoc::key_index(f, k)->0;
            assert(from[i] == f[i]);
        }
        if has_key(from, k) && k != k2 {
            let i = crate::assoc::key_index(from, k)->0;
            assert(i < from.len() - 1);
            assert(f[i] == from[i]);
        }
        if k == k2 {
            assert(has_key(from, k));
            if unique_keys(from) {
                let i = crate::assoc::key_index(from, k)->0;
                if i < from.len() - 1 {
                    assert(from[i].0 != from[from.len() - 1].0);
                }
            }
        }
        lemma_get_has(merged(into, f, false), k);
        lemma_get_has(merged(into, f, true), k);
        lemma_get_has(into, k);
        lemma_get_has(merged(into, from, false), k);
        lemma_get_has(merged(into, from, true), k);
    }
}

proof fn lemma_get_has<V>(s: Seq<(Seq<char>, V)>, k: Seq<char>)
    ensures
        has_key(s, k) <==> get(s, k) is Some,
{
}
} // verus!
