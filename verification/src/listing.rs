//! The listings of the inspect tools: branches and tags of a pack export,
//! files and hashes of an lfs export.

use vstd::prelude::*;
use crate::assoc::{find_key, get, has_key, insert, put, lemma_key_index};
use crate::order::{sort_names, strictly_sorted};
use crate::text::{concat, join_with, push_char, views};
use crate::scan::{copy_strings, push_str};

verus! {

/// A ref field of an export's JSON: null, a string, or some other value.
pub enum JsonRef {
    Null,
    Text(String),
    Other,
}

/// The current and previous commit of a listed ref.
pub struct ObjRef {
    pub current: JsonRef,
    pub previous: JsonRef,
}

/// A ref field as a value.
pub enum RefView {
    Null,
    Text(Seq<char>),
    Other,
}

impl DeepView for JsonRef {
    type V = RefView;

    open spec fn deep_view(&self) -> RefView {
        match self {
            JsonRef::Null => RefView::Null,
            JsonRef::Text(s) => RefView::Text(s@),
            JsonRef::Other => RefView::Other,
        }
    }
}

impl DeepView for ObjRef {
    type V = (RefView, RefView);

    open spec fn deep_view(&self) -> (RefView, RefView) {
        (self.current.deep_view(), self.previous.deep_view())
    }
}

/// Which refs a listing shows by status.
#[derive(PartialEq, Eq, Structural, Clone, Copy)]
pub enum Status {
    Active,
    Retired,
    All,
}

/// How a listing shows each ref.
#[derive(PartialEq, Eq, Structural, Clone, Copy)]
pub enum Format {
    Long,
    Index,
    Event,
    Simple,
}

/// Which tags a listing shows by kind.
#[derive(PartialEq, Eq, Structural, Clone, Copy)]
pub enum TagType {
    Light,
    Annotated,
    All,
}

/// The text of a ref field that is printed (`as_str().unwrap()`): `None`
/// where the listing stops, a field that is neither null nor a string.
pub open spec fn text_of(r: RefView) -> Option<Seq<char>> {
    match r {
        RefView::Text(s) => Some(s),
        _ => None,
    }
}

/// The event letter of a ref: `C` when it has no previous commit (created),
/// `R` when it has no current one (retired), `M` otherwise (moved).
pub open spec fn event_of(r: (RefView, RefView)) -> Seq<char> {
    if r.1 is Null {
        "C\t"@
    } else if r.0 is Null {
        "R\t"@
    } else {
        "M\t"@
    }
}

/// The line of one ref: the event letter (Event format), the kind letter of
/// a tag (Long format, when `kind` is given), the name, then the current
/// commit (Index format) or `previous:current` (Long format).
pub open spec fn entry_line(name: Seq<char>, r: (RefView, RefView), format: Format, kind: Option<Seq<char>>) -> Option<Seq<char>> {
    let head = (if format == Format::Event { event_of(r) } else { Seq::empty() }) + (match kind {
        Some(k) => if format == Format::Long { k } else { Seq::empty() },
        None => Seq::empty(),
    }) + name;
    if format == Format::Index {
        if r.0 is Null {
            Some(head)
        } else {
            match text_of(r.0) {
                Some(c) => Some(head + "\t"@ + c),
                None => None,
            }
        }
    } else if format == Format::Long {
        let prev = if r.1 is Null { Some(Seq::empty()) } else { text_of(r.1) };
        let cur = if r.0 is Null { Some(Seq::empty()) } else { text_of(r.0) };
        match (prev, cur) {
            (Some(p), Some(c)) => Some(head + "\t"@ + p + ":"@ + c),
            _ => None,
        }
    } else {
        Some(head)
    }
}

/// Adds a line to a listing: a line feed first unless the listing is empty.
pub open spec fn add_line(data: Seq<char>, line: Seq<char>) -> Seq<char> {
    (if data.len() == 0 { data } else { data.push('\n') }) + line
}

/// The refs taken into a branch listing: active ones (Active, All), then
/// retired ones with no current commit (Retired, All), a later one
/// replacing an earlier one of the same name.
pub open spec fn branch_entries(active: Seq<(Seq<char>, (RefView, RefView))>, retired: Seq<(Seq<char>, RefView)>, status: Status) -> Seq<(Seq<char>, (RefView, RefView))> {
    let a = if status == Status::Active || status == Status::All {
        put_all(Seq::empty(), active)
    } else {
        Seq::empty()
    };
    if status == Status::Retired || status == Status::All {
        put_retired(a, retired)
    } else {
        a
    }
}

/// Puts each entry in turn.
pub open spec fn put_all(m: Seq<(Seq<char>, (RefView, RefView))>, es: Seq<(Seq<char>, (RefView, RefView))>) -> Seq<(Seq<char>, (RefView, RefView))>
    decreases es.len(),
{
    if es.len() == 0 {
        m
    } else {
        put(put_all(m, es.drop_last()), es.last().0, es.last().1)
    }
}

/// Puts each retired ref in turn, with no current commit.
pub open spec fn put_retired(m: Seq<(Seq<char>, (RefView, RefView))>, rs: Seq<(Seq<char>, RefView)>) -> Seq<(Seq<char>, (RefView, RefView))>
    decreases rs.len(),
{
    if rs.len() == 0 {
        m
    } else {
        put(put_retired(m, rs.drop_last()), rs.last().0, (RefView::Null, rs.last().1))
    }
}

/// The listing of the entries under `names`, in that order; `kinds` gives
/// the kind letter of each (tags only).
pub open spec fn listing(names: Seq<Seq<char>>, entries: Seq<(Seq<char>, (RefView, RefView))>, format: Format, kinds: spec_fn(Seq<char>) -> Option<Seq<char>>) -> Option<Seq<char>>
    decreases names.len(),
{
    if names.len() == 0 {
        Some(Seq::empty())
    } else {
        match (listing(names.drop_last(), entries, format, kinds), get(entries, names.last())) {
            (Some(data), Some(r)) => match entry_line(names.last(), r, format, kinds(names.last())) {
                Some(line) => Some(add_line(data, line)),
                None => None,
            },
            _ => None,
        }
    }
}

/// The names of the entries.
pub open spec fn names_of<V>(entries: Seq<(Seq<char>, V)>) -> Seq<Seq<char>> {
    entries.map_values(|e: (Seq<char>, V)| e.0)
}

fn copy_ref(r: &JsonRef) -> (res: JsonRef)
    ensures
        res.deep_view() == r.deep_view(),
{
    match r {
        JsonRef::Null => JsonRef::Null,
        JsonRef::Text(s) => JsonRef::Text(s.clone()),
        JsonRef::Other => JsonRef::Other,
    }
}

fn put_all_exec(m: &mut Vec<(String, ObjRef)>, es: &Vec<(String, ObjRef)>)
    ensures
        final(m).deep_view() == put_all(old(m).deep_view(), es.deep_view()),
{
    let ghost m0 = m.deep_view();
    let mut i: usize = 0;
    while i < es.len()
        invariant
            i <= es.len(),
            m.deep_view() == put_all(m0, es.deep_view().take(i as int)),
        decreases es.len() - i,
    {
        proof {
            assert(es.deep_view().take(i + 1).drop_last() =~= es.deep_view().take(i as int));
            assert(es.deep_view().take(i + 1).last() == es.deep_view()[i as int]);
        }
        let r = ObjRef { current: copy_ref(&es[i].1.current), previous: copy_ref(&es[i].1.previous) };
        insert(m, es[i].0.clone(), r);
        i += 1;
    }
    proof {
        assert(es.deep_view().take(es@.len() as int) =~= es.deep_view());
    }
}

fn put_retired_exec(m: &mut Vec<(String, ObjRef)>, rs: &Vec<(String, JsonRef)>)
    ensures
        final(m).deep_view() == put_retired(old(m).deep_view(), rs.deep_view()),
{
    let ghost m0 = m.deep_view();
    let mut i: usize = 0;
    while i < rs.len()
        invariant
            i <= rs.len(),
            m.deep_view() == put_retired(m0, rs.deep_view().take(i as int)),
        decreases rs.len() - i,
    {
        proof {
            assert(rs.deep_view().take(i + 1).drop_last() =~= rs.deep_view().take(i as int));
            assert(rs.deep_view().take(i + 1).last() == rs.deep_view()[i as int]);
        }
        let r = ObjRef { current: JsonRef::Null, previous: copy_ref(&rs[i].1) };
        insert(m, rs[i].0.clone(), r);
        i += 1;
    }
    proof {
        assert(rs.deep_view().take(rs@.len() as int) =~= rs.deep_view());
    }
}

fn keys_of<V: DeepView>(m: &Vec<(String, V)>) -> (res: Vec<String>)
    ensures
        views(res@) == names_of(m.deep_view()),
{
    let mut res: Vec<String> = Vec::new();
    let mut i: usize = 0;
    while i < m.len()
        invariant
            i <= m.len(),
            views(res@) == names_of(m.deep_view()).take(i as int),
        decreases m.len() - i,
    {
        let ghost o = views(res@);
        res.push(m[i].0.clone());
        proof {
            assert(views(res@) =~= o.push(m@[i as int].0@));
            assert(names_of(m.deep_view()).take(i + 1) =~= o.push(m@[i as int].0@));
        }
        i += 1;
    }
    proof {
        assert(names_of(m.deep_view()).take(m@.len() as int) =~= names_of(m.deep_view()));
    }
    res
}

fn add_line_exec(data: &mut String, line: &String)
    ensures
        final(data)@ == add_line(old(data)@, line@),
{
    if !data.as_str().is_empty() {
        push_char(data, '\n');
    }
    data.append(line.as_str());
}

fn entry_line_exec(name: &String, r: &ObjRef, format: Format, kind: &Option<String>) -> (res: Option<String>)
    ensures
        res matches Some(s) ==> entry_line(name@, r.deep_view(), format, match kind {
            Some(k) => Some(k@),
            None => None,
        }) == Some(s@),
        res is None ==> entry_line(name@, r.deep_view(), format, match kind {
            Some(k) => Some(k@),
            None => None,
        }) is None,
{
    let mut head = String::new();
    if format == Format::Event {
        match (&r.previous, &r.current) {
            (JsonRef::Null, _) => head.append("C\t"),
            (_, JsonRef::Null) => head.append("R\t"),
            _ => head.append("M\t"),
        }
    }
    match kind {
        Some(k) => if format == Format::Long {
            head.append(k.as_str());
        },
        None => {},
    }
    head.append(name.as_str());
    proof {
        let ev = if format == Format::Event { event_of(r.deep_view()) } else { Seq::<char>::empty() };
        let kd = match kind {
            Some(k) => if format == Format::Long { k@ } else { Seq::<char>::empty() },
            None => Seq::<char>::empty(),
        };
        assert(head@ =~= ev + kd + name@);
    }
    if format == Format::Index {
        match &r.current {
            JsonRef::Null => Some(head),
            JsonRef::Text(c) => {
                head.append("\t");
                head.append(c.as_str());
                Some(head)
            },
            JsonRef::Other => None,
        }
    } else if format == Format::Long {
        head.append("\t");
        match &r.previous {
            JsonRef::Null => {},
            JsonRef::Text(p) => head.append(p.as_str()),
            JsonRef::Other => return None,
        }
        head.append(":");
        match &r.current {
            JsonRef::Null => {},
            JsonRef::Text(c) => head.append(c.as_str()),
            JsonRef::Other => return None,
        }
        Some(head)
    } else {
        Some(head)
    }
}

/// The kind letter of a tag in a long listing: `A\t` for an annotated tag of
/// the export, `L\t` for a light one, a blank otherwise.
pub open spec fn tag_kind(annotated: Seq<(Seq<char>, (RefView, RefView))>, light: Seq<(Seq<char>, (RefView, RefView))>) -> spec_fn(Seq<char>) -> Option<Seq<char>> {
    |t: Seq<char>| if has_key(annotated, t) {
        Some("A\t"@)
    } else if has_key(light, t) {
        Some("L\t"@)
    } else {
        Some(" \t"@)
    }
}

/// No kind letters (branch listings).
pub open spec fn no_kind() -> spec_fn(Seq<char>) -> Option<Seq<char>> {
    |t: Seq<char>| None::<Seq<char>>
}

fn list_sorted(entries: &Vec<(String, ObjRef)>, format: Format, annotated: &Vec<(String, ObjRef)>, light: &Vec<(String, ObjRef)>, tags: bool) -> (res: (Vec<String>, Option<String>))
    ensures
        strictly_sorted(views(res.0@)),
        forall|k: Seq<char>| views(res.0@).contains(k) <==> names_of(entries.deep_view()).contains(k),
        res.1 matches Some(s) ==> listing(
            views(res.0@),
            entries.deep_view(),
            format,
            if tags { tag_kind(annotated.deep_view(), light.deep_view()) } else { no_kind() },
        ) == Some(s@),
        res.1 is None ==> listing(
            views(res.0@),
            entries.deep_view(),
            format,
            if tags { tag_kind(annotated.deep_view(), light.deep_view()) } else { no_kind() },
        ) is None,
{
    let keys = keys_of(entries);
    let names = sort_names(&keys);
    let ghost kinds = if tags { tag_kind(annotated.deep_view(), light.deep_view()) } else { no_kind() };
    let mut data = String::new();
    let mut i: usize = 0;
    while i < names.len()
        invariant
            i <= names.len(),
            listing(views(names@).take(i as int), entries.deep_view(), format, kinds) == Some(data@),
            forall|k: Seq<char>| views(names@).contains(k) <==> names_of(entries.deep_view()).contains(k),
            strictly_sorted(views(names@)),
            kinds == (if tags { tag_kind(annotated.deep_view(), light.deep_view()) } else { no_kind() }),
        decreases names.len() - i,
    {
        let ghost ns = views(names@).take(i + 1);
        proof {
            assert(ns.drop_last() =~= views(names@).take(i as int));
            assert(ns.last() == names@[i as int]@);
            assert(views(names@).contains(names@[i as int]@));
        }
        let name = &names[i];
        let pos = find_key(entries, name.as_str());
        proof {
            lemma_key_index(entries.deep_view(), name@);
            if pos is None {
                let j = choose|j: int| 0 <= j < names_of(entries.deep_view()).len() && names_of(entries.deep_view())[j] == name@;
                assert(entries.deep_view()[j].0 == name@);
            }
        }
        let p = pos.unwrap();
        let kind: Option<String> = if tags {
            if find_key(annotated, name.as_str()).is_some() {
                Some(crate::text::to_owned("A\t"))
            } else if find_key(light, name.as_str()).is_some() {
                Some(crate::text::to_owned("L\t"))
            } else {
                Some(crate::text::to_owned(" \t"))
            }
        } else {
            None
        };
        proof {
            assert(entries.deep_view()[p as int] == (entries@[p as int].0@, entries@[p as int].1.deep_view()));
        }
        match entry_line_exec(name, &entries[p].1, format, &kind) {
            None => {
                proof {
                    lemma_listing_none(views(names@), entries.deep_view(), format, kinds, i as int);
                }
                return (names, None);
            },
            Some(line) => {
                add_line_exec(&mut data, &line);
            },
        }
        i += 1;
    }
    proof {
        assert(views(names@).take(names@.len() as int) =~= views(names@));
    }
    (names, Some(data))
}

proof fn lemma_listing_none(names: Seq<Seq<char>>, entries: Seq<(Seq<char>, (RefView, RefView))>, format: Format, kinds: spec_fn(Seq<char>) -> Option<Seq<char>>, i: int)
    requires
        0 <= i < names.len(),
        listing(names.take(i + 1), entries, format, kinds) is None,
    ensures
        listing(names, entries, format, kinds) is None,
    decreases names.len() - i,
{
    if i + 1 < names.len() {
        assert(names.take(i + 2).drop_last() =~= names.take(i + 1));
        lemma_listing_none(names, entries, format, kinds, i + 1);
    } else {
        assert(names.take(i + 1) =~= names);
    }
}

/// The branch listing of a pack export: the refs chosen by status, sorted by
/// name, one line each.  `None` where the tool stops on a field that is
/// neither null nor a string.
pub fn list_branches(active: &Vec<(String, ObjRef)>, retired: &Vec<(String, JsonRef)>, status: Status, format: Format) -> (res: Option<String>)
    ensures
        ({
            let entries = branch_entries(active.deep_view(), retired.deep_view(), status);
            exists|names: Seq<Seq<char>>|
                #![trigger listing(names, entries, format, no_kind())]
                strictly_sorted(names) && (forall|k: Seq<char>| names.contains(k) <==> names_of(entries).contains(k))
                    && listing(names, entries, format, no_kind()) == (match res {
                    Some(s) => Some(s@),
                    None => None,
                })
        }),
{
    let mut entries: Vec<(String, ObjRef)> = Vec::new();
    proof {
        assert(entries.deep_view() =~= Seq::<(Seq<char>, (RefView, RefView))>::empty());
    }
    if status == Status::Active || status == Status::All {
        put_all_exec(&mut entries, active);
    }
    if status == Status::Retired || status == Status::All {
        put_retired_exec(&mut entries, retired);
    }
    let empty: Vec<(String, ObjRef)> = Vec::new();
    let (names, out) = list_sorted(&entries, format, &empty, &empty, false);
    proof {
        assert(entries.deep_view() == branch_entries(active.deep_view(), retired.deep_view(), status));
    }
    out
}


/// The refs taken into a tag listing: light tags (Active or All, Light or
/// All), then annotated ones (Active or All, Annotated or All), then retired
/// ones with no current commit (Retired or All), a later one replacing an
/// earlier one of the same name.
pub open spec fn tag_entries(
    light: Seq<(Seq<char>, (RefView, RefView))>,
    annotated: Seq<(Seq<char>, (RefView, RefView))>,
    retired: Seq<(Seq<char>, RefView)>,
    status: Status,
    tag_type: TagType,
) -> Seq<(Seq<char>, (RefView, RefView))> {
    let active = status == Status::Active || status == Status::All;
    let a = if active && (tag_type == TagType::Light || tag_type == TagType::All) {
        put_all(Seq::empty(), light)
    } else {
        Seq::empty()
    };
    let b = if active && (tag_type == TagType::Annotated || tag_type == TagType::All) {
        put_all(a, annotated)
    } else {
        a
    };
    if status == Status::Retired || status == Status::All {
        put_retired(b, retired)
    } else {
        b
    }
}

/// The tag listing of a pack export: the tags chosen by status and kind,
/// sorted by name, one line each; a long listing marks each tag `A`
/// (annotated), `L` (light) or blank (retired only).  `None` where the
/// tool stops on a field that is neither null nor a string.
pub fn list_tags(
    light: &Vec<(String, ObjRef)>,
    annotated: &Vec<(String, ObjRef)>,
    retired: &Vec<(String, JsonRef)>,
    status: Status,
    format: Format,
    tag_type: TagType,
) -> (res: Option<String>)
    ensures
        ({
            let entries = tag_entries(light.deep_view(), annotated.deep_view(), retired.deep_view(), status, tag_type);
            let kinds = tag_kind(annotated.deep_view(), light.deep_view());
            exists|names: Seq<Seq<char>>|
                #![trigger listing(names, entries, format, kinds)]
                strictly_sorted(names) && (forall|k: Seq<char>| names.contains(k) <==> names_of(entries).contains(k))
                    && listing(names, entries, format, kinds) == (match res {
                    Some(s) => Some(s@),
                    None => None,
                })
        }),
{
    let mut entries: Vec<(String, ObjRef)> = Vec::new();
    proof {
        assert(entries.deep_view() =~= Seq::<(Seq<char>, (RefView, RefView))>::empty());
    }
    let active = status == Status::Active || status == Status::All;
    if active && (tag_type == TagType::Light || tag_type == TagType::All) {
        put_all_exec(&mut entries, light);
    }
    if active && (tag_type == TagType::Annotated || tag_type == TagType::All) {
        put_all_exec(&mut entries, annotated);
    }
    if status == Status::Retired || status == Status::All {
        put_retired_exec(&mut entries, retired);
    }
    let (names, out) = list_sorted(&entries, format, annotated, light, true);
    proof {
        assert(entries.deep_view() == tag_entries(light.deep_view(), annotated.deep_view(), retired.deep_view(), status, tag_type));
    }
    out
}


/// What an lfs listing is keyed by.
#[derive(PartialEq, Eq, Structural, Clone, Copy)]
pub enum MapBy {
    /// Files: each path with the hashes stored for it.
    File,
    /// Hashes: each hash with its path.
    Hash,
}

/// The (key, value) pairs of an export's mapping of (hash, path) pairs.
pub open spec fn keyed_pairs(mapping: Seq<(Seq<char>, Seq<char>)>, by: MapBy) -> Seq<(Seq<char>, Seq<char>)> {
    mapping.map_values(|p: (Seq<char>, Seq<char>)| if by == MapBy::File { (p.1, p.0) } else { p })
}

/// The values of each key, in the order of the pairs; keys in order of first
/// appearance.
pub open spec fn group_pairs(pairs: Seq<(Seq<char>, Seq<char>)>) -> Seq<(Seq<char>, Seq<Seq<char>>)>
    decreases pairs.len(),
{
    if pairs.len() == 0 {
        Seq::empty()
    } else {
        let m = group_pairs(pairs.drop_last());
        let k = pairs.last().0;
        let v = pairs.last().1;
        put(m, k, match get(m, k) {
            Some(vs) => vs.push(v),
            None => seq![v],
        })
    }
}

/// The lines of one key: `key - value` for each of its values (long
/// format), or the key alone.
pub open spec fn group_line(key: Seq<char>, values: Seq<Seq<char>>, long: bool) -> Seq<char> {
    if long {
        join_with(values.map_values(|v: Seq<char>| key + " - "@ + v), "\n"@)
    } else {
        key
    }
}

/// The listing of the groups under `names`, in that order.
pub open spec fn group_listing(names: Seq<Seq<char>>, groups: Seq<(Seq<char>, Seq<Seq<char>>)>, long: bool) -> Seq<char>
    decreases names.len(),
{
    if names.len() == 0 {
        Seq::empty()
    } else {
        let vs = match get(groups, names.last()) {
            Some(vs) => vs,
            None => Seq::empty(),
        };
        add_line(group_listing(names.drop_last(), groups, long), group_line(names.last(), vs, long))
    }
}

proof fn lemma_strings_deep_view(v: Vec<String>)
    ensures
        v.deep_view() == views(v@),
{
    assert(v.deep_view() =~= views(v@));
}

pub(crate) fn group_exec(mapping: &Vec<(String, String)>, by: MapBy) -> (res: Vec<(String, Vec<String>)>)
    ensures
        res.deep_view() == group_pairs(keyed_pairs(mapping.deep_view(), by)),
{
    let ghost pairs = keyed_pairs(mapping.deep_view(), by);
    let mut m: Vec<(String, Vec<String>)> = Vec::new();
    proof {
        assert(m.deep_view() =~= group_pairs(pairs.take(0)));
    }
    let mut i: usize = 0;
    while i < mapping.len()
        invariant
            i <= mapping.len(),
            pairs == keyed_pairs(mapping.deep_view(), by),
            m.deep_view() == group_pairs(pairs.take(i as int)),
        decreases mapping.len() - i,
    {
        let (k, v) = if by == MapBy::File {
            (mapping[i].1.clone(), mapping[i].0.clone())
        } else {
            (mapping[i].0.clone(), mapping[i].1.clone())
        };
        proof {
            assert(pairs.take(i + 1).drop_last() =~= pairs.take(i as int));
            assert(pairs.take(i + 1).last() == pairs[i as int]);
            assert(mapping.deep_view()[i as int] == (mapping@[i as int].0@, mapping@[i as int].1@));
            assert(pairs[i as int] == (k@, v@));
            lemma_key_index(m.deep_view(), k@);
        }
        let ghost vv = v@;
        match find_key(&m, k.as_str()) {
            Some(j) => {
                let mut vs = copy_strings(&m[j].1);
                proof {
                    lemma_strings_deep_view(m@[j as int].1);
                    assert(m.deep_view()[j as int] == (m@[j as int].0@, m@[j as int].1.deep_view()));
                }
                push_str(&mut vs, v);
                proof {
                    lemma_strings_deep_view(vs);
                }
                insert(&mut m, k, vs);
            },
            None => {
                let mut vs: Vec<String> = Vec::new();
                push_str(&mut vs, v);
                proof {
                    lemma_strings_deep_view(vs);
                    assert(views(vs@) =~= seq![vv]);
                }
                insert(&mut m, k, vs);
            },
        }
        i += 1;
    }
    proof {
        assert(pairs.take(mapping@.len() as int) =~= pairs);
    }
    m
}

fn group_line_exec(key: &String, values: &Vec<String>, long: bool) -> (res: String)
    ensures
        res@ == group_line(key@, views(values@), long),
{
    if !long {
        return key.clone();
    }
    let ghost lines = views(values@).map_values(|v: Seq<char>| key@ + " - "@ + v);
    let mut out = String::new();
    let mut i: usize = 0;
    while i < values.len()
        invariant
            i <= values.len(),
            lines == views(values@).map_values(|v: Seq<char>| key@ + " - "@ + v),
            out@ == join_with(lines.take(i as int), "\n"@),
        decreases values.len() - i,
    {
        proof {
            reveal_strlit("\n");
            assert(lines.take(i + 1).drop_last() =~= lines.take(i as int));
        }
        if i > 0 {
            push_char(&mut out, '\n');
        }
        let head = concat(key.as_str(), " - ");
        out.append(head.as_str());
        out.append(values[i].as_str());
        proof {
            let t = lines.take(i + 1);
            assert(t.last() == key@ + " - "@ + values@[i as int]@);
            if i == 0 {
                assert(out@ =~= t[0]);
            } else {
                assert(out@ =~= join_with(t.drop_last(), "\n"@) + "\n"@ + t.last());
            }
        }
        i += 1;
    }
    proof {
        assert(lines.take(values@.len() as int) =~= lines);
    }
    out
}

/// The file or hash listing of an lfs export, from its mapping of (hash,
/// path) pairs: each key once, sorted, with its values in the order of the
/// mapping (long format, one `key - value` line each) or alone.
pub fn list_mapping(mapping: &Vec<(String, String)>, by: MapBy, format: Format) -> (res: String)
    ensures
        ({
            let groups = group_pairs(keyed_pairs(mapping.deep_view(), by));
            let long = format == Format::Long;
            exists|names: Seq<Seq<char>>|
                #![trigger group_listing(names, groups, long)]
                strictly_sorted(names) && (forall|k: Seq<char>| names.contains(k) <==> names_of(groups).contains(k))
                    && group_listing(names, groups, long) == res@
        }),
{
    let groups = group_exec(mapping, by);
    let keys = keys_of(&groups);
    let names = sort_names(&keys);
    let long = format == Format::Long;
    let mut data = String::new();
    let mut i: usize = 0;
    while i < names.len()
        invariant
            i <= names.len(),
            group_listing(views(names@).take(i as int), groups.deep_view(), long) == data@,
            forall|k: Seq<char>| views(names@).contains(k) <==> names_of(groups.deep_view()).contains(k),
            strictly_sorted(views(names@)),
        decreases names.len() - i,
    {
        let ghost ns = views(names@).take(i + 1);
        proof {
            assert(ns.drop_last() =~= views(names@).take(i as int));
            assert(ns.last() == names@[i as int]@);
            assert(views(names@).contains(names@[i as int]@));
        }
        let name = &names[i];
        let pos = find_key(&groups, name.as_str());
        proof {
            lemma_key_index(groups.deep_view(), name@);
            if pos is None {
                let j = choose|j: int| 0 <= j < names_of(groups.deep_view()).len() && names_of(groups.deep_view())[j] == name@;
                assert(groups.deep_view()[j].0 == name@);
            }
        }
        let p = pos.unwrap();
        proof {
            assert(groups.deep_view()[p as int] == (groups@[p as int].0@, groups@[p as int].1.deep_view()));
            lemma_strings_deep_view(groups@[p as int].1);
        }
        let line = group_line_exec(name, &groups[p].1, long);
        add_line_exec(&mut data, &line);
        i += 1;
    }
    proof {
        assert(views(names@).take(names@.len() as int) =~= views(names@));
    }
    data
}

} // verus!
