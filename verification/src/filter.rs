//! Choosing the branches an import takes in: exclusion and inclusion patterns
//! applied, like `grep`, to the list of exported branch names.

use vstd::prelude::*;
use vstd::utf8::encode_utf8;
use crate::git::{lines, split_lines};
use crate::refs::contains_str;
use crate::text::{push_char, split, split_by, views};

verus! {

/// The lines that the `grep-searcher` crate hands to its sink when it
/// searches `content` with a `grep-regex` matcher for `pattern` (the lines
/// that do not match, when `invert`), each with its line terminator, up to
/// the first error; none when the pattern does not compile.
pub uninterp spec fn grep_lines(content: Seq<u8>, pattern: Seq<char>, invert: bool) -> Seq<Seq<char>>;

/// Keeps a line the searcher found.
pub fn keep_line(lines: &mut Vec<String>, line: &str)
    ensures
        views(final(lines)@) == views(old(lines)@).push(line@),
{
    let ghost o = views(lines@);
    lines.push(crate::text::to_owned(line));
    proof {
        assert(views(lines@) =~= o.push(line@));
    }
}

/// `RegexMatcher::new(pattern)` (grep-regex) and `Searcher::search_slice`
/// with a `sinks::UTF8` sink (grep-searcher), inverted when `invert`: the
/// lines handed to the sink, named by [`grep_lines`].
#[verifier::external_body]
pub(crate) fn grep(content: &[u8], pattern: &str, invert: bool) -> (res: Vec<String>)
    ensures
        views(res@) == grep_lines(content@, pattern@, invert),
{
    let mut found: Vec<String> = Vec::new();
    if let Ok(matcher) = grep_regex::RegexMatcher::new(pattern) {
        let mut searcher = grep_searcher::SearcherBuilder::new();
        searcher.invert_match(invert);
        let _ = searcher.build().search_slice(
            &matcher,
            content,
            grep_searcher::sinks::UTF8(|_line_number, line| {
                keep_line(&mut found, line);
                Ok(true)
            }),
        );
    }
    found
}

/// The text of found lines: each line followed by a line feed.
pub open spec fn sink_text(found: Seq<Seq<char>>) -> Seq<char>
    decreases found.len(),
{
    if found.len() == 0 {
        Seq::empty()
    } else {
        sink_text(found.drop_last()) + found.last() + seq!['\n']
    }
}

/// The text searched at the start: each branch name followed by a line feed.
pub open spec fn names_text(names: Seq<Seq<char>>) -> Seq<char> {
    sink_text(names)
}

/// The text after the exclude patterns: each non-empty pattern keeps the
/// lines that do not match it.
pub open spec fn after_excludes(text: Seq<char>, patterns: Seq<Seq<char>>) -> Seq<char>
    decreases patterns.len(),
{
    if patterns.len() == 0 {
        text
    } else {
        let t = after_excludes(text, patterns.drop_last());
        if patterns.last().len() == 0 {
            t
        } else {
            sink_text(grep_lines(encode_utf8(t), patterns.last(), true))
        }
    }
}

/// The text after the inclusion patterns: as the import does, each non-empty
/// pattern searches the text as it was before the includes, so the last
/// non-empty one decides.
pub open spec fn after_includes(text: Seq<char>, patterns: Seq<Seq<char>>) -> Seq<char>
    decreases patterns.len(),
{
    if patterns.len() == 0 {
        text
    } else {
        let t = after_includes(text, patterns.drop_last());
        if patterns.last().len() == 0 {
            t
        } else {
            sink_text(grep_lines(encode_utf8(text), patterns.last(), false))
        }
    }
}

/// The distinct non-empty names, in order of first appearance.
pub open spec fn distinct_names(ls: Seq<Seq<char>>) -> Seq<Seq<char>>
    decreases ls.len(),
{
    if ls.len() == 0 {
        Seq::empty()
    } else {
        let r = distinct_names(ls.drop_last());
        if ls.last().len() == 0 || r.contains(ls.last()) {
            r
        } else {
            r.push(ls.last())
        }
    }
}

/// The comma-separated patterns of an option (none when it is absent).
pub open spec fn patterns_of(opt: Option<Seq<char>>) -> Seq<Seq<char>> {
    match opt {
        Some(p) => split_by(p, ","@),
        None => Seq::empty(),
    }
}

/// The branches an import takes in, from the exported branch names: `None`
/// when nothing is left after the excludes or after the includes (the
/// import then ends there).
pub open spec fn filtered(names: Seq<Seq<char>>, keep: Option<Seq<char>>, exclude: Option<Seq<char>>) -> Option<Seq<Seq<char>>> {
    let t1 = after_excludes(names_text(names), patterns_of(exclude));
    if t1.len() == 0 {
        None
    } else {
        let t2 = after_includes(t1, patterns_of(keep));
        if t2.len() == 0 {
            None
        } else {
            Some(distinct_names(lines(t2)))
        }
    }
}

fn append_line(text: &mut String, line: &str)
    ensures
        final(text)@ == old(text)@ + line@ + seq!['\n'],
{
    text.append(line);
    push_char(text, '\n');
}

fn text_of(found: &Vec<String>) -> (res: String)
    ensures
        res@ == sink_text(views(found@)),
{
    let mut res = String::new();
    let mut i: usize = 0;
    while i < found.len()
        invariant
            i <= found.len(),
            res@ == sink_text(views(found@).take(i as int)),
        decreases found.len() - i,
    {
        proof {
            assert(views(found@).take(i + 1).drop_last() =~= views(found@).take(i as int));
            assert(views(found@).take(i + 1).last() == found@[i as int]@);
        }
        append_line(&mut res, found[i].as_str());
        i += 1;
    }
    proof {
        assert(views(found@).take(found@.len() as int) =~= views(found@));
    }
    res
}

fn pattern_list(opt: &Option<String>) -> (res: Vec<String>)
    ensures
        views(res@) == patterns_of(match opt {
            Some(p) => Some(p@),
            None => None,
        }),
{
    match opt {
        Some(p) => {
            proof {
                reveal_strlit(",");
            }
            split(p.as_str(), ",")
        },
        None => {
            let v: Vec<String> = Vec::new();
            proof {
                assert(views(v@) =~= Seq::<Seq<char>>::empty());
            }
            v
        },
    }
}

/// Filters the exported branch names with the keep and exclude options.
pub fn filter_branches(names: &Vec<String>, keep: &Option<String>, exclude: &Option<String>) -> (res: Option<Vec<String>>)
    ensures
        filtered(
            views(names@),
            match keep {
                Some(p) => Some(p@),
                None => None,
            },
            match exclude {
                Some(p) => Some(p@),
                None => None,
            },
        ) == (match res {
            Some(v) => Some(views(v@)),
            None => None,
        }),
{
    let mut text = text_of(names);
    let ex = pattern_list(exclude);
    let mut i: usize = 0;
    while i < ex.len()
        invariant
            i <= ex.len(),
            text@ == after_excludes(names_text(views(names@)), views(ex@).take(i as int)),
        decreases ex.len() - i,
    {
        proof {
            assert(views(ex@).take(i + 1).drop_last() =~= views(ex@).take(i as int));
            assert(views(ex@).take(i + 1).last() == ex@[i as int]@);
        }
        if !ex[i].as_str().is_empty() {
            let found = grep(text.as_str().as_bytes(), ex[i].as_str(), true);
            text = text_of(&found);
        }
        i += 1;
    }
    proof {
        assert(views(ex@).take(ex@.len() as int) =~= views(ex@));
    }
    if text.as_str().is_empty() {
        return None;
    }
    let before = text.clone();
    let inc = pattern_list(keep);
    let mut k: usize = 0;
    while k < inc.len()
        invariant
            k <= inc.len(),
            text@ == after_includes(before@, views(inc@).take(k as int)),
        decreases inc.len() - k,
    {
        proof {
            assert(views(inc@).take(k + 1).drop_last() =~= views(inc@).take(k as int));
            assert(views(inc@).take(k + 1).last() == inc@[k as int]@);
        }
        if !inc[k].as_str().is_empty() {
            let found = grep(before.as_str().as_bytes(), inc[k].as_str(), false);
            text = text_of(&found);
        }
        k += 1;
    }
    proof {
        assert(views(inc@).take(inc@.len() as int) =~= views(inc@));
    }
    if text.as_str().is_empty() {
        return None;
    }
    let ls = split_lines(text.as_str());
    let mut res: Vec<String> = Vec::new();
    let mut j: usize = 0;
    while j < ls.len()
        invariant
            j <= ls.len(),
            views(res@) == distinct_names(views(ls@).take(j as int)),
        decreases ls.len() - j,
    {
        proof {
            assert(views(ls@).take(j + 1).drop_last() =~= views(ls@).take(j as int));
            assert(views(ls@).take(j + 1).last() == ls@[j as int]@);
        }
        if !ls[j].as_str().is_empty() && !contains_str(&res, ls[j].as_str()) {
            let ghost o = views(res@);
            res.push(ls[j].clone());
            proof {
                assert(views(res@) =~= o.push(ls@[j as int]@));
            }
        }
        j += 1;
    }
    proof {
        assert(views(ls@).take(ls@.len() as int) =~= views(ls@));
    }
    Some(res)
}

} // verus!
