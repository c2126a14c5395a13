//! Character-level string helpers with exact specifications.
//!
//! Strings are modelled by their character sequences (`s@`).  Where the
//! tools mix byte offsets (from `str::find`) with character indices
//! (from the `substring` crate), the byte offset of a character position is
//! modelled by the length of the UTF-8 encoding of the prefix before it.

use vstd::prelude::*;
use vstd::utf8::*;
use substring::Substring;

verus! {

// ---------------------------------------------------------------------------
// Specifications
// ---------------------------------------------------------------------------

/// `pat` occurs in `s` starting at character index `i`.
pub open spec fn occurs_at(s: Seq<char>, pat: Seq<char>, i: int) -> bool {
    0 <= i && i + pat.len() <= s.len() && s.subrange(i, i + pat.len()) == pat
}

/// The first index `>= start` at which `pat` occurs in `s`.
pub open spec fn index_of_from(s: Seq<char>, pat: Seq<char>, start: int) -> Option<int>
    decreases s.len() - start,
{
    if start < 0 || start + pat.len() > s.len() {
        None
    } else if occurs_at(s, pat, start) {
        Some(start)
    } else if start >= s.len() {
        None
    } else {
        index_of_from(s, pat, start + 1)
    }
}

/// The first index at which `pat` occurs in `s`.
pub open spec fn index_of(s: Seq<char>, pat: Seq<char>) -> Option<int> {
    index_of_from(s, pat, 0)
}

/// The last index `< end` at which `pat` occurs in `s`.
pub open spec fn last_index_before(s: Seq<char>, pat: Seq<char>, end: int) -> Option<int>
    decreases end,
{
    if end <= 0 {
        None
    } else if occurs_at(s, pat, end - 1) {
        Some(end - 1)
    } else {
        last_index_before(s, pat, end - 1)
    }
}

/// The last index at which `pat` occurs in `s`.
pub open spec fn last_index_of(s: Seq<char>, pat: Seq<char>) -> Option<int> {
    last_index_before(s, pat, s.len() + 1 as int)
}

/// The number of bytes of the UTF-8 encoding of `s`.
pub open spec fn byte_len(s: Seq<char>) -> int {
    encode_utf8(s).len() as int
}

/// The byte offset of character position `i` in `s`.
pub open spec fn byte_offset(s: Seq<char>, i: int) -> int {
    byte_len(s.take(i))
}

/// `str::find`: the byte offset of the first occurrence of `pat`.
pub open spec fn find_bytes(s: Seq<char>, pat: Seq<char>) -> Option<int> {
    match index_of(s, pat) {
        Some(i) => Some(byte_offset(s, i)),
        None => None,
    }
}

/// `str::rfind`: the byte offset of the last occurrence of `pat`.
pub open spec fn rfind_bytes(s: Seq<char>, pat: Seq<char>) -> Option<int> {
    match last_index_of(s, pat) {
        Some(i) => Some(byte_offset(s, i)),
        None => None,
    }
}

/// What `Substring::substring(start, end)` of the `substring` crate gives:
/// the characters from index `start` up to index `end`, both clamped to the
/// length, and nothing when `end <= start`.
pub open spec fn spec_substring(s: Seq<char>, start: int, end: int) -> Seq<char> {
    if end <= start {
        Seq::empty()
    } else {
        let lo = if start < s.len() { start } else { s.len() as int };
        let hi = if end < s.len() { end } else { s.len() as int };
        s.subrange(lo, hi)
    }
}

/// `s` begins with `prefix`.
pub open spec fn has_prefix(s: Seq<char>, prefix: Seq<char>) -> bool {
    prefix.len() <= s.len() && s.take(prefix.len() as int) == prefix
}

/// `s` ends with `suffix`.
pub open spec fn has_suffix(s: Seq<char>, suffix: Seq<char>) -> bool {
    suffix.len() <= s.len() && s.skip(s.len() - suffix.len()) == suffix
}

/// The pieces of `s` from character `start` on, cut at each occurrence of
/// `pat` (left to right, non-overlapping), as `str::split` does.
pub open spec fn split_from(s: Seq<char>, pat: Seq<char>, start: int) -> Seq<Seq<char>>
    decreases s.len() - start,
{
    if pat.len() == 0 || start < 0 || start > s.len() {
        seq![s.subrange(start, s.len() as int)]
    } else {
        match index_of_from(s, pat, start) {
            None => seq![s.subrange(start, s.len() as int)],
            Some(i) => {
                proof {
                    lemma_index_of_from_bounds(s, pat, start);
                }
                seq![s.subrange(start, i)] + split_from(s, pat, i + pat.len())
            },
        }
    }
}

/// `str::split` with a non-empty pattern.
pub open spec fn split_by(s: Seq<char>, pat: Seq<char>) -> Seq<Seq<char>> {
    split_from(s, pat, 0)
}

/// The pieces joined, with `sep` between consecutive pieces (`join`).
pub open spec fn join_with(pieces: Seq<Seq<char>>, sep: Seq<char>) -> Seq<char>
    decreases pieces.len(),
{
    if pieces.len() == 0 {
        Seq::empty()
    } else if pieces.len() == 1 {
        pieces[0]
    } else {
        join_with(pieces.drop_last(), sep) + sep + pieces.last()
    }
}

/// The views of a vector of strings.
pub open spec fn views(v: Seq<String>) -> Seq<Seq<char>> {
    v.map_values(|x: String| x@)
}

// ---------------------------------------------------------------------------
// Lemmas
// ---------------------------------------------------------------------------

pub proof fn lemma_index_of_from_bounds(s: Seq<char>, pat: Seq<char>, start: int)
    requires
        start >= 0,
    ensures
        index_of_from(s, pat, start) matches Some(i) ==> start <= i && occurs_at(s, pat, i)
            && forall|j: int| start <= j < i ==> !occurs_at(s, pat, j),
        index_of_from(s, pat, start) is None ==> forall|j: int|
            start <= j ==> !#[trigger] occurs_at(s, pat, j),
    decreases s.len() - start,
{
    if start + pat.len() > s.len() {
        assert forall|j: int| start <= j implies !#[trigger] occurs_at(s, pat, j) by {}
    } else if occurs_at(s, pat, start) {
    } else if start >= s.len() {
        assert forall|j: int| start <= j implies !#[trigger] occurs_at(s, pat, j) by {}
    } else {
        lemma_index_of_from_bounds(s, pat, start + 1);
    }
}

pub proof fn lemma_last_index_before_bounds(s: Seq<char>, pat: Seq<char>, end: int)
    ensures
        last_index_before(s, pat, end) matches Some(i) ==> i < end && occurs_at(s, pat, i)
            && forall|j: int| i < j < end ==> !occurs_at(s, pat, j),
        last_index_before(s, pat, end) is None ==> forall|j: int|
            j < end ==> !#[trigger] occurs_at(s, pat, j),
    decreases end,
{
    if end <= 0 {
    } else if occurs_at(s, pat, end - 1) {
    } else {
        lemma_last_index_before_bounds(s, pat, end - 1);
    }
}

pub proof fn lemma_encode_utf8_concat(a: Seq<char>, b: Seq<char>)
    ensures
        encode_utf8(a + b) == encode_utf8(a) + encode_utf8(b),
    decreases a.len(),
{
    if a.len() == 0 {
        assert(a + b =~= b);
        assert(encode_utf8(a) =~= Seq::<u8>::empty());
        assert(Seq::<u8>::empty() + encode_utf8(b) =~= encode_utf8(b));
    } else {
        lemma_encode_utf8_concat(a.drop_first(), b);
        assert((a + b).drop_first() =~= a.drop_first() + b);
        assert((a + b)[0] == a[0]);
        assert(encode_utf8(a) == encode_scalar(a[0] as u32) + encode_utf8(a.drop_first()));
        assert(encode_utf8(a + b) == encode_scalar(a[0] as u32) + encode_utf8(a.drop_first() + b));
        assert(encode_scalar(a[0] as u32) + (encode_utf8(a.drop_first()) + encode_utf8(b))
            =~= (encode_scalar(a[0] as u32) + encode_utf8(a.drop_first())) + encode_utf8(b));
    }
}

/// The UTF-8 width of one character.
pub open spec fn char_width(c: char) -> int {
    encode_scalar(c as u32).len() as int
}

pub proof fn lemma_byte_offset_step(s: Seq<char>, i: int)
    requires
        0 <= i < s.len(),
    ensures
        byte_offset(s, i + 1) == byte_offset(s, i) + char_width(s[i]),
        1 <= char_width(s[i]) <= 4,
{
    assert(s.take(i + 1) =~= s.take(i) + seq![s[i]]);
    lemma_encode_utf8_concat(s.take(i), seq![s[i]]);
    assert(seq![s[i]].drop_first() =~= Seq::<char>::empty());
    assert(encode_utf8(seq![s[i]]) =~= encode_scalar(s[i] as u32) + encode_utf8(Seq::<char>::empty()));
}

pub proof fn lemma_byte_offset_mono(s: Seq<char>, i: int, j: int)
    requires
        0 <= i <= j <= s.len(),
    ensures
        byte_offset(s, i) + (j - i) <= byte_offset(s, j),
    decreases j - i,
{
    if i < j {
        lemma_byte_offset_mono(s, i, j - 1);
        lemma_byte_offset_step(s, j - 1);
    }
}

pub proof fn lemma_byte_offset_full(s: Seq<char>)
    ensures
        byte_offset(s, s.len() as int) == byte_len(s),
        s.len() <= byte_len(s),
{
    assert(s.take(s.len() as int) =~= s);
    lemma_byte_offset_mono(s, 0, s.len() as int);
}

/// A byte offset found by `str::find` lies before the end of the string, at
/// least a pattern's length before it.
pub proof fn lemma_find_in_bounds(s: Seq<char>, pat: Seq<char>)
    ensures
        find_bytes(s, pat) matches Some(b) ==> 0 <= b && b + pat.len() <= byte_len(s),
{
    lemma_index_of_from_bounds(s, pat, 0);
    if let Some(i) = index_of(s, pat) {
        lemma_byte_offset_mono(s, 0, i);
        lemma_byte_offset_mono(s, i, s.len() as int);
        lemma_byte_offset_full(s);
        assert(s.take(0) =~= Seq::<char>::empty());
    }
}

/// A byte offset found by `str::rfind` lies before the end of the string,
/// at least a pattern's length before it.
pub proof fn lemma_rfind_in_bounds(s: Seq<char>, pat: Seq<char>)
    ensures
        rfind_bytes(s, pat) matches Some(b) ==> 0 <= b && b + pat.len() <= byte_len(s),
{
    lemma_last_index_before_bounds(s, pat, s.len() + 1 as int);
    if let Some(i) = last_index_of(s, pat) {
        assert(occurs_at(s, pat, i));
        lemma_byte_offset_mono(s, 0, i);
        lemma_byte_offset_mono(s, i, s.len() as int);
        lemma_byte_offset_full(s);
        assert(s.take(0) =~= Seq::<char>::empty());
    }
}

// ---------------------------------------------------------------------------
// Trusted items
// ---------------------------------------------------------------------------

/// `Substring::substring` of the `substring` crate.  The crate's source walks
/// `char_indices`, returns `""` when `end <= start`, and otherwise slices from
/// the `start`-th to the `end`-th character, each clamped to the end of the
/// string; the contract states exactly that over the character sequence.
#[verifier::external_body]
pub(crate) fn substring(s: &str, start: usize, end: usize) -> (res: String)
    ensures
        res@ == spec_substring(s@, start as int, end as int),
{
    s.substring(start, end).to_string()
}

/// `str::len`: the number of bytes of the string's UTF-8 encoding, which the
/// standard library documents as the string's length; a string is held in
/// one allocation, which Rust documents to be at most `isize::MAX` bytes.
#[verifier::external_body]
pub(crate) fn str_len(s: &str) -> (n: usize)
    ensures
        n as int == byte_len(s@),
        n <= isize::MAX,
{
    s.len()
}

/// `String::push`: appends one character.
#[verifier::external_body]
pub(crate) fn push_char(s: &mut String, c: char)
    ensures
        final(s)@ == old(s)@.push(c),
{
    s.push(c);
}

// ---------------------------------------------------------------------------
// Executable helpers
// ---------------------------------------------------------------------------

/// The characters of a string, in order.
pub fn chars_of(s: &str) -> (res: Vec<char>)
    ensures
        res@ == s@,
{
    let mut res: Vec<char> = Vec::new();
    for c in it: s.chars()
        invariant
            res@ == it.seq().take(it.index() as int),
            it.seq() == s@,
    {
        res.push(c);
    }
    res
}

/// The string made of `chars[lo..hi]`.
pub fn string_of(chars: &Vec<char>, lo: usize, hi: usize) -> (res: String)
    requires
        lo <= hi <= chars.len(),
    ensures
        res@ == chars@.subrange(lo as int, hi as int),
{
    let mut res = String::new();
    let mut i = lo;
    while i < hi
        invariant
            lo <= i <= hi <= chars.len(),
            res@ == chars@.subrange(lo as int, i as int),
        decreases hi - i,
    {
        push_char(&mut res, chars[i]);
        assert(chars@.subrange(lo as int, i + 1) =~= chars@.subrange(lo as int, i as int).push(chars@[i as int]));
        i += 1;
    }
    res
}

/// An owned copy of a string slice.
pub fn to_owned(s: &str) -> (res: String)
    ensures
        res@ == s@,
{
    let c = chars_of(s);
    string_of(&c, 0, c.len())
}

/// The concatenation of two strings.
pub fn concat(a: &str, b: &str) -> (res: String)
    ensures
        res@ == a@ + b@,
{
    let mut res = to_owned(a);
    res.append(b);
    res
}

/// Whether `pat` occurs in `s` at character index `i`.
pub fn occurs_at_exec(s: &Vec<char>, pat: &Vec<char>, i: usize) -> (res: bool)
    ensures
        res == occurs_at(s@, pat@, i as int),
{
    if i > s.len() || pat.len() > s.len() - i {
        return false;
    }
    let mut k: usize = 0;
    while k < pat.len()
        invariant
            i + pat.len() <= s.len(),
            k <= pat.len(),
            forall|m: int| 0 <= m < k ==> s@[i + m] == pat@[m],
        decreases pat.len() - k,
    {
        if s[i + k] != pat[k] {
            assert(s@.subrange(i as int, i + pat.len())[k as int] != pat@[k as int]);
            return false;
        }
        k += 1;
    }
    assert(s@.subrange(i as int, i + pat.len()) =~= pat@);
    true
}

/// The first character index `>= start` at which `pat` occurs.
pub fn index_of_from_exec(s: &Vec<char>, pat: &Vec<char>, start: usize) -> (res: Option<usize>)
    ensures
        res matches Some(i) ==> index_of_from(s@, pat@, start as int) == Some(i as int),
        res is None ==> index_of_from(s@, pat@, start as int) is None,
{
    let mut i = start;
    if start > s.len() {
        return None;
    }
    while pat.len() <= s.len() - i
        invariant
            start <= i <= s.len(),
            index_of_from(s@, pat@, start as int) == index_of_from(s@, pat@, i as int),
        decreases s.len() + 1 - i,
    {
        if occurs_at_exec(s, pat, i) {
            return Some(i);
        }
        if i == s.len() {
            return None;
        }
        i += 1;
    }
    None
}

/// The last character index at which `pat` occurs.
pub fn last_index_of_exec(s: &Vec<char>, pat: &Vec<char>) -> (res: Option<usize>)
    ensures
        res matches Some(i) ==> last_index_of(s@, pat@) == Some(i as int),
        res is None ==> last_index_of(s@, pat@) is None,
{
    let mut end = s.len();
    // last_index_before(s, pat, len + 1) first looks at position len
    if occurs_at_exec(s, pat, end) {
        return Some(end);
    }
    assert(last_index_of(s@, pat@) == last_index_before(s@, pat@, s@.len() as int));
    while end > 0
        invariant
            end <= s.len(),
            last_index_of(s@, pat@) == last_index_before(s@, pat@, end as int),
        decreases end,
    {
        if occurs_at_exec(s, pat, end - 1) {
            return Some(end - 1);
        }
        end -= 1;
    }
    None
}

/// The byte offset of character position `i`.
pub fn byte_offset_exec(s: &Vec<char>, i: usize, total: usize) -> (res: usize)
    requires
        i <= s.len(),
        total as int == byte_len(s@),
    ensures
        res as int == byte_offset(s@, i as int),
{
    let mut k: usize = 0;
    let mut off: usize = 0;
    proof {
        assert(s@.take(0) =~= Seq::<char>::empty());
        lemma_byte_offset_full(s@);
    }
    while k < i
        invariant
            k <= i <= s.len(),
            off as int == byte_offset(s@, k as int),
            total as int == byte_len(s@),
            byte_offset(s@, s@.len() as int) == byte_len(s@),
        decreases i - k,
    {
        proof {
            lemma_byte_offset_step(s@, k as int);
            lemma_byte_offset_mono(s@, k + 1, s@.len() as int);
        }
        let c = s[k] as u32;
        let w: usize = if c <= 0x7F { 1 } else if c <= 0x7FF { 2 } else if c <= 0xFFFF { 3 } else { 4 };
        proof {
            char_is_scalar(s@[k as int]);
        }
        assert(w == char_width(s@[k as int]));
        off = off + w;
        k += 1;
    }
    off
}

/// `str::find`: the byte offset of the first occurrence of `pat` in `s`.
pub fn find(s: &str, pat: &str) -> (res: Option<usize>)
    ensures
        res matches Some(b) ==> find_bytes(s@, pat@) == Some(b as int),
        res is None ==> find_bytes(s@, pat@) is None,
{
    let cs = chars_of(s);
    let ps = chars_of(pat);
    let total = str_len(s);
    match index_of_from_exec(&cs, &ps, 0) {
        Some(i) => {
            proof { lemma_index_of_from_bounds(s@, pat@, 0); }
            Some(byte_offset_exec(&cs, i, total))
        },
        None => None,
    }
}

/// `str::rfind`: the byte offset of the last occurrence of `pat` in `s`.
pub fn rfind(s: &str, pat: &str) -> (res: Option<usize>)
    ensures
        res matches Some(b) ==> rfind_bytes(s@, pat@) == Some(b as int),
        res is None ==> rfind_bytes(s@, pat@) is None,
{
    let cs = chars_of(s);
    let ps = chars_of(pat);
    let total = str_len(s);
    match last_index_of_exec(&cs, &ps) {
        Some(i) => {
            proof { lemma_last_index_before_bounds(s@, pat@, s@.len() + 1 as int); }
            Some(byte_offset_exec(&cs, i, total))
        },
        None => None,
    }
}

/// `str::starts_with`.
pub fn starts_with(s: &str, prefix: &str) -> (res: bool)
    ensures
        res == has_prefix(s@, prefix@),
{
    let cs = chars_of(s);
    let ps = chars_of(prefix);
    let r = occurs_at_exec(&cs, &ps, 0);
    proof {
        if r {
            assert(s@.take(prefix@.len() as int) =~= s@.subrange(0, prefix@.len() as int));
        } else if prefix@.len() <= s@.len() {
            assert(s@.take(prefix@.len() as int) =~= s@.subrange(0, prefix@.len() as int));
        }
    }
    r
}

/// `str::ends_with`.
pub fn ends_with(s: &str, suffix: &str) -> (res: bool)
    ensures
        res == has_suffix(s@, suffix@),
{
    let cs = chars_of(s);
    let ps = chars_of(suffix);
    if ps.len() > cs.len() {
        return false;
    }
    let r = occurs_at_exec(&cs, &ps, cs.len() - ps.len());
    proof {
        assert(s@.skip(s@.len() - suffix@.len()) =~= s@.subrange(s@.len() - suffix@.len(), s@.len() as int));
    }
    r
}

/// String equality on the character sequences.
pub fn str_eq(a: &str, b: &str) -> (res: bool)
    ensures
        res == (a@ == b@),
{
    let x = chars_of(a);
    let y = chars_of(b);
    if x.len() != y.len() {
        return false;
    }
    let r = occurs_at_exec(&x, &y, 0);
    proof {
        if r {
            assert(a@ =~= a@.subrange(0, b@.len() as int));
        } else {
            if a@ == b@ {
                assert(a@.subrange(0, b@.len() as int) =~= a@);
            }
        }
    }
    r
}

/// `str::split` with a non-empty pattern: the pieces between occurrences.
pub fn split(s: &str, pat: &str) -> (res: Vec<String>)
    requires
        pat@.len() > 0,
    ensures
        views(res@) == split_by(s@, pat@),
{
    let cs = chars_of(s);
    let ps = chars_of(pat);
    let mut res: Vec<String> = Vec::new();
    let mut start: usize = 0;
    loop
        invariant
            ps@ == pat@,
            cs@ == s@,
            ps@.len() > 0,
            start <= cs.len(),
            split_by(s@, pat@) == views(res@) + split_from(s@, pat@, start as int),
        decreases cs.len() - start,
    {
        proof { lemma_index_of_from_bounds(s@, pat@, start as int); }
        match index_of_from_exec(&cs, &ps, start) {
            None => {
                let piece = string_of(&cs, start, cs.len());
                let ghost old_res = res@;
                res.push(piece);
                proof {
                    assert(views(res@) =~= views(old_res).push(piece@));
                    assert(split_from(s@, pat@, start as int) == seq![s@.subrange(start as int, s@.len() as int)]);
                    assert(views(res@) =~= views(old_res) + split_from(s@, pat@, start as int));
                }
                return res;
            },
            Some(i) => {
                let piece = string_of(&cs, start, i);
                let ghost old_res = res@;
                res.push(piece);
                proof {
                    assert(views(res@) =~= views(old_res).push(piece@));
                    let rest = split_from(s@, pat@, i + pat@.len());
                    assert(split_from(s@, pat@, start as int) == seq![s@.subrange(start as int, i as int)] + rest);
                    assert(views(old_res) + (seq![piece@] + rest) =~= views(old_res).push(piece@) + rest);
                }
                start = i + ps.len();
            },
        }
    }
}


/// The pieces joined with `sep` between them (`join`).
pub fn join(pieces: &Vec<String>, sep: &str) -> (res: String)
    ensures
        res@ == join_with(views(pieces@), sep@),
{
    let mut res = String::new();
    let mut i: usize = 0;
    while i < pieces.len()
        invariant
            i <= pieces.len(),
            res@ == join_with(views(pieces@).take(i as int), sep@),
        decreases pieces.len() - i,
    {
        let ghost t = views(pieces@).take(i + 1);
        proof {
            assert(t.drop_last() =~= views(pieces@).take(i as int));
            assert(t.last() == pieces@[i as int]@);
        }
        if i > 0 {
            res.append(sep);
        }
        res.append(pieces[i].as_str());
        proof {
            if i == 0 {
                assert(res@ =~= t[0]);
            } else {
                assert(res@ =~= join_with(t.drop_last(), sep@) + sep@ + t.last());
            }
        }
        i += 1;
    }
    proof {
        assert(views(pieces@).take(pieces@.len() as int) =~= views(pieces@));
    }
    res
}

proof fn lemma_occurs_shift(p: Seq<char>, r: Seq<char>, pat: Seq<char>, j: int)
    requires
        j >= 0,
    ensures
        occurs_at(p + r, pat, p.len() + j) == occurs_at(r, pat, j),
{
    if occurs_at(r, pat, j) {
        assert((p + r).subrange(p.len() + j, p.len() + j + pat.len()) =~= r.subrange(j, j + pat.len()));
    }
    if occurs_at(p + r, pat, p.len() + j) {
        assert((p + r).subrange(p.len() + j, p.len() + j + pat.len()) =~= r.subrange(j, j + pat.len()));
    }
}

proof fn lemma_index_shift(p: Seq<char>, r: Seq<char>, pat: Seq<char>, j: int)
    requires
        0 <= j,
        pat.len() > 0,
    ensures
        index_of_from(p + r, pat, p.len() + j) == (match index_of_from(r, pat, j) {
            Some(i) => Some(p.len() + i),
            None => None::<int>,
        }),
    decreases r.len() - j,
{
    lemma_occurs_shift(p, r, pat, j);
    if p.len() + j + pat.len() > (p + r).len() {
    } else if occurs_at(r, pat, j) {
    } else if p.len() + j >= (p + r).len() {
    } else {
        lemma_index_shift(p, r, pat, j + 1);
    }
}

proof fn lemma_split_shift(p: Seq<char>, r: Seq<char>, pat: Seq<char>, j: int)
    requires
        0 <= j <= r.len(),
        pat.len() > 0,
    ensures
        split_from(p + r, pat, p.len() + j) == split_from(r, pat, j),
    decreases r.len() - j,
{
    lemma_index_shift(p, r, pat, j);
    lemma_index_of_from_bounds(r, pat, j);
    match index_of_from(r, pat, j) {
        None => {
            assert((p + r).subrange(p.len() + j, (p + r).len() as int) =~= r.subrange(j, r.len() as int));
        },
        Some(i) => {
            assert((p + r).subrange(p.len() + j, p.len() + i) =~= r.subrange(j, i));
            lemma_split_shift(p, r, pat, i + pat.len());
        },
    }
}

/// Text without the character `c`.
pub open spec fn lacks_char(s: Seq<char>, c: char) -> bool {
    forall|i: int| 0 <= i < s.len() ==> #[trigger] s[i] != c
}

proof fn lemma_split_piece(a: Seq<char>, b: Seq<char>, c: char)
    requires
        lacks_char(a, c),
    ensures
        split_by(a + seq![c] + b, seq![c]) == seq![a] + split_by(b, seq![c]),
        split_by(a, seq![c]) == seq![a],
{
    let pat = seq![c];
    let s = a + pat + b;
    assert forall|j: int| 0 <= j < a.len() implies !occurs_at(s, pat, j) by {
        assert(s[j] == a[j]);
        if occurs_at(s, pat, j) {
            assert(s.subrange(j, j + 1)[0] == s[j]);
        }
    }
    assert(occurs_at(s, pat, a.len() as int)) by {
        assert(s.subrange(a.len() as int, a.len() + 1 as int) =~= pat);
    }
    lemma_first_occurrence(s, pat, a.len() as int);
    assert(s.subrange(0, a.len() as int) =~= a);
    assert(s =~= (a + pat) + b);
    lemma_split_shift(a + pat, b, pat, 0);
    lemma_index_of_from_bounds(a, pat, 0);
    assert forall|j: int| 0 <= j implies !occurs_at(a, pat, j) by {
        if occurs_at(a, pat, j) {
            assert(a.subrange(j, j + 1)[0] == a[j]);
        }
    }
    if index_of_from(a, pat, 0) is Some {
        let i = index_of_from(a, pat, 0)->0;
        assert(occurs_at(a, pat, i));
    }
    assert(a.subrange(0, a.len() as int) =~= a);
}

proof fn lemma_first_occurrence(s: Seq<char>, pat: Seq<char>, k: int)
    requires
        0 <= k,
        occurs_at(s, pat, k),
        forall|j: int| 0 <= j < k ==> !occurs_at(s, pat, j),
    ensures
        index_of_from(s, pat, 0) == Some(k),
{
    lemma_index_of_from_bounds(s, pat, 0);
    match index_of_from(s, pat, 0) {
        Some(i) => {
            if i < k {
                assert(!occurs_at(s, pat, i));
            }
        },
        None => {
            assert(!occurs_at(s, pat, k));
        },
    }
}

proof fn lemma_join_front(ls: Seq<Seq<char>>, sep: Seq<char>)
    requires
        ls.len() >= 2,
    ensures
        join_with(ls, sep) == ls[0] + sep + join_with(ls.drop_first(), sep),
    decreases ls.len(),
{
    if ls.len() == 2 {
        assert(ls.drop_last().len() == 1);
        assert(ls.drop_first().len() == 1);
        assert(ls.drop_last()[0] == ls[0]);
        assert(join_with(ls.drop_last(), sep) == ls[0]);
        assert(ls.drop_first()[0] == ls.last());
        assert(join_with(ls.drop_first(), sep) == ls.last());
        assert(join_with(ls, sep) == join_with(ls.drop_last(), sep) + sep + ls.last());
    } else {
        lemma_join_front(ls.drop_last(), sep);
        assert(ls.drop_last()[0] == ls[0]);
        assert(ls.drop_last().drop_first() =~= ls.drop_first().drop_last());
        assert(ls.drop_first().last() == ls.last());
        let m = join_with(ls.drop_first().drop_last(), sep);
        assert(join_with(ls, sep) == join_with(ls.drop_last(), sep) + sep + ls.last());
        assert(join_with(ls.drop_last(), sep) == ls[0] + sep + m);
        assert(join_with(ls.drop_first(), sep) == m + sep + ls.last());
        assert(ls[0] + sep + m + sep + ls.last() =~= ls[0] + sep + (m + sep + ls.last()));
    }
}

/// Lines joined with line feeds are split back into the same lines,
/// provided there is at least one and none holds a line feed.
pub proof fn law_split_join(ls: Seq<Seq<char>>)
    requires
        ls.len() >= 1,
        forall|i: int| 0 <= i < ls.len() ==> lacks_char(#[trigger] ls[i], '\n'),
    ensures
        split_by(join_with(ls, seq!['\n']), seq!['\n']) == ls,
    decreases ls.len(),
{
    if ls.len() == 1 {
        lemma_split_piece(ls[0], Seq::empty(), '\n');
        assert(seq![ls[0]] =~= ls);
    } else {
        let rest = ls.drop_first();
        assert forall|i: int| 0 <= i < rest.len() implies lacks_char(#[trigger] rest[i], '\n') by {
            assert(rest[i] == ls[i + 1]);
        }
        law_split_join(rest);
        lemma_join_front(ls, seq!['\n']);
        lemma_split_piece(ls[0], join_with(rest, seq!['\n']), '\n');
        assert(seq![ls[0]] + rest =~= ls);
    }
}
} // verus!
