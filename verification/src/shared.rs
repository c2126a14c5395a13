//! What the tools share: the outcome of a command and the choice of an output
//! file name.

use vstd::prelude::*;
use crate::text::{byte_len, chars_of, find, find_bytes, lemma_find_in_bounds, lemma_rfind_in_bounds, push_char, rfind, rfind_bytes, spec_substring, str_len, string_of, substring, to_owned};

verus! {

/// The outcome of running a command: whether it succeeded, and its standard
/// output and standard error with one trailing line ending removed.
pub struct Outcome {
    pub status: bool,
    pub out: String,
    pub error: String,
}

/// `s` without one trailing `c`, if it ends with `c`.
pub open spec fn strip_last(s: Seq<char>, c: char) -> Seq<char> {
    if s.len() > 0 && s.last() == c {
        s.drop_last()
    } else {
        s
    }
}

/// The standard output as kept: one trailing `\n`, then one trailing `\r`, removed.
pub open spec fn trimmed_out(stdout: Seq<char>) -> Seq<char> {
    strip_last(strip_last(stdout, '\n'), '\r')
}

/// The standard error as kept.  A trailing `\n` is removed; a trailing `\r`
/// is removed when the kept standard output still ends with `\r`.
pub open spec fn trimmed_error(stdout: Seq<char>, stderr: Seq<char>) -> Seq<char> {
    let e = strip_last(stderr, '\n');
    if trimmed_out(stdout).len() > 0 && trimmed_out(stdout).last() == '\r' {
        e.drop_last()
    } else {
        e
    }
}

/// The trimming of the standard error can be done: when the kept standard
/// output still ends with `\r`, the standard error must end with `\r` too
/// (after its trailing `\n` is removed).
pub open spec fn error_trimmable(stdout: Seq<char>, stderr: Seq<char>) -> bool {
    (trimmed_out(stdout).len() > 0 && trimmed_out(stdout).last() == '\r') ==> {
        let e = strip_last(stderr, '\n');
        e.len() > 0 && e.last() == '\r'
    }
}

fn strip_last_exec(s: &str, c: char) -> (res: String)
    ensures
        res@ == strip_last(s@, c),
{
    let cs = chars_of(s);
    if cs.len() > 0 && cs[cs.len() - 1] == c {
        string_of(&cs, 0, cs.len() - 1)
    } else {
        string_of(&cs, 0, cs.len())
    }
}

fn ends_with_char(s: &str, c: char) -> (res: bool)
    ensures
        res == (s@.len() > 0 && s@.last() == c),
{
    let cs = chars_of(s);
    cs.len() > 0 && cs[cs.len() - 1] == c
}

/// Whether [`Outcome::from_output`] accepts this standard output and error.
pub fn can_trim(stdout: &str, stderr: &str) -> (res: bool)
    ensures
        res == error_trimmable(stdout@, stderr@),
{
    let out = strip_last_exec(&strip_last_exec(stdout, '\n'), '\r');
    if ends_with_char(&out, '\r') {
        let e = strip_last_exec(stderr, '\n');
        ends_with_char(&e, '\r')
    } else {
        true
    }
}

impl Outcome {
    /// The outcome of a finished command, from its exit status and its
    /// standard output and error decoded as text.
    pub fn from_output(status: bool, stdout: String, stderr: String) -> (res: Outcome)
        requires
            error_trimmable(stdout@, stderr@),
        ensures
            res.status == status,
            res.out@ == trimmed_out(stdout@),
            res.error@ == trimmed_error(stdout@, stderr@),
    {
        let out = strip_last_exec(&strip_last_exec(&stdout, '\n'), '\r');
        let e = strip_last_exec(&stderr, '\n');
        let error = if ends_with_char(&out, '\r') {
            let cs = chars_of(&e);
            string_of(&cs, 0, cs.len() - 1)
        } else {
            e
        };
        Outcome { status, out, error }
    }
}

/// What is known of the place an output file is asked for.
pub enum PathKind {
    /// Nothing is there; `parent_exists` tells whether the folder it would be
    /// in exists.
    Missing { parent_exists: bool },
    /// A directory is there.
    Directory,
    /// A file is there.
    File,
}

/// Where the output goes.
pub enum OutTarget {
    /// The given path itself is the output file.
    Itself,
    /// A file of this name inside the given directory.
    Within(String),
}

/// The name of a generated file: `prefix.` (when the prefix is not empty),
/// the time stamp, `.` and the extension.
pub open spec fn generated_name(prefix: Seq<char>, time_stamp: Seq<char>, extension: Seq<char>) -> Seq<char> {
    (if prefix.len() == 0 { Seq::empty() } else { prefix.push('.') }) + time_stamp + seq!['.']
        + extension
}

/// Whether an output can go to a place of this kind: the tools refuse a
/// missing path whose folder is missing, and an existing file.
pub open spec fn writable(kind: PathKind) -> bool {
    match kind {
        PathKind::Missing { parent_exists } => parent_exists,
        PathKind::Directory => true,
        PathKind::File => false,
    }
}

/// The file to write: a missing path is used as it is; in a directory, a
/// file named by [`generated_name`].
pub fn file_path(prefix: &str, time_stamp: &str, extension: &str, kind: PathKind) -> (res: OutTarget)
    requires
        writable(kind),
    ensures
        kind is Missing ==> res is Itself,
        kind is Directory ==> (res matches OutTarget::Within(name) && name@ == generated_name(
            prefix@,
            time_stamp@,
            extension@,
        )),
{
    match kind {
        PathKind::Directory => {
            let mut name = if prefix.is_empty() {
                String::new()
            } else {
                let mut p = to_owned(prefix);
                push_char(&mut p, '.');
                p
            };
            name.append(time_stamp);
            push_char(&mut name, '.');
            name.append(extension);
            proof {
                let pre = if prefix@.len() == 0 { Seq::<char>::empty() } else { prefix@.push('.') };
                assert(name@ =~= generated_name(prefix@, time_stamp@, extension@));
            }
            OutTarget::Within(name)
        },
        _ => OutTarget::Itself,
    }
}


/// Which `.` of an export's file name ends the name kept for an inspect
/// output: the last one (the pack tool) or the first one (the lfs tool).
#[derive(PartialEq, Eq, Structural, Clone, Copy)]
pub enum DotRule {
    Last,
    First,
}

/// Why no output file name can be made.
#[derive(PartialEq, Eq, Structural, Clone, Copy, Debug)]
pub enum NameError {
    /// The output path is an existing file.
    IsFile,
    /// The export's file name has no `.`.
    NoExtension,
}

/// The file name of an export's path: what follows the last `/`, or the
/// whole path when it has no folder part.
pub open spec fn file_name_of(sync_pack: Seq<char>) -> Seq<char> {
    match rfind_bytes(sync_pack, "/"@) {
        None => sync_pack,
        Some(s) => spec_substring(sync_pack, s + 1, byte_len(sync_pack)),
    }
}

/// The name kept of an export's path for an inspect output: its file name,
/// cut at the chosen `.`.
pub open spec fn export_stem(sync_pack: Seq<char>, dot: DotRule) -> Result<Seq<char>, NameError> {
    let file = file_name_of(sync_pack);
    let d = if dot == DotRule::Last { rfind_bytes(file, "."@) } else { find_bytes(file, "."@) };
    match d {
        None => Err(NameError::NoExtension),
        Some(e) => Ok(spec_substring(file, 0, e)),
    }
}

/// The file an inspect tool writes its output to: an existing file is
/// refused; in a directory, a file named after the export (see
/// [`export_stem`]) with the extension; any other path is used as it is.
pub fn define_file_name(sync_pack: &str, kind: PathKind, extension: &str, dot: DotRule) -> (res: Result<OutTarget, NameError>)
    ensures
        kind is File ==> res == Err::<OutTarget, NameError>(NameError::IsFile),
        kind is Missing ==> res is Ok && res->Ok_0 is Itself,
        kind is Directory ==> match export_stem(sync_pack@, dot) {
            Err(e) => res == Err::<OutTarget, NameError>(e),
            Ok(stem) => res matches Ok(OutTarget::Within(name)) && name@ == stem + "."@ + extension@,
        },
{
    proof {
        reveal_strlit("/");
        reveal_strlit(".");
    }
    match kind {
        PathKind::File => Err(NameError::IsFile),
        PathKind::Missing { .. } => Ok(OutTarget::Itself),
        PathKind::Directory => {
            let file = match rfind(sync_pack, "/") {
                None => to_owned(sync_pack),
                Some(s) => {
                    let n = str_len(sync_pack);
                    proof {
                        lemma_rfind_in_bounds(sync_pack@, "/"@);
                    }
                    substring(sync_pack, s + 1, n)
                },
            };
            let d = if dot == DotRule::Last { rfind(file.as_str(), ".") } else { find(file.as_str(), ".") };
            match d {
                None => Err(NameError::NoExtension),
                Some(e) => {
                    let mut name = substring(file.as_str(), 0, e);
                    push_char(&mut name, '.');
                    name.append(extension);
                    proof {
                        assert(name@ =~= spec_substring(file@, 0, e as int) + "."@ + extension@);
                    }
                    Ok(OutTarget::Within(name))
                },
            }
        },
    }
}
} // verus!
