use vstd::prelude::*;
use vstd::string::{StrSliceExecFns, StringExecFns};

use crate::text::chars_of;

verus! {

/// `s` with every non-overlapping occurrence of `pat`, from left to right,
/// replaced by `rep`.
pub open spec fn replace_all(s: Seq<char>, pat: Seq<char>, rep: Seq<char>) -> Seq<char>
    decreases s.len(),
{
    if s.len() == 0 {
        s
    } else if 0 < pat.len() <= s.len() && s.subrange(0, pat.len() as int) == pat {
        rep + replace_all(s.subrange(pat.len() as int, s.len() as int), pat, rep)
    } else {
        seq![s[0]] + replace_all(s.subrange(1, s.len() as int), pat, rep)
    }
}

/// `s` without `pat` in front, where it starts with it.
pub open spec fn strip_prefix(s: Seq<char>, pat: Seq<char>) -> Seq<char> {
    if pat.len() <= s.len() && s.subrange(0, pat.len() as int) == pat {
        s.subrange(pat.len() as int, s.len() as int)
    } else {
        s
    }
}

/// The file that a report's URI names, under the source root `root`: the
/// `file://` scheme taken off, each `%20` read as a space, and the result
/// joined to `root` with one `/`.
pub open spec fn resolved_path(uri: Seq<char>, root: Seq<char>) -> Seq<char> {
    let decoded = replace_all(strip_prefix(uri, "file://"@), "%20"@, " "@);
    let relative = strip_prefix(decoded, "/"@);
    root + "/"@ + relative
}

/// Whether `pat` occurs in `c` at position `i`.
fn occurs_at(c: &Vec<char>, i: usize, pat: &Vec<char>) -> (r: bool)
    requires
        i <= c@.len(),
    ensures
        r == (pat@.len() <= c@.len() - i && c@.subrange(i as int, i + pat@.len()) == pat@),
{
    let n = c.len();
    if pat.len() > n - i {
        return false;
    }
    let mut j: usize = 0;
    while j < pat.len()
        invariant
            n == c@.len(),
            pat@.len() <= c@.len() - i,
            j <= pat@.len(),
            c@.subrange(i as int, i + j) == pat@.subrange(0, j as int),
        decreases pat@.len() - j,
    {
        if c[i + j] != pat[j] {
            assert(c@.subrange(i as int, i + pat@.len())[j as int] != pat@[j as int]);
            return false;
        }
        assert(c@.subrange(i as int, i + j + 1) =~= c@.subrange(i as int, i + j).push(c@[i + j]));
        assert(pat@.subrange(0, j + 1) =~= pat@.subrange(0, j as int).push(pat@[j as int]));
        j = j + 1;
    }
    assert(pat@.subrange(0, j as int) =~= pat@);
    true
}

/// `s` with every occurrence of `pat` replaced by `rep`.
pub fn replace_all_str(s: &str, pat: &str, rep: &str) -> (r: String)
    requires
        pat@.len() > 0,
    ensures
        r@ == replace_all(s@, pat@, rep@),
{
    let c = chars_of(s);
    let p = chars_of(pat);
    let mut out = String::new();
    let mut i: usize = 0;
    assert(c@.subrange(0, c@.len() as int) =~= c@);
    assert(out@ + replace_all(c@, pat@, rep@) =~= replace_all(c@, pat@, rep@));
    while i < c.len()
        invariant
            c@ == s@,
            p@ == pat@,
            p@.len() > 0,
            i <= c@.len(),
            out@ + replace_all(c@.subrange(i as int, c@.len() as int), pat@, rep@) == replace_all(
                s@,
                pat@,
                rep@,
            ),
        decreases c@.len() - i,
    {
        let ghost rest = c@.subrange(i as int, c@.len() as int);
        if occurs_at(&c, i, &p) {
            assert(rest.subrange(0, p@.len() as int) =~= c@.subrange(i as int, i + p@.len()));
            assert(rest.subrange(p@.len() as int, rest.len() as int) =~= c@.subrange(
                i + p@.len(),
                c@.len() as int,
            ));
            out.append(rep);
            i = i + p.len();
        } else {
            assert(rest.len() >= p@.len() ==> rest.subrange(0, p@.len() as int) =~= c@.subrange(
                i as int,
                i + p@.len(),
            ));
            assert(rest.subrange(1, rest.len() as int) =~= c@.subrange(i + 1, c@.len() as int));
            let one = s.substring_char(i, i + 1);
            assert(one@ =~= seq![rest[0]]);
            out.append(one);
            i = i + 1;
        }
    }
    assert(c@.subrange(i as int, c@.len() as int) =~= Seq::<char>::empty());
    out
}

/// `s` without `pat` in front, where it starts with it.
pub fn strip_prefix_str(s: &str, pat: &str) -> (r: String)
    ensures
        r@ == strip_prefix(s@, pat@),
{
    let c = chars_of(s);
    let p = chars_of(pat);
    if occurs_at(&c, 0, &p) {
        s.substring_char(p.len(), c.len()).to_owned()
    } else {
        s.to_owned()
    }
}

/// The path of the file that `uri` names, under the source root `source_dir`.
pub fn resolve_path(uri: &str, source_dir: &str) -> (r: String)
    ensures
        r@ == resolved_path(uri@, source_dir@),
{
    proof {
        reveal_strlit("%20");
    }
    let without_scheme = strip_prefix_str(uri, "file://");
    let decoded = replace_all_str(without_scheme.as_str(), "%20", " ");
    let relative = strip_prefix_str(decoded.as_str(), "/");
    let mut out = source_dir.to_owned();
    out.append("/");
    out.append(relative.as_str());
    out
}

/// One diagnostic, at a one-based line and column of a file.
#[derive(Debug)]
pub struct Alert {
    pub file: String,
    pub line: usize,
    pub column: usize,
    pub message: String,
}

impl Alert {
    /// The alert for a report location; a missing column is taken as 1.
    pub fn new(uri: &str, source_dir: &str, line: usize, column: Option<usize>, message: &str) -> (r:
        Alert)
        ensures
            r.file@ == resolved_path(uri@, source_dir@),
            r.line == line,
            r.column == match column {
                Some(c) => c,
                None => 1,
            },
            r.message@ == message@,
    {
        let column = match column {
            Some(c) => c,
            None => 1,
        };
        Alert { file: resolve_path(uri, source_dir), line, column, message: message.to_owned() }
    }

    /// The zero-based (line, column) the alert points at; `None` where the
    /// line or the column is 0 and so names no position.
    pub fn position(&self) -> (r: Option<(usize, usize)>)
        ensures
            r == if self.line >= 1 && self.column >= 1 {
                Some(((self.line - 1) as usize, (self.column - 1) as usize))
            } else {
                None
            },
    {
        if self.line >= 1 && self.column >= 1 {
            Some((self.line - 1, self.column - 1))
        } else {
            None
        }
    }
}

} // verus!
