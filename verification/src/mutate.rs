//! The locator-addressed line mutator: bounds-checked read, replace and
//! delete of one physical line, rejoining with `\n` and preserving whether
//! the original content ended with a trailing newline.
use vstd::prelude::*;
use crate::text::{
    chars_string, deep, join_chars, join_with, lines_of, split_lines, str_chars, subvec,
};

verus! {

/// Why a line-addressed mutation could not be applied.
#[derive(Clone, Copy, Debug, PartialEq, Eq, Structural)]
pub enum MutateFault {
    /// The line number was zero (line numbers are 1-indexed).
    BadIndex,
    /// The line number lies beyond the last line.
    OutOfRange,
}

/// The lines of `content` joined back with `\n`, with a trailing newline
/// iff the original content ended with one.
pub open spec fn rejoined(content: Seq<char>, ls: Seq<Seq<char>>) -> Seq<char> {
    join_with(ls, seq!['\n']) + (if content.len() > 0 && content.last() == '\n' {
        seq!['\n']
    } else {
        Seq::<char>::empty()
    })
}

/// `content` with line `n` (1-indexed) replaced by `nl`.
pub open spec fn line_replaced(content: Seq<char>, n: int, nl: Seq<char>) -> Seq<char> {
    rejoined(content, lines_of(content).update(n - 1, nl))
}

/// `content` with line `n` (1-indexed) removed. The trailing newline is
/// kept only if lines remain.
pub open spec fn line_removed(content: Seq<char>, n: int) -> Seq<char> {
    let ls = lines_of(content).remove(n - 1);
    join_with(ls, seq!['\n']) + (if content.len() > 0 && content.last() == '\n' && ls.len() > 0 {
        seq!['\n']
    } else {
        Seq::<char>::empty()
    })
}

/// Whether `n` addresses a line of `content`.
pub open spec fn line_in_range(content: Seq<char>, n: int) -> bool {
    1 <= n <= lines_of(content).len()
}

/// Splits content into its physical lines.
pub fn split_content(content: &str) -> (r: Vec<Vec<char>>)
    ensures
        deep(r@) == lines_of(content@),
{
    let cs = str_chars(content);
    split_lines(cs.as_slice())
}

/// Reads line `n` (1-indexed).
pub fn line_at(content: &str, n: usize) -> (r: Result<Vec<char>, MutateFault>)
    ensures
        r is Ok <==> line_in_range(content@, n as int),
        r matches Ok(l) ==> l@ == lines_of(content@)[n - 1],
        r matches Err(f) ==> f == (if n == 0 {
            MutateFault::BadIndex
        } else {
            MutateFault::OutOfRange
        }),
{
    let ls = split_content(content);
    if n == 0 {
        return Err(MutateFault::BadIndex);
    }
    if n - 1 >= ls.len() {
        return Err(MutateFault::OutOfRange);
    }
    let line = subvec(ls[n - 1].as_slice(), 0, ls[n - 1].len());
    proof {
        assert(line@ =~= lines_of(content@)[n - 1]);
    }
    Ok(line)
}

/// Replaces line `n` (1-indexed) by `nl`, preserving the trailing-newline
/// state of the content.
pub fn replace_line(content: &str, n: usize, nl: &[char]) -> (r: Result<String, MutateFault>)
    ensures
        r is Ok <==> line_in_range(content@, n as int),
        r matches Ok(s) ==> s@ == line_replaced(content@, n as int, nl@),
        r matches Err(f) ==> f == (if n == 0 {
            MutateFault::BadIndex
        } else {
            MutateFault::OutOfRange
        }),
{
    let cs = str_chars(content);
    let mut ls = split_lines(cs.as_slice());
    if n == 0 {
        return Err(MutateFault::BadIndex);
    }
    if n - 1 >= ls.len() {
        return Err(MutateFault::OutOfRange);
    }
    let repl = subvec(nl, 0, nl.len());
    proof {
        assert(repl@ =~= nl@);
    }
    ls.set(n - 1, repl);
    proof {
        assert(deep(ls@) =~= lines_of(content@).update(n - 1, nl@));
    }
    let sep: Vec<char> = vec!['\n'];
    proof {
        assert(sep@ =~= seq!['\n']);
    }
    let mut out = join_chars(&ls, sep.as_slice());
    let ends_nl = cs.len() > 0 && cs[cs.len() - 1] == '\n';
    if ends_nl {
        out.push('\n');
    }
    proof {
        assert(out@ =~= line_replaced(content@, n as int, nl@));
    }
    Ok(chars_string(out.as_slice()))
}

/// Removes line `n` (1-indexed); the trailing newline is kept only if
/// lines remain.
pub fn delete_line(content: &str, n: usize) -> (r: Result<String, MutateFault>)
    ensures
        r is Ok <==> line_in_range(content@, n as int),
        r matches Ok(s) ==> s@ == line_removed(content@, n as int),
        r matches Err(f) ==> f == (if n == 0 {
            MutateFault::BadIndex
        } else {
            MutateFault::OutOfRange
        }),
{
    let cs = str_chars(content);
    let mut ls = split_lines(cs.as_slice());
    if n == 0 {
        return Err(MutateFault::BadIndex);
    }
    if n - 1 >= ls.len() {
        return Err(MutateFault::OutOfRange);
    }
    ls.remove(n - 1);
    proof {
        assert(deep(ls@) =~= lines_of(content@).remove(n - 1));
    }
    let sep: Vec<char> = vec!['\n'];
    proof {
        assert(sep@ =~= seq!['\n']);
    }
    let mut out = join_chars(&ls, sep.as_slice());
    let ends_nl = cs.len() > 0 && cs[cs.len() - 1] == '\n';
    if ends_nl && ls.len() > 0 {
        out.push('\n');
    }
    proof {
        assert(out@ =~= line_removed(content@, n as int));
    }
    Ok(chars_string(out.as_slice()))
}

} // verus!
