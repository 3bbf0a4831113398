//! Reading annotated assembly text.

use vstd::prelude::*;
use crate::ast::{formulas, lines_of, Formula, Line, Module, SpecModule};
use crate::parse::instr::{cont, stmt};
use crate::parse::logic::{annotated, formula_line};
use crate::parse::token::{agrees_at, agrees_view, at, blanks, ident};

pub mod grammar;
pub mod instr;
pub mod logic;
pub mod token;

verus! {

/// The characters of a text.
pub fn chars_of(text: &str) -> (r: Vec<char>)
    ensures
        r@ == text@,
{
    let mut v: Vec<char> = Vec::new();
    for c in it: text.chars()
        invariant
            v@ == it.seq().take(it.index() as int),
            it.seq() == text@,
    {
        v.push(c);
        assert(v@ =~= it.seq().take(it.index() + 1));
    }
    assert(v@ =~= text@);
    v
}

/// The end of one line.
pub fn line_break(s: &[char], i: usize) -> (r: Option<usize>)
    requires
        i <= s@.len(),
    ensures
        agrees_at(r, grammar::line_break(s@, i as int), i, s@.len()),
{
    let j = blanks(s, i);
    let mut k = j;
    if at(s, j, ';') && j + 1 < s.len() && s[j + 1] != '#' {
        k = j + 1;
        while k < s.len() && s[k] != '\n'
            invariant
                j < k <= s@.len(),
                grammar::line_end(s@, j + 1) == grammar::line_end(s@, k as int),
            decreases s@.len() - k,
        {
            k += 1;
        }
    }
    if at(s, k, '\n') {
        Some(blanks(s, k + 1))
    } else {
        None
    }
}

/// What separates two lines.
pub fn line_sep(s: &[char], i: usize) -> (r: Option<usize>)
    requires
        i <= s@.len(),
    ensures
        agrees_at(r, grammar::line_sep(s@, i as int), i, s@.len()),
{
    let first = match line_break(s, i) {
        Some(j) => j,
        None => {
            return None;
        },
    };
    let mut j = first;
    loop
        invariant
            i < j <= s@.len(),
            grammar::line_breaks(s@, first as int) == grammar::line_breaks(s@, j as int),
            grammar::line_break(s@, i as int) == Some(first as int),
        ensures
            grammar::line_breaks(s@, first as int) == j,
            i < j <= s@.len(),
        decreases s@.len() - j,
    {
        match line_break(s, j) {
            Some(k) => {
                j = k;
            },
            None => {
                break ;
            },
        }
    }
    Some(j)
}

/// A label.
pub fn label(s: &[char], i: usize) -> (r: Option<(String, usize)>)
    requires
        i <= s@.len(),
    ensures
        agrees_view(r, grammar::label(s@, i as int), i, s@.len()),
{
    match ident(s, i) {
        Some((l, j)) => {
            let k = blanks(s, j);
            if at(s, k, ':') {
                Some((l, k + 1))
            } else {
                None
            }
        },
        None => None,
    }
}

/// One line of a program.
pub fn line(s: &[char], i: usize) -> (r: Option<(Line, usize)>)
    requires
        i <= s@.len(),
    ensures
        agrees_view(r, grammar::line(s@, i as int), i, s@.len()),
{
    match label(s, i) {
        Some((l, j)) => Some((Line::Label(l), j)),
        None => match formula_line(s, i) {
            Some((f, j)) => Some((Line::Formula(f), j)),
            None => match stmt(s, i) {
                Some((x, j)) => Some((Line::Instr(x), j)),
                None => match cont(s, i) {
                    Some((x, j)) => Some((Line::Instr(x), j)),
                    None => None,
                },
            },
        },
    }
}

/// The formulas of the lines at `i` that start with `;#` and `word`.
pub fn clauses(s: &[char], i: usize, word: &str) -> (r: (Vec<Formula>, usize))
    requires
        i <= s@.len(),
    ensures
        grammar::clauses(s@, i as int, word@) == (formulas(r.0@), r.1 as int),
        i <= r.1 <= s@.len(),
{
    let mut found: Vec<Formula> = Vec::new();
    let mut j = i;
    assert(formulas(found@) =~= Seq::empty());
    loop
        invariant
            i <= j <= s@.len(),
            grammar::clauses(s@, i as int, word@) == (
                formulas(found@) + grammar::clauses(s@, j as int, word@).0,
                grammar::clauses(s@, j as int, word@).1,
            ),
        ensures
            grammar::clauses(s@, i as int, word@) == (formulas(found@), j as int),
            i <= j <= s@.len(),
        decreases s@.len() - j,
    {
        let ghost before = formulas(found@);
        match annotated(s, j, word) {
            Some((f, k)) => match line_sep(s, k) {
                Some(m) => {
                    proof {
                        let rest = grammar::clauses(s@, m as int, word@).0;
                        assert(before + (seq![f@] + rest) =~= before.push(f@) + rest);
                    }
                    found.push(f);
                    assert(formulas(found@) =~= before.push(f@));
                    j = m;
                },
                None => {
                    assert(before + Seq::empty() =~= before);
                    break ;
                },
            },
            None => {
                assert(before + Seq::empty() =~= before);
                break ;
            },
        }
    }
    (found, j)
}

/// The lines at `i`, separated by line separators.
pub fn lines(s: &[char], i: usize) -> (r: (Vec<Line>, usize))
    requires
        i <= s@.len(),
    ensures
        grammar::lines(s@, i as int) == (lines_of(r.0@), r.1 as int),
        i <= r.1 <= s@.len(),
{
    let mut found: Vec<Line> = Vec::new();
    let (first, start) = match line(s, i) {
        Some(x) => x,
        None => {
            assert(lines_of(found@) =~= Seq::empty());
            return (found, i);
        },
    };
    let ghost head = first@;
    found.push(first);
    assert(lines_of(found@) =~= seq![head]);
    let mut j = start;
    loop
        invariant
            i < j <= s@.len(),
            grammar::lines(s@, i as int) == (
                lines_of(found@) + grammar::more_lines(s@, j as int).0,
                grammar::more_lines(s@, j as int).1,
            ),
        ensures
            grammar::lines(s@, i as int) == (lines_of(found@), j as int),
            i <= j <= s@.len(),
        decreases s@.len() - j,
    {
        let ghost before = lines_of(found@);
        match line_sep(s, j) {
            Some(k) => match line(s, k) {
                Some((l, m)) => {
                    proof {
                        let rest = grammar::more_lines(s@, m as int).0;
                        assert(before + (seq![l@] + rest) =~= before.push(l@) + rest);
                    }
                    found.push(l);
                    assert(lines_of(found@) =~= before.push(l@));
                    j = m;
                },
                None => {
                    assert(before + Seq::empty() =~= before);
                    break ;
                },
            },
            None => {
                assert(before + Seq::empty() =~= before);
                break ;
            },
        }
    }
    (found, j)
}

/// Where a text could not be read as a program.
#[derive(Debug, Clone, Copy, PartialEq, Eq, Structural)]
pub struct ParseErr {
    /// How many characters stand before what could not be read.
    pub position: usize,
}

/// Reads a whole text.
///
/// The result is exactly what the grammar's [`grammar::module`] gives for
/// the characters of the text: the program, or the position of the first
/// thing that is neither a clause, a line of the program nor the end of a
/// line.
pub fn module(i: &str) -> (r: Result<Module, ParseErr>)
    ensures
        match r {
            Ok(m) => grammar::module(i@) == Ok::<SpecModule, int>(m@),
            Err(e) => grammar::module(i@) == Err::<SpecModule, int>(e.position as int),
        },
{
    let text = chars_of(i);
    let s = text.as_slice();
    let start = match line_sep(s, 0) {
        Some(j) => j,
        None => 0,
    };
    let (pre, a) = clauses(s, start, "requires");
    let (post, b) = clauses(s, a, "ensures");
    let (body, c) = lines(s, blanks(s, b));
    let end = match line_sep(s, c) {
        Some(j) => j,
        None => c,
    };
    if end == s.len() {
        Ok(Module { requires: pre, ensures: post, lines: body })
    } else {
        Err(ParseErr { position: end })
    }
}

} // verus!
