//! Reading a path: points joined by `->` (or `→`), with control points
//! joined by `-` before the point that a curve ends in.

use crate::draw::{path_view, PathCmd, PathCmdView};
use crate::parsing::{
    lemma_run_end, literal, literal_spec, run_end, skip_space, text_of, word, word_spec, CharClass,
};
use crate::parsing::chars_of;
use vstd::prelude::*;

verus! {

/// The separator at `pos`: whether the point behind it ends a command, and
/// where the separator ends.
pub open spec fn separator_spec(s: Seq<char>, pos: int) -> Option<(bool, int)> {
    if literal_spec(s, pos, "→"@) is Some {
        Some((true, literal_spec(s, pos, "→"@).unwrap()))
    } else if literal_spec(s, pos, "->"@) is Some {
        Some((true, literal_spec(s, pos, "->"@).unwrap()))
    } else if literal_spec(s, pos, "-"@) is Some {
        Some((false, literal_spec(s, pos, "-"@).unwrap()))
    } else {
        None
    }
}

/// The command that ends in the last of `points` and goes by the others.
pub open spec fn command_of(points: Seq<Seq<char>>) -> Option<PathCmdView> {
    if points.len() == 1 {
        Some(PathCmdView::Line(points[0]))
    } else if points.len() == 2 {
        Some(PathCmdView::Quadratic(points[0], points[1]))
    } else if points.len() == 3 {
        Some(PathCmdView::Cubic(points[0], points[1], points[2]))
    } else {
        None
    }
}

/// The rest of a path from `pos`, after the commands `cmds` and the
/// control points `pending` were read: nothing, if a point is missing
/// behind a separator, if a command has more than two control points, or
/// if the text ends in control points.
pub open spec fn path_rest(
    s: Seq<char>,
    pos: int,
    cmds: Seq<PathCmdView>,
    pending: Seq<Seq<char>>,
) -> Option<Seq<PathCmdView>>
    decreases s.len() - pos,
{
    match separator_spec(s, pos) {
        None => if pending.len() > 0 {
            None
        } else {
            Some(cmds)
        },
        Some((term, after)) => {
            let start = run_end(s, CharClass::Whitespace, after);
            match word_spec(s, start) {
                None => None,
                Some(end) => {
                    let points = pending.push(s.subrange(start, end));
                    if pos < 0 || pos > s.len() {
                        None
                    } else if term {
                        match command_of(points) {
                            None => None,
                            Some(c) => {
                                proof {
                                    lemma_run_end(s, CharClass::Whitespace, after);
                                    lemma_run_end(s, CharClass::Alphabetic, start);
                                }
                                path_rest(s, end, cmds.push(c), Seq::empty())
                            },
                        }
                    } else {
                        proof {
                            lemma_run_end(s, CharClass::Whitespace, after);
                            lemma_run_end(s, CharClass::Alphabetic, start);
                        }
                        path_rest(s, end, cmds, points)
                    }
                },
            }
        },
    }
}

/// The path that a text begins with: a move to its first point, then a
/// command for each point that follows a `->`.
pub open spec fn parse_path_spec(s: Seq<char>) -> Option<Seq<PathCmdView>> {
    match word_spec(s, 0) {
        None => None,
        Some(end) => path_rest(s, end, seq![PathCmdView::Move(s.subrange(0, end))], Seq::empty()),
    }
}

/// The names of a vector of names.
pub open spec fn names_view(names: Seq<String>) -> Seq<Seq<char>> {
    Seq::new(names.len(), |i: int| names[i]@)
}

/// Reads the separator at `pos`.
fn separator(input: &[char], pos: usize) -> (r: Option<(bool, usize)>)
    requires
        pos <= input@.len(),
    ensures
        match r {
            Some((term, after)) => separator_spec(input@, pos as int) == Some((term, after as int))
                && pos <= after <= input@.len(),
            None => separator_spec(input@, pos as int) is None,
        },
{
    if let Some(after) = literal(input, pos, "→") {
        return Some((true, after));
    }
    if let Some(after) = literal(input, pos, "->") {
        return Some((true, after));
    }
    if let Some(after) = literal(input, pos, "-") {
        return Some((false, after));
    }
    None
}

/// Makes the command that ends in the last of `points` and goes by the
/// others.
fn command(points: Vec<String>) -> (r: Option<PathCmd>)
    ensures
        match r {
            Some(c) => command_of(names_view(points@)) == Some(c@),
            None => command_of(names_view(points@)) is None,
        },
{
    let mut points = points;
    let ghost names = names_view(points@);
    if points.len() == 1 {
        let a = points.pop().unwrap();
        assert(a@ == names[0]);
        Some(PathCmd::Line(a))
    } else if points.len() == 2 {
        let b = points.pop().unwrap();
        let a = points.pop().unwrap();
        assert(a@ == names[0] && b@ == names[1]);
        Some(PathCmd::Quadratic(a, b))
    } else if points.len() == 3 {
        let c = points.pop().unwrap();
        let b = points.pop().unwrap();
        let a = points.pop().unwrap();
        assert(a@ == names[0] && b@ == names[1] && c@ == names[2]);
        Some(PathCmd::Cubic(a, b, c))
    } else {
        None
    }
}

/// Reads a path from the beginning of `input`. What follows the path is
/// not read.
pub fn parse_path(input: &str) -> (r: Option<Vec<PathCmd>>)
    ensures
        match r {
            Some(cmds) => parse_path_spec(input@) == Some(path_view(cmds@)),
            None => parse_path_spec(input@) is None,
        },
{
    let chars = chars_of(input);
    parse_path_chars(chars.as_slice())
}

/// Reads a path from the beginning of the characters `text`.
pub fn parse_path_chars(text: &[char]) -> (r: Option<Vec<PathCmd>>)
    ensures
        match r {
            Some(cmds) => parse_path_spec(text@) == Some(path_view(cmds@)),
            None => parse_path_spec(text@) is None,
        },
{
    let ghost s = text@;
    let mut pos: usize = match word(text, 0) {
        Some(end) => end,
        None => {
            return None;
        },
    };
    let mut cmds: Vec<PathCmd> = Vec::new();
    cmds.push(PathCmd::Move(text_of(text, 0, pos)));
    let mut pending: Vec<String> = Vec::new();
    assert(path_view(cmds@) =~= seq![PathCmdView::Move(s.subrange(0, pos as int))]);
    assert(names_view(pending@) =~= Seq::<Seq<char>>::empty());
    loop
        invariant
            text@ == s,
            pos <= s.len(),
            parse_path_spec(s) == path_rest(s, pos as int, path_view(cmds@), names_view(pending@)),
        decreases s.len() - pos,
    {
        let ghost before_cmds = path_view(cmds@);
        let ghost before_pending = names_view(pending@);
        match separator(text, pos) {
            None => {
                if pending.len() > 0 {
                    return None;
                }
                return Some(cmds);
            },
            Some((term, after)) => {
                let start = skip_space(text, after);
                match word(text, start) {
                    None => {
                        return None;
                    },
                    Some(end) => {
                        pending.push(text_of(text, start, end));
                        assert(names_view(pending@) =~= before_pending.push(
                            s.subrange(start as int, end as int),
                        ));
                        if term {
                            let mut points: Vec<String> = Vec::new();
                            std::mem::swap(&mut points, &mut pending);
                            match command(points) {
                                None => {
                                    return None;
                                },
                                Some(c) => {
                                    cmds.push(c);
                                    assert(path_view(cmds@) =~= before_cmds.push(c@));
                                    assert(names_view(pending@) =~= Seq::<Seq<char>>::empty());
                                },
                            }
                        }
                        pos = end;
                    },
                }
            },
        }
    }
}

} // verus!
