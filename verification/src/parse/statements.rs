//! Reading statements that construct a figure point by point: the place of
//! an origin, `A = (0, 0)`, and quantities of points that stand for an
//! expression, `|A B| = |B C| = 2 * |C D|`.

use crate::parse::expr::{
    math_at, math_view, parse_math_at, quantity_points, Math, MathExpr, MathView, Operand,
};
use crate::parse::number::{parse_vector_at, vector_spec, Constant, ConstantView};
use crate::parse::path::names_view;
use crate::parse::quantity::{quantity_spec, ParseErr, ParseErrKind, ParseErrType, QuantityType};
use crate::parsing::{
    chars_of, find, find_char, lemma_find_char, literal, literal_spec, run_end, skip_space, text_of,
    word, word_spec, CharClass,
};
use vstd::prelude::*;

verus! {

/// What a statement says of its last point.
#[derive(Debug, Clone, PartialEq, Eq, Hash)]
pub enum StatementType {
    /// Its place, by two numbers as they are written.
    Origin(Constant, Constant),
    /// A quantity of it and the point before it, by an expression.
    Quantity(QuantityType, MathExpr),
}

/// A statement about the last of its points.
#[derive(Debug, Clone, PartialEq, Eq, Hash)]
pub struct Statement {
    pub s_type: StatementType,
    pub points: Vec<String>,
}

/// What a statement says, as a mathematical value.
pub enum StatementTypeView {
    Origin(ConstantView, ConstantView),
    Quantity(QuantityType, Seq<MathView>),
}

/// A statement as a mathematical value.
pub struct StatementView {
    pub s_type: StatementTypeView,
    pub points: Seq<Seq<char>>,
}

impl View for StatementType {
    type V = StatementTypeView;

    open spec fn view(&self) -> StatementTypeView {
        match self {
            StatementType::Origin(x, y) => StatementTypeView::Origin(x@, y@),
            StatementType::Quantity(t, m) => StatementTypeView::Quantity(*t, math_view(m.expr@)),
        }
    }
}

impl View for Statement {
    type V = StatementView;

    open spec fn view(&self) -> StatementView {
        StatementView { s_type: self.s_type@, points: names_view(self.points@) }
    }
}

/// The statements of a vector of statements.
pub open spec fn statements_view(statements: Seq<Statement>) -> Seq<StatementView> {
    Seq::new(statements.len(), |i: int| statements[i]@)
}

/// A statement is well formed when it names a point, and its expression
/// lists the points of its quantities.
pub open spec fn statement_wf(s: Statement) -> bool {
    &&& s.points@.len() > 0
    &&& match s.s_type {
        StatementType::Origin(_, _) => true,
        StatementType::Quantity(_, m) => names_view(m.points@) == quantity_points(
            math_view(m.expr@),
        ),
    }
}

impl StatementView {
    /// The points that the last point depends on: the points before it,
    /// and the points of the quantities of the expression.
    pub open spec fn dependencies(self) -> Seq<Seq<char>> {
        match self.s_type {
            StatementTypeView::Origin(_, _) => self.points.drop_last(),
            StatementTypeView::Quantity(_, expr) => self.points.drop_last() + quantity_points(
                expr,
            ),
        }
    }
}

/// A copy of names.
pub fn copy_names(names: &Vec<String>) -> (r: Vec<String>)
    ensures
        names_view(r@) == names_view(names@),
{
    let mut out: Vec<String> = Vec::new();
    let mut i: usize = 0;
    while i < names.len()
        invariant
            i <= names.len(),
            out@.len() == i,
            forall|j: int| 0 <= j < i ==> (#[trigger] out@[j])@ == names@[j]@,
        decreases names.len() - i,
    {
        out.push(names[i].clone());
        i += 1;
    }
    assert(names_view(out@) =~= names_view(names@));
    out
}

/// A copy of a number as it is written.
pub fn copy_constant(c: &Constant) -> (r: Constant)
    ensures
        r@ == c@,
{
    match c {
        Constant::Pi => Constant::Pi,
        Constant::Tau => Constant::Tau,
        Constant::E => Constant::E,
        Constant::Decimal(text) => Constant::Decimal(text.clone()),
    }
}

/// A copy of an expression.
pub fn copy_expr(m: &MathExpr) -> (r: MathExpr)
    ensures
        math_view(r.expr@) == math_view(m.expr@),
        names_view(r.points@) == names_view(m.points@),
{
    let mut expr: Vec<Math> = Vec::new();
    let mut i: usize = 0;
    while i < m.expr.len()
        invariant
            i <= m.expr.len(),
            expr@.len() == i,
            forall|j: int| 0 <= j < i ==> (#[trigger] expr@[j])@ == m.expr@[j]@,
        decreases m.expr.len() - i,
    {
        let entry = match &m.expr[i] {
            Math::Operator(op) => Math::Operator(*op),
            Math::Operand(Operand::Constant(c)) => Math::Operand(
                Operand::Constant(copy_constant(c)),
            ),
            Math::Operand(Operand::Quantity(t, names)) => Math::Operand(
                Operand::Quantity(*t, copy_names(names)),
            ),
        };
        expr.push(entry);
        i += 1;
    }
    assert(math_view(expr@) =~= math_view(m.expr@));
    MathExpr { expr, points: copy_names(&m.points) }
}

impl Statement {
    /// The point that the statement is about: the last one.
    pub fn target(&self) -> (r: &String)
        requires
            self.points@.len() > 0,
        ensures
            r@ == self@.points.last(),
    {
        &self.points[self.points.len() - 1]
    }

    /// The points that the last point depends on.
    pub fn dependencies(&self) -> (r: Vec<String>)
        requires
            statement_wf(*self),
        ensures
            names_view(r@) == self@.dependencies(),
    {
        let mut out: Vec<String> = Vec::new();
        let n = self.points.len() - 1;
        let mut i: usize = 0;
        while i < n
            invariant
                i <= n,
                n == self.points@.len() - 1,
                out@.len() == i,
                forall|j: int| 0 <= j < i ==> (#[trigger] out@[j])@ == self.points@[j]@,
            decreases n - i,
        {
            out.push(self.points[i].clone());
            i += 1;
        }
        assert(names_view(out@) =~= names_view(self.points@).drop_last());
        match &self.s_type {
            StatementType::Origin(_, _) => out,
            StatementType::Quantity(_, m) => {
                let ghost head = names_view(out@);
                let mut more = copy_names(&m.points);
                let ghost tail = names_view(more@);
                out.append(&mut more);
                assert(names_view(out@) =~= head + tail);
                out
            },
        }
    }
}

/// The origin that a line begins with: a word, and behind a `=` the
/// vector of its place; without one it lies at zero.
pub open spec fn origin_spec(s: Seq<char>) -> Result<StatementView, (ParseErrKind, int)> {
    match word_spec(s, 0) {
        None => Err((ParseErrKind::Nothing, 0)),
        Some(p0) => {
            let name = s.subrange(0, p0);
            let p1 = run_end(s, CharClass::Whitespace, p0);
            match literal_spec(s, p1, "="@) {
                None => Ok(
                    StatementView {
                        s_type: StatementTypeView::Origin(
                            ConstantView::Decimal("0"@),
                            ConstantView::Decimal("0"@),
                        ),
                        points: seq![name],
                    },
                ),
                Some(p2) => match vector_spec(s, run_end(s, CharClass::Whitespace, p2)) {
                    Err(e) => Err(e),
                    Ok((x, y)) => Ok(
                        StatementView {
                            s_type: StatementTypeView::Origin(x, y),
                            points: seq![name],
                        },
                    ),
                },
            }
        },
    }
}

/// Reads the origin that a line begins with.
pub fn parse_origin(line: &[char]) -> (r: Result<Vec<Statement>, ParseErr>)
    ensures
        match r {
            Ok(statements) => origin_spec(line@) is Ok && statements_view(statements@)
                == seq![origin_spec(line@)->Ok_0] && statement_wf(statements@[0]),
            Err(e) => origin_spec(line@) == Err::<StatementView, (ParseErrKind, int)>(
                (e.0@, e.1 as int),
            ) && e.1 <= line@.len(),
        },
{
    let p0 = match word(line, 0) {
        Some(p) => p,
        None => {
            return Err(ParseErr(ParseErrType::Nothing, 0));
        },
    };
    let p1 = skip_space(line, p0);
    let (x, y) = match literal(line, p1, "=") {
        Some(p2) => match parse_vector_at(line, skip_space(line, p2)) {
            Ok(v) => v,
            Err(e) => {
                return Err(e);
            },
        },
        None => (Constant::Decimal("0".to_owned()), Constant::Decimal("0".to_owned())),
    };
    let points = vec![text_of(line, 0, p0)];
    assert(names_view(points@) =~= seq![line@.subrange(0, p0 as int)]);
    let statements = vec![Statement { s_type: StatementType::Origin(x, y), points }];
    assert(statements_view(statements@) =~= seq![origin_spec(line@)->Ok_0]);
    Ok(statements)
}

/// The places between which the pieces of the text from `start` on stand
/// that the character `c` parts.
pub open spec fn places(s: Seq<char>, c: char, start: int) -> Seq<(int, int)>
    decreases s.len() - start,
{
    if start < 0 || start > s.len() {
        Seq::empty()
    } else {
        let end = find_char(s, c, start);
        if end >= s.len() {
            seq![(start, s.len() as int)]
        } else {
            proof {
                lemma_find_char(s, c, start);
            }
            seq![(start, end)] + places(s, c, end + 1)
        }
    }
}

/// Finds the places between which the pieces of the text stand that `c`
/// parts.
pub fn split_places(input: &[char], c: char) -> (r: Vec<(usize, usize)>)
    ensures
        r@.len() == places(input@, c, 0).len(),
        r@.len() >= 1,
        forall|k: int|
            0 <= k < r@.len() ==> (#[trigger] r@[k]).0 as int == places(input@, c, 0)[k].0
                && r@[k].1 as int == places(input@, c, 0)[k].1 && r@[k].0 <= r@[k].1
                <= input@.len(),
{
    let ghost s = input@;
    let mut out: Vec<(usize, usize)> = Vec::new();
    let mut start: usize = 0;
    let ghost done: Seq<(int, int)> = Seq::empty();
    loop
        invariant
            s == input@,
            start <= s.len(),
            out@.len() == done.len(),
            places(s, c, 0) == done + places(s, c, start as int),
            forall|k: int|
                0 <= k < out@.len() ==> (#[trigger] out@[k]).0 as int == done[k].0
                    && out@[k].1 as int == done[k].1 && out@[k].0 <= out@[k].1 <= s.len(),
        decreases s.len() - start,
    {
        let end = find(input, c, start);
        out.push((start, end));
        proof {
            let piece = (start as int, end as int);
            if end >= s.len() {
                assert(places(s, c, start as int) =~= seq![piece]);
                assert(places(s, c, 0) =~= done.push(piece));
            } else {
                assert(places(s, c, start as int) =~= seq![piece] + places(s, c, end + 1));
                assert(places(s, c, 0) =~= done.push(piece) + places(s, c, end + 1));
            }
            done = done.push(piece);
        }
        if end >= input.len() {
            proof {
                assert(places(s, c, 0) =~= done);
            }
            return out;
        }
        start = end + 1;
    }
}

/// The names of the quantity that a side of a line holds and nothing else
/// but white space around it.
pub open spec fn side_spec(piece: Seq<char>, qt: QuantityType) -> Result<
    Seq<Seq<char>>,
    (ParseErrKind, int),
> {
    match quantity_spec(
        piece,
        run_end(piece, CharClass::Whitespace, 0),
        qt.opening(),
        qt.closing(),
    ) {
        Err(e) => Err(e),
        Ok((names, end)) => if run_end(piece, CharClass::Whitespace, end) == piece.len() {
            Ok(names)
        } else {
            Err((ParseErrKind::Extra, end))
        },
    }
}

/// The expression that the last side of a line holds. Where there is
/// nothing, a quantity in its place means that the value is missing.
pub open spec fn value_spec(piece: Seq<char>, qt: QuantityType) -> Result<
    Seq<MathView>,
    (ParseErrKind, int),
> {
    let from = run_end(piece, CharClass::Whitespace, 0);
    match math_at(piece, from) {
        Ok(expr) => Ok(expr),
        Err((ParseErrKind::Nothing, _)) => match quantity_spec(
            piece,
            from,
            qt.opening(),
            qt.closing(),
        ) {
            Ok((_, end)) => Err((ParseErrKind::No("value"@), end)),
            Err(e) => Err(e),
        },
        Err(e) => Err(e),
    }
}

/// Reads the quantity that a side of a line holds.
fn read_side(piece: &[char], qt: QuantityType) -> (r: Result<Vec<String>, ParseErr>)
    ensures
        match r {
            Ok(names) => side_spec(piece@, qt) == Ok::<Seq<Seq<char>>, (ParseErrKind, int)>(
                names_view(names@),
            ) && names@.len() > 0,
            Err(e) => side_spec(piece@, qt) == Err::<Seq<Seq<char>>, (ParseErrKind, int)>(
                (e.0@, e.1 as int),
            ) && e.1 <= piece@.len(),
        },
{
    let from = skip_space(piece, 0);
    match qt.parser(piece, from) {
        Err(e) => {
            proof {
                crate::parse::expr::lemma_quantity_places(
                    piece@,
                    from as int,
                    qt.opening(),
                    qt.closing(),
                );
            }
            Err(e)
        },
        Ok((names, end)) => {
            if skip_space(piece, end) != piece.len() {
                Err(ParseErr(ParseErrType::Extra, end))
            } else {
                assert(names_view(names@).len() == 2);
                Ok(names)
            }
        },
    }
}

/// Reads the expression that the last side of a line holds.
fn read_value(piece: &[char], qt: QuantityType) -> (r: Result<MathExpr, ParseErr>)
    ensures
        match r {
            Ok(m) => value_spec(piece@, qt) == Ok::<Seq<MathView>, (ParseErrKind, int)>(
                math_view(m.expr@),
            ) && names_view(m.points@) == quantity_points(math_view(m.expr@)),
            Err(e) => value_spec(piece@, qt) == Err::<Seq<MathView>, (ParseErrKind, int)>(
                (e.0@, e.1 as int),
            ) && e.1 <= piece@.len(),
        },
{
    let from = skip_space(piece, 0);
    match parse_math_at(piece, from) {
        Ok(m) => Ok(m),
        Err(e) => match e.0 {
            ParseErrType::Nothing => {
                proof {
                    crate::parse::expr::lemma_quantity_places(
                        piece@,
                        from as int,
                        qt.opening(),
                        qt.closing(),
                    );
                }
                match qt.parser(piece, from) {
                    Ok((_, end)) => Err(ParseErr(ParseErrType::No("value"), end)),
                    Err(e2) => Err(e2),
                }
            },
            _ => Err(e),
        },
    }
}

/// The piece of the text between the places with the number `k`.
pub open spec fn piece_at(s: Seq<char>, ranges: Seq<(int, int)>, k: int) -> Seq<char> {
    s.subrange(ranges[k].0, ranges[k].1)
}

/// The names of the quantities on the first `k` sides of a line; the
/// first side that holds none is an error at its place in the line.
pub open spec fn sides_spec(s: Seq<char>, ranges: Seq<(int, int)>, qt: QuantityType, k: int) -> Result<
    Seq<Seq<Seq<char>>>,
    (ParseErrKind, int),
>
    decreases k,
{
    if k <= 0 {
        Ok(Seq::empty())
    } else {
        match sides_spec(s, ranges, qt, k - 1) {
            Err(e) => Err(e),
            Ok(list) => match side_spec(piece_at(s, ranges, k - 1), qt) {
                Err((kind, at)) => Err((kind, ranges[k - 1].0 + at)),
                Ok(names) => Ok(list.push(names)),
            },
        }
    }
}

/// The statements of a line of quantities of the kind `qt`: each side
/// before the last `=` holds a quantity, the last side the expression that
/// they all stand for.
pub open spec fn attempt_spec(s: Seq<char>, qt: QuantityType) -> Result<
    Seq<StatementView>,
    (ParseErrKind, int),
> {
    let ranges = places(s, '=', 0);
    let last = ranges.len() - 1;
    match sides_spec(s, ranges, qt, last) {
        Err(e) => Err(e),
        Ok(list) => match value_spec(piece_at(s, ranges, last), qt) {
            Err((kind, at)) => Err((kind, ranges[last].0 + at)),
            Ok(expr) => Ok(
                Seq::new(
                    list.len(),
                    |i: int|
                        StatementView {
                            s_type: StatementTypeView::Quantity(qt, expr),
                            points: list[i],
                        },
                ),
            ),
        },
    }
}

/// Of two errors the first, unless it says that nothing begins at the
/// beginning of the line.
pub open spec fn first_error(a: (ParseErrKind, int), b: (ParseErrKind, int)) -> (
    ParseErrKind,
    int,
) {
    if a.0 is Nothing && a.1 == 0 {
        b
    } else {
        a
    }
}

/// The statements of a line of quantities: of distances, or else of
/// orientations.
pub open spec fn multi_spec(s: Seq<char>) -> Result<Seq<StatementView>, (ParseErrKind, int)> {
    match attempt_spec(s, QuantityType::Distance) {
        Ok(statements) => Ok(statements),
        Err(e1) => match attempt_spec(s, QuantityType::Orientation) {
            Ok(statements) => Ok(statements),
            Err(e2) => Err(first_error(e1, e2)),
        },
    }
}

/// The statements of a line: none if it is blank, an origin, or else
/// quantities.
pub open spec fn line_spec(s: Seq<char>) -> Result<Seq<StatementView>, (ParseErrKind, int)> {
    if run_end(s, CharClass::Whitespace, 0) == s.len() {
        Ok(Seq::empty())
    } else {
        match origin_spec(s) {
            Ok(statement) => Ok(seq![statement]),
            Err(e1) => match multi_spec(s) {
                Ok(statements) => Ok(statements),
                Err(e2) => Err(first_error(e1, e2)),
            },
        }
    }
}

/// The names of a vector of vectors of names.
pub open spec fn sides_view(sides: Seq<Vec<String>>) -> Seq<Seq<Seq<char>>> {
    Seq::new(sides.len(), |x: int| names_view(sides[x]@))
}

/// Every statement is well formed.
pub open spec fn all_wf(statements: Seq<Statement>) -> bool {
    forall|i: int| 0 <= i < statements.len() ==> statement_wf(#[trigger] statements[i])
}

/// Of two errors the first, unless it says that nothing begins at the
/// beginning of the line.
fn pick_error(a: ParseErr, b: ParseErr) -> (r: ParseErr)
    ensures
        (r.0@, r.1 as int) == first_error((a.0@, a.1 as int), (b.0@, b.1 as int)),
        r.1 == a.1 || r.1 == b.1,
{
    if matches!(a.0, ParseErrType::Nothing) && a.1 == 0 {
        b
    } else {
        a
    }
}

/// Reads a line of quantities of the kind `qt`.
fn attempt(line: &[char], ranges: &Vec<(usize, usize)>, qt: QuantityType) -> (r: Result<
    Vec<Statement>,
    ParseErr,
>)
    requires
        ranges@.len() == places(line@, '=', 0).len(),
        ranges@.len() >= 1,
        forall|k: int|
            0 <= k < ranges@.len() ==> (#[trigger] ranges@[k]).0 as int == places(
                line@,
                '=',
                0,
            )[k].0 && ranges@[k].1 as int == places(line@, '=', 0)[k].1 && ranges@[k].0
                <= ranges@[k].1 <= line@.len(),
    ensures
        match r {
            Ok(statements) => attempt_spec(line@, qt) == Ok::<
                Seq<StatementView>,
                (ParseErrKind, int),
            >(statements_view(statements@)) && all_wf(statements@),
            Err(e) => attempt_spec(line@, qt) == Err::<Seq<StatementView>, (ParseErrKind, int)>(
                (e.0@, e.1 as int),
            ) && e.1 <= line@.len(),
        },
{
    let ghost s = line@;
    let ghost spots = places(s, '=', 0);
    let last = ranges.len() - 1;
    let mut sides: Vec<Vec<String>> = Vec::new();
    let mut k: usize = 0;
    assert(sides_view(sides@) =~= Seq::<Seq<Seq<char>>>::empty());
    while k < last
        invariant
            k <= last,
            last == ranges@.len() - 1,
            s == line@,
            spots == places(s, '=', 0),
            ranges@.len() == spots.len(),
            forall|x: int|
                0 <= x < ranges@.len() ==> (#[trigger] ranges@[x]).0 as int == spots[x].0
                    && ranges@[x].1 as int == spots[x].1 && ranges@[x].0 <= ranges@[x].1
                    <= s.len(),
            sides@.len() == k,
            forall|x: int| 0 <= x < k ==> (#[trigger] sides@[x])@.len() > 0,
            sides_spec(s, spots, qt, k as int) == Ok::<
                Seq<Seq<Seq<char>>>,
                (ParseErrKind, int),
            >(sides_view(sides@)),
        decreases last - k,
    {
        let (lo, hi) = ranges[k];
        let piece = vstd::slice::slice_subrange(line, lo, hi);
        assert(piece@ == piece_at(s, spots, k as int));
        let ghost before = sides_view(sides@);
        match read_side(piece, qt) {
            Err(e) => {
                proof {
                    lemma_sides_stop(s, spots, qt, k + 1, last as int);
                }
                return Err(ParseErr(e.0, lo + e.1));
            },
            Ok(names) => {
                let ghost read = names_view(names@);
                sides.push(names);
                assert(sides_view(sides@) =~= before.push(read));
            },
        }
        k += 1;
    }
    let (lo, hi) = ranges[last];
    let piece = vstd::slice::slice_subrange(line, lo, hi);
    assert(piece@ == piece_at(s, spots, last as int));
    let value = match read_value(piece, qt) {
        Ok(m) => m,
        Err(e) => {
            return Err(ParseErr(e.0, lo + e.1));
        },
    };
    let ghost list = sides_view(sides@);
    let ghost expr = math_view(value.expr@);
    let mut statements: Vec<Statement> = Vec::new();
    let mut i: usize = 0;
    while i < sides.len()
        invariant
            i <= sides.len(),
            sides@.len() == list.len(),
            forall|x: int| 0 <= x < sides@.len() ==> names_view((#[trigger] sides@[x])@) == list[x],
            forall|x: int| 0 <= x < sides@.len() ==> (#[trigger] sides@[x])@.len() > 0,
            expr == math_view(value.expr@),
            names_view(value.points@) == quantity_points(expr),
            statements@.len() == i,
            all_wf(statements@),
            forall|x: int|
                0 <= x < i ==> (#[trigger] statements@[x])@ == (StatementView {
                    s_type: StatementTypeView::Quantity(qt, expr),
                    points: list[x],
                }),
        decreases sides.len() - i,
    {
        let points = copy_names(&sides[i]);
        assert(points@.len() == names_view(points@).len());
        assert(names_view(sides@[i as int]@).len() == sides@[i as int]@.len());
        let statement = Statement {
            s_type: StatementType::Quantity(qt, copy_expr(&value)),
            points,
        };
        statements.push(statement);
        i += 1;
    }
    assert(statements_view(statements@) =~= Seq::new(
        list.len(),
        |i: int|
            StatementView { s_type: StatementTypeView::Quantity(qt, expr), points: list[i] },
    ));
    Ok(statements)
}

/// Once a side of a line is an error, the sides behind it are not read.
pub proof fn lemma_sides_stop(
    s: Seq<char>,
    ranges: Seq<(int, int)>,
    qt: QuantityType,
    k: int,
    m: int,
)
    requires
        0 <= k <= m,
        sides_spec(s, ranges, qt, k) is Err,
    ensures
        sides_spec(s, ranges, qt, m) == sides_spec(s, ranges, qt, k),
    decreases m - k,
{
    if k < m {
        lemma_sides_stop(s, ranges, qt, k, m - 1);
    }
}

/// Reads a line of quantities that stand for an expression: of
/// distances, or else of orientations.
pub fn parse_multi_expr(line: &[char]) -> (r: Result<Vec<Statement>, ParseErr>)
    ensures
        match r {
            Ok(statements) => multi_spec(line@) == Ok::<Seq<StatementView>, (ParseErrKind, int)>(
                statements_view(statements@),
            ) && all_wf(statements@),
            Err(e) => multi_spec(line@) == Err::<Seq<StatementView>, (ParseErrKind, int)>(
                (e.0@, e.1 as int),
            ) && e.1 <= line@.len(),
        },
{
    let ranges = split_places(line, '=');
    let e1 = match attempt(line, &ranges, QuantityType::Distance) {
        Ok(statements) => {
            return Ok(statements);
        },
        Err(e) => e,
    };
    let e2 = match attempt(line, &ranges, QuantityType::Orientation) {
        Ok(statements) => {
            return Ok(statements);
        },
        Err(e) => e,
    };
    Err(pick_error(e1, e2))
}

/// Reads the statements of a line: none if the line is blank, an origin,
/// or else quantities that stand for an expression.
pub fn parse_line(line: &[char]) -> (r: Result<Vec<Statement>, ParseErr>)
    ensures
        match r {
            Ok(statements) => line_spec(line@) == Ok::<Seq<StatementView>, (ParseErrKind, int)>(
                statements_view(statements@),
            ) && all_wf(statements@),
            Err(e) => line_spec(line@) == Err::<Seq<StatementView>, (ParseErrKind, int)>(
                (e.0@, e.1 as int),
            ) && e.1 <= line@.len(),
        },
{
    if skip_space(line, 0) == line.len() {
        let none: Vec<Statement> = Vec::new();
        assert(statements_view(none@) =~= Seq::<StatementView>::empty());
        return Ok(none);
    }
    let e1 = match parse_origin(line) {
        Ok(statements) => {
            assert(statements@.len() == statements_view(statements@).len());
            return Ok(statements);
        },
        Err(e) => e,
    };
    let e2 = match parse_multi_expr(line) {
        Ok(statements) => {
            return Ok(statements);
        },
        Err(e) => e,
    };
    Err(pick_error(e1, e2))
}

/// The places between which the lines of the text from `start` on stand.
/// A line ends before a line feed, and before the carriage return that
/// stands before it, if one does.
pub open spec fn line_places(s: Seq<char>, start: int) -> Seq<(int, int)>
    decreases s.len() - start,
{
    if start < 0 || start >= s.len() {
        Seq::empty()
    } else {
        let feed = find_char(s, '\n', start);
        if feed >= s.len() {
            seq![(start, s.len() as int)]
        } else {
            proof {
                lemma_find_char(s, '\n', start);
            }
            let end = if feed > start && s[feed - 1] == '\r' {
                feed - 1
            } else {
                feed
            };
            seq![(start, end)] + line_places(s, feed + 1)
        }
    }
}

/// The statements of the first `k` lines of a text; the first line that
/// cannot be read is an error at its place in the text.
pub open spec fn lines_spec(s: Seq<char>, lines: Seq<(int, int)>, k: int) -> Result<
    Seq<StatementView>,
    (ParseErrKind, int),
>
    decreases k,
{
    if k <= 0 {
        Ok(Seq::empty())
    } else {
        match lines_spec(s, lines, k - 1) {
            Err(e) => Err(e),
            Ok(before) => match line_spec(piece_at(s, lines, k - 1)) {
                Err((kind, at)) => Err((kind, lines[k - 1].0 + at)),
                Ok(more) => Ok(before + more),
            },
        }
    }
}

/// The statements of a text, line by line.
pub open spec fn parse_spec(s: Seq<char>) -> Result<Seq<StatementView>, (ParseErrKind, int)> {
    lines_spec(s, line_places(s, 0), line_places(s, 0).len() as int)
}

/// Once a line is an error, the lines behind it are not read.
pub proof fn lemma_lines_stop(s: Seq<char>, lines: Seq<(int, int)>, k: int, m: int)
    requires
        0 <= k <= m,
        lines_spec(s, lines, k) is Err,
    ensures
        lines_spec(s, lines, m) == lines_spec(s, lines, k),
    decreases m - k,
{
    if k < m {
        lemma_lines_stop(s, lines, k, m - 1);
    }
}

/// Finds the places between which the lines of the text stand.
pub fn split_lines(text: &[char]) -> (r: Vec<(usize, usize)>)
    ensures
        r@.len() == line_places(text@, 0).len(),
        forall|k: int|
            0 <= k < r@.len() ==> (#[trigger] r@[k]).0 as int == line_places(text@, 0)[k].0
                && r@[k].1 as int == line_places(text@, 0)[k].1 && r@[k].0 <= r@[k].1
                <= text@.len(),
{
    let ghost s = text@;
    let mut out: Vec<(usize, usize)> = Vec::new();
    let mut start: usize = 0;
    let ghost done: Seq<(int, int)> = Seq::empty();
    while start < text.len()
        invariant
            s == text@,
            out@.len() == done.len(),
            line_places(s, 0) == done + line_places(s, start as int),
            forall|k: int|
                0 <= k < out@.len() ==> (#[trigger] out@[k]).0 as int == done[k].0
                    && out@[k].1 as int == done[k].1 && out@[k].0 <= out@[k].1 <= s.len(),
        decreases s.len() + 1 - start,
    {
        let feed = find(text, '\n', start);
        let end = if feed < text.len() && feed > start && text[feed - 1] == '\r' {
            feed - 1
        } else {
            feed
        };
        out.push((start, end));
        proof {
            let spot = (start as int, end as int);
            if feed >= s.len() {
                assert(line_places(s, start as int) =~= seq![spot]);
                assert(line_places(s, feed + 1) =~= Seq::<(int, int)>::empty());
                assert(line_places(s, 0) =~= done.push(spot) + line_places(s, feed + 1));
            } else {
                assert(line_places(s, start as int) =~= seq![spot] + line_places(s, feed + 1));
                assert(line_places(s, 0) =~= done.push(spot) + line_places(s, feed + 1));
            }
            done = done.push(spot);
        }
        if feed >= text.len() {
            proof {
                assert(line_places(s, 0) =~= done);
            }
            return out;
        }
        start = feed + 1;
    }
    proof {
        assert(line_places(s, start as int) =~= Seq::<(int, int)>::empty());
        assert(line_places(s, 0) =~= done);
    }
    out
}

/// Reads the statements of a text, line by line. An error names its
/// place in the text, counted in characters.
pub fn parse(document: &str) -> (r: Result<Vec<Statement>, ParseErr>)
    ensures
        match r {
            Ok(statements) => parse_spec(document@) == Ok::<
                Seq<StatementView>,
                (ParseErrKind, int),
            >(statements_view(statements@)) && all_wf(statements@),
            Err(e) => parse_spec(document@) == Err::<Seq<StatementView>, (ParseErrKind, int)>(
                (e.0@, e.1 as int),
            ),
        },
{
    let chars = chars_of(document);
    let text = chars.as_slice();
    let ghost s = document@;
    let ghost all = line_places(s, 0);
    let lines = split_lines(text);
    let mut statements: Vec<Statement> = Vec::new();
    let mut k: usize = 0;
    assert(statements_view(statements@) =~= Seq::<StatementView>::empty());
    while k < lines.len()
        invariant
            k <= lines.len(),
            text@ == s,
            s == document@,
            all == line_places(s, 0),
            lines@.len() == all.len(),
            forall|x: int|
                0 <= x < lines@.len() ==> (#[trigger] lines@[x]).0 as int == all[x].0
                    && lines@[x].1 as int == all[x].1 && lines@[x].0 <= lines@[x].1 <= s.len(),
            lines_spec(s, all, k as int) == Ok::<Seq<StatementView>, (ParseErrKind, int)>(
                statements_view(statements@),
            ),
            all_wf(statements@),
        decreases lines.len() - k,
    {
        let (lo, hi) = lines[k];
        let line = vstd::slice::slice_subrange(text, lo, hi);
        assert(line@ == piece_at(s, all, k as int));
        match parse_line(line) {
            Err(e) => {
                proof {
                    assert(line_spec(piece_at(s, all, k as int)) is Err);
                    lemma_lines_stop(s, all, k + 1, all.len() as int);
                }
                return Err(ParseErr(e.0, lo + e.1));
            },
            Ok(more) => {
                proof {
                    assert(line_spec(piece_at(s, all, k as int)) is Ok);
                    assert(lines_spec(s, all, k + 1) == Ok::<
                        Seq<StatementView>,
                        (ParseErrKind, int),
                    >(statements_view(statements@) + statements_view(more@)));
                }
                add_statements(&mut statements, more);
            },
        }
        k += 1;
    }
    Ok(statements)
}

/// Puts statements behind statements.
fn add_statements(statements: &mut Vec<Statement>, more: Vec<Statement>)
    requires
        all_wf(old(statements)@),
        all_wf(more@),
    ensures
        all_wf(final(statements)@),
        statements_view(final(statements)@) == statements_view(old(statements)@)
            + statements_view(more@),
{
    let mut more = more;
    let ghost before = statements@;
    let ghost added = more@;
    statements.append(&mut more);
    proof {
        assert(statements_view(statements@) =~= statements_view(before) + statements_view(
            added,
        ));
        assert forall|i: int| 0 <= i < statements@.len() implies statement_wf(
            #[trigger] statements@[i],
        ) by {
            if i < before.len() {
                assert(statements@[i] == before[i]);
            } else {
                assert(statements@[i] == added[i - before.len()]);
            }
        }
    }
}

} // verus!
