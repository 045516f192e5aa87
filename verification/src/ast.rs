use vstd::prelude::*;

verus! {

/// An expression of the language: a thin wrapper around `ExprKind`.
#[derive(Debug, PartialEq)]
pub struct Expr {
    pub kind: ExprKind,
}

/// The closed set of expression forms the parser can build.
///
/// A number literal is kept as its source text (digits and at most one
/// dot); the backend turns that text into a floating-point constant.
#[derive(Debug, PartialEq)]
pub enum ExprKind {
    Number(String),
    Variable { name: String },
    Binary { operator: char, lhs: Box<Expr>, rhs: Box<Expr> },
    Call { callee: String, args: Vec<Expr> },
    Prototype { name: String, args: Vec<String> },
    Function { prototype: Box<Expr>, body: Box<Expr> },
    If(IfVal),
}

/// The three parts of an if/then/else expression.
#[derive(Debug, PartialEq)]
pub struct IfVal {
    pub if_boolish_test: Box<Expr>,
    pub then_branch: Box<Expr>,
    pub elves: Box<Expr>,
}

/// The mathematical shape of an expression: the same tree with strings
/// abstracted to character sequences.
pub enum ExprV {
    Number(Seq<char>),
    Variable(Seq<char>),
    Binary(char, Box<ExprV>, Box<ExprV>),
    Call(Seq<char>, Seq<ExprV>),
    Prototype(Seq<char>, Seq<Seq<char>>),
    Function(Box<ExprV>, Box<ExprV>),
    If(Box<ExprV>, Box<ExprV>, Box<ExprV>),
}

/// The views of a sequence of expressions, element by element.
pub open spec fn views_of(s: Seq<Expr>) -> Seq<ExprV>
    decreases s,
{
    if s.len() == 0 {
        Seq::empty()
    } else {
        views_of(s.drop_last()).push(s.last()@)
    }
}

impl View for Expr {
    type V = ExprV;

    open spec fn view(&self) -> ExprV
        decreases self,
    {
        match self.kind {
            ExprKind::Number(ref s) => ExprV::Number(s@),
            ExprKind::Variable { ref name } => ExprV::Variable(name@),
            ExprKind::Binary { operator, ref lhs, ref rhs } => ExprV::Binary(
                operator,
                Box::new((**lhs)@),
                Box::new((**rhs)@),
            ),
            ExprKind::Call { ref callee, ref args } => ExprV::Call(callee@, views_of(args@)),
            ExprKind::Prototype { ref name, ref args } => ExprV::Prototype(
                name@,
                args@.map_values(|a: String| a@),
            ),
            ExprKind::Function { ref prototype, ref body } => ExprV::Function(
                Box::new((**prototype)@),
                Box::new((**body)@),
            ),
            ExprKind::If(ref v) => ExprV::If(
                Box::new((*v.if_boolish_test)@),
                Box::new((*v.then_branch)@),
                Box::new((*v.elves)@),
            ),
        }
    }
}

/// `views_of` maps each element to its view and keeps the length.
pub proof fn lemma_views_of(s: Seq<Expr>)
    ensures
        views_of(s).len() == s.len(),
        forall|i: int| 0 <= i < s.len() ==> views_of(s)[i] == s[i]@,
    decreases s,
{
    if s.len() > 0 {
        lemma_views_of(s.drop_last());
        assert(views_of(s) == views_of(s.drop_last()).push(s.last()@));
        assert forall|i: int| 0 <= i < s.len() implies views_of(s)[i] == s[i]@ by {
            if i < s.len() - 1 {
                assert(views_of(s)[i] == views_of(s.drop_last())[i]);
                assert(s.drop_last()[i] == s[i]);
            } else {
                assert(views_of(s)[i] == s.last()@);
            }
        }
    }
}

/// Appending one expression appends its view.
pub proof fn lemma_views_of_push(s: Seq<Expr>, e: Expr)
    ensures
        views_of(s.push(e)) == views_of(s).push(e@),
{
    assert(s.push(e).drop_last() =~= s);
}

} // verus!
