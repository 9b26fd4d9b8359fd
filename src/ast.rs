use vstd::prelude::*;

verus! {

/// A place in the source text, counted from one.
#[derive(Clone, Copy, Debug, PartialEq, Eq, Structural)]
pub struct Position {
    pub line: usize,
    pub column: usize,
}

/// The source range `start..end` covered by a token.
#[derive(Clone, Copy, Debug, PartialEq, Eq, Structural)]
pub struct Span {
    pub start: Position,
    pub end: Position,
}

/// A name together with where it was written.
#[derive(Clone, Debug)]
pub struct Identifier {
    pub name: String,
    pub span: Span,
}

/// The decoded contents of a string literal together with where it was written.
#[derive(Clone, Debug, PartialEq, Eq)]
pub struct StringLiteral {
    pub value: String,
    pub span: Span,
}

/// A classified lexical unit, as handed over by the lexer.
#[derive(Clone, Debug, PartialEq, Eq)]
pub enum Token {
    Ident(Identifier),
    StrLit(StringLiteral),
    Equal(Span),
    Comma(Span),
}

/// An expression: a string literal or a reference to a name.
#[derive(Clone, Debug, PartialEq, Eq)]
pub enum ExprAst {
    StrLit(StringLiteral),
    Ident(Identifier),
}

/// One parsed line: a variable declaration or a procedure call.
#[derive(Clone, Debug, PartialEq, Eq)]
pub enum StmtAst {
    VarDecl(Identifier, ExprAst),
    ProcCall(Identifier, Vec<ExprAst>),
}

/// The mathematical value of a statement: its arguments as a sequence.
pub ghost enum StmtModel {
    VarDecl(Identifier, ExprAst),
    ProcCall(Identifier, Seq<ExprAst>),
}

impl View for StmtAst {
    type V = StmtModel;

    open spec fn view(&self) -> StmtModel {
        match self {
            StmtAst::VarDecl(target, init) => StmtModel::VarDecl(*target, *init),
            StmtAst::ProcCall(callee, args) => StmtModel::ProcCall(*callee, args@),
        }
    }
}

/// Names are equal when their text is; where they were written does not count.
impl PartialEq for Identifier {
    fn eq(&self, other: &Identifier) -> (r: bool) {
        self.name == other.name
    }
}

impl vstd::std_specs::cmp::PartialEqSpecImpl for Identifier {
    open spec fn obeys_eq_spec() -> bool {
        true
    }

    open spec fn eq_spec(&self, other: &Identifier) -> bool {
        self.name@ == other.name@
    }
}

impl Eq for Identifier {
}

impl Identifier {
    pub fn new(name: &str, span: Span) -> (r: Identifier)
        ensures
            r.name@ == name@,
            r.span == span,
    {
        Identifier { name: name.to_owned(), span }
    }

    /// A copy equal to `self` in every field.
    pub fn duplicate(&self) -> (r: Identifier)
        ensures
            r == *self,
    {
        Identifier { name: self.name.clone(), span: self.span }
    }
}

impl StringLiteral {
    pub fn new(value: &str, span: Span) -> (r: StringLiteral)
        ensures
            r.value@ == value@,
            r.span == span,
    {
        StringLiteral { value: value.to_owned(), span }
    }

    /// A copy equal to `self` in every field.
    pub fn duplicate(&self) -> (r: StringLiteral)
        ensures
            r == *self,
    {
        StringLiteral { value: self.value.clone(), span: self.span }
    }
}

/// The source range that a token occupies.
pub open spec fn span_of(t: Token) -> Span {
    match t {
        Token::Ident(id) => id.span,
        Token::StrLit(lit) => lit.span,
        Token::Equal(sp) => sp,
        Token::Comma(sp) => sp,
    }
}

/// Anything that can say where in the source it was written.
pub trait Locatable {
    spec fn spec_span(&self) -> Span;

    fn locate(&self) -> (r: Span)
        ensures
            r == self.spec_span(),
    ;
}

impl Locatable for Identifier {
    open spec fn spec_span(&self) -> Span {
        self.span
    }

    fn locate(&self) -> (r: Span) {
        self.span
    }
}

impl Locatable for StringLiteral {
    open spec fn spec_span(&self) -> Span {
        self.span
    }

    fn locate(&self) -> (r: Span) {
        self.span
    }
}

impl Locatable for Token {
    open spec fn spec_span(&self) -> Span {
        span_of(*self)
    }

    fn locate(&self) -> (r: Span) {
        match self {
            Token::Ident(id) => id.span,
            Token::StrLit(lit) => lit.span,
            Token::Equal(sp) => *sp,
            Token::Comma(sp) => *sp,
        }
    }
}

} // verus!
