use vstd::prelude::*;

verus! {

/// How a run of digits attaches to the letter runs around it.
#[derive(Clone, Copy, Debug, PartialEq, Eq, Structural)]
pub enum NumAlign {
    /// The digits stay with the word before them.
    Left,
    /// The digits stand as a word of their own.
    Middle,
    /// The digits join the word after them.
    Right,
}

/// A case action on one character.
#[derive(Clone, Copy, Debug, PartialEq, Eq, Structural)]
pub enum Tr {
    /// Force upper case.
    Upper,
    /// Force lower case.
    Lower,
    /// Leave the character as it is.
    Keep,
}

/// How the case action varies over the characters of one word.
#[derive(Clone, Copy, Debug, PartialEq, Eq, Structural)]
pub enum TrChars {
    /// One action for every character.
    All(Tr),
    /// The first character, then all the others.
    FirstRest(Tr, Tr),
    /// The first character, the interior, the last character.
    FirstMiddleLast(Tr, Tr, Tr),
}

/// A parsed transform expression.
#[derive(Debug, PartialEq, Eq)]
pub struct Expr {
    /// Where digit runs go.
    pub db: NumAlign,
    /// The text put between two words.
    pub sep: String,
    /// The case rules, by word position: at most three.
    pub trs: Vec<TrChars>,
}

/// The mathematical content of an [`Expr`].
pub ghost struct ExprView {
    pub db: NumAlign,
    pub sep: Seq<char>,
    pub trs: Seq<TrChars>,
}

impl View for Expr {
    type V = ExprView;

    open spec fn view(&self) -> ExprView {
        ExprView { db: self.db, sep: self.sep@, trs: self.trs@ }
    }
}

impl ExprView {
    /// An expression carries at most three case rules.
    pub open spec fn wf(self) -> bool {
        self.trs.len() <= 3
    }
}

impl Expr {
    /// An expression carries at most three case rules.
    pub open spec fn wf(&self) -> bool {
        self@.wf()
    }
}

/// A character of a transform expression that its position does not allow.
#[derive(Clone, Copy, Debug, PartialEq, Eq, Structural)]
pub struct ParseError {
    /// Offset of the character, counted in characters from zero.
    pub index: usize,
    /// The character itself.
    pub ch: char,
}

/// Why a name could not be transformed.
#[derive(Clone, Copy, Debug, PartialEq, Eq, Structural)]
pub enum TransformError {
    /// The transform expression does not parse.
    Expression(ParseError),
    /// The name is empty or holds a character that is neither an ASCII letter,
    /// an ASCII digit nor an underscore.
    Identifier,
}

/// Why a `key = value` pair could not be applied to a name.
#[derive(Clone, Copy, Debug, PartialEq, Eq, Structural)]
pub enum AttributeError {
    /// The key is neither `name` nor `transform`.
    Key,
    /// The key is `transform`, and the transformation failed.
    Transform(TransformError),
}

} // verus!
