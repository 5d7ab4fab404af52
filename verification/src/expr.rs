//! The transform expression: its scanner as a state machine, and the parser
//! that runs it.
use vstd::prelude::*;
use vstd::string::*;
use crate::types::{Expr, ExprView, NumAlign, ParseError, Tr, TrChars};

verus! {

/// Where the scan of an expression stands.
pub enum ExprState {
    /// Before a rule or an alignment token.
    Start,
    /// In a rule, after one case character.
    All(Tr),
    /// In a rule, after two case characters.
    FirstRest(Tr, Tr),
    /// In a rule, after three case characters.
    FirstMiddleLast(Tr, Tr, Tr),
    /// In an alignment token, after `1` and so many underscores: the token
    /// `1__` is complete after two.
    Left(usize),
    /// In an alignment token, after `_1` and so many underscores: the token
    /// `_1_` is complete after one.
    Middle(usize),
    /// After the alignment token `__1`.
    Right,
    /// In an alignment token, after so many underscores and nothing else.
    MiddleRight(usize),
}

/// The scanner: its state, the alignment, whether an alignment token was
/// read, and the rules closed so far.
pub struct ExprScan {
    pub state: ExprState,
    pub db: NumAlign,
    pub aligned: bool,
    pub trs: Seq<TrChars>,
}

/// The case action that a character of a rule stands for.
pub open spec fn tr_of(c: char) -> Option<Tr> {
    if c == 'C' {
        Some(Tr::Upper)
    } else if c == 'c' {
        Some(Tr::Lower)
    } else if c == '*' {
        Some(Tr::Keep)
    } else {
        None
    }
}

/// The scanner before the first character: digits go to the left unless an
/// alignment token says otherwise.
pub open spec fn initial_scan() -> ExprScan {
    ExprScan { state: ExprState::Start, db: NumAlign::Left, aligned: false, trs: Seq::empty() }
}

/// The state holds one of the alignment tokens `1__`, `_1_`, `__1`, read to
/// its end.
pub open spec fn token_complete(state: ExprState) -> bool {
    match state {
        ExprState::Left(n) => n >= 2,
        ExprState::Middle(n) => n >= 1,
        ExprState::Right => true,
        _ => false,
    }
}

/// The state holds the beginning of an alignment token, not yet a token.
pub open spec fn token_unfinished(state: ExprState) -> bool {
    match state {
        ExprState::Left(n) => n < 2,
        ExprState::Middle(n) => n < 1,
        ExprState::MiddleRight(_) => true,
        _ => false,
    }
}

/// The scanner after character `c`, or `None` where the state does not allow
/// `c`.
/// - A rule begins only while fewer than three are closed; a space closes
///   the rule that is open.
/// - An alignment token begins only where none was read before. It is one of
///   `1__`, `_1_` and `__1`, and nothing but a space may follow it; after the
///   space rules may follow.
pub open spec fn step(m: ExprScan, c: char) -> Option<ExprScan> {
    match m.state {
        ExprState::Start => match tr_of(c) {
            Some(t) => if m.trs.len() < 3 {
                Some(ExprScan { state: ExprState::All(t), ..m })
            } else {
                None
            },
            None => if c == ' ' {
                Some(m)
            } else if m.aligned {
                None
            } else if c == '_' {
                Some(ExprScan { state: ExprState::MiddleRight(1), aligned: true, ..m })
            } else if c == '1' {
                Some(
                    ExprScan { state: ExprState::Left(0), db: NumAlign::Left, aligned: true, ..m },
                )
            } else {
                None
            },
        },
        ExprState::All(t) => match tr_of(c) {
            Some(u) => Some(ExprScan { state: ExprState::FirstRest(t, u), ..m }),
            None => close_rule(m, TrChars::All(t), c),
        },
        ExprState::FirstRest(t, u) => match tr_of(c) {
            Some(v) => Some(ExprScan { state: ExprState::FirstMiddleLast(t, u, v), ..m }),
            None => close_rule(m, TrChars::FirstRest(t, u), c),
        },
        ExprState::FirstMiddleLast(t, u, v) => close_rule(
            m,
            TrChars::FirstMiddleLast(t, u, v),
            c,
        ),
        ExprState::Left(n) => {
            if n < 2 {
                if c == '_' {
                    Some(ExprScan { state: ExprState::Left((n + 1) as usize), ..m })
                } else {
                    None
                }
            } else {
                close_token(m, c)
            }
        },
        ExprState::MiddleRight(n) => {
            if c == '_' && n < 2 {
                Some(ExprScan { state: ExprState::MiddleRight((n + 1) as usize), ..m })
            } else if c == '1' && n < 2 {
                Some(ExprScan { state: ExprState::Middle(0), db: NumAlign::Middle, ..m })
            } else if c == '1' {
                Some(ExprScan { state: ExprState::Right, db: NumAlign::Right, ..m })
            } else {
                None
            }
        },
        ExprState::Middle(n) => {
            if n < 1 {
                if c == '_' {
                    Some(ExprScan { state: ExprState::Middle((n + 1) as usize), ..m })
                } else {
                    None
                }
            } else {
                close_token(m, c)
            }
        },
        ExprState::Right => close_token(m, c),
    }
}

/// The scanner after a character that is no case character, met in a rule: a
/// space closes the rule, nothing else is allowed.
pub open spec fn close_rule(m: ExprScan, rule: TrChars, c: char) -> Option<ExprScan> {
    if c == ' ' {
        Some(ExprScan { state: ExprState::Start, trs: m.trs.push(rule), ..m })
    } else {
        None
    }
}

/// The scanner after a character met behind a complete alignment token: a
/// space, nothing else is allowed.
pub open spec fn close_token(m: ExprScan, c: char) -> Option<ExprScan> {
    if c == ' ' {
        Some(ExprScan { state: ExprState::Start, ..m })
    } else {
        None
    }
}

/// The rule that is open in a state, if any.
pub open spec fn open_rule(state: ExprState) -> Option<TrChars> {
    match state {
        ExprState::All(t) => Some(TrChars::All(t)),
        ExprState::FirstRest(t, u) => Some(TrChars::FirstRest(t, u)),
        ExprState::FirstMiddleLast(t, u, v) => Some(TrChars::FirstMiddleLast(t, u, v)),
        _ => None,
    }
}

/// The rules at the end of the input: the closed ones, then the open one.
pub open spec fn finish(m: ExprScan) -> Seq<TrChars> {
    match open_rule(m.state) {
        Some(rule) => m.trs.push(rule),
        None => m.trs,
    }
}

/// The scanner run over `e` from character `i`: where it stands at the end,
/// or the character that makes `e` no expression. That is the first
/// character that its state does not allow; and where `e` ends inside an
/// alignment token, with no such character, it is the last character of `e`.
pub open spec fn scan(e: Seq<char>, i: int, m: ExprScan) -> Result<ExprScan, ParseError>
    decreases e.len() - i,
{
    if i < 0 || i >= e.len() {
        if token_unfinished(m.state) && e.len() > 0 {
            Err(ParseError { index: (e.len() - 1) as usize, ch: e.last() })
        } else {
            Ok(m)
        }
    } else {
        match step(m, e[i]) {
            Some(next) => scan(e, i + 1, next),
            None => Err(ParseError { index: i as usize, ch: e[i] }),
        }
    }
}

/// The offset of the first `|` at or after `i`, or the length of the text.
pub open spec fn bar_from(text: Seq<char>, i: int) -> int
    decreases text.len() - i,
{
    if i < 0 || i >= text.len() {
        text.len() as int
    } else if text[i] == '|' {
        i
    } else {
        bar_from(text, i + 1)
    }
}

/// The part of an expression that the scanner reads: what stands before the
/// first `|`.
pub open spec fn rules_part(text: Seq<char>) -> Seq<char> {
    text.take(bar_from(text, 0))
}

/// The separator of an expression: what stands after the first `|`.
pub open spec fn separator_part(text: Seq<char>) -> Seq<char> {
    if bar_from(text, 0) < text.len() {
        text.skip(bar_from(text, 0) + 1)
    } else {
        Seq::empty()
    }
}

/// What a transform expression means, or the character that makes it
/// meaningless.
///
/// Before the first `|` stand, with spaces between them, at most three rules
/// of one to three case characters each and at most one alignment token,
/// `1__`, `_1_` or `__1`, before, between or behind the rules; without a
/// token the digits go to the left. What stands after the first `|` is the
/// separator, as it stands.
///
/// The error is the first character that has no place in this, with its
/// offset: a character other than `C`, `c`, `*`, `_`, `1` and the space, a
/// fourth character in a rule, the first character of a fourth rule or of a
/// second token, the character or space that breaks a token off or follows
/// it too closely. Where the text before the `|` ends inside a token, no
/// such character exists, and the error is the last character before the
/// `|`, with its offset.
pub open spec fn parse_spec(text: Seq<char>) -> Result<ExprView, ParseError> {
    match scan(rules_part(text), 0, initial_scan()) {
        Ok(m) => Ok(ExprView { db: m.db, sep: separator_part(text), trs: finish(m) }),
        Err(e) => Err(e),
    }
}

} // verus!

verus! {

/// The characters of a text, in order.
pub fn chars_of(s: &str) -> (v: Vec<char>)
    ensures
        v@ == s@,
{
    let mut v: Vec<char> = Vec::new();
    for c in it: s.chars()
        invariant
            it.seq() == s@,
            v@ == s@.take(it.index() as int),
    {
        v.push(c);
    }
    v
}

/// The parser of transform expressions: the scanner's state machine, one
/// method for each kind of state.
pub struct ExprParser {
    /// The alignment read so far.
    pub db: NumAlign,
    /// The rules closed so far.
    pub exprs: Vec<TrChars>,
    /// The separator.
    pub sep: String,
    /// The rule that is open.
    pub expr: Option<TrChars>,
    /// The characters that the scanner reads.
    pub chars: Vec<char>,
    /// The offset of the character that is read next.
    pub next: usize,
    /// How many rules are closed.
    pub expr_count: usize,
    /// Whether an alignment token was read.
    pub aligned: bool,
}

impl ExprParser {
    /// What holds of the parser between two characters.
    pub open spec fn inv(&self) -> bool {
        &&& self.next <= self.chars@.len()
        &&& self.expr_count == self.exprs@.len()
        &&& self.expr_count <= 3
        &&& self.expr is Some ==> self.expr_count < 3
    }

    /// The scanner that the parser stands for when it is in `state`.
    pub open spec fn model(&self, state: ExprState) -> ExprScan {
        ExprScan { state, db: self.db, aligned: self.aligned, trs: self.exprs@ }
    }

    /// The parser is in a state of an alignment token: it has read a
    /// character of the token and no rule is open.
    pub open spec fn in_token(&self) -> bool {
        &&& self.inv()
        &&& self.expr is None
        &&& self.next >= 1
    }

    /// `post` and `r` are what the scanner makes of `pre` in `state` by the
    /// end of the input.
    pub open spec fn ran(
        pre: ExprParser,
        state: ExprState,
        post: ExprParser,
        r: Result<(), ParseError>,
    ) -> bool {
        &&& post.chars == pre.chars
        &&& post.sep == pre.sep
        &&& match scan(pre.chars@, pre.next as int, pre.model(state)) {
            Ok(m) => {
                &&& r is Ok
                &&& post.db == m.db
                &&& post.exprs@ == m.trs
                &&& post.expr == open_rule(m.state)
                &&& post.inv()
            },
            Err(e) => r == Err::<(), ParseError>(e),
        }
    }

    /// Parses a transform expression. The text before the first `|` holds the
    /// rules and the alignment token, the text after it is the separator. An
    /// expression that ends inside an alignment token is refused with its
    /// last character before the `|`; every other one that is refused, with
    /// the first character that has no place in it.
    pub fn parse(input: &str) -> (r: Result<Expr, ParseError>)
        ensures
            match parse_spec(input@) {
                Ok(e) => r matches Ok(x) && x@ == e,
                Err(e) => r matches Err(x) && x == e,
            },
            r matches Ok(x) ==> x.wf(),
    {
        let mut chars = chars_of(input);
        let len = chars.len();
        let mut bar: usize = 0;
        while bar < len && chars[bar] != '|'
            invariant
                bar <= len,
                len == chars@.len(),
                bar_from(chars@, 0) == bar_from(chars@, bar as int),
            decreases len - bar,
        {
            bar = bar + 1;
        }
        let mut sep = String::new();
        if bar < len {
            let mut i: usize = bar + 1;
            while i < len
                invariant
                    bar < i <= len,
                    len == chars@.len(),
                    sep@ == chars@.subrange(bar + 1, i as int),
                decreases len - i,
            {
                sep.push(chars[i]);
                i = i + 1;
            }
        }
        chars.truncate(bar);
        let mut m = ExprParser {
            db: NumAlign::Left,
            exprs: Vec::new(),
            sep,
            expr: None,
            chars,
            next: 0,
            expr_count: 0,
            aligned: false,
        };
        match m.run() {
            Ok(()) => Ok(Expr { db: m.db, sep: m.sep, trs: m.exprs }),
            Err(e) => Err(e),
        }
    }

    /// Runs the scanner to the end of the input and closes the rule that is
    /// still open.
    fn run(&mut self) -> (r: Result<(), ParseError>)
        requires
            old(self).inv(),
            old(self).expr is None,
        ensures
            final(self).chars == old(self).chars,
            final(self).sep == old(self).sep,
            match scan(old(self).chars@, old(self).next as int, old(self).model(ExprState::Start)) {
                Ok(m) => {
                    &&& r is Ok
                    &&& final(self).db == m.db
                    &&& final(self).exprs@ == finish(m)
                    &&& final(self).exprs@.len() <= 3
                },
                Err(e) => r == Err::<(), ParseError>(e),
            },
    {
        self.start()?;
        let e = self.expr.take();
        if let Some(e) = e {
            self.exprs.push(e);
        }
        Ok(())
    }

    /// Takes the next character, with its offset, if there is one.
    fn next_char(&mut self) -> (r: Option<(usize, char)>)
        requires
            old(self).next <= old(self).chars@.len(),
        ensures
            final(self).db == old(self).db,
            final(self).exprs == old(self).exprs,
            final(self).sep == old(self).sep,
            final(self).expr == old(self).expr,
            final(self).chars == old(self).chars,
            final(self).expr_count == old(self).expr_count,
            final(self).aligned == old(self).aligned,
            old(self).next < old(self).chars@.len() ==> final(self).next == old(self).next + 1 && r
                == Some((old(self).next, old(self).chars@[old(self).next as int])),
            old(self).next == old(self).chars@.len() ==> final(self).next == old(self).next && r
                is None,
    {
        if self.next < self.chars.len() {
            let i = self.next;
            let c = self.chars[i];
            self.next = i + 1;
            Some((i, c))
        } else {
            None
        }
    }

    /// The error for an input that ends inside an alignment token: it names
    /// the last character of the input.
    fn unfinished(&self) -> (e: ParseError)
        requires
            1 <= self.next == self.chars@.len(),
        ensures
            e == (ParseError { index: (self.chars@.len() - 1) as usize, ch: self.chars@.last() }),
    {
        let i = self.next - 1;
        ParseError { index: i, ch: self.chars[i] }
    }

    fn start(&mut self) -> (r: Result<(), ParseError>)
        requires
            old(self).inv(),
            old(self).expr is None,
        ensures
            Self::ran(*old(self), ExprState::Start, *final(self), r),
        decreases old(self).chars@.len() - old(self).next,
    {
        let (i, c) = match self.next_char() {
            Some(v) => v,
            None => return Ok(()),
        };
        let ec = self.expr_count;
        if c == 'C' {
            if ec < 3 {
                self.expr = Some(TrChars::All(Tr::Upper));
                self.all(Tr::Upper)
            } else {
                Err(ParseError { index: i, ch: c })
            }
        } else if c == 'c' {
            if ec < 3 {
                self.expr = Some(TrChars::All(Tr::Lower));
                self.all(Tr::Lower)
            } else {
                Err(ParseError { index: i, ch: c })
            }
        } else if c == '*' {
            if ec < 3 {
                self.expr = Some(TrChars::All(Tr::Keep));
                self.all(Tr::Keep)
            } else {
                Err(ParseError { index: i, ch: c })
            }
        } else if c == ' ' {
            self.start()
        } else if c == '_' && !self.aligned {
            self.aligned = true;
            self.middle_right(1)
        } else if c == '1' && !self.aligned {
            self.aligned = true;
            self.db = NumAlign::Left;
            self.left(0)
        } else {
            Err(ParseError { index: i, ch: c })
        }
    }

    fn all(&mut self, tr: Tr) -> (r: Result<(), ParseError>)
        requires
            old(self).inv(),
            old(self).expr == Some(TrChars::All(tr)),
        ensures
            Self::ran(*old(self), ExprState::All(tr), *final(self), r),
        decreases old(self).chars@.len() - old(self).next,
    {
        let (i, c) = match self.next_char() {
            Some(v) => v,
            None => return Ok(()),
        };
        if c == 'C' {
            self.expr = Some(TrChars::FirstRest(tr, Tr::Upper));
            self.first_rest(tr, Tr::Upper)
        } else if c == 'c' {
            self.expr = Some(TrChars::FirstRest(tr, Tr::Lower));
            self.first_rest(tr, Tr::Lower)
        } else if c == '*' {
            self.expr = Some(TrChars::FirstRest(tr, Tr::Keep));
            self.first_rest(tr, Tr::Keep)
        } else if c == ' ' {
            self.exprs.push(TrChars::All(tr));
            self.expr = None;
            self.expr_count += 1;
            self.start()
        } else {
            Err(ParseError { index: i, ch: c })
        }
    }

    fn first_rest(&mut self, tr1: Tr, tr2: Tr) -> (r: Result<(), ParseError>)
        requires
            old(self).inv(),
            old(self).expr == Some(TrChars::FirstRest(tr1, tr2)),
        ensures
            Self::ran(*old(self), ExprState::FirstRest(tr1, tr2), *final(self), r),
        decreases old(self).chars@.len() - old(self).next,
    {
        let (i, c) = match self.next_char() {
            Some(v) => v,
            None => return Ok(()),
        };
        if c == 'C' {
            self.expr = Some(TrChars::FirstMiddleLast(tr1, tr2, Tr::Upper));
            self.first_middle_last(tr1, tr2, Tr::Upper)
        } else if c == 'c' {
            self.expr = Some(TrChars::FirstMiddleLast(tr1, tr2, Tr::Lower));
            self.first_middle_last(tr1, tr2, Tr::Lower)
        } else if c == '*' {
            self.expr = Some(TrChars::FirstMiddleLast(tr1, tr2, Tr::Keep));
            self.first_middle_last(tr1, tr2, Tr::Keep)
        } else if c == ' ' {
            self.exprs.push(TrChars::FirstRest(tr1, tr2));
            self.expr = None;
            self.expr_count += 1;
            self.start()
        } else {
            Err(ParseError { index: i, ch: c })
        }
    }

    fn first_middle_last(&mut self, tr1: Tr, tr2: Tr, tr3: Tr) -> (r: Result<(), ParseError>)
        requires
            old(self).inv(),
            old(self).expr == Some(TrChars::FirstMiddleLast(tr1, tr2, tr3)),
        ensures
            Self::ran(*old(self), ExprState::FirstMiddleLast(tr1, tr2, tr3), *final(self), r),
        decreases old(self).chars@.len() - old(self).next,
    {
        let (i, c) = match self.next_char() {
            Some(v) => v,
            None => return Ok(()),
        };
        if c == ' ' {
            self.exprs.push(TrChars::FirstMiddleLast(tr1, tr2, tr3));
            self.expr = None;
            self.expr_count += 1;
            self.start()
        } else {
            Err(ParseError { index: i, ch: c })
        }
    }

    /// After `1` and `n` underscores.
    fn left(&mut self, n: usize) -> (r: Result<(), ParseError>)
        requires
            old(self).in_token(),
            n <= 2,
        ensures
            Self::ran(*old(self), ExprState::Left(n), *final(self), r),
        decreases old(self).chars@.len() - old(self).next,
    {
        let (i, c) = match self.next_char() {
            Some(v) => v,
            None => return if n < 2 {
                Err(self.unfinished())
            } else {
                Ok(())
            },
        };
        if n < 2 && c == '_' {
            self.left(n + 1)
        } else if n >= 2 && c == ' ' {
            self.start()
        } else {
            Err(ParseError { index: i, ch: c })
        }
    }

    /// After `_1` and `n` underscores.
    fn middle(&mut self, n: usize) -> (r: Result<(), ParseError>)
        requires
            old(self).in_token(),
            n <= 1,
        ensures
            Self::ran(*old(self), ExprState::Middle(n), *final(self), r),
        decreases old(self).chars@.len() - old(self).next,
    {
        let (i, c) = match self.next_char() {
            Some(v) => v,
            None => return if n < 1 {
                Err(self.unfinished())
            } else {
                Ok(())
            },
        };
        if n < 1 && c == '_' {
            self.middle(n + 1)
        } else if n >= 1 && c == ' ' {
            self.start()
        } else {
            Err(ParseError { index: i, ch: c })
        }
    }

    /// After `__1`.
    fn right(&mut self) -> (r: Result<(), ParseError>)
        requires
            old(self).in_token(),
        ensures
            Self::ran(*old(self), ExprState::Right, *final(self), r),
        decreases old(self).chars@.len() - old(self).next,
    {
        let (i, c) = match self.next_char() {
            Some(v) => v,
            None => return Ok(()),
        };
        if c == ' ' {
            self.start()
        } else {
            Err(ParseError { index: i, ch: c })
        }
    }

    /// After `n` underscores.
    fn middle_right(&mut self, n: usize) -> (r: Result<(), ParseError>)
        requires
            old(self).in_token(),
            1 <= n <= 2,
        ensures
            Self::ran(*old(self), ExprState::MiddleRight(n), *final(self), r),
        decreases old(self).chars@.len() - old(self).next,
    {
        let (i, c) = match self.next_char() {
            Some(v) => v,
            None => return Err(self.unfinished()),
        };
        if c == '_' && n < 2 {
            self.middle_right(n + 1)
        } else if c == '1' && n < 2 {
            self.db = NumAlign::Middle;
            self.middle(0)
        } else if c == '1' {
            self.db = NumAlign::Right;
            self.right()
        } else {
            Err(ParseError { index: i, ch: c })
        }
    }
}

} // verus!
