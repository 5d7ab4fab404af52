//! Cutting an identifier into words.
use vstd::prelude::*;
use vstd::string::*;
use crate::ascii::{class_of, classify, is_digit, is_ident_char, is_letter, is_lower, is_upper, CharClass};
use crate::types::NumAlign;

verus! {

/// An identifier is not empty and holds ASCII letters, ASCII digits and
/// underscores only.
pub open spec fn valid_identifier(s: Seq<char>) -> bool {
    s.len() > 0 && forall|i: int| 0 <= i < s.len() ==> is_ident_char(#[trigger] s[i])
}

/// A word begins at `i`. Every character but the underscore belongs to a
/// word, and a new one begins
/// - at the start of the identifier and after an underscore;
/// - at an upper-case letter after a lower-case letter;
/// - at the last letter of an upper-case run that a lower-case letter follows;
/// - at a letter after a digit, unless the digits go to the right;
/// - at a digit after a letter, unless the digits go to the left.
///
/// So digits that go to the left end the word before them, digits that go
/// to the right begin the word after them, and digits that go neither way
/// are a word of their own. Where no letter stands on the side they go to,
/// an underscore or an end of the identifier bounds them there: after a
/// letter, digits that go to the right are then a word of their own too.
pub open spec fn opens_word(s: Seq<char>, db: NumAlign, i: int) -> bool {
    &&& 0 <= i < s.len()
    &&& s[i] != '_'
    &&& {
        ||| i == 0
        ||| s[i - 1] == '_'
        ||| is_upper(s[i]) && is_lower(s[i - 1])
        ||| is_upper(s[i]) && is_upper(s[i - 1]) && i + 1 < s.len() && is_lower(s[i + 1])
        ||| is_letter(s[i]) && is_digit(s[i - 1]) && db != NumAlign::Right
        ||| is_digit(s[i]) && is_letter(s[i - 1]) && db != NumAlign::Left
    }
}

/// A word ends with character `i`: the identifier ends there, or an
/// underscore or the beginning of another word follows.
pub open spec fn closes_word(s: Seq<char>, db: NumAlign, i: int) -> bool {
    &&& 0 <= i < s.len()
    &&& s[i] != '_'
    &&& (i + 1 == s.len() || s[i + 1] == '_' || opens_word(s, db, i + 1))
}

/// The break that position `k` adds as the beginning of a word.
pub open spec fn open_mark(s: Seq<char>, db: NumAlign, k: int) -> Seq<int> {
    if opens_word(s, db, k) {
        seq![k]
    } else {
        Seq::empty()
    }
}

/// The break that position `k` adds as the end of a word.
pub open spec fn close_mark(s: Seq<char>, db: NumAlign, k: int) -> Seq<int> {
    if closes_word(s, db, k) {
        seq![k]
    } else {
        Seq::empty()
    }
}

/// The breaks of the positions before `k`, in order: for each position the
/// beginning of a word, if one begins there, then the end, if one ends there.
pub open spec fn breaks_upto(s: Seq<char>, db: NumAlign, k: int) -> Seq<int>
    decreases k,
{
    if k <= 0 {
        Seq::empty()
    } else {
        breaks_upto(s, db, k - 1) + open_mark(s, db, k - 1) + close_mark(s, db, k - 1)
    }
}

/// The breaks up to position `k`, without the end of a word at `k` itself.
pub open spec fn breaks_before_close(s: Seq<char>, db: NumAlign, k: int) -> Seq<int> {
    breaks_upto(s, db, k) + open_mark(s, db, k)
}

/// All the breaks of an identifier: first and last position of its first
/// word, of its second word, and so on.
pub open spec fn word_breaks(s: Seq<char>, db: NumAlign) -> Seq<int> {
    breaks_upto(s, db, s.len() as int)
}

/// The slices of `s` that breaks cut out, two breaks for each: its first and
/// its last position.
pub open spec fn words_of(s: Seq<char>, b: Seq<int>) -> Seq<Seq<char>> {
    Seq::new(b.len() / 2, |k: int| s.subrange(b[2 * k], b[2 * k + 1] + 1))
}

/// The words of an identifier.
pub open spec fn segment(s: Seq<char>, db: NumAlign) -> Seq<Seq<char>> {
    words_of(s, word_breaks(s, db))
}

/// The texts that a sequence of string slices holds.
pub open spec fn texts(words: Seq<&str>) -> Seq<Seq<char>> {
    Seq::new(words.len(), |k: int| words[k]@)
}

/// Offsets as mathematical integers.
pub open spec fn as_ints(b: Seq<usize>) -> Seq<int> {
    Seq::new(b.len(), |k: int| b[k] as int)
}

/// The states of the word scan. Each is named after what was read last.
#[derive(Clone, Copy, Debug, PartialEq, Eq, Structural)]
pub enum WordState {
    /// Nothing was read.
    Start,
    /// An underscore.
    Under,
    /// An upper-case letter that follows no upper-case letter.
    Upper,
    /// An upper-case letter after another.
    UpperUpper,
    /// A lower-case letter.
    Lower,
    /// A digit.
    Digit,
}

/// What the breaks `b` must be when `pos` characters of `s` are read and the
/// scan is in `state`: all the breaks that the characters read so far decide.
pub open spec fn scan_at(
    s: Seq<char>,
    db: NumAlign,
    pos: int,
    b: Seq<int>,
    state: WordState,
) -> bool {
    &&& valid_identifier(s)
    &&& 0 <= pos <= s.len() <= usize::MAX
    &&& match state {
        WordState::Start => pos == 0 && b =~= Seq::<int>::empty(),
        WordState::Under => pos >= 1 && s[pos - 1] == '_' && b =~= breaks_upto(s, db, pos),
        WordState::Upper => pos >= 1 && is_upper(s[pos - 1]) && b =~= breaks_before_close(
            s,
            db,
            pos - 1,
        ),
        WordState::UpperUpper => pos >= 2 && is_upper(s[pos - 1]) && is_upper(s[pos - 2]) && b
            =~= breaks_before_close(s, db, pos - 2),
        WordState::Lower => pos >= 1 && is_lower(s[pos - 1]) && b =~= breaks_before_close(
            s,
            db,
            pos - 1,
        ),
        WordState::Digit => pos >= 1 && is_digit(s[pos - 1]) && b =~= breaks_before_close(
            s,
            db,
            pos - 1,
        ),
    }
}

/// The breaks that the first digit after a letter adds, read at offset
/// `pos`: none where the digits go to the left, else the end of the word
/// before it and its own beginning.
pub open spec fn digit_cut(db: NumAlign, pos: int) -> Seq<int> {
    match db {
        NumAlign::Left => Seq::empty(),
        _ => seq![pos - 1, pos],
    }
}

/// What the scan does with a character of class `class` read at offset `pos`
/// in `state`: the state it goes to and the breaks it adds.
pub open spec fn word_step(state: WordState, db: NumAlign, pos: int, class: CharClass) -> (
    WordState,
    Seq<int>,
) {
    let here = match class {
        CharClass::Upper => WordState::Upper,
        CharClass::Lower => WordState::Lower,
        _ => WordState::Digit,
    };
    match class {
        CharClass::Other => (state, Seq::empty()),
        CharClass::Underscore => match state {
            WordState::Start | WordState::Under => (WordState::Under, Seq::empty()),
            _ => (WordState::Under, seq![pos - 1]),
        },
        CharClass::Digit => match state {
            WordState::Start | WordState::Under => (WordState::Digit, seq![pos]),
            WordState::Digit => (WordState::Digit, Seq::empty()),
            _ => (WordState::Digit, digit_cut(db, pos)),
        },
        _ => match state {
            WordState::Start | WordState::Under => (here, seq![pos]),
            WordState::Upper => if class == CharClass::Upper {
                (WordState::UpperUpper, Seq::empty())
            } else {
                (here, Seq::empty())
            },
            WordState::UpperUpper => if class == CharClass::Upper {
                (WordState::UpperUpper, Seq::empty())
            } else {
                (here, seq![pos - 2, pos - 1])
            },
            WordState::Lower => if class == CharClass::Upper {
                (here, seq![pos - 1, pos])
            } else {
                (here, Seq::empty())
            },
            WordState::Digit => match db {
                NumAlign::Right => (here, Seq::empty()),
                _ => (here, seq![pos - 1, pos]),
            },
        },
    }
}

/// One step of the scan adds exactly the breaks that the character decides.
pub proof fn lemma_word_step(s: Seq<char>, db: NumAlign, pos: int, b: Seq<int>, state: WordState)
    requires
        scan_at(s, db, pos, b, state),
        pos < s.len(),
    ensures
        class_of(s[pos]) != CharClass::Other,
        scan_at(
            s,
            db,
            pos + 1,
            b + word_step(state, db, pos, class_of(s[pos])).1,
            word_step(state, db, pos, class_of(s[pos])).0,
        ),
{
    let class = class_of(s[pos]);
    let (next, add) = word_step(state, db, pos, class);
    assert(is_ident_char(s[pos]));
    assert(breaks_upto(s, db, pos + 1) == breaks_before_close(s, db, pos) + close_mark(s, db, pos));
    if pos >= 1 {
        assert(is_ident_char(s[pos - 1]));
        assert(breaks_upto(s, db, pos) == breaks_before_close(s, db, pos - 1) + close_mark(
            s,
            db,
            pos - 1,
        ));
    }
    if state == WordState::UpperUpper {
        assert(breaks_upto(s, db, pos - 1) == breaks_before_close(s, db, pos - 2) + close_mark(
            s,
            db,
            pos - 2,
        ));
    }
    let goal = match next {
        WordState::Under => breaks_upto(s, db, pos + 1),
        WordState::UpperUpper => breaks_before_close(s, db, pos - 1),
        _ => breaks_before_close(s, db, pos),
    };
    assert(b + add =~= goal);
}

/// At the end of the identifier only the end of the last word is missing.
pub proof fn lemma_word_scan_end(s: Seq<char>, db: NumAlign, b: Seq<int>, state: WordState)
    requires
        scan_at(s, db, s.len() as int, b, state),
    ensures
        b == breaks_before_close(s, db, s.len() - 1),
{
    let n = s.len() as int;
    assert(breaks_upto(s, db, n) == breaks_before_close(s, db, n - 1) + close_mark(s, db, n - 1));
    if state == WordState::UpperUpper {
        assert(breaks_upto(s, db, n - 1) == breaks_before_close(s, db, n - 2) + close_mark(
            s,
            db,
            n - 2,
        ));
    }
    assert(b =~= breaks_before_close(s, db, n - 1));
}

/// The characters of an identifier are ASCII.
pub proof fn lemma_identifier_is_ascii(s: Seq<char>)
    requires
        valid_identifier(s),
    ensures
        vstd::utf8::is_ascii_chars(s),
{
    assert forall|i: int| 0 <= i < s.len() implies '\0' <= #[trigger] s[i] <= '\u{7f}' by {
        assert(is_ident_char(s[i]));
    }
}

/// Breaks are positions of the identifier, in ascending order.
pub proof fn lemma_breaks_ascend(s: Seq<char>, db: NumAlign, k: int)
    requires
        0 <= k <= s.len(),
    ensures
        forall|j: int|
            0 <= j < breaks_upto(s, db, k).len() ==> 0 <= #[trigger] breaks_upto(s, db, k)[j] < k,
        forall|i: int, j: int|
            0 <= i <= j < breaks_upto(s, db, k).len() ==> breaks_upto(s, db, k)[i] <= breaks_upto(
                s,
                db,
                k,
            )[j],
    decreases k,
{
    if k > 0 {
        lemma_breaks_ascend(s, db, k - 1);
        let prev = breaks_upto(s, db, k - 1);
        let cur = breaks_upto(s, db, k);
        assert forall|j: int| 0 <= j < cur.len() implies #[trigger] cur[j] == if j < prev.len() {
            prev[j]
        } else {
            k - 1
        } by {}
    }
}

/// Up to a character that belongs to a word the number of breaks is odd,
/// the end of that word not counted; up to an underscore it is even.
pub proof fn lemma_breaks_parity(s: Seq<char>, db: NumAlign, k: int)
    requires
        0 <= k < s.len(),
    ensures
        breaks_before_close(s, db, k).len() % 2 == if s[k] == '_' {
            0int
        } else {
            1int
        },
    decreases k,
{
    if k > 0 {
        lemma_breaks_parity(s, db, k - 1);
        assert(breaks_upto(s, db, k) == breaks_before_close(s, db, k - 1) + close_mark(
            s,
            db,
            k - 1,
        ));
    }
}

/// The word scan: one method for each of its states.
pub struct FievarParser<'a> {
    /// Where digit runs go.
    pub db: NumAlign,
    /// The breaks found so far.
    pub breaks: Vec<usize>,
    /// The identifier.
    pub input: &'a str,
    /// The offset of the character that is read next.
    pub next: usize,
}

impl<'a> FievarParser<'a> {
    /// The scan is in `state`, with the breaks that belong to it.
    pub open spec fn at(&self, state: WordState) -> bool {
        scan_at(self.input@, self.db, self.next as int, as_ints(self.breaks@), state)
    }

    /// The scan has read the whole identifier of `pre`: it holds every break
    /// but the end of the last word.
    pub open spec fn done(&self, pre: Self) -> bool {
        &&& self.input == pre.input
        &&& self.db == pre.db
        &&& as_ints(self.breaks@) == breaks_before_close(
            self.input@,
            self.db,
            self.input@.len() - 1,
        )
    }

    /// `r` is the character that `pre` had next, with its offset, and with
    /// the breaks that `word_step` names the scan then stands in the state
    /// that `word_step` names; or `pre` had read everything.
    pub open spec fn stepped(&self, pre: Self, state: WordState, r: Option<(usize, char)>) -> bool {
        &&& self.db == pre.db
        &&& self.breaks == pre.breaks
        &&& self.input == pre.input
        &&& match r {
            Some((i, c)) => {
                &&& i == pre.next
                &&& i < self.input@.len()
                &&& self.next == i + 1
                &&& c == self.input@[i as int]
                &&& class_of(c) != CharClass::Other
                &&& scan_at(
                    self.input@,
                    self.db,
                    self.next as int,
                    as_ints(self.breaks@) + word_step(state, self.db, i as int, class_of(c)).1,
                    word_step(state, self.db, i as int, class_of(c)).0,
                )
            },
            None => self.done(pre) && self.next == pre.next,
        }
    }

    /// Cuts an identifier into its words.
    pub fn parse(s: &'a str, db: NumAlign) -> (words: Vec<&'a str>)
        requires
            valid_identifier(s@),
        ensures
            texts(words@) == segment(s@, db),
    {
        proof {
            lemma_identifier_is_ascii(s@);
            assert(is_ascii(s));
            is_ascii_spec_bytes(s);
        }
        let last = s.as_bytes().len() - 1;
        let mut m = FievarParser { db, input: s, breaks: Vec::new(), next: 0 };
        m.start();
        proof {
            lemma_breaks_parity(s@, db, last as int);
        }
        if m.breaks.len() % 2 != 0 {
            m.breaks.push(last);
        }
        let len = m.breaks.len();
        let ghost b = word_breaks(s@, db);
        proof {
            assert(as_ints(m.breaks@) =~= b);
            lemma_breaks_ascend(s@, db, s@.len() as int);
        }
        let mut r: Vec<&'a str> = Vec::new();
        let mut i: usize = 0;
        while i < len
            invariant
                is_ascii(s),
                s@.len() <= usize::MAX,
                as_ints(m.breaks@) == b,
                b.len() == len,
                len % 2 == 0,
                i % 2 == 0,
                i <= len,
                forall|j: int| 0 <= j < b.len() ==> 0 <= #[trigger] b[j] < s@.len(),
                forall|j: int, k: int| 0 <= j <= k < b.len() ==> b[j] <= b[k],
                r@.len() == i / 2,
                forall|k: int|
                    0 <= k < r@.len() ==> (#[trigger] r@[k])@ == s@.subrange(
                        b[2 * k],
                        b[2 * k + 1] + 1,
                    ),
            decreases len - i,
        {
            assert(b[i as int] == m.breaks@[i as int]);
            assert(b[i + 1] == m.breaks@[i + 1]);
            r.push(s.substring_ascii(m.breaks[i], m.breaks[i + 1] + 1));
            i += 2;
        }
        assert(texts(r@) =~= segment(s@, db));
        r
    }

    /// Takes the next character, with its offset, if there is one.
    fn next_char(&mut self, Ghost(state): Ghost<WordState>) -> (r: Option<(usize, char)>)
        requires
            old(self).at(state),
        ensures
            final(self).stepped(*old(self), state, r),
    {
        proof {
            lemma_identifier_is_ascii(self.input@);
            assert(is_ascii(self.input));
            is_ascii_spec_bytes(self.input);
        }
        if self.next < self.input.len() {
            let i = self.next;
            let b = self.input.get_ascii(i);
            self.next = i + 1;
            proof {
                lemma_word_step(self.input@, self.db, i as int, as_ints(self.breaks@), state);
                assert(self.input@[i as int] <= '\u{7f}');
            }
            Some((i, b as char))
        } else {
            proof {
                lemma_word_scan_end(self.input@, self.db, as_ints(self.breaks@), state);
            }
            None
        }
    }

    fn start(&mut self)
        requires
            old(self).at(WordState::Start),
        ensures
            final(self).done(*old(self)),
        decreases old(self).input@.len() - old(self).next, 0nat,
    {
        let (i, c) = match self.next_char(Ghost(WordState::Start)) {
            Some(v) => v,
            None => return ,
        };
        match classify(c) {
            CharClass::Underscore => self.under(),
            CharClass::Upper => self.push_next(&[i], WordState::Upper),
            CharClass::Lower => self.push_next(&[i], WordState::Lower),
            CharClass::Digit => self.push_next(&[i], WordState::Digit),
            // An identifier holds no such character.
            CharClass::Other => {},
        }
    }

    fn under(&mut self)
        requires
            old(self).at(WordState::Under),
        ensures
            final(self).done(*old(self)),
        decreases old(self).input@.len() - old(self).next, 0nat,
    {
        let (i, c) = match self.next_char(Ghost(WordState::Under)) {
            Some(v) => v,
            None => return ,
        };
        match classify(c) {
            CharClass::Underscore => self.under(),
            CharClass::Upper => self.push_next(&[i], WordState::Upper),
            CharClass::Lower => self.push_next(&[i], WordState::Lower),
            CharClass::Digit => self.push_next(&[i], WordState::Digit),
            // An identifier holds no such character.
            CharClass::Other => {},
        }
    }

    fn upper(&mut self)
        requires
            old(self).at(WordState::Upper),
        ensures
            final(self).done(*old(self)),
        decreases old(self).input@.len() - old(self).next, 0nat,
    {
        let (i, c) = match self.next_char(Ghost(WordState::Upper)) {
            Some(v) => v,
            None => return ,
        };
        match classify(c) {
            CharClass::Underscore => self.push_next(&[i - 1], WordState::Under),
            CharClass::Upper => self.upper_upper(),
            CharClass::Lower => self.lower(),
            CharClass::Digit => self.alphabet_digit(i),
            // An identifier holds no such character.
            CharClass::Other => {},
        }
    }

    fn upper_upper(&mut self)
        requires
            old(self).at(WordState::UpperUpper),
        ensures
            final(self).done(*old(self)),
        decreases old(self).input@.len() - old(self).next, 0nat,
    {
        let (i, c) = match self.next_char(Ghost(WordState::UpperUpper)) {
            Some(v) => v,
            None => return ,
        };
        match classify(c) {
            CharClass::Underscore => self.push_next(&[i - 1], WordState::Under),
            CharClass::Upper => self.upper_upper(),
            CharClass::Lower => self.push_next(&[i - 2, i - 1], WordState::Lower),
            CharClass::Digit => self.alphabet_digit(i),
            // An identifier holds no such character.
            CharClass::Other => {},
        }
    }

    fn lower(&mut self)
        requires
            old(self).at(WordState::Lower),
        ensures
            final(self).done(*old(self)),
        decreases old(self).input@.len() - old(self).next, 0nat,
    {
        let (i, c) = match self.next_char(Ghost(WordState::Lower)) {
            Some(v) => v,
            None => return ,
        };
        match classify(c) {
            CharClass::Underscore => self.push_next(&[i - 1], WordState::Under),
            CharClass::Upper => self.push_next(&[i - 1, i], WordState::Upper),
            CharClass::Lower => self.lower(),
            CharClass::Digit => self.alphabet_digit(i),
            // An identifier holds no such character.
            CharClass::Other => {},
        }
    }

    /// A run of digits begins at `ds`, after a letter: the digits stay in
    /// the word of the letter where they go to the left, and begin a word
    /// where they do not.
    fn alphabet_digit(&mut self, ds: usize)
        requires
            1 <= ds,
            scan_at(
                old(self).input@,
                old(self).db,
                old(self).next as int,
                as_ints(old(self).breaks@) + digit_cut(old(self).db, ds as int),
                WordState::Digit,
            ),
        ensures
            final(self).done(*old(self)),
        decreases old(self).input@.len() - old(self).next, 2nat,
    {
        match self.db {
            NumAlign::Left => self.digit(),
            NumAlign::Middle => self.push_next(&[ds - 1, ds], WordState::Digit),
            NumAlign::Right => self.push_next(&[ds - 1, ds], WordState::Digit),
        }
    }

    fn digit(&mut self)
        requires
            old(self).at(WordState::Digit),
        ensures
            final(self).done(*old(self)),
        decreases old(self).input@.len() - old(self).next, 0nat,
    {
        let (i, c) = match self.next_char(Ghost(WordState::Digit)) {
            Some(v) => v,
            None => return ,
        };
        match classify(c) {
            CharClass::Underscore => self.push_next(&[i - 1], WordState::Under),
            CharClass::Upper => match self.db {
                NumAlign::Right => self.upper(),
                _ => self.push_next(&[i - 1, i], WordState::Upper),
            },
            CharClass::Lower => match self.db {
                NumAlign::Right => self.lower(),
                _ => self.push_next(&[i - 1, i], WordState::Lower),
            },
            CharClass::Digit => self.digit(),
            // An identifier holds no such character.
            CharClass::Other => {},
        }
    }

    /// Adds the breaks `i` and goes on in the state `next`.
    fn push_next(&mut self, i: &[usize], next: WordState)
        requires
            scan_at(
                old(self).input@,
                old(self).db,
                old(self).next as int,
                as_ints(old(self).breaks@) + as_ints(i@),
                next,
            ),
        ensures
            final(self).done(*old(self)),
        decreases old(self).input@.len() - old(self).next, 1nat,
    {
        self.breaks.extend_from_slice(i);
        assert(as_ints(self.breaks@) =~= as_ints(old(self).breaks@) + as_ints(i@));
        match next {
            WordState::Start => self.start(),
            WordState::Under => self.under(),
            WordState::Upper => self.upper(),
            WordState::UpperUpper => self.upper_upper(),
            WordState::Lower => self.lower(),
            WordState::Digit => self.digit(),
        }
    }
}

/// Whether a text can be cut into words: it is not empty and holds ASCII
/// letters, ASCII digits and underscores only.
pub fn is_valid_identifier(name: &str) -> (ok: bool)
    ensures
        ok == valid_identifier(name@),
{
    let mut empty = true;
    let mut ok = true;
    for c in it: name.chars()
        invariant
            it.seq() == name@,
            empty == (it.index() == 0),
            ok == forall|j: int|
                0 <= j < it.index() ==> class_of(#[trigger] name@[j]) != CharClass::Other,
    {
        match classify(c) {
            CharClass::Other => {
                ok = false;
            },
            _ => {},
        }
        empty = false;
    }
    ok && !empty
}

} // verus!
