//! A reader of configuration files: directives, each a name, parameters and
//! maybe a block of directives of its own.

use crate::text::{chars_of, string_of};
use vstd::prelude::*;

verus! {

/// One directive of a configuration.
#[derive(Debug, PartialEq, Eq)]
pub struct Directive {
    pub name: String,
    pub params: Vec<String>,
    pub children: Vec<Directive>,
    /// The line on which the directive starts; the first line is zero.
    pub line: usize,
}

/// A directive as a value.
pub struct DirectiveView {
    pub name: Seq<char>,
    pub params: Seq<Seq<char>>,
    pub children: Seq<DirectiveView>,
    pub line: usize,
}

/// A directive as a value.
pub open spec fn directive_view(directive: Directive) -> DirectiveView
    decreases directive,
{
    DirectiveView {
        name: directive.name@,
        params: directive.params.deep_view(),
        children: Seq::new(
            directive.children@.len(),
            |i: int|
                if 0 <= i < directive.children@.len() {
                    directive_view(directive.children@[i])
                } else {
                    arbitrary()
                },
        ),
        line: directive.line,
    }
}

/// A list of directives as values.
pub open spec fn directive_views(directives: Seq<Directive>) -> Seq<DirectiveView> {
    Seq::new(directives.len(), |i: int| directive_view(directives[i]))
}

/// What a configuration lacks: the character that was expected, and where.
#[derive(Clone, Copy, Debug, PartialEq, Eq, Structural)]
pub struct Error {
    pub expected: char,
    pub line: usize,
    pub column: usize,
}

/// A place in a text: the number of characters before it, its line, and the
/// number of bytes before it on its line.
pub struct Cursor {
    pub pos: int,
    pub line: usize,
    pub column: usize,
}

/// A count that is `n` more, or stays at the most that can be counted.
pub open spec fn bump(count: usize, n: int) -> usize {
    if count + n > usize::MAX {
        usize::MAX
    } else {
        (count + n) as usize
    }
}

/// The number of bytes of a character in UTF-8.
pub open spec fn utf8_len(c: char) -> int {
    if (c as u32) < 0x80 {
        1
    } else if (c as u32) < 0x800 {
        2
    } else if (c as u32) < 0x10000 {
        3
    } else {
        4
    }
}

/// The kinds of words.
#[derive(Clone, Copy, Debug, PartialEq, Eq, Structural)]
pub enum Word {
    /// A bare word.
    Atom,
    /// A word between double quotes.
    Double,
    /// A word between single quotes.
    Single,
}

/// Whether a character may stand in a bare word as it is: any visible
/// character but the quotes, the backslash and the braces.
pub open spec fn in_atom(c: char) -> bool {
    let v = c as u32;
    v == 0x21 || 0x23 <= v <= 0x26 || 0x28 <= v <= 0x5b || 0x5d <= v <= 0x7a || v == 0x7c || v
        == 0x7e || v >= 0x80
}

/// Whether a character may stand in a word of a kind as it is.
pub open spec fn allowed(kind: Word, c: char) -> bool {
    let v = c as u32;
    match kind {
        Word::Atom => in_atom(c),
        Word::Double => in_atom(c) || v == 0x27 || v == 0x7b || v == 0x7d || v == 0x20 || v == 0x09,
        Word::Single => v == 0x09 || 0x20 <= v <= 0x26 || 0x28 <= v <= 0x7e || v >= 0x80,
    }
}

/// Whether a character may stand behind a backslash: any but the control
/// characters.
pub open spec fn escapable(c: char) -> bool {
    (c as u32) >= 0x20 && (c as u32) != 0x7f
}

/// Whether the character at a place is `c`.
pub open spec fn at(text: Seq<char>, pos: int, c: char) -> bool {
    0 <= pos < text.len() && text[pos] == c
}

/// The place behind the blanks and tabs at a place.
pub open spec fn after_blanks(text: Seq<char>, cur: Cursor) -> Cursor
    decreases text.len() - cur.pos,
{
    if at(text, cur.pos, ' ') || at(text, cur.pos, '\t') {
        after_blanks(text, Cursor { pos: cur.pos + 1, line: cur.line, column: bump(cur.column, 1) })
    } else {
        cur
    }
}

/// The place of the first line end from a place on, or the end of the text.
pub open spec fn line_end(text: Seq<char>, pos: int) -> int
    decreases text.len() - pos,
{
    if 0 <= pos < text.len() && text[pos] != '\n' {
        line_end(text, pos + 1)
    } else {
        pos
    }
}

/// The place behind the blanks, line ends and comments at a place. A line end
/// counts as a line, and so does a comment, which runs from `#` up to the
/// line end.
pub open spec fn after_lines(text: Seq<char>, cur: Cursor) -> Cursor
    decreases text.len() - cur.pos,
{
    let here = after_blanks(text, cur);
    if here.pos < cur.pos {
        here
    } else if at(text, here.pos, '\n') {
        after_lines(text, Cursor { pos: here.pos + 1, line: bump(here.line, 1), column: 0 })
    } else if at(text, here.pos, '#') {
        let end = line_end(text, here.pos + 1);
        if here.pos < end <= text.len() {
            after_lines(text, Cursor { pos: end, line: bump(here.line, 1), column: 0 })
        } else {
            here
        }
    } else {
        here
    }
}

/// The rest of a word from a place on, and the place behind it. A character
/// that the kind of word allows is part of the word; a backslash, where the
/// kind knows it, is not, but makes the character behind it part of the word
/// unless that is a control character; the word ends before any other
/// character.
pub open spec fn word_rest(text: Seq<char>, cur: Cursor, kind: Word, escaped: bool, so_far: Seq<char>) -> (Seq<char>, Cursor)
    decreases text.len() - cur.pos,
{
    if 0 <= cur.pos < text.len() {
        let c = text[cur.pos];
        if allowed(kind, c) || (escaped && escapable(c)) {
            word_rest(
                text,
                Cursor { pos: cur.pos + 1, line: cur.line, column: bump(cur.column, utf8_len(c)) },
                kind,
                false,
                so_far.push(c),
            )
        } else if c == '\\' && kind != Word::Single {
            word_rest(
                text,
                Cursor { pos: cur.pos + 1, line: cur.line, column: bump(cur.column, 1) },
                kind,
                true,
                so_far,
            )
        } else {
            (so_far, cur)
        }
    } else {
        (so_far, cur)
    }
}

/// The place behind an expected character, or the lack of it.
pub open spec fn expected(text: Seq<char>, cur: Cursor, c: char) -> Result<Cursor, Error> {
    if at(text, cur.pos, c) {
        Ok(Cursor { pos: cur.pos + 1, line: cur.line, column: bump(cur.column, utf8_len(c)) })
    } else {
        Err(Error { expected: c, line: cur.line, column: cur.column })
    }
}

/// The word between quotes at a place, and the place behind it.
pub open spec fn quoted(text: Seq<char>, cur: Cursor, kind: Word, quote: char) -> Result<(Seq<char>, Cursor), Error> {
    match expected(text, cur, quote) {
        Err(error) => Err(error),
        Ok(inside) => {
            let (word, end) = word_rest(text, inside, kind, false, Seq::empty());
            match expected(text, end, quote) {
                Err(error) => Err(error),
                Ok(behind) => Ok((word, behind)),
            }
        },
    }
}

/// The word at a place, and the place behind it: between double quotes,
/// between single quotes, or bare. A bare word may be empty.
pub open spec fn word_at(text: Seq<char>, cur: Cursor) -> Result<(Seq<char>, Cursor), Error> {
    if at(text, cur.pos, '"') {
        quoted(text, cur, Word::Double, '"')
    } else if at(text, cur.pos, '\'') {
        quoted(text, cur, Word::Single, '\'')
    } else {
        Ok(word_rest(text, cur, Word::Atom, false, Seq::empty()))
    }
}

/// The parameters of a directive from a place on, and the place behind
/// them: words with blanks between them, up to a line end, an opening brace
/// or the end of the text. Where a word and the blanks behind it are nothing
/// at all, a line end is lacking.
pub open spec fn params_at(text: Seq<char>, cur: Cursor, so_far: Seq<Seq<char>>) -> Result<(Seq<Seq<char>>, Cursor), Error>
    decreases text.len() - cur.pos,
{
    if at(text, cur.pos, '\n') || at(text, cur.pos, '{') || !(0 <= cur.pos < text.len()) {
        Ok((so_far, cur))
    } else {
        match word_at(text, cur) {
            Err(error) => Err(error),
            Ok((word, end)) => {
                let behind = after_blanks(text, end);
                if cur.pos < behind.pos <= text.len() {
                    params_at(text, behind, so_far.push(word))
                } else {
                    Err(Error { expected: '\n', line: behind.line, column: behind.column })
                }
            },
        }
    }
}

/// The directive at a place, and the place behind it: a name, parameters,
/// maybe a block, and the line ends and comments behind them.
pub open spec fn directive_at(text: Seq<char>, cur: Cursor) -> Result<(DirectiveView, Cursor), Error>
    decreases text.len() - cur.pos, 2int,
{
    match word_at(text, cur) {
        Err(error) => Err(error),
        Ok((name, end)) => match params_at(text, after_blanks(text, end), Seq::empty()) {
            Err(error) => Err(error),
            Ok((params, end)) => {
                let here = after_blanks(text, end);
                if at(text, here.pos, '{') {
                    if cur.pos <= here.pos {
                        match block_at(text, here) {
                            Err(error) => Err(error),
                            Ok((children, behind)) => Ok(
                                (
                                    DirectiveView { name, params, children, line: cur.line },
                                    after_lines(text, behind),
                                ),
                            ),
                        }
                    } else {
                        Err(Error { expected: '{', line: here.line, column: here.column })
                    }
                } else {
                    Ok(
                        (
                            DirectiveView { name, params, children: Seq::empty(), line: cur.line },
                            after_lines(text, here),
                        ),
                    )
                }
            },
        },
    }
}

/// The block at a place, and the place behind it: an opening brace, line
/// ends and comments, directives, and a closing brace.
pub open spec fn block_at(text: Seq<char>, cur: Cursor) -> Result<(Seq<DirectiveView>, Cursor), Error>
    decreases text.len() - cur.pos, 1int,
{
    match expected(text, cur, '{') {
        Err(error) => Err(error),
        Ok(inside) => {
            let start = after_lines(text, inside);
            if cur.pos < start.pos <= text.len() {
                match items_at(text, start, true, Seq::empty()) {
                    Err(error) => Err(error),
                    Ok((children, end)) => match expected(text, end, '}') {
                        Err(error) => Err(error),
                        Ok(behind) => Ok((children, behind)),
                    },
                }
            } else {
                Err(Error { expected: '}', line: start.line, column: start.column })
            }
        },
    }
}

/// The directives from a place on, and the place behind them: up to the end
/// of the text, and in a block also up to a closing brace. Where a directive
/// is nothing at all, a line end is lacking.
pub open spec fn items_at(text: Seq<char>, cur: Cursor, in_block: bool, so_far: Seq<DirectiveView>) -> Result<(Seq<DirectiveView>, Cursor), Error>
    decreases text.len() - cur.pos, 3int,
{
    if !(0 <= cur.pos < text.len()) || (in_block && at(text, cur.pos, '}')) {
        Ok((so_far, cur))
    } else {
        match directive_at(text, cur) {
            Err(error) => Err(error),
            Ok((directive, behind)) => if cur.pos < behind.pos <= text.len() {
                items_at(text, behind, in_block, so_far.push(directive))
            } else {
                Err(Error { expected: '\n', line: behind.line, column: behind.column })
            },
        }
    }
}

/// The directives of a configuration.
pub open spec fn config(text: Seq<char>) -> Result<Seq<DirectiveView>, Error> {
    match items_at(
        text,
        after_lines(text, Cursor { pos: 0, line: 0, column: 0 }),
        false,
        Seq::empty(),
    ) {
        Err(error) => Err(error),
        Ok((directives, _)) => Ok(directives),
    }
}

/// A reader at a place in a text.
#[derive(Debug)]
struct Parser {
    text: Vec<char>,
    pos: usize,
    line: usize,
    column: usize,
}

impl Parser {
    /// The place of the reader.
    spec fn cursor(&self) -> Cursor {
        Cursor { pos: self.pos as int, line: self.line, column: self.column }
    }

    /// The place is in the text or at its end.
    spec fn wf(&self) -> bool {
        self.pos <= self.text@.len()
    }

    /// The reader is in the same text as `before`, not before the place where
    /// that is.
    spec fn follows(&self, before: &Parser) -> bool {
        self.wf() && self.text@ == before.text@ && self.pos >= before.pos
    }

    /// A reader at the start of a text.
    fn new(text: &str) -> (reader: Parser)
        ensures
            reader.wf(),
            reader.text@ == text@,
            reader.cursor() == (Cursor { pos: 0, line: 0, column: 0 }),
    {
        Parser { text: chars_of(text), pos: 0, line: 0, column: 0 }
    }

    /// Whether the next character is `c`.
    fn at(&self, c: char) -> (there: bool)
        requires
            self.wf(),
        ensures
            there == at(self.text@, self.pos as int, c),
            there ==> self.pos < usize::MAX,
    {
        self.pos < self.text.len() && self.text[self.pos] == c
    }

    /// Whether the text is read to its end.
    fn at_end(&self) -> (ended: bool)
        requires
            self.wf(),
        ensures
            ended == !(0 <= self.pos < self.text@.len()),
    {
        self.pos == self.text.len()
    }

    /// Passes over blanks and tabs.
    fn skip_wsp(&mut self)
        requires
            old(self).wf(),
        ensures
            final(self).follows(old(self)),
            final(self).cursor() == after_blanks(old(self).text@, old(self).cursor()),
            after_blanks(final(self).text@, final(self).cursor()) == final(self).cursor(),
    {
        while self.at(' ') || self.at('\t')
            invariant
                self.follows(old(self)),
                after_blanks(self.text@, self.cursor()) == after_blanks(
                    old(self).text@,
                    old(self).cursor(),
                ),
            decreases self.text@.len() - self.pos,
        {
            self.pos = self.pos + 1;
            self.column = self.column.saturating_add(1);
        }
    }

    /// Passes over blanks, line ends and comments.
    fn skip_newline(&mut self)
        requires
            old(self).wf(),
        ensures
            final(self).follows(old(self)),
            final(self).cursor() == after_lines(old(self).text@, old(self).cursor()),
    {
        loop
            invariant
                self.follows(old(self)),
                after_lines(self.text@, self.cursor()) == after_lines(
                    old(self).text@,
                    old(self).cursor(),
                ),
            ensures
                self.follows(old(self)),
                self.cursor() == after_lines(old(self).text@, old(self).cursor()),
                after_blanks(self.text@, self.cursor()) == self.cursor(),
            decreases self.text@.len() - self.pos,
        {
            let ghost start = self.cursor();
            self.skip_wsp();
            if self.at('\n') {
                self.pos = self.pos + 1;
                self.line = self.line.saturating_add(1);
                self.column = 0;
            } else if self.at('#') {
                let ghost from = self.pos;
                let ghost line = self.line;
                let ghost column = self.column;
                let total: usize = self.text.len();
                self.pos = self.pos + 1;
                while self.pos < self.text.len() && self.text[self.pos] != '\n'
                    invariant
                        from < self.pos <= self.text@.len(),
                        total == self.text@.len(),
                        self.text@ == old(self).text@,
                        self.line == line,
                        self.column == column,
                        old(self).pos <= from,
                        line_end(self.text@, self.pos as int) == line_end(self.text@, from + 1),
                    decreases self.text@.len() - self.pos,
                {
                    self.pos = self.pos + 1;
                }
                self.line = self.line.saturating_add(1);
                self.column = 0;
            } else {
                assert(after_lines(self.text@, start) == self.cursor());
                assert(after_blanks(self.text@, self.cursor()) == self.cursor());
                break ;
            }
        }
        self.skip_wsp();
    }

    /// Passes over the character `c`, which is expected.
    fn expect(&mut self, c: char) -> (result: Result<(), Error>)
        requires
            old(self).wf(),
        ensures
            final(self).follows(old(self)),
            match expected(old(self).text@, old(self).cursor(), c) {
                Ok(behind) => result is Ok && final(self).cursor() == behind && final(self).pos
                    == old(self).pos + 1,
                Err(error) => result == Err::<(), Error>(error) && final(self).cursor() == old(self).cursor(),
            },
    {
        if !self.at(c) {
            Err(Error { expected: c, line: self.line, column: self.column })
        } else {
            self.pos = self.pos + 1;
            self.column = self.column.saturating_add(len_utf8(c));
            Ok(())
        }
    }
}

/// The number of bytes of a character in UTF-8.
pub fn len_utf8(c: char) -> (n: usize)
    ensures
        n == utf8_len(c),
{
    let v: u32 = c as u32;
    if v < 0x80 {
        1
    } else if v < 0x800 {
        2
    } else if v < 0x10000 {
        3
    } else {
        4
    }
}

/// Whether a character may stand in a word of a kind as it is.
pub fn is_allowed(kind: Word, c: char) -> (ok: bool)
    ensures
        ok == allowed(kind, c),
{
    let v: u32 = c as u32;
    let atom: bool = v == 0x21 || (0x23 <= v && v <= 0x26) || (0x28 <= v && v <= 0x5b) || (0x5d
        <= v && v <= 0x7a) || v == 0x7c || v == 0x7e || v >= 0x80;
    match kind {
        Word::Atom => atom,
        Word::Double => atom || v == 0x27 || v == 0x7b || v == 0x7d || v == 0x20 || v == 0x09,
        Word::Single => v == 0x09 || (0x20 <= v && v <= 0x26) || (0x28 <= v && v <= 0x7e) || v
            >= 0x80,
    }
}

/// Reads the rest of a word of a kind.
fn parse_word_impl(p: &mut Parser, kind: Word) -> (word: String)
    requires
        old(p).wf(),
    ensures
        final(p).follows(old(p)),
        (word@, final(p).cursor()) == word_rest(
            old(p).text@,
            old(p).cursor(),
            kind,
            false,
            Seq::empty(),
        ),
{
    let mut atom: Vec<char> = Vec::new();
    let mut escaped: bool = false;
    let mut done: bool = false;
    while !done
        invariant
            p.follows(old(p)),
            word_rest(p.text@, p.cursor(), kind, escaped, atom@) == word_rest(
                old(p).text@,
                old(p).cursor(),
                kind,
                false,
                Seq::empty(),
            ),
            done ==> word_rest(p.text@, p.cursor(), kind, escaped, atom@) == (atom@, p.cursor()),
        decreases p.text@.len() - p.pos + if done { 0int } else { 1int },
    {
        if p.pos >= p.text.len() {
            done = true;
        } else {
            let c: char = p.text[p.pos];
            if is_allowed(kind, c) || (escaped && is_escapable(c)) {
                p.pos = p.pos + 1;
                p.column = p.column.saturating_add(len_utf8(c));
                atom.push(c);
                escaped = false;
            } else if c == '\\' && kind != Word::Single {
                p.pos = p.pos + 1;
                p.column = p.column.saturating_add(1);
                escaped = true;
            } else {
                done = true;
            }
        }
    }
    string_of(&atom)
}

/// Whether a character may stand behind a backslash.
pub fn is_escapable(c: char) -> (ok: bool)
    ensures
        ok == escapable(c),
{
    let v: u32 = c as u32;
    v >= 0x20 && v != 0x7f
}

/// Reads a bare word.
fn parse_atom(p: &mut Parser) -> (word: String)
    requires
        old(p).wf(),
    ensures
        final(p).follows(old(p)),
        (word@, final(p).cursor()) == word_rest(
            old(p).text@,
            old(p).cursor(),
            Word::Atom,
            false,
            Seq::empty(),
        ),
{
    parse_word_impl(p, Word::Atom)
}

/// Reads a word between quotes of a kind.
fn parse_quoted(p: &mut Parser, kind: Word, quote: char) -> (result: Result<String, Error>)
    requires
        old(p).wf(),
    ensures
        final(p).follows(old(p)),
        match quoted(old(p).text@, old(p).cursor(), kind, quote) {
            Ok((word, behind)) => result is Ok && result.unwrap()@ == word && final(p).cursor()
                == behind && final(p).pos > old(p).pos,
            Err(error) => result == Err::<String, Error>(error),
        },
{
    match p.expect(quote) {
        Err(error) => {
            return Err(error);
        },
        Ok(()) => {},
    }
    let word: String = parse_word_impl(p, kind);
    match p.expect(quote) {
        Err(error) => Err(error),
        Ok(()) => Ok(word),
    }
}

/// Reads a word between double quotes.
fn parse_dquote_word(p: &mut Parser) -> (result: Result<String, Error>)
    requires
        old(p).wf(),
    ensures
        final(p).follows(old(p)),
        match quoted(old(p).text@, old(p).cursor(), Word::Double, '"') {
            Ok((word, behind)) => result is Ok && result.unwrap()@ == word && final(p).cursor()
                == behind && final(p).pos > old(p).pos,
            Err(error) => result == Err::<String, Error>(error),
        },
{
    parse_quoted(p, Word::Double, '"')
}

/// Reads a word between single quotes.
fn parse_squote_word(p: &mut Parser) -> (result: Result<String, Error>)
    requires
        old(p).wf(),
    ensures
        final(p).follows(old(p)),
        match quoted(old(p).text@, old(p).cursor(), Word::Single, '\'') {
            Ok((word, behind)) => result is Ok && result.unwrap()@ == word && final(p).cursor()
                == behind && final(p).pos > old(p).pos,
            Err(error) => result == Err::<String, Error>(error),
        },
{
    parse_quoted(p, Word::Single, '\'')
}

/// Reads a word.
fn parse_word(p: &mut Parser) -> (result: Result<String, Error>)
    requires
        old(p).wf(),
    ensures
        final(p).follows(old(p)),
        match word_at(old(p).text@, old(p).cursor()) {
            Ok((word, behind)) => result is Ok && result.unwrap()@ == word && final(p).cursor()
                == behind,
            Err(error) => result == Err::<String, Error>(error),
        },
{
    if p.at('"') {
        parse_dquote_word(p)
    } else if p.at('\'') {
        parse_squote_word(p)
    } else {
        Ok(parse_atom(p))
    }
}

/// Reads the parameters of a directive.
fn parse_directive_params(p: &mut Parser) -> (result: Result<Vec<String>, Error>)
    requires
        old(p).wf(),
    ensures
        final(p).follows(old(p)),
        match params_at(old(p).text@, old(p).cursor(), Seq::empty()) {
            Ok((params, behind)) => result is Ok && result.unwrap().deep_view() == params
                && final(p).cursor() == behind,
            Err(error) => result == Err::<Vec<String>, Error>(error),
        },
{
    let mut params: Vec<String> = Vec::new();
    assert(params.deep_view() =~= Seq::<Seq<char>>::empty());
    while !p.at('\n') && !p.at('{') && !p.at_end()
        invariant
            p.follows(old(p)),
            params_at(p.text@, p.cursor(), params.deep_view()) == params_at(
                old(p).text@,
                old(p).cursor(),
                Seq::empty(),
            ),
        decreases p.text@.len() - p.pos,
    {
        let before: usize = p.pos;
        let ghost so_far = params.deep_view();
        match parse_word(p) {
            Err(error) => {
                return Err(error);
            },
            Ok(word) => {
                let ghost added = word@;
                params.push(word);
                assert(params.deep_view() =~= so_far.push(added));
            },
        }
        p.skip_wsp();
        if p.pos <= before {
            return Err(Error { expected: '\n', line: p.line, column: p.column });
        }
    }
    Ok(params)
}

/// Reads a directive.
fn parse_directive(p: &mut Parser) -> (result: Result<Directive, Error>)
    requires
        old(p).wf(),
    ensures
        final(p).follows(old(p)),
        match directive_at(old(p).text@, old(p).cursor()) {
            Ok((directive, behind)) => result is Ok && directive_view(result.unwrap())
                == directive && final(p).cursor() == behind,
            Err(error) => result == Err::<Directive, Error>(error),
        },
    decreases old(p).text@.len() - old(p).pos, 2int,
{
    let line: usize = p.line;
    let name: String = match parse_word(p) {
        Err(error) => {
            return Err(error);
        },
        Ok(name) => name,
    };
    p.skip_wsp();
    let params: Vec<String> = match parse_directive_params(p) {
        Err(error) => {
            return Err(error);
        },
        Ok(params) => params,
    };
    p.skip_wsp();
    let children: Vec<Directive> = if p.at('{') {
        match parse_block(p) {
            Err(error) => {
                return Err(error);
            },
            Ok(children) => children,
        }
    } else {
        let none: Vec<Directive> = Vec::new();
        assert(directive_views(none@) =~= Seq::<DirectiveView>::empty());
        none
    };
    p.skip_newline();
    let directive = Directive { name, params, children, line };
    assert(directive_view(directive).children =~= directive_views(directive.children@));
    Ok(directive)
}

/// Reads a block of directives.
fn parse_block(p: &mut Parser) -> (result: Result<Vec<Directive>, Error>)
    requires
        old(p).wf(),
    ensures
        final(p).follows(old(p)),
        match block_at(old(p).text@, old(p).cursor()) {
            Ok((children, behind)) => result is Ok && directive_views(result.unwrap()@)
                == children && final(p).cursor() == behind,
            Err(error) => result == Err::<Vec<Directive>, Error>(error),
        },
    decreases old(p).text@.len() - old(p).pos, 1int,
{
    match p.expect('{') {
        Err(error) => {
            return Err(error);
        },
        Ok(()) => {},
    }
    p.skip_newline();
    let directives: Vec<Directive> = match parse_items(p, true) {
        Err(error) => {
            return Err(error);
        },
        Ok(directives) => directives,
    };
    match p.expect('}') {
        Err(error) => Err(error),
        Ok(()) => Ok(directives),
    }
}

/// Reads directives up to the end of the text or, in a block, of the block.
fn parse_items(p: &mut Parser, in_block: bool) -> (result: Result<Vec<Directive>, Error>)
    requires
        old(p).wf(),
    ensures
        final(p).follows(old(p)),
        match items_at(old(p).text@, old(p).cursor(), in_block, Seq::empty()) {
            Ok((directives, behind)) => result is Ok && directive_views(result.unwrap()@)
                == directives && final(p).cursor() == behind,
            Err(error) => result == Err::<Vec<Directive>, Error>(error),
        },
    decreases old(p).text@.len() - old(p).pos, 3int,
{
    let mut directives: Vec<Directive> = Vec::new();
    assert(directive_views(directives@) =~= Seq::<DirectiveView>::empty());
    while !p.at_end() && !(in_block && p.at('}'))
        invariant
            p.follows(old(p)),
            items_at(p.text@, p.cursor(), in_block, directive_views(directives@)) == items_at(
                old(p).text@,
                old(p).cursor(),
                in_block,
                Seq::empty(),
            ),
        decreases p.text@.len() - p.pos,
    {
        let before: usize = p.pos;
        let ghost so_far = directive_views(directives@);
        match parse_directive(p) {
            Err(error) => {
                return Err(error);
            },
            Ok(directive) => {
                let ghost added = directive_view(directive);
                directives.push(directive);
                assert(directive_views(directives@) =~= so_far.push(added));
            },
        }
        if p.pos <= before {
            return Err(Error { expected: '\n', line: p.line, column: p.column });
        }
    }
    Ok(directives)
}

/// Reads the directives of a configuration.
fn parse_config(p: &mut Parser) -> (result: Result<Vec<Directive>, Error>)
    requires
        old(p).wf(),
    ensures
        final(p).follows(old(p)),
        match items_at(
            old(p).text@,
            after_lines(old(p).text@, old(p).cursor()),
            false,
            Seq::empty(),
        ) {
            Ok((directives, behind)) => result is Ok && directive_views(result.unwrap()@)
                == directives,
            Err(error) => result == Err::<Vec<Directive>, Error>(error),
        },
{
    p.skip_newline();
    parse_items(p, false)
}

/// The directives of a configuration, or what it lacks where it is not well
/// formed.
pub fn parse(text: &str) -> (result: Result<Vec<Directive>, Error>)
    ensures
        match config(text@) {
            Ok(directives) => result is Ok && directive_views(result.unwrap()@) == directives,
            Err(error) => result == Err::<Vec<Directive>, Error>(error),
        },
{
    let mut p: Parser = Parser::new(text);
    parse_config(&mut p)
}

} // verus!
