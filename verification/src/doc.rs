//! The words of a description as lines of documentation.

use crate::protocol::{Description, DescriptionView};
use crate::text::{chars_of, string_of};
use vstd::prelude::*;

verus! {

/// Whether a character is white space.
pub open spec fn white(c: char) -> bool {
    let v = c as u32;
    9 <= v <= 13 || v == 0x20 || v == 0x85 || v == 0xa0 || v == 0x1680 || 0x2000 <= v <= 0x200a
        || v == 0x2028 || v == 0x2029 || v == 0x202f || v == 0x205f || v == 0x3000
}

/// Whether a character is white space.
pub fn is_white(c: char) -> (w: bool)
    ensures
        w == white(c),
{
    let v: u32 = c as u32;
    (9 <= v && v <= 13) || v == 0x20 || v == 0x85 || v == 0xa0 || v == 0x1680 || (0x2000 <= v && v
        <= 0x200a) || v == 0x2028 || v == 0x2029 || v == 0x202f || v == 0x205f || v == 0x3000
}

/// The place of the first line end from a place on, or the end of the text.
pub open spec fn line_end(text: Seq<char>, pos: int) -> int
    decreases text.len() - pos,
{
    if 0 <= pos < text.len() && text[pos] != '\n' {
        line_end(text, pos + 1)
    } else {
        pos
    }
}

/// A line without the carriage return at its end, if it has one.
pub open spec fn without_return(line: Seq<char>) -> Seq<char> {
    if line.len() > 0 && line.last() == '\r' {
        line.drop_last()
    } else {
        line
    }
}

/// The lines of a text from a place on. A line ends with a line end, which
/// is not part of it, nor is a carriage return before the line end; the last
/// line may end with the text.
pub open spec fn lines_from(text: Seq<char>, pos: int) -> Seq<Seq<char>>
    decreases text.len() - pos,
{
    if 0 <= pos < text.len() {
        let end = line_end(text, pos);
        if pos <= end < text.len() {
            seq![without_return(text.subrange(pos, end))] + lines_from(text, end + 1)
        } else {
            seq![text.subrange(pos, text.len() as int)]
        }
    } else {
        Seq::empty()
    }
}

/// The lines of a text.
pub open spec fn lines(text: Seq<char>) -> Seq<Seq<char>> {
    lines_from(text, 0)
}

/// The place of the first character from a place on that is not white space,
/// or the end of the line.
pub open spec fn first_black(line: Seq<char>, pos: int) -> int
    decreases line.len() - pos,
{
    if 0 <= pos < line.len() && white(line[pos]) {
        first_black(line, pos + 1)
    } else {
        pos
    }
}

/// Whether a line is nothing but white space.
pub open spec fn blank(line: Seq<char>) -> bool {
    first_black(line, 0) >= line.len()
}

/// The white space that a line starts with, if it starts with some and has
/// more than that.
pub open spec fn indent(line: Seq<char>) -> Option<Seq<char>> {
    let at = first_black(line, 0);
    if 0 < at < line.len() {
        Some(line.take(at))
    } else {
        None
    }
}

/// Whether a text starts with another.
pub open spec fn starts_with(text: Seq<char>, start: Seq<char>) -> bool {
    start.len() <= text.len() && text.take(start.len() as int) == start
}

/// The indent that the lines so far have in common, after one more line: the
/// line's own where it is the first that has one, or where it is a proper
/// start of the common one.
pub open spec fn narrowed(so_far: Option<Seq<char>>, line: Seq<char>) -> Option<Seq<char>> {
    match (indent(line), so_far) {
        (None, _) => so_far,
        (Some(own), None) => Some(own),
        (Some(own), Some(common)) => if own.len() < common.len() && starts_with(common, own) {
            Some(own)
        } else {
            Some(common)
        },
    }
}

/// The indent that lines have in common.
pub open spec fn common_indent(lines: Seq<Seq<char>>) -> Option<Seq<char>>
    decreases lines.len(),
{
    if lines.len() == 0 {
        None
    } else {
        narrowed(common_indent(lines.drop_last()), lines.last())
    }
}

/// A line without a start, if it starts with that.
pub open spec fn without_start(line: Seq<char>, start: Seq<char>) -> Seq<char> {
    if starts_with(line, start) {
        line.skip(start.len() as int)
    } else {
        line
    }
}

/// Lines put together without an indent: each line that is not blank without
/// the indent, behind one blank and before a line end; for each blank line a
/// line end, but for those before the first line that is not blank. The flag
/// says whether a line is not blank.
pub open spec fn joined(lines: Seq<Seq<char>>, indent: Seq<char>) -> (Seq<char>, bool)
    decreases lines.len(),
{
    if lines.len() == 0 {
        (Seq::empty(), false)
    } else {
        let (text, any) = joined(lines.drop_last(), indent);
        let line = lines.last();
        if blank(line) {
            (
                if any {
                    text.push('\n')
                } else {
                    text
                },
                any,
            )
        } else {
            (text + seq![' '] + without_start(line, indent) + seq!['\n'], true)
        }
    }
}

/// A text of several lines without the indent that its lines have in common,
/// and without blank lines at its start.
pub open spec fn trimmed(text: Seq<char>) -> Seq<char> {
    let all = lines(text);
    joined(
        all,
        match common_indent(all) {
            Some(indent) => indent,
            None => Seq::empty(),
        },
    ).0
}

/// The texts of a list of lines.
pub open spec fn texts(all: Seq<Vec<char>>) -> Seq<Seq<char>> {
    Seq::new(all.len(), |i: int| all[i]@)
}

/// The lines of a text.
pub fn lines_of(text: &Vec<char>) -> (all: Vec<Vec<char>>)
    ensures
        texts(all@) == lines(text@),
{
    let mut all: Vec<Vec<char>> = Vec::new();
    let mut pos: usize = 0;
    let n: usize = text.len();
    assert(texts(all@) + lines_from(text@, 0) =~= lines(text@));
    while pos < n
        invariant
            pos <= n + 1,
            n == text@.len(),
            texts(all@) + lines_from(text@, pos as int) == lines(text@),
        decreases n + 1 - pos,
    {
        let ghost before = texts(all@);
        let start: usize = pos;
        let mut line: Vec<char> = Vec::new();
        while pos < n && text[pos] != '\n'
            invariant
                start <= pos <= n,
                n == text@.len(),
                line@ == text@.subrange(start as int, pos as int),
                line_end(text@, pos as int) == line_end(text@, start as int),
            decreases n - pos,
        {
            line.push(text[pos]);
            assert(line@ =~= text@.subrange(start as int, pos + 1));
            pos = pos + 1;
        }
        if pos < n {
            if line.len() > 0 && line[line.len() - 1] == '\r' {
                let ghost whole = line@;
                line.pop();
                assert(line@ =~= whole.drop_last());
            }
            pos = pos + 1;
        }
        let ghost added = line@;
        all.push(line);
        assert(texts(all@) =~= before.push(added));
        assert(texts(all@) + lines_from(text@, pos as int) =~= before + lines_from(
            text@,
            start as int,
        ));
    }
    assert(texts(all@) + Seq::<Seq<char>>::empty() =~= texts(all@));
    all
}

/// The place of the first character of a line that is not white space.
pub fn find_black(line: &Vec<char>) -> (at: usize)
    ensures
        at == first_black(line@, 0),
        at <= line@.len(),
{
    let mut at: usize = 0;
    while at < line.len() && is_white(line[at])
        invariant
            at <= line@.len(),
            first_black(line@, at as int) == first_black(line@, 0),
        decreases line@.len() - at,
    {
        at = at + 1;
    }
    at
}

/// Whether a line starts with the first `n` characters of another.
fn starts_with_prefix(line: &Vec<char>, other: &Vec<char>, n: usize) -> (starts: bool)
    requires
        n <= other@.len(),
    ensures
        starts == starts_with(line@, other@.take(n as int)),
{
    if line.len() < n {
        return false;
    }
    let mut i: usize = 0;
    while i < n
        invariant
            i <= n,
            n <= other@.len(),
            n <= line@.len(),
            forall|k: int| 0 <= k < i ==> line@[k] == other@[k],
        decreases n - i,
    {
        if line[i] != other[i] {
            assert(line@.take(n as int)[i as int] != other@.take(n as int)[i as int]);
            return false;
        }
        i = i + 1;
    }
    assert(line@.take(n as int) =~= other@.take(n as int));
    true
}

/// A text of several lines without the indent that its lines have in common,
/// and without blank lines at its start.
pub fn trim_multiline(text: &str) -> (out: String)
    ensures
        out@ == trimmed(text@),
{
    let chars: Vec<char> = chars_of(text);
    let out: Vec<char> = trim_lines(&chars);
    string_of(&out)
}

/// A text of several lines without the indent that its lines have in common,
/// and without blank lines at its start.
pub fn trim_lines(text: &Vec<char>) -> (out: Vec<char>)
    ensures
        out@ == trimmed(text@),
{
    let all: Vec<Vec<char>> = lines_of(text);
    let ghost views = texts(all@);
    // The common indent is the start of one of the lines: which line, and
    // how many characters of it.
    let mut common: Option<(usize, usize)> = None;
    let mut i: usize = 0;
    assert(common_indent(views.take(0)) is None);
    while i < all.len()
        invariant
            i <= all@.len(),
            views == texts(all@),
            match common {
                Some((line, n)) => line < i && n <= all@[line as int]@.len() && common_indent(
                    views.take(i as int),
                ) == Some(all@[line as int]@.take(n as int)),
                None => common_indent(views.take(i as int)) is None,
            },
        decreases all@.len() - i,
    {
        let line: &Vec<char> = &all[i];
        proof {
            assert(views.take(i + 1).drop_last() =~= views.take(i as int));
            assert(views.take(i + 1).last() == line@);
        }
        let at: usize = find_black(line);
        if 0 < at && at < line.len() {
            assert(line@.take(at as int).take(at as int) =~= line@.take(at as int));
            match common {
                None => {
                    common = Some((i, at));
                },
                Some((other, n)) => {
                    assert(all@[other as int]@ == views[other as int]);
                    if at < n && starts_with_prefix(&all[other], line, at) {
                        assert(all@[other as int]@.take(n as int).take(at as int)
                            =~= all@[other as int]@.take(at as int));
                        assert(starts_with(
                            all@[other as int]@.take(n as int),
                            line@.take(at as int),
                        ));
                        common = Some((i, at));
                    } else {
                        proof {
                            if at < n {
                                assert(all@[other as int]@.take(n as int).take(at as int)
                                    =~= all@[other as int]@.take(at as int));
                            }
                        }
                    }
                },
            }
        }
        i = i + 1;
    }
    assert(views.take(i as int) =~= views);
    let ghost indent: Seq<char> = match common {
        Some((line, n)) => all@[line as int]@.take(n as int),
        None => Seq::empty(),
    };
    let mut out: Vec<char> = Vec::new();
    let mut any: bool = false;
    let mut i: usize = 0;
    assert(joined(views.take(0), indent) == (Seq::<char>::empty(), false));
    while i < all.len()
        invariant
            i <= all@.len(),
            views == texts(all@),
            indent == match common {
                Some((line, n)) => all@[line as int]@.take(n as int),
                None => Seq::empty(),
            },
            match common {
                Some((line, n)) => line < all@.len() && n <= all@[line as int]@.len(),
                None => true,
            },
            (out@, any) == joined(views.take(i as int), indent),
        decreases all@.len() - i,
    {
        let line: &Vec<char> = &all[i];
        proof {
            assert(views.take(i + 1).drop_last() =~= views.take(i as int));
            assert(views.take(i + 1).last() == line@);
        }
        let ghost before = out@;
        if find_black(line) >= line.len() {
            if any {
                out.push('\n');
            }
        } else {
            let skip: usize = match common {
                Some((other, n)) => if starts_with_prefix(line, &all[other], n) {
                    n
                } else {
                    0
                },
                None => {
                    assert(starts_with(line@, Seq::<char>::empty())) by {
                        assert(line@.take(0) =~= Seq::<char>::empty());
                    }
                    0
                },
            };
            out.push(' ');
            let mut k: usize = skip;
            while k < line.len()
                invariant
                    skip <= k <= line@.len(),
                    out@ == before + seq![' '] + line@.subrange(skip as int, k as int),
                decreases line@.len() - k,
            {
                out.push(line[k]);
                assert(out@ =~= before + seq![' '] + line@.subrange(skip as int, k + 1));
                k = k + 1;
            }
            out.push('\n');
            proof {
                assert(line@.subrange(skip as int, line@.len() as int) =~= line@.skip(skip as int));
                if skip == 0 {
                    assert(line@.skip(0) =~= line@);
                }
                assert(out@ =~= before + seq![' '] + without_start(line@, indent) + seq!['\n']);
            }
            any = true;
        }
        i = i + 1;
    }
    assert(views.take(i as int) =~= views);
    out
}

/// A text without the white space at its end.
pub open spec fn trim_end(text: Seq<char>) -> Seq<char>
    decreases text.len(),
{
    if text.len() > 0 && white(text.last()) {
        trim_end(text.drop_last())
    } else {
        text
    }
}

/// A text without the white space at its start and at its end.
pub open spec fn trim(text: Seq<char>) -> Seq<char> {
    let start = first_black(text, 0);
    if 0 <= start <= text.len() {
        trim_end(text.skip(start))
    } else {
        trim_end(text)
    }
}

/// The documentation of something described, as one text: the summary, a
/// rule, and the body without its indent.
pub open spec fn doc_text(description: DescriptionView) -> Seq<char> {
    seq![' '] + trim(description.summary) + "\n\n ---\n\n"@ + trim_end(trimmed(description.body))
        + seq!['\n']
}

/// The lines of the documentation of something that may be described.
pub open spec fn doc_lines(description: Option<DescriptionView>) -> Seq<Seq<char>> {
    match description {
        Some(description) => lines(doc_text(description)),
        None => Seq::empty(),
    }
}

/// The lines of the documentation of something that may have a summary and
/// may be described: the summary behind a blank, then the lines of the
/// description.
pub open spec fn doc_lines_with_summary(summary: Option<Seq<char>>, description: Option<DescriptionView>) -> Seq<Seq<char>> {
    match summary {
        Some(summary) => seq![seq![' '] + summary] + doc_lines(description),
        None => doc_lines(description),
    }
}

/// Appends the characters of `text` from `from` up to `to`.
fn put_chars(out: &mut Vec<char>, text: &Vec<char>, from: usize, to: usize)
    requires
        from <= to <= text@.len(),
    ensures
        final(out)@ == old(out)@ + text@.subrange(from as int, to as int),
{
    let mut k: usize = from;
    assert(out@ =~= old(out)@ + text@.subrange(from as int, k as int));
    while k < to
        invariant
            from <= k <= to <= text@.len(),
            out@ == old(out)@ + text@.subrange(from as int, k as int),
        decreases to - k,
    {
        out.push(text[k]);
        assert(out@ =~= old(out)@ + text@.subrange(from as int, k + 1));
        k = k + 1;
    }
}

/// The number of characters of a text without the white space at its end,
/// counting from `from`.
fn black_end(text: &Vec<char>, from: usize) -> (end: usize)
    requires
        from <= text@.len(),
    ensures
        from <= end <= text@.len(),
        text@.subrange(from as int, end as int) == trim_end(text@.skip(from as int)),
{
    let mut end: usize = text.len();
    assert(text@.subrange(from as int, end as int) =~= text@.skip(from as int));
    while end > from && is_white(text[end - 1])
        invariant
            from <= end <= text@.len(),
            trim_end(text@.subrange(from as int, end as int)) == trim_end(text@.skip(from as int)),
        decreases end,
    {
        assert(text@.subrange(from as int, end as int).drop_last() =~= text@.subrange(
            from as int,
            end - 1,
        ));
        end = end - 1;
    }
    end
}

/// The texts of the lines.
fn strings_of(all: &Vec<Vec<char>>) -> (out: Vec<String>)
    ensures
        out.deep_view() == texts(all@),
{
    let mut out: Vec<String> = Vec::new();
    let mut i: usize = 0;
    while i < all.len()
        invariant
            i <= all@.len(),
            out@.len() == i,
            forall|k: int| 0 <= k < i ==> out@[k]@ == all@[k]@,
        decreases all@.len() - i,
    {
        out.push(string_of(&all[i]));
        i = i + 1;
    }
    assert(out.deep_view() =~= texts(all@));
    out
}

/// The lines of the documentation of something that may be described.
pub fn gen_doc_attr(description: Option<&Description>) -> (out: Vec<String>)
    ensures
        out.deep_view() == doc_lines(description.deep_view()),
{
    match description {
        None => {
            let out: Vec<String> = Vec::new();
            assert(out.deep_view() =~= Seq::<Seq<char>>::empty());
            out
        },
        Some(description) => {
            let summary: Vec<char> = chars_of(description.summary.as_str());
            let body: Vec<char> = trim_lines(&chars_of(description.body.as_str()));
            let rule: Vec<char> = chars_of("\n\n ---\n\n");
            let mut text: Vec<char> = Vec::new();
            text.push(' ');
            let start: usize = find_black(&summary);
            let end: usize = black_end(&summary, start);
            put_chars(&mut text, &summary, start, end);
            put_chars(&mut text, &rule, 0, rule.len());
            let body_end: usize = black_end(&body, 0);
            put_chars(&mut text, &body, 0, body_end);
            text.push('\n');
            proof {
                assert(rule@.subrange(0, rule@.len() as int) =~= rule@);
                assert(body@.skip(0) =~= body@);
                assert(text@ =~= doc_text(description.deep_view()));
            }
            strings_of(&lines_of(&text))
        },
    }
}

/// The lines of the documentation of something that may have a summary and
/// may be described.
pub fn gen_doc_attr_with_summary(summary: Option<&str>, description: Option<&Description>) -> (out: Vec<String>)
    ensures
        out.deep_view() == doc_lines_with_summary(
            match summary {
                Some(summary) => Some(summary@),
                None => None,
            },
            description.deep_view(),
        ),
{
    let described: Vec<String> = gen_doc_attr(description);
    match summary {
        None => described,
        Some(summary) => {
            let mut line: Vec<char> = Vec::new();
            line.push(' ');
            let chars: Vec<char> = chars_of(summary);
            put_chars(&mut line, &chars, 0, chars.len());
            assert(chars@.subrange(0, chars@.len() as int) =~= chars@);
            let mut out: Vec<String> = Vec::new();
            out.push(string_of(&line));
            let mut i: usize = 0;
            while i < described.len()
                invariant
                    i <= described@.len(),
                    out@.len() == i + 1,
                    out@[0]@ == seq![' '] + summary@,
                    forall|k: int| 0 <= k < i ==> out@[k + 1]@ == described@[k]@,
                decreases described@.len() - i,
            {
                out.push(described[i].clone());
                i = i + 1;
            }
            assert(out.deep_view() =~= seq![seq![' '] + summary@] + described.deep_view());
            out
        },
    }
}

} // verus!
