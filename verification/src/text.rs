//! Texts as sequences of lines, and the decimal form of a number.

use vstd::prelude::*;
use vstd::std_specs::iter::IteratorSpec;
use vstd::string::*;

verus! {

/// `String::push` appends one character to the string.
pub assume_specification[ String::push ](s: &mut String, ch: char)
    ensures
        final(s)@ == old(s)@.push(ch),
;

/// The character that stands for a digit below ten.
pub open spec fn digit_char(d: nat) -> char
    recommends
        d < 10,
{
    if d == 0 {
        '0'
    } else if d == 1 {
        '1'
    } else if d == 2 {
        '2'
    } else if d == 3 {
        '3'
    } else if d == 4 {
        '4'
    } else if d == 5 {
        '5'
    } else if d == 6 {
        '6'
    } else if d == 7 {
        '7'
    } else if d == 8 {
        '8'
    } else {
        '9'
    }
}

/// A number in decimal, without sign and without leading zeros.
pub open spec fn decimal(n: nat) -> Seq<char>
    decreases n,
{
    if n < 10 {
        seq![digit_char(n)]
    } else {
        decimal(n / 10).push(digit_char(n % 10))
    }
}

fn digit(d: u8) -> (c: char)
    requires
        d < 10,
    ensures
        c == digit_char(d as nat),
{
    if d == 0 {
        '0'
    } else if d == 1 {
        '1'
    } else if d == 2 {
        '2'
    } else if d == 3 {
        '3'
    } else if d == 4 {
        '4'
    } else if d == 5 {
        '5'
    } else if d == 6 {
        '6'
    } else if d == 7 {
        '7'
    } else if d == 8 {
        '8'
    } else {
        '9'
    }
}

/// Appends `n` in decimal to `out`.
pub fn push_decimal(out: &mut String, n: u128)
    ensures
        final(out)@ == old(out)@ + decimal(n as nat),
    decreases n,
{
    if n >= 10 {
        push_decimal(out, n / 10);
    }
    out.push(digit((n % 10) as u8));
}

/// One trailing carriage return is not part of a line that a newline ends.
pub open spec fn strip_cr(line: Seq<char>) -> Seq<char> {
    if line.len() > 0 && line.last() == '\r' {
        line.drop_last()
    } else {
        line
    }
}

/// The lines that `text` has completed, and the characters after its last
/// newline.
pub open spec fn split_state(text: Seq<char>) -> (Seq<Seq<char>>, Seq<char>)
    decreases text.len(),
{
    if text.len() == 0 {
        (Seq::empty(), Seq::empty())
    } else {
        let (done, rest) = split_state(text.drop_last());
        if text.last() == '\n' {
            (done.push(strip_cr(rest)), Seq::empty())
        } else {
            (done, rest.push(text.last()))
        }
    }
}

/// The lines of a text. A line ends at a newline, or at a carriage return
/// directly followed by a newline; neither belongs to the line. What follows
/// the last newline is a line of its own unless it is empty.
pub open spec fn lines_of(text: Seq<char>) -> Seq<Seq<char>> {
    let (done, rest) = split_state(text);
    if rest.len() > 0 {
        done.push(rest)
    } else {
        done
    }
}

/// Pushing a line onto a list of lines pushes its characters onto the view.
pub proof fn lemma_push_line(before: Vec<String>, after: Vec<String>, line: String)
    requires
        after@ == before@.push(line),
    ensures
        after.deep_view() == before.deep_view().push(line@),
{
    assert(after.deep_view() =~= before.deep_view().push(line@));
}

/// Splits a text into its lines.
pub fn split_lines(text: &str) -> (lines: Vec<String>)
    ensures
        lines.deep_view() == lines_of(text@),
{
    let mut lines: Vec<String> = Vec::new();
    let mut line = String::new();
    let mut held_cr = false;
    let ghost mut seen: Seq<char> = Seq::empty();
    let mut chars = text.chars();
    loop
        invariant
            chars.obeys_prophetic_iter_laws(),
            seen + chars.remaining() == text@,
            lines.deep_view() == split_state(seen).0,
            split_state(seen).1 == if held_cr {
                line@.push('\r')
            } else {
                line@
            },
            !held_cr ==> strip_cr(line@) == line@,
        ensures
            seen == text@,
        decreases text@.len() - seen.len(),
    {
        let ghost before = chars.remaining();
        match chars.next() {
            None => {
                proof {
                    assert(seen == text@);
                }
                break ;
            },
            Some(c) => {
                proof {
                    assert(seen.push(c).last() == c);
                    assert((seen.push(c)).drop_last() == seen);
                    assert(seen.push(c) + chars.remaining() == seen + before);
                }
                if c == '\n' {
                    let ghost old_lines = lines;
                    let ghost ended = line;
                    lines.push(line);
                    line = String::new();
                    held_cr = false;
                    proof {
                        lemma_push_line(old_lines, lines, ended);
                        assert(strip_cr(ended@.push('\r')) == ended@);
                    }
                } else {
                    if held_cr {
                        line.push('\r');
                    }
                    if c == '\r' {
                        held_cr = true;
                    } else {
                        held_cr = false;
                        line.push(c);
                    }
                }
                proof {
                    seen = seen.push(c);
                }
            },
        }
    }
    if held_cr {
        line.push('\r');
    }
    if !line.as_str().is_empty() {
        let ghost old_lines = lines;
        let ghost ended = line;
        lines.push(line);
        proof {
            lemma_push_line(old_lines, lines, ended);
        }
    }
    lines
}

/// The lines one after another, each between `prefix` and `suffix`.
pub open spec fn framed(lines: Seq<Seq<char>>, prefix: Seq<char>, suffix: Seq<char>) -> Seq<char>
    decreases lines.len(),
{
    if lines.len() == 0 {
        Seq::empty()
    } else {
        framed(lines.drop_last(), prefix, suffix) + prefix + lines.last() + suffix
    }
}

/// The text whose lines are `lines`, each ended by a newline.
pub open spec fn join_lines(lines: Seq<Seq<char>>) -> Seq<char> {
    framed(lines, Seq::empty(), seq!['\n'])
}

/// Framing two lists of lines one after the other frames their concatenation.
pub proof fn lemma_framed_concat(
    first: Seq<Seq<char>>,
    second: Seq<Seq<char>>,
    prefix: Seq<char>,
    suffix: Seq<char>,
)
    ensures
        framed(first + second, prefix, suffix) == framed(first, prefix, suffix) + framed(
            second,
            prefix,
            suffix,
        ),
    decreases second.len(),
{
    if second.len() == 0 {
        assert(first + second =~= first);
        assert(framed(first, prefix, suffix) + framed(second, prefix, suffix) =~= framed(
            first,
            prefix,
            suffix,
        ));
    } else {
        lemma_framed_concat(first, second.drop_last(), prefix, suffix);
        assert((first + second).drop_last() =~= first + second.drop_last());
        assert((first + second).last() == second.last());
        assert(framed(first + second, prefix, suffix) =~= framed(first, prefix, suffix) + framed(
            second,
            prefix,
            suffix,
        ));
    }
}

/// No newline of the text stands directly behind a carriage return.
pub open spec fn plain_newlines(text: Seq<char>) -> bool {
    forall|i: int| 0 < i < text.len() && #[trigger] text[i] == '\n' ==> text[i - 1] != '\r'
}

/// Every line of the text ends with a newline, and with a newline alone:
/// such a text is the same as its lines joined.
pub open spec fn newline_terminated(text: Seq<char>) -> bool {
    &&& text.len() > 0 ==> text.last() == '\n'
    &&& plain_newlines(text)
}

/// Where every newline stands alone, the completed lines of a text and what
/// follows them make up the text.
proof fn lemma_split_joins(text: Seq<char>)
    requires
        plain_newlines(text),
    ensures
        join_lines(split_state(text).0) + split_state(text).1 == text,
        split_state(text).1.len() > 0 ==> split_state(text).1.last() == text.last(),
        text.len() > 0 && text.last() == '\n' ==> split_state(text).1.len() == 0,
    decreases text.len(),
{
    if text.len() == 0 {
        assert(join_lines(split_state(text).0) + split_state(text).1 =~= text);
    } else {
        let front = text.drop_last();
        assert forall|i: int| 0 < i < front.len() && #[trigger] front[i] == '\n' implies front[i
            - 1] != '\r' by {
            assert(text[i] == '\n');
        }
        lemma_split_joins(front);
        let (done, rest) = split_state(front);
        if text.last() == '\n' {
            if rest.len() > 0 {
                assert(rest.last() == front.last());
                assert(text[text.len() - 1] == '\n');
                assert(front.last() == text[text.len() - 2]);
            }
            assert(strip_cr(rest) == rest);
            let lines = done.push(rest);
            assert(lines.drop_last() =~= done);
            assert(join_lines(lines) =~= join_lines(done) + rest + seq!['\n']);
            assert(join_lines(lines) + Seq::<char>::empty() =~= front.push('\n'));
            assert(front.push('\n') =~= text);
        } else {
            assert(join_lines(done) + rest.push(text.last()) =~= (join_lines(done) + rest).push(
                text.last(),
            ));
            assert(front.push(text.last()) =~= text);
        }
    }
}

/// A text whose every line ends with a newline alone is its lines joined.
pub proof fn lemma_join_of_lines(text: Seq<char>)
    requires
        newline_terminated(text),
    ensures
        join_lines(lines_of(text)) == text,
{
    lemma_split_joins(text);
    if text.len() == 0 {
        assert(join_lines(lines_of(text)) =~= text);
    } else {
        assert(split_state(text).1.len() == 0);
        assert(join_lines(split_state(text).0) + split_state(text).1 =~= join_lines(
            split_state(text).0,
        ));
    }
}

/// Appends the lines from `start` up to `end`, each between `prefix` and
/// `suffix`.
pub fn push_framed(
    out: &mut String,
    prefix: &str,
    lines: &Vec<String>,
    start: usize,
    end: usize,
    suffix: &str,
)
    requires
        start <= end <= lines.len(),
    ensures
        final(out)@ == old(out)@ + framed(
            lines.deep_view().subrange(start as int, end as int),
            prefix@,
            suffix@,
        ),
{
    let ghost all = lines.deep_view();
    let mut i: usize = start;
    assert(old(out)@ + framed(all.subrange(start as int, start as int), prefix@, suffix@) =~= old(
        out,
    )@);
    while i < end
        invariant
            start <= i <= end <= lines.len(),
            all == lines.deep_view(),
            out@ == old(out)@ + framed(all.subrange(start as int, i as int), prefix@, suffix@),
        decreases end - i,
    {
        let ghost part = all.subrange(start as int, i as int + 1);
        assert(part.drop_last() =~= all.subrange(start as int, i as int));
        assert(part.last() == lines@[i as int]@);
        let ghost sofar = out@;
        out.append(prefix);
        out.append(lines[i].as_str());
        out.append(suffix);
        assert(out@ =~= sofar + prefix@ + lines@[i as int]@ + suffix@);
        assert(out@ =~= old(out)@ + framed(part, prefix@, suffix@));
        i += 1;
    }
}

} // verus!
