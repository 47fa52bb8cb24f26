//! Lower-case sending: a program is sent in lower case, except inside
//! string literals and on `REM` lines.
use vstd::prelude::*;
use crate::text::{
    append_chars, chars_of, is_ws, lemma_split_none, split_chars, split_spec, starts_with,
    starts_with_spec, string_of, trim_chars, trim_end_spec, trim_spec, trim_start_spec, views,
};

verus! {

/// The first character of the lower-case mapping of `c` as the standard
/// library's Unicode tables give it.
pub uninterp spec fn char_lowercase(c: char) -> char;

/// `char::to_lowercase`, first character of the mapping (the mapping always
/// has at least one character). Nothing is claimed of which character that is.
#[verifier::external_body]
fn lowercase_first(c: char) -> (r: char)
    ensures
        r == char_lowercase(c),
{
    c.to_lowercase().next().unwrap()
}

/// A line without the carriage return that ends it, if any.
pub open spec fn strip_cr(l: Seq<char>) -> Seq<char> {
    if l.len() > 0 && l.last() == '\r' {
        l.drop_last()
    } else {
        l
    }
}

/// The lines of `s` (`str::lines`): split at `\n`, a `\r` before the `\n`
/// dropped, and no empty last line after a final `\n`.
pub open spec fn lines_spec(s: Seq<char>) -> Seq<Seq<char>> {
    let p = split_spec(s, '\n');
    let done = p.drop_last().map_values(|l: Seq<char>| strip_cr(l));
    if p.last().len() == 0 {
        done
    } else {
        done.push(p.last())
    }
}

/// One line lowered outside double quotes, starting inside quotes when
/// `quoted`; gives the line and whether it ends inside quotes. A quote
/// character flips the state before it is itself written.
pub open spec fn lower_line_spec(cs: Seq<char>, quoted: bool) -> (Seq<char>, bool)
    decreases cs.len(),
{
    if cs.len() == 0 {
        (Seq::<char>::empty(), quoted)
    } else {
        let (o, q1) = lower_line_spec(cs.drop_last(), quoted);
        let c = cs.last();
        let q2 = if c == '"' {
            !q1
        } else {
            q1
        };
        (o.push(
            if q2 {
                c
            } else {
                char_lowercase(c)
            },
        ), q2)
    }
}

/// How one line is sent: trimmed, lowered outside quotes, but sent as
/// trimmed when its lowered form starts with `rem`; then a carriage return.
pub open spec fn lower_one_spec(line: Seq<char>, quoted: bool) -> (Seq<char>, bool) {
    let t = trim_spec(line);
    let (tmp, q) = lower_line_spec(t, quoted);
    (if starts_with_spec(tmp, "rem"@) {
        t
    } else {
        tmp
    }.push('\r'), q)
}

/// The lines sent one after another; the quote state carries over from line
/// to line.
pub open spec fn lower_lines_spec(lines: Seq<Seq<char>>, quoted: bool) -> (Seq<char>, bool)
    decreases lines.len(),
{
    if lines.len() == 0 {
        (Seq::<char>::empty(), quoted)
    } else {
        let (o, q1) = lower_lines_spec(lines.drop_last(), quoted);
        let (l, q2) = lower_one_spec(lines.last(), q1);
        (o + l, q2)
    }
}

/// The text that lower-case sending makes of a program.
pub open spec fn lower_program_spec(input: Seq<char>) -> Seq<char> {
    lower_lines_spec(lines_spec(input), false).0
}

fn lower_line(cs: &Vec<char>, quoted: bool) -> (r: (Vec<char>, bool))
    ensures
        (r.0@, r.1) == lower_line_spec(cs@, quoted),
{
    let mut out: Vec<char> = Vec::new();
    let mut q = quoted;
    for i in 0..cs.len()
        invariant
            (out@, q) == lower_line_spec(cs@.take(i as int), quoted),
    {
        let c = cs[i];
        assert(cs@.take(i + 1).drop_last() == cs@.take(i as int));
        if c == '"' {
            q = !q;
        }
        if q {
            out.push(c);
        } else {
            out.push(lowercase_first(c));
        }
    }
    assert(cs@.take(cs@.len() as int) == cs@);
    (out, q)
}

fn lower_one(out: &mut Vec<char>, line: &Vec<char>, quoted: bool) -> (q: bool)
    ensures
        final(out)@ == old(out)@ + lower_one_spec(line@, quoted).0,
        q == lower_one_spec(line@, quoted).1,
{
    let t = trim_chars(line);
    let (tmp, q) = lower_line(&t, quoted);
    if starts_with(&tmp, "rem") {
        append_chars(out, &t);
    } else {
        append_chars(out, &tmp);
    }
    out.push('\r');
    q
}

fn strip_cr_chars(l: &Vec<char>) -> (r: Vec<char>)
    ensures
        r@ == strip_cr(l@),
{
    let mut r = l.clone();
    if r.len() > 0 && r[r.len() - 1] == '\r' {
        r.pop();
    }
    r
}

/// Lowers a program for sending: each line is trimmed and lower-cased
/// outside double quotes (a quote left open carries over to the next line);
/// a line whose lowered form starts with `rem` is sent trimmed but
/// otherwise unchanged. Every line ends in a carriage return.
pub fn lower_program(input: &str) -> (r: String)
    ensures
        r@ == lower_program_spec(input@),
{
    let cs = chars_of(input);
    let pieces = split_chars(&cs, '\n');
    let ghost p = views(pieces@);
    let ghost lines = lines_spec(input@);
    let n = pieces.len();
    let mut out: Vec<char> = Vec::new();
    let mut quoted = false;
    let mut i: usize = 0;
    assert(lines.take(0) == Seq::<Seq<char>>::empty());
    while i + 1 < n
        invariant
            n == pieces@.len(),
            n >= 1,
            p == views(pieces@),
            p == split_spec(input@, '\n'),
            lines == lines_spec(input@),
            i + 1 <= n,
            (out@, quoted) == lower_lines_spec(lines.take(i as int), false),
        decreases n - i,
    {
        let line = strip_cr_chars(&pieces[i]);
        assert(lines[i as int] == strip_cr(p[i as int]));
        assert(lines.take(i + 1).drop_last() == lines.take(i as int));
        assert(lines.take(i + 1).last() == lines[i as int]);
        quoted = lower_one(&mut out, &line, quoted);
        i = i + 1;
    }
    let last = &pieces[n - 1];
    if last.len() > 0 {
        assert(lines.take(i + 1).drop_last() == lines.take(i as int));
        assert(lines.take(i + 1).last() == p[i as int]);
        lower_one(&mut out, last, quoted);
        assert(lines.take(i + 1) == lines);
    } else {
        assert(lines.take(i as int) == lines);
    }
    string_of(&out)
}

/// Outside double quotes every character is lowered: a one-line text with
/// no `"` whose lowered trimmed form does not start with `rem` is sent as
/// its trimmed text lowered character by character, then `\r`.
pub proof fn law_lower_unquoted_line(x: Seq<char>)
    requires
        x.len() > 0,
        forall|i: int| 0 <= i < x.len() ==> x[i] != '"' && x[i] != '\n',
        !starts_with_spec(trim_spec(x).map_values(|c: char| char_lowercase(c)), "rem"@),
    ensures
        lower_program_spec(x) == trim_spec(x).map_values(|c: char| char_lowercase(c)).push('\r'),
{
    lemma_split_none(x, '\n');
    let ls = lines_spec(x);
    assert(ls == seq![x]);
    assert(ls.drop_last() == Seq::<Seq<char>>::empty());
    let t = trim_spec(x);
    lemma_trim_sub(x);
    lemma_lower_unquoted(t);
    assert(lower_lines_spec(Seq::<Seq<char>>::empty(), false) == (Seq::<char>::empty(), false));
    assert(Seq::<char>::empty() + t.map_values(|c: char| char_lowercase(c)).push('\r')
        == t.map_values(|c: char| char_lowercase(c)).push('\r'));
}

proof fn lemma_lower_unquoted(t: Seq<char>)
    requires
        forall|i: int| 0 <= i < t.len() ==> t[i] != '"',
    ensures
        lower_line_spec(t, false) == (t.map_values(|c: char| char_lowercase(c)), false),
    decreases t.len(),
{
    if t.len() > 0 {
        lemma_lower_unquoted(t.drop_last());
        assert(t.map_values(|c: char| char_lowercase(c)) == t.drop_last().map_values(
            |c: char| char_lowercase(c),
        ).push(char_lowercase(t.last())));
    } else {
        assert(t.map_values(|c: char| char_lowercase(c)) == Seq::<char>::empty());
    }
}

/// The characters of a trimmed text are characters of the text.
proof fn lemma_trim_sub(x: Seq<char>)
    ensures
        forall|i: int|
            0 <= i < trim_spec(x).len() ==> exists|j: int| 0 <= j < x.len() && x[j] == #[trigger] trim_spec(x)[i],
{
    lemma_trim_end_sub(x);
    lemma_trim_start_sub(trim_end_spec(x));
}

proof fn lemma_trim_end_sub(x: Seq<char>)
    ensures
        forall|i: int|
            0 <= i < trim_end_spec(x).len() ==> exists|j: int| 0 <= j < x.len() && x[j] == #[trigger] trim_end_spec(x)[i],
    decreases x.len(),
{
    if x.len() > 0 && is_ws(x.last()) {
        lemma_trim_end_sub(x.drop_last());
        assert forall|i: int| 0 <= i < trim_end_spec(x).len() implies exists|j: int|
            0 <= j < x.len() && x[j] == #[trigger] trim_end_spec(x)[i] by {
            let j = choose|j: int| 0 <= j < x.drop_last().len() && x.drop_last()[j] == trim_end_spec(x.drop_last())[i];
            assert(x[j] == x.drop_last()[j]);
        }
    } else {
        assert forall|i: int| 0 <= i < trim_end_spec(x).len() implies exists|j: int|
            0 <= j < x.len() && x[j] == #[trigger] trim_end_spec(x)[i] by {
            assert(x[i] == trim_end_spec(x)[i]);
        }
    }
}

proof fn lemma_trim_start_sub(x: Seq<char>)
    ensures
        forall|i: int|
            0 <= i < trim_start_spec(x).len() ==> exists|j: int| 0 <= j < x.len() && x[j] == #[trigger] trim_start_spec(x)[i],
    decreases x.len(),
{
    if x.len() > 0 && is_ws(x[0]) {
        lemma_trim_start_sub(x.drop_first());
        assert forall|i: int| 0 <= i < trim_start_spec(x).len() implies exists|j: int|
            0 <= j < x.len() && x[j] == #[trigger] trim_start_spec(x)[i] by {
            let j = choose|j: int| 0 <= j < x.drop_first().len() && x.drop_first()[j] == trim_start_spec(x.drop_first())[i];
            assert(x[j + 1] == x.drop_first()[j]);
        }
    } else {
        assert forall|i: int| 0 <= i < trim_start_spec(x).len() implies exists|j: int|
            0 <= j < x.len() && x[j] == #[trigger] trim_start_spec(x)[i] by {
            assert(x[i] == trim_start_spec(x)[i]);
        }
    }
}

} // verus!
