//! Reading numbered BASIC lines and `#list` ranges.
use vstd::prelude::*;
use crate::text::{
    chars_of, decimal_spec, lemma_decimal_digit, find_char, find_spec, is_ws, lemma_decimal_digits, lemma_find_spec,
    lemma_parse_decimal, lemma_split_concat, lemma_split_none, parse_u16, parse_u16_spec, slice_chars,
    split_chars, split_spec, string_of, trim_chars, trim_end_spec, trim_spec, trim_start_chars,
    trim_start_spec, views,
};
use crate::program::line_text;

verus! {

/// A program line as a BASIC interpreter lists it: after any leading
/// whitespace, a decimal `u16`, one space, then the statement (kept as is).
pub open spec fn parse_basic_line_spec(line: Seq<char>) -> Option<(u16, Seq<char>)> {
    let t = trim_start_spec(line);
    if t.len() == 0 {
        None
    } else {
        match find_spec(t, ' ') {
            None => None,
            Some(pos) => match parse_u16_spec(t.take(pos)) {
                Some(n) => Some((n, t.skip(pos + 1))),
                None => None,
            },
        }
    }
}

/// Reads `"linenum statement"`, as a BASIC interpreter lists a program
/// line, into the line number and the statement; leading whitespace is
/// skipped, trailing whitespace kept.
pub fn parse_basic_line(line: &str) -> (r: Option<(u16, String)>)
    ensures
        match r {
            Some((n, s)) => parse_basic_line_spec(line@) == Some((n, s@)),
            None => parse_basic_line_spec(line@) is None,
        },
{
    let cs = chars_of(line);
    let t = trim_start_chars(&cs);
    if t.len() == 0 {
        return None;
    }
    match find_char(&t, ' ') {
        None => None,
        Some(pos) => {
            let num = slice_chars(&t, 0, pos);
            match parse_u16(&num) {
                Some(n) => {
                    let content = slice_chars(&t, pos + 1, t.len());
                    Some((n, string_of(&content)))
                },
                None => None,
            }
        },
    }
}

/// The bounds of a `#list` command: the word after the command, split at
/// `-`, each side read as a decimal `u16`.
pub open spec fn parse_command_spec(command: Seq<char>) -> (Option<u16>, Option<u16>) {
    let parts = split_spec(trim_spec(command), ' ');
    if parts.len() < 2 {
        (None, None)
    } else {
        let range = split_spec(parts[1], '-');
        (parse_u16_spec(range[0]), if range.len() > 1 {
            parse_u16_spec(range[1])
        } else {
            None
        })
    }
}

/// Reads the optional start and end of a range command such as
/// `#list 10-20`, `#list 40-` or `#list -50`.
pub fn parse_command(command: &str) -> (r: (Option<u16>, Option<u16>))
    ensures
        r == parse_command_spec(command@),
{
    let cs = chars_of(command);
    let t = trim_chars(&cs);
    let parts = split_chars(&t, ' ');
    if parts.len() < 2 {
        return (None, None);
    }
    let range = split_chars(&parts[1], '-');
    assert(views(parts@)[1] == parts@[1]@);
    assert(views(range@)[0] == range@[0]@);
    let start = parse_u16(&range[0]);
    let end = if range.len() > 1 {
        assert(views(range@)[1] == range@[1]@);
        parse_u16(&range[1])
    } else {
        None
    };
    (start, end)
}

// ---------------------------------------------------------------------------
// Laws
// ---------------------------------------------------------------------------

pub proof fn lemma_line_text_parts(k: u16, stmt: Seq<char>)
    ensures
        find_spec(line_text(k, stmt), ' ') == Some(decimal_spec(k as nat).len() as int),
        line_text(k, stmt).take(decimal_spec(k as nat).len() as int) == decimal_spec(k as nat),
        line_text(k, stmt).skip(decimal_spec(k as nat).len() as int + 1) == stmt,
        trim_start_spec(line_text(k, stmt)) == line_text(k, stmt),
        parse_u16_spec(decimal_spec(k as nat)) == Some(k),
{
    let d = decimal_spec(k as nat);
    let l = line_text(k, stmt);
    lemma_decimal_digits(k as nat);
    lemma_parse_decimal(k);
    assert forall|j: int| 0 <= j < d.len() implies l[j] != ' ' by {
        assert(l[j] == d[j]);
    }
    lemma_find_spec(l, ' ', d.len() as int);
    assert(l.take(d.len() as int) == d);
    assert(l.skip(d.len() as int + 1) == stmt);
    assert(l[0] == d[0]);
}

/// A line of a listing reads back as its line number and statement:
/// `parse_basic_line("{n} {stmt}") == Some((n, stmt))`.
pub proof fn law_listed_line_reads_back(k: u16, stmt: Seq<char>)
    ensures
        parse_basic_line_spec(line_text(k, stmt)) == Some((k, stmt)),
{
    lemma_line_text_parts(k, stmt);
}

/// `#list A-B`, `#list A-`, `#list -B` and `#list A` give the bounds they
/// name, for a command word that starts with no whitespace and holds no space.
pub proof fn law_range_command(cmd: Seq<char>, a: u16, b: u16)
    requires
        cmd.len() > 0,
        !is_ws(cmd[0]),
        forall|i: int| 0 <= i < cmd.len() ==> cmd[i] != ' ',
    ensures
        parse_command_spec(cmd + seq![' '] + decimal_spec(a as nat) + seq!['-'] + decimal_spec(
            b as nat,
        )) == (Some(a), Some(b)),
        parse_command_spec(cmd + seq![' '] + decimal_spec(a as nat) + seq!['-']) == (
            Some(a),
            None::<u16>,
        ),
        parse_command_spec(cmd + seq![' '] + seq!['-'] + decimal_spec(b as nat)) == (
            None::<u16>,
            Some(b),
        ),
        parse_command_spec(cmd + seq![' '] + decimal_spec(a as nat)) == (Some(a), None::<u16>),
{
    let da = decimal_spec(a as nat);
    let db = decimal_spec(b as nat);
    lemma_decimal_digits(a as nat);
    lemma_decimal_digits(b as nat);
    lemma_parse_decimal(a);
    lemma_parse_decimal(b);
    let empty = Seq::<char>::empty();
    assert(parse_u16_spec(empty) is None);
    lemma_last_digit(a as nat);
    lemma_last_digit(b as nat);
    lemma_split_none(da, '-');
    lemma_split_none(db, '-');
    lemma_split_none(cmd, ' ');
    lemma_split_none(empty, '-');
    // `A-B`
    let r1 = da + seq!['-'] + db;
    lemma_split_concat(da, db, '-');
    lemma_no_space_concat(da, db);
    lemma_command_shape(cmd, r1, db.last());
    assert(r1.last() == db.last());
    assert(cmd + seq![' '] + da + seq!['-'] + db == cmd + seq![' '] + r1);
    // `A-`
    let r2 = da + seq!['-'];
    assert(r2 == da + seq!['-'] + empty);
    lemma_split_concat(da, empty, '-');
    lemma_no_space_concat(da, empty);
    lemma_command_shape(cmd, r2, '-');
    assert(r2.last() == '-');
    assert(cmd + seq![' '] + da + seq!['-'] == cmd + seq![' '] + r2);
    // `-B`
    let r3 = seq!['-'] + db;
    assert(r3 == empty + seq!['-'] + db);
    lemma_split_concat(empty, db, '-');
    lemma_no_space_concat(empty, db);
    lemma_command_shape(cmd, r3, db.last());
    assert(r3.last() == db.last());
    assert(cmd + seq![' '] + seq!['-'] + db == cmd + seq![' '] + r3);
    // `A`
    lemma_command_shape(cmd, da, da.last());
    assert(split_spec(da, '-') == seq![da]);
}

proof fn lemma_last_digit(n: nat)
    ensures
        !is_ws(decimal_spec(n).last()),
{
    lemma_decimal_digits(n);
    lemma_decimal_digit(n % 10);
}

proof fn lemma_no_space_concat(x: Seq<char>, y: Seq<char>)
    requires
        forall|i: int| 0 <= i < x.len() ==> x[i] != ' ',
        forall|i: int| 0 <= i < y.len() ==> y[i] != ' ',
    ensures
        forall|i: int| 0 <= i < (x + seq!['-'] + y).len() ==> (x + seq!['-'] + y)[i] != ' ',
{
    let s = x + seq!['-'] + y;
    assert forall|i: int| 0 <= i < s.len() implies s[i] != ' ' by {
        if i < x.len() {
            assert(s[i] == x[i]);
        } else if i > x.len() {
            assert(s[i] == y[i - x.len() - 1]);
        }
    }
}

/// A command word, a space and a word without spaces that does not end in
/// whitespace: trimming keeps it and splitting gives the two words.
proof fn lemma_command_shape(cmd: Seq<char>, arg: Seq<char>, last: char)
    requires
        cmd.len() > 0,
        !is_ws(cmd[0]),
        forall|i: int| 0 <= i < cmd.len() ==> cmd[i] != ' ',
        arg.len() > 0,
        arg.last() == last,
        !is_ws(last),
        forall|i: int| 0 <= i < arg.len() ==> arg[i] != ' ',
    ensures
        split_spec(trim_spec(cmd + seq![' '] + arg), ' ') == seq![cmd, arg],
{
    let s = cmd + seq![' '] + arg;
    assert(s.last() == last);
    assert(trim_end_spec(s) == s);
    assert(s[0] == cmd[0]);
    assert(trim_start_spec(s) == s);
    lemma_split_concat(cmd, arg, ' ');
    lemma_split_none(cmd, ' ');
    lemma_split_none(arg, ' ');
    assert(seq![cmd] + seq![arg] == seq![cmd, arg]);
}

} // verus!
