//! The console side: which local command a typed line is, how typed text
//! splits into lines, and what the terminal sends or keeps for them.
use vstd::prelude::*;
use crate::text::{
    append_chars, append_str, chars_of, is_ws, slice_chars, split_chars,
    split_spec, starts_with, starts_with_spec, string_of, trim_chars, trim_spec, views,
};
use crate::lower::{lines_spec, lower_program, lower_program_spec, strip_cr};
use crate::receive::{lemma_stored_all_entries, lines_up_to, stored_all};
use crate::program::{
    entries, entries_spec, entry_views, law_entered_line_is_listed, law_listing_ordered,
    line_text, listing_of, parse_basic_spec, string_views, Msxterm, TermView,
};
use crate::text::{
    decimal_spec, lemma_decimal_digits, lemma_decimal_len_mono, lemma_split_concat,
    lemma_split_none, lemma_trimmed_ends_solid, lemma_trimmed_starts_solid, push_decimal, trim_end_spec, trim_start_spec,
};

verus! {

/// The local commands of the console, and `Basic` for a line that is sent
/// to the MSX.
#[derive(Clone, Copy, Debug, PartialEq, Eq, Structural)]
pub enum InputCommand {
    Quit,
    Hex,
    DumpOn,
    DumpOff,
    LowSendOn,
    LowSendOff,
    KanjiOn,
    KanjiOff,
    Emacs,
    Vi,
    ClearHistory,
    New,
    Load,
    List,
    ReloadFrom,
    Renum,
    Save,
    Basic,
}

/// The command that a typed line names: the first of the command words,
/// in this order, that the line starts with.
pub open spec fn classify_spec(line: Seq<char>) -> InputCommand {
    if starts_with_spec(line, "#quit"@) {
        InputCommand::Quit
    } else if starts_with_spec(line, "#hex"@) {
        InputCommand::Hex
    } else if starts_with_spec(line, "#dump_on"@) {
        InputCommand::DumpOn
    } else if starts_with_spec(line, "#dump_off"@) {
        InputCommand::DumpOff
    } else if starts_with_spec(line, "#lowsend_on"@) {
        InputCommand::LowSendOn
    } else if starts_with_spec(line, "#lowsend_off"@) {
        InputCommand::LowSendOff
    } else if starts_with_spec(line, "#kanji_on"@) {
        InputCommand::KanjiOn
    } else if starts_with_spec(line, "#kanji_off"@) {
        InputCommand::KanjiOff
    } else if starts_with_spec(line, "#emacs"@) {
        InputCommand::Emacs
    } else if starts_with_spec(line, "#vi"@) {
        InputCommand::Vi
    } else if starts_with_spec(line, "#clear_history"@) {
        InputCommand::ClearHistory
    } else if starts_with_spec(line, "#new"@) {
        InputCommand::New
    } else if starts_with_spec(line, "#load"@) {
        InputCommand::Load
    } else if starts_with_spec(line, "#list"@) {
        InputCommand::List
    } else if starts_with_spec(line, "#reload_from"@) {
        InputCommand::ReloadFrom
    } else if starts_with_spec(line, "#renum"@) {
        InputCommand::Renum
    } else if starts_with_spec(line, "#save"@) {
        InputCommand::Save
    } else {
        InputCommand::Basic
    }
}

/// Which local command a typed line is.
pub fn classify_input(line: &str) -> (r: InputCommand)
    ensures
        r == classify_spec(line@),
{
    let cs = chars_of(line);
    if starts_with(&cs, "#quit") {
        InputCommand::Quit
    } else if starts_with(&cs, "#hex") {
        InputCommand::Hex
    } else if starts_with(&cs, "#dump_on") {
        InputCommand::DumpOn
    } else if starts_with(&cs, "#dump_off") {
        InputCommand::DumpOff
    } else if starts_with(&cs, "#lowsend_on") {
        InputCommand::LowSendOn
    } else if starts_with(&cs, "#lowsend_off") {
        InputCommand::LowSendOff
    } else if starts_with(&cs, "#kanji_on") {
        InputCommand::KanjiOn
    } else if starts_with(&cs, "#kanji_off") {
        InputCommand::KanjiOff
    } else if starts_with(&cs, "#emacs") {
        InputCommand::Emacs
    } else if starts_with(&cs, "#vi") {
        InputCommand::Vi
    } else if starts_with(&cs, "#clear_history") {
        InputCommand::ClearHistory
    } else if starts_with(&cs, "#new") {
        InputCommand::New
    } else if starts_with(&cs, "#load") {
        InputCommand::Load
    } else if starts_with(&cs, "#list") {
        InputCommand::List
    } else if starts_with(&cs, "#reload_from") {
        InputCommand::ReloadFrom
    } else if starts_with(&cs, "#renum") {
        InputCommand::Renum
    } else if starts_with(&cs, "#save") {
        InputCommand::Save
    } else {
        InputCommand::Basic
    }
}

/// Typed text with `\r\n` and then `\n` turned into `\r`.
pub open spec fn normalize_newlines(s: Seq<char>) -> Seq<char>
    decreases s.len(),
{
    if s.len() == 0 {
        Seq::<char>::empty()
    } else if s.len() >= 2 && s[0] == '\r' && s[1] == '\n' {
        seq!['\r'] + normalize_newlines(s.skip(2))
    } else if s[0] == '\n' {
        seq!['\r'] + normalize_newlines(s.drop_first())
    } else {
        seq![s[0]] + normalize_newlines(s.drop_first())
    }
}

/// The lines of typed (or pasted) text: `\r\n`, `\n` and `\r` all end a line.
pub open spec fn input_lines_spec(s: Seq<char>) -> Seq<Seq<char>> {
    split_spec(normalize_newlines(s), '\r')
}

fn strings_of(v: &Vec<Vec<char>>) -> (r: Vec<String>)
    ensures
        string_views(r@) == views(v@),
{
    let mut out: Vec<String> = Vec::new();
    for i in 0..v.len()
        invariant
            string_views(out@) == views(v@).take(i as int),
    {
        let s = string_of(&v[i]);
        let ghost before = string_views(out@);
        out.push(s);
        assert(string_views(out@) == before.push(s@));
        assert(views(v@).take(i + 1) == views(v@).take(i as int).push(v@[i as int]@));
    }
    assert(views(v@).take(v@.len() as int) == views(v@));
    out
}

/// Splits typed text into lines at `\r\n`, `\n` and `\r`.
pub fn split_input_lines(text: &str) -> (r: Vec<String>)
    ensures
        string_views(r@) == input_lines_spec(text@),
{
    let cs = chars_of(text);
    let mut out: Vec<char> = Vec::new();
    let mut i: usize = 0;
    assert(cs@.skip(0) == cs@);
    assert(out@ + normalize_newlines(cs@) == normalize_newlines(cs@));
    while i < cs.len()
        invariant
            i <= cs@.len(),
            out@ + normalize_newlines(cs@.skip(i as int)) == normalize_newlines(cs@),
        decreases cs@.len() - i,
    {
        let ghost rest = cs@.skip(i as int);
        let ghost before = out@;
        if cs[i] == '\r' && i + 1 < cs.len() && cs[i + 1] == '\n' {
            assert(rest[0] == '\r' && rest[1] == '\n');
            assert(rest.skip(2) == cs@.skip(i + 2));
            out.push('\r');
            i = i + 2;
        } else {
            assert(rest.drop_first() == cs@.skip(i + 1));
            assert(rest[0] == cs@[i as int]);
            if cs[i] == '\n' {
                out.push('\r');
            } else {
                out.push(cs[i]);
            }
            i = i + 1;
        }
        assert(out@ + normalize_newlines(cs@.skip(i as int)) == before + normalize_newlines(rest));
    }
    assert(cs@.skip(i as int) == Seq::<char>::empty());
    assert(out@ + Seq::<char>::empty() == out@);
    let pieces = split_chars(&out, '\r');
    strings_of(&pieces)
}

/// The command sent to the MSX for `#renum` with its arguments: `renum`,
/// then a space and the trimmed arguments if there are any, then `\r`.
pub open spec fn renum_command_spec(line: Seq<char>) -> Seq<char> {
    let params = if starts_with_spec(line, "#renum"@) {
        trim_spec(line.skip(6))
    } else {
        Seq::<char>::empty()
    };
    if params.len() == 0 {
        "renum"@.push('\r')
    } else {
        "renum "@ + params.push('\r')
    }
}

/// The `RENUM` command that `#renum [args]` sends.
pub fn renum_command(line: &str) -> (r: String)
    ensures
        r@ == renum_command_spec(line@),
{
    proof {
        reveal_strlit("#renum");
    }
    let cs = chars_of(line);
    let params = if starts_with(&cs, "#renum") {
        let rest = slice_chars(&cs, 6, cs.len());
        trim_chars(&rest)
    } else {
        Vec::new()
    };
    let mut out: Vec<char> = Vec::new();
    if params.len() == 0 {
        append_str(&mut out, "renum");
    } else {
        append_str(&mut out, "renum ");
        append_chars(&mut out, &params);
    }
    out.push('\r');
    string_of(&out)
}

/// `s` without the double quotes at either end (`trim_matches('"')`).
pub open spec fn strip_quotes_spec(s: Seq<char>) -> Seq<char>
    decreases s.len(),
{
    if s.len() > 0 && s[0] == '"' {
        strip_quotes_spec(s.drop_first())
    } else if s.len() > 0 && s.last() == '"' {
        strip_quotes_spec(s.drop_last())
    } else {
        s
    }
}

/// The file name of a `#load` or `#save` line: its second space-separated
/// word without surrounding double quotes.
pub open spec fn file_argument_spec(line: Seq<char>) -> Seq<char> {
    strip_quotes_spec(split_spec(line, ' ')[1])
}

/// The file name of a `#load path` or `#save path` line.
pub fn file_argument(command_line: &str) -> (r: String)
    requires
        split_spec(command_line@, ' ').len() >= 2,
    ensures
        r@ == file_argument_spec(command_line@),
{
    let cs = chars_of(command_line);
    let tokens = split_chars(&cs, ' ');
    assert(views(tokens@)[1] == tokens@[1]@);
    let t = &tokens[1];
    let mut i: usize = 0;
    let mut j: usize = t.len();
    assert(t@.subrange(0, t@.len() as int) == t@);
    while i < j && (t[i] == '"' || t[j - 1] == '"')
        invariant
            i <= j <= t@.len(),
            strip_quotes_spec(t@.subrange(i as int, j as int)) == strip_quotes_spec(t@),
        decreases j - i,
    {
        let ghost sub = t@.subrange(i as int, j as int);
        if t[i] == '"' {
            assert(sub.drop_first() == t@.subrange(i + 1, j as int));
            i = i + 1;
        } else {
            assert(sub.drop_last() == t@.subrange(i as int, j - 1));
            j = j - 1;
        }
    }
    assert(t@.subrange(0, t@.len() as int) == t@);
    let r = slice_chars(t, i, j);
    string_of(&r)
}

/// The text of a saved program: every line as `"{n} {statement}\n"`, in
/// increasing order of line number.
pub open spec fn save_text_spec(es: Seq<(u16, Seq<char>)>) -> Seq<char>
    decreases es.len(),
{
    if es.len() == 0 {
        Seq::<char>::empty()
    } else {
        save_text_spec(es.drop_last()) + line_text(es.last().0, es.last().1).push('\n')
    }
}

/// The lines that `#load` hands to the program: each trimmed.
pub open spec fn trimmed_lines(lines: Seq<Seq<char>>) -> Seq<Seq<char>> {
    lines.map_values(|l: Seq<char>| trim_spec(l))
}

/// The program after every line of a file is entered, in order.
pub open spec fn enter_all_spec(p: Map<u16, Seq<char>>, lines: Seq<Seq<char>>) -> Map<
    u16,
    Seq<char>,
>
    decreases lines.len(),
{
    if lines.len() == 0 {
        p
    } else {
        parse_basic_spec(enter_all_spec(p, lines.drop_last()), lines.last())
    }
}

/// The lines joined, each followed by a carriage return.
pub open spec fn joined_cr(lines: Seq<Seq<char>>) -> Seq<char>
    decreases lines.len(),
{
    if lines.len() == 0 {
        Seq::<char>::empty()
    } else {
        joined_cr(lines.drop_last()) + lines.last().push('\r')
    }
}

/// How `#list` shows line `k`: its number right-aligned to `width` digits
/// and coloured cyan, then a space and the statement.
pub open spec fn list_display(width: nat, k: u16, stmt: Seq<char>) -> Seq<char> {
    Seq::new((width - decimal_spec(k as nat).len()) as nat, |i: int| ' ') + "\x1b[36m"@
        + decimal_spec(k as nat) + "\x1b[0m"@ + seq![' '] + stmt
}

/// What `#list` shows and what it adds to the history: for every program
/// line numbered up to 65530, the display line (number right-aligned to the
/// width of the highest line number of the program, coloured) and the plain
/// line `"{n} {statement}"`.
pub open spec fn list_lines_spec(p: Map<u16, Seq<char>>) -> Seq<(Seq<char>, Seq<char>)> {
    let all = entries_spec(p, 0, 0xffff);
    if all.len() == 0 {
        Seq::<(Seq<char>, Seq<char>)>::empty()
    } else {
        let width = decimal_spec(all.last().0 as nat).len();
        list_of(width, entries_spec(p, 0, 65530))
    }
}

/// The `#list` display and history lines of `es` at number width `width`.
pub open spec fn list_of(width: nat, es: Seq<(u16, Seq<char>)>) -> Seq<(Seq<char>, Seq<char>)> {
    es.map_values(|e: (u16, Seq<char>)| (list_display(width, e.0, e.1), line_text(e.0, e.1)))
}

/// The views of pairs of strings.
pub open spec fn pair_views(v: Seq<(String, String)>) -> Seq<(Seq<char>, Seq<char>)> {
    v.map_values(|e: (String, String)| (e.0@, e.1@))
}

fn push_spaces(out: &mut Vec<char>, n: usize)
    ensures
        final(out)@ == old(out)@ + Seq::new(n as nat, |i: int| ' '),
{
    for i in 0..n
        invariant
            out@ == old(out)@ + Seq::new(i as nat, |k: int| ' '),
    {
        out.push(' ');
        assert(Seq::new((i + 1) as nat, |k: int| ' ') == Seq::new(i as nat, |k: int| ' ').push(' '));
    }
}

impl Msxterm {
    /// The lines of `#list`: for every program line numbered up to 65530, the
    /// coloured display line, its number right-aligned to the width of the
    /// highest line number, and the plain line for the history.
    pub fn list_lines(&self) -> (r: Vec<(String, String)>)
        ensures
            pair_views(r@) == list_lines_spec(self@.program),
    {
        let ghost p = self@.program;
        let all = entries(&self.prog_buff, 0, 0xffff);
        let mut out: Vec<(String, String)> = Vec::new();
        if all.len() == 0 {
            return out;
        }
        let ghost av = entry_views(all@);
        let max_key = all[all.len() - 1].0;
        let mut digits: Vec<char> = Vec::new();
        push_decimal(&mut digits, max_key);
        let width = digits.len();
        assert(av.last().0 == max_key);
        let es = entries(&self.prog_buff, 0, 65530);
        let ghost ev = entry_views(es@);
        proof {
            law_listing_ordered(p, 0, 0xffff);
            law_listing_ordered(p, 0, 65530);
        }
        for i in 0..es.len()
            invariant
                ev == entry_views(es@),
                ev == entries_spec(p, 0, 65530),
                av == entries_spec(p, 0, 0xffff),
                av.len() > 0,
                width == decimal_spec(av.last().0 as nat).len(),
                pair_views(out@) == list_of(width as nat, ev.take(i as int)),
        {
            let k = es[i].0;
            proof {
                law_listing_ordered(p, 0, 0xffff);
                law_listing_ordered(p, 0, 65530);
                assert(ev[i as int].0 == k);
                assert(p.contains_key(k));
                let j = choose|j: int| 0 <= j < av.len() && (#[trigger] av[j]).0 == k;
                if j < av.len() - 1 {
                    assert(av[j].0 < av[av.len() - 1].0);
                }
                lemma_decimal_len_mono(k as nat, av.last().0 as nat);
            }
            let mut num: Vec<char> = Vec::new();
            push_decimal(&mut num, k);
            let stmt = chars_of(es[i].1.as_str());
            let mut display: Vec<char> = Vec::new();
            push_spaces(&mut display, width - num.len());
            append_str(&mut display, "\x1b[36m");
            append_chars(&mut display, &num);
            append_str(&mut display, "\x1b[0m");
            display.push(' ');
            append_chars(&mut display, &stmt);
            let mut plain: Vec<char> = Vec::new();
            append_chars(&mut plain, &num);
            plain.push(' ');
            append_chars(&mut plain, &stmt);
            let ghost before = pair_views(out@);
            out.push((string_of(&display), string_of(&plain)));
            assert(pair_views(out@) == before.push((display@, plain@)));
            assert(ev.take(i + 1) == ev.take(i as int).push(ev[i as int]));
            assert(display@ == list_display(width as nat, k, stmt@));
            assert(plain@ == line_text(k, stmt@));
            assert(list_of(width as nat, ev.take(i + 1)) == list_of(width as nat, ev.take(i as int)).push(
                (list_display(width as nat, k, stmt@), line_text(k, stmt@)),
            ));
        }
        assert(ev.take(ev.len() as int) == ev);
        out
    }

    /// The text that `#save` writes: every program line as
    /// `"{n} {statement}\n"`, in increasing order of line number.
    pub fn save_text(&self) -> (r: String)
        ensures
            r@ == save_text_spec(entries_spec(self@.program, 0, 0xffff)),
    {
        let es = entries(&self.prog_buff, 0, 0xffff);
        let ghost ev = entry_views(es@);
        let mut out: Vec<char> = Vec::new();
        for i in 0..es.len()
            invariant
                ev == entry_views(es@),
                out@ == save_text_spec(ev.take(i as int)),
        {
            let ghost before = out@;
            push_decimal(&mut out, es[i].0);
            out.push(' ');
            let stmt = chars_of(es[i].1.as_str());
            append_chars(&mut out, &stmt);
            out.push('\n');
            assert(ev.take(i + 1).drop_last() == ev.take(i as int));
            assert(ev.take(i + 1).last() == ev[i as int]);
            assert(out@ == before + line_text(ev[i as int].0, ev[i as int].1).push('\n'));
        }
        assert(ev.take(ev.len() as int) == ev);
        string_of(&out)
    }

    /// Enters the lines of a loaded file: each line is trimmed and entered
    /// into the program. Gives the text to send (the trimmed lines, each
    /// ended by a carriage return, lowered when lower-case sending is on) and
    /// the trimmed lines for the history.
    pub fn load_program(&mut self, lines: &Vec<String>) -> (r: (String, Vec<String>))
        ensures
            final(self)@ == (TermView {
                program: enter_all_spec(
                    old(self)@.program,
                    trimmed_lines(string_views(lines@)),
                ),
                ..old(self)@
            }),
            string_views(r.1@) == trimmed_lines(string_views(lines@)),
            r.0@ == if old(self)@.lower_mode {
                lower_program_spec(joined_cr(trimmed_lines(string_views(lines@))))
            } else {
                joined_cr(trimmed_lines(string_views(lines@)))
            },
    {
        let ghost ls = string_views(lines@);
        let mut history: Vec<String> = Vec::new();
        let mut text: Vec<char> = Vec::new();
        for i in 0..lines.len()
            invariant
                ls == string_views(lines@),
                self@ == (TermView {
                    program: enter_all_spec(old(self)@.program, trimmed_lines(ls.take(i as int))),
                    ..old(self)@
                }),
                string_views(history@) == trimmed_lines(ls.take(i as int)),
                text@ == joined_cr(trimmed_lines(ls.take(i as int))),
        {
            let cs = chars_of(lines[i].as_str());
            let t = trim_chars(&cs);
            let ts = string_of(&t);
            self.parse_basic(ts.as_str());
            let ghost hb = string_views(history@);
            let ghost tb = text@;
            append_chars(&mut text, &t);
            text.push('\r');
            history.push(ts);
            assert(ls.take(i + 1) == ls.take(i as int).push(ls[i as int]));
            assert(trimmed_lines(ls.take(i + 1)) == trimmed_lines(ls.take(i as int)).push(t@));
            assert(trimmed_lines(ls.take(i + 1)).drop_last() == trimmed_lines(ls.take(i as int)));
            assert(string_views(history@) == hb.push(t@));
            assert(text@ == tb + t@.push('\r'));
        }
        assert(ls.take(ls.len() as int) == ls);
        let s = string_of(&text);
        let r = if self.lower_mode {
            lower_program(s.as_str())
        } else {
            s
        };
        (r, history)
    }

    /// Handles a typed line that is not a local command: enters it into the
    /// program, and gives the text to send: the line and a carriage return,
    /// lowered when lower-case sending is on.
    pub fn prepare_send(&mut self, line: &str) -> (r: String)
        ensures
            final(self)@ == (TermView {
                program: parse_basic_spec(old(self)@.program, line@),
                ..old(self)@
            }),
            r@ == if old(self)@.lower_mode {
                lower_program_spec(line@.push('\r'))
            } else {
                line@.push('\r')
            },
    {
        self.parse_basic(line);
        let mut cs = chars_of(line);
        cs.push('\r');
        let s = string_of(&cs);
        if self.lower_mode {
            lower_program(s.as_str())
        } else {
            s
        }
    }
}

// ---------------------------------------------------------------------------
// Laws
// ---------------------------------------------------------------------------

proof fn lemma_split_saved(es: Seq<(u16, Seq<char>)>, y: Seq<char>)
    requires
        forall|i: int, j: int| 0 <= i < es.len() && 0 <= j < es[i].1.len() ==> es[i].1[j] != '\n',
        forall|j: int| 0 <= j < y.len() ==> y[j] != '\n',
    ensures
        split_spec(save_text_spec(es) + y, '\n') == listing_of(es).push(y),
    decreases es.len(),
{
    if es.len() == 0 {
        lemma_split_none(y, '\n');
        assert(save_text_spec(es) + y == y);
        assert(listing_of(es) == Seq::<Seq<char>>::empty());
    } else {
        let e = es.last();
        let line = line_text(e.0, e.1);
        lemma_decimal_digits(e.0 as nat);
        assert forall|j: int| 0 <= j < line.len() implies line[j] != '\n' by {
            let d = decimal_spec(e.0 as nat);
            if j < d.len() {
                assert(line[j] == d[j]);
                lemma_digit_not_newline(e.0 as nat, j);
            } else if j > d.len() {
                assert(line[j] == e.1[j - d.len() - 1]);
                assert(es[es.len() - 1].1[j - d.len() - 1] != '\n');
            }
        }
        lemma_split_saved(es.drop_last(), line);
        lemma_split_concat(save_text_spec(es.drop_last()) + line, y, '\n');
        lemma_split_none(y, '\n');
        assert(save_text_spec(es) + y == save_text_spec(es.drop_last()) + line + seq!['\n'] + y);
        assert(listing_of(es) == listing_of(es.drop_last()).push(line));
    }
}

proof fn lemma_digit_not_newline(n: nat, j: int)
    requires
        0 <= j < decimal_spec(n).len(),
    ensures
        decimal_spec(n)[j] != '\n',
{
    lemma_decimal_digits(n);
    assert(!is_ws(decimal_spec(n)[j]));
}

proof fn lemma_enter_listing(q: Map<u16, Seq<char>>, n: int)
    requires
        0 <= n <= entries_spec(q, 0, 0xffff).len(),
        forall|k: u16| #[trigger] q.contains_key(k) ==> trim_spec(q[k]) == q[k],
    ensures
        enter_all_spec(Map::empty(), listing_of(entries_spec(q, 0, 0xffff)).take(n)) == stored_all(
            entries_spec(q, 0, 0xffff).take(n),
        ),
    decreases n,
{
    let es = entries_spec(q, 0, 0xffff);
    let ls = listing_of(es);
    if n > 0 {
        lemma_enter_listing(q, n - 1);
        assert(ls.take(n).drop_last() == ls.take(n - 1));
        assert(ls.take(n).last() == line_text(es[n - 1].0, es[n - 1].1));
        assert(es.take(n).drop_last() == es.take(n - 1));
        assert(es.take(n).last() == es[n - 1]);
        law_entered_line_is_listed(
            enter_all_spec(Map::empty(), ls.take(n - 1)),
            es[n - 1].0,
            es[n - 1].1,
        );
        law_listing_ordered(q, 0, 0xffff);
        assert(q.contains_key(es[n - 1].0) && q[es[n - 1].0] == es[n - 1].1);
    } else {
        assert(ls.take(0) == Seq::<Seq<char>>::empty());
        assert(es.take(0) == Seq::<(u16, Seq<char>)>::empty());
    }
}

/// `#save` then `#load` gives the program back: entering the trimmed lines
/// of the saved text, in order, into an empty program rebuilds it. This holds
/// for statements that are not empty, have no surrounding whitespace and
/// hold no line feed.
pub proof fn law_save_then_load(q: Map<u16, Seq<char>>)
    requires
        forall|k: u16|
            #[trigger] q.contains_key(k) ==> q[k].len() > 0 && trim_spec(q[k]) == q[k] && forall|
                j: int,
            |
                0 <= j < q[k].len() ==> q[k][j] != '\n',
    ensures
        enter_all_spec(
            Map::empty(),
            trimmed_lines(lines_spec(save_text_spec(entries_spec(q, 0, 0xffff)))),
        ) == q,
{
    let es = entries_spec(q, 0, 0xffff);
    law_listing_ordered(q, 0, 0xffff);
    assert forall|i: int, j: int| 0 <= i < es.len() && 0 <= j < es[i].1.len() implies es[i].1[j]
        != '\n' by {
        assert(q.contains_key(es[i].0));
    }
    let empty = Seq::<char>::empty();
    lemma_split_saved(es, empty);
    assert(save_text_spec(es) + empty == save_text_spec(es));
    let ls = listing_of(es);
    let p = split_spec(save_text_spec(es), '\n');
    assert(p == ls.push(empty));
    assert(p.drop_last() == ls);
    // every listed line ends in a non-blank statement and starts with a digit
    assert forall|i: int| 0 <= i < ls.len() implies strip_cr(#[trigger] ls[i]) == ls[i] && trim_spec(ls[i]) == ls[i] by {
        let e = es[i];
        assert(q.contains_key(e.0));
        let v = e.1;
        let l = line_text(e.0, v);
        assert(ls[i] == l);
        lemma_trimmed_ends_solid(v);
        assert(l.last() == v.last());
        assert(trim_end_spec(l) == l);
        lemma_decimal_digits(e.0 as nat);
        assert(l[0] == decimal_spec(e.0 as nat)[0]);
        assert(trim_start_spec(l) == l);
    }
    assert(lines_spec(save_text_spec(es)) == ls);
    assert(trimmed_lines(ls) == ls);
    lemma_enter_listing(q, es.len() as int);
    assert(ls.take(ls.len() as int) == ls);
    assert(es.take(es.len() as int) == es);
    lemma_stored_all_entries(q, 0xffff);
    assert(lines_up_to(q, 0xffff) =~= q);
}

/// `#list` shows every program line numbered up to 65530: for each such
/// line `k` some entry's history text is `"{k} {statement}"`; and every
/// entry is such a line.
pub proof fn law_list_shows_every_line(p: Map<u16, Seq<char>>)
    ensures
        forall|k: u16|
            k <= 65530 && #[trigger] p.contains_key(k) ==> exists|i: int|
                0 <= i < list_lines_spec(p).len() && (#[trigger] list_lines_spec(p)[i]).1
                    == line_text(k, p[k]),
        forall|i: int|
            0 <= i < list_lines_spec(p).len() ==> exists|k: u16|
                k <= 65530 && p.contains_key(k) && (#[trigger] list_lines_spec(p)[i]).1
                    == line_text(k, p[k]),
{
    law_listing_ordered(p, 0, 0xffff);
    law_listing_ordered(p, 0, 65530);
    let all = entries_spec(p, 0, 0xffff);
    let es = entries_spec(p, 0, 65530);
    assert forall|k: u16| k <= 65530 && #[trigger] p.contains_key(k) implies exists|i: int|
        0 <= i < list_lines_spec(p).len() && (#[trigger] list_lines_spec(p)[i]).1 == line_text(
            k,
            p[k],
        ) by {
        let j = choose|j: int| 0 <= j < all.len() && (#[trigger] all[j]).0 == k;
        assert(all.len() > 0);
        let i = choose|i: int| 0 <= i < es.len() && (#[trigger] es[i]).0 == k;
        assert(list_lines_spec(p)[i].1 == line_text(es[i].0, es[i].1));
    }
    assert forall|i: int| 0 <= i < list_lines_spec(p).len() implies exists|k: u16|
        k <= 65530 && p.contains_key(k) && (#[trigger] list_lines_spec(p)[i]).1 == line_text(
            k,
            p[k],
        ) by {
        assert(all.len() > 0);
        let e = es[i];
        assert(list_lines_spec(p)[i].1 == line_text(e.0, e.1));
    }
}

/// `#renum` passes its whole argument text: `#renum a`, for a non-empty `a`
/// without surrounding whitespace, sends `"renum " + a + "\r"`, and a bare
/// `#renum` sends `"renum\r"`.
pub proof fn law_renum_passes_arguments(a: Seq<char>)
    requires
        a.len() > 0,
        trim_spec(a) == a,
    ensures
        renum_command_spec("#renum"@ + seq![' '] + a) == "renum "@ + a.push('\r'),
        renum_command_spec("#renum"@) == "renum"@.push('\r'),
{
    reveal_strlit("#renum");
    let line = "#renum"@ + seq![' '] + a;
    assert(line.take(6) == "#renum"@);
    let rest = seq![' '] + a;
    assert(line.skip(6) == rest);
    lemma_trimmed_ends_solid(a);
    lemma_trimmed_starts_solid(a);
    assert(rest.last() == a.last());
    assert(trim_end_spec(rest) == rest);
    assert(rest.drop_first() == a);
    assert(trim_start_spec(a) == a);
    assert(trim_start_spec(rest) == a);
    assert("#renum"@.skip(6) == Seq::<char>::empty());
    assert("#renum"@.take(6) == "#renum"@);
}

} // verus!
