//! What the terminal does with each line that the MSX sends: show it, dump
//! it in hexadecimal, or, while a program is being read back (after
//! `#reload_from` or `#renum`), take it into the local program.
use vstd::prelude::*;
use vstd::utf8::{decode_utf8, encode_utf8, valid_utf8};
use crate::hex::{dump_hex, dump_hex_spec};
use crate::lines::{law_listed_line_reads_back, parse_basic_line, parse_basic_line_spec};
use crate::program::{entries_spec, law_listing_ordered, line_text, Msxterm, TermView};
use crate::text::{
    chars_of, contains, contains_spec, ends_with, ends_with_spec, eq_str, lemma_decimal_digits,
    string_of, trim_chars, trim_spec,
};

verus! {

// ---------------------------------------------------------------------------
// Outside calls
// ---------------------------------------------------------------------------

/// The bytes that `strip_ansi_escapes::strip` leaves of `data`.
pub uninterp spec fn ansi_stripped(data: Seq<u8>) -> Seq<u8>;

/// `strip_ansi_escapes::strip`: removes ANSI escape sequences (and the
/// control characters other than line feed). Which bytes remain is not
/// described beyond the name `ansi_stripped`.
#[verifier::external_body]
fn strip_ansi(data: &[u8]) -> (r: Vec<u8>)
    ensures
        r@ == ansi_stripped(data@),
{
    strip_ansi_escapes::strip(data)
}

/// What `String::from_utf8_lossy` makes of `bytes`.
pub uninterp spec fn utf8_lossy(bytes: Seq<u8>) -> Seq<char>;

/// `String::from_utf8_lossy`: decodes UTF-8, putting U+FFFD in place of
/// invalid sequences; valid UTF-8 is decoded as it is. What replaces invalid
/// input is not described beyond the name `utf8_lossy`.
#[verifier::external_body]
fn decode_lossy(bytes: &[u8]) -> (r: String)
    ensures
        r@ == utf8_lossy(bytes@),
        valid_utf8(bytes@) ==> r@ == decode_utf8(bytes@),
{
    String::from_utf8_lossy(bytes).into_owned()
}

/// What `str::to_lowercase` makes of `s`.
pub uninterp spec fn str_lowercase(s: Seq<char>) -> Seq<char>;

/// `str::to_lowercase`: the lower-case mapping of the text by the standard
/// library's Unicode tables, which this contract does not describe.
#[verifier::external_body]
fn lowercase(s: &str) -> (r: String)
    ensures
        r@ == str_lowercase(s@),
{
    s.to_lowercase()
}

// ---------------------------------------------------------------------------
// The receiving state machine
// ---------------------------------------------------------------------------

/// The requests that the console side passes to the receiving side.
#[derive(Clone, Copy, Debug, PartialEq, Eq, Structural)]
pub enum Command {
    DumpModeOn,
    DumpModeOff,
    KanjiModeOn,
    KanjiModeOff,
    ReloadFromStart,
    ReloadFromStop,
    RenumStart,
    ConditionalCommandStart,
}

/// The modes and progress of the receiving side.
#[derive(Clone, Copy, Debug, PartialEq, Eq, Structural)]
pub struct ReceiveState {
    /// Show received bytes as a hexadecimal dump.
    pub dump_mode: bool,
    /// Decode received bytes as Kanji text.
    pub kanji_mode: bool,
    /// Received lines are program lines to take into the local program.
    pub reload_from_active: bool,
    /// A `RENUM` was sent and its outcome is awaited.
    pub renum_sequence_active: bool,
    /// After the `Ok` of a `RENUM`, the program is to be listed and read back.
    pub expect_listing_after_ok: bool,
    /// At least one program line was read back in this reload.
    pub has_received_program_lines: bool,
    /// The MSX reported an error during the current operation.
    pub syntax_error_detected: bool,
}

/// What the receiving side asks to be done for one received line: a line
/// for the terminal window, a line for the console, text to send.
pub struct ReceiveOutput {
    pub printed: Option<String>,
    pub console: Option<String>,
    pub send: Option<String>,
}

/// The contents of a [`ReceiveOutput`].
pub struct Effect {
    pub printed: Option<Seq<char>>,
    pub console: Option<Seq<char>>,
    pub send: Option<Seq<char>>,
}

pub open spec fn opt_view(o: Option<String>) -> Option<Seq<char>> {
    match o {
        Some(s) => Some(s@),
        None => None,
    }
}

impl View for ReceiveOutput {
    type V = Effect;

    open spec fn view(&self) -> Effect {
        Effect {
            printed: opt_view(self.printed),
            console: opt_view(self.console),
            send: opt_view(self.send),
        }
    }
}

/// Print `s` in the terminal window, nothing else.
pub open spec fn print_only(s: Seq<char>) -> Effect {
    Effect { printed: Some(s), console: None, send: None }
}

/// Do nothing.
pub open spec fn no_effect() -> Effect {
    Effect { printed: None, console: None, send: None }
}

/// The state after a request from the console side.
pub open spec fn apply_spec(s: ReceiveState, cmd: Command) -> ReceiveState {
    match cmd {
        Command::DumpModeOn => ReceiveState { dump_mode: true, ..s },
        Command::DumpModeOff => ReceiveState { dump_mode: false, ..s },
        Command::KanjiModeOn => ReceiveState { kanji_mode: true, ..s },
        Command::KanjiModeOff => ReceiveState { kanji_mode: false, ..s },
        Command::ReloadFromStart => ReceiveState {
            reload_from_active: true,
            syntax_error_detected: false,
            ..s
        },
        Command::ReloadFromStop => ReceiveState { reload_from_active: false, ..s },
        Command::RenumStart => ReceiveState {
            renum_sequence_active: true,
            expect_listing_after_ok: true,
            reload_from_active: false,
            syntax_error_detected: false,
            ..s
        },
        Command::ConditionalCommandStart => ReceiveState { syntax_error_detected: false, ..s },
    }
}

/// A received text as it is examined: escape sequences removed, decoded,
/// and trimmed.
pub open spec fn cleaned_spec(raw: Seq<char>) -> Seq<char> {
    trim_spec(utf8_lossy(ansi_stripped(encode_utf8(raw))))
}

/// The error messages of MSX BASIC that stop a reload or renumbering,
/// looked for in the lower-cased text.
pub open spec fn is_error_spec(t: Seq<char>) -> bool {
    let l = str_lowercase(t);
    ||| contains_spec(l, "syntax error"@)
    ||| contains_spec(l, "out of memory"@)
    ||| contains_spec(l, "overflow"@)
    ||| contains_spec(l, "next without for"@)
    ||| contains_spec(l, "return without gosub"@)
    ||| contains_spec(l, "undefined line"@)
    ||| contains_spec(l, "illegal function call"@)
    ||| contains_spec(l, "string too long"@)
}

/// The prompt that ends a listing.
pub open spec fn is_listing_end_spec(t: Seq<char>) -> bool {
    ||| t == "Ok"@
    ||| ends_with_spec(t, "OK"@)
    ||| contains_spec(t, "READY"@)
    ||| contains_spec(t, "ok"@)
}

/// The prompt that answers a `RENUM`.
pub open spec fn is_renum_ok_spec(t: Seq<char>) -> bool {
    ||| t == "Ok"@
    ||| t == "OK"@
    ||| t == "ok"@
    ||| contains_spec(t, "OK."@)
}

/// What the receiving side does with a received text `raw` in state `s`
/// with program `p`: the next state, the next program and the effect.
pub open spec fn receive_spec(s: ReceiveState, p: Map<u16, Seq<char>>, raw: Seq<char>) -> (
    ReceiveState,
    Map<u16, Seq<char>>,
    Effect,
) {
    let t = cleaned_spec(raw);
    if s.reload_from_active {
        if t.len() == 0 {
            (s, p, no_effect())
        } else if is_error_spec(t) {
            (
                ReceiveState {
                    reload_from_active: false,
                    has_received_program_lines: false,
                    syntax_error_detected: true,
                    ..s
                },
                Map::empty(),
                print_only(
                    "Syntax Error detected. Stopping reload operation and clearing buffer."@,
                ),
            )
        } else if is_listing_end_spec(t) && s.has_received_program_lines
            && !s.syntax_error_detected {
            (
                ReceiveState { reload_from_active: false, has_received_program_lines: false, ..s },
                p,
                print_only("Program reload complete."@),
            )
        } else if is_listing_end_spec(t) && s.has_received_program_lines
            && s.syntax_error_detected {
            (
                ReceiveState { reload_from_active: false, has_received_program_lines: false, ..s },
                p,
                print_only("Program reload complete (after error detected)."@),
            )
        } else {
            match parse_basic_line_spec(t) {
                Some((n, c)) => (
                    ReceiveState { has_received_program_lines: true, ..s },
                    p.insert(n, c),
                    print_only(line_text(n, c)),
                ),
                None => (s, p, print_only(raw)),
            }
        }
    } else if s.renum_sequence_active && s.expect_listing_after_ok {
        if t.len() == 0 {
            (s, p, no_effect())
        } else if is_error_spec(t) {
            (
                ReceiveState {
                    renum_sequence_active: false,
                    expect_listing_after_ok: false,
                    reload_from_active: false,
                    has_received_program_lines: false,
                    syntax_error_detected: true,
                    ..s
                },
                p,
                print_only("Syntax Error detected. Stopping renum operation. Buffer preserved."@),
            )
        } else if is_renum_ok_spec(t) && !s.syntax_error_detected {
            (
                ReceiveState {
                    reload_from_active: true,
                    expect_listing_after_ok: false,
                    has_received_program_lines: false,
                    ..s
                },
                Map::empty(),
                Effect {
                    printed: Some(raw),
                    console: Some(
                        "Program buffer cleared. Reloading renumbered program from MSX0..."@,
                    ),
                    send: Some("list\r"@),
                },
            )
        } else if is_renum_ok_spec(t) && s.syntax_error_detected {
            (ReceiveState { syntax_error_detected: false, ..s }, p, print_only(raw))
        } else {
            (s, p, print_only(raw))
        }
    } else {
        (s, p, print_only(raw))
    }
}

/// What the receiving side does with received bytes `bytes`, whose text is
/// `text`: in dump mode it shows their hexadecimal dump, otherwise it
/// handles the text.
pub open spec fn received_spec(
    s: ReceiveState,
    p: Map<u16, Seq<char>>,
    bytes: Seq<u8>,
    text: Seq<char>,
) -> (ReceiveState, Map<u16, Seq<char>>, Effect) {
    if s.dump_mode {
        (s, p, print_only(dump_hex_spec(bytes)))
    } else {
        receive_spec(s, p, text)
    }
}

fn print_str(s: &str) -> (r: ReceiveOutput)
    ensures
        r@ == print_only(s@),
{
    ReceiveOutput { printed: Some(String::from_str(s)), console: None, send: None }
}

fn is_error(t: &Vec<char>) -> (r: bool)
    ensures
        r == is_error_spec(t@),
{
    let ts = string_of(t);
    let l = lowercase(ts.as_str());
    let lc = chars_of(l.as_str());
    contains(&lc, "syntax error") || contains(&lc, "out of memory") || contains(&lc, "overflow")
        || contains(&lc, "next without for") || contains(&lc, "return without gosub") || contains(
        &lc,
        "undefined line",
    ) || contains(&lc, "illegal function call") || contains(&lc, "string too long")
}

fn is_listing_end(t: &Vec<char>) -> (r: bool)
    ensures
        r == is_listing_end_spec(t@),
{
    eq_str(t, "Ok") || ends_with(t, "OK") || contains(t, "READY") || contains(t, "ok")
}

fn is_renum_ok(t: &Vec<char>) -> (r: bool)
    ensures
        r == is_renum_ok_spec(t@),
{
    eq_str(t, "Ok") || eq_str(t, "OK") || eq_str(t, "ok") || contains(t, "OK.")
}

fn cleaned(raw: &str) -> (r: Vec<char>)
    ensures
        r@ == cleaned_spec(raw@),
{
    let stripped = strip_ansi(raw.as_bytes());
    let text = decode_lossy(stripped.as_slice());
    let cs = chars_of(text.as_str());
    trim_chars(&cs)
}

impl ReceiveState {
    /// The state at start: every mode and operation off.
    pub fn new() -> (r: ReceiveState)
        ensures
            !r.dump_mode && !r.kanji_mode && !r.reload_from_active && !r.renum_sequence_active
                && !r.expect_listing_after_ok && !r.has_received_program_lines
                && !r.syntax_error_detected,
    {
        ReceiveState {
            dump_mode: false,
            kanji_mode: false,
            reload_from_active: false,
            renum_sequence_active: false,
            expect_listing_after_ok: false,
            has_received_program_lines: false,
            syntax_error_detected: false,
        }
    }

    /// Takes a request from the console side.
    pub fn apply(&mut self, cmd: Command)
        ensures
            *final(self) == apply_spec(*old(self), cmd),
    {
        match cmd {
            Command::DumpModeOn => self.dump_mode = true,
            Command::DumpModeOff => self.dump_mode = false,
            Command::KanjiModeOn => self.kanji_mode = true,
            Command::KanjiModeOff => self.kanji_mode = false,
            Command::ReloadFromStart => {
                self.reload_from_active = true;
                self.syntax_error_detected = false;
            },
            Command::ReloadFromStop => self.reload_from_active = false,
            Command::RenumStart => {
                self.renum_sequence_active = true;
                self.expect_listing_after_ok = true;
                self.reload_from_active = false;
                self.syntax_error_detected = false;
            },
            Command::ConditionalCommandStart => {
                self.syntax_error_detected = false;
            },
        }
    }

    /// Handles one received text `raw` (already decoded from the MSX's
    /// character set), updating the program of `term` while a program is
    /// being read back.
    pub fn receive_text(&mut self, term: &mut Msxterm, raw: &str) -> (r: ReceiveOutput)
        ensures
            ({
                let (s2, p2, e) = receive_spec(*old(self), old(term)@.program, raw@);
                &&& *final(self) == s2
                &&& final(term)@ == (TermView { program: p2, ..old(term)@ })
                &&& r@ == e
            }),
    {
        if self.reload_from_active {
            let t = cleaned(raw);
            if t.len() == 0 {
                return ReceiveOutput { printed: None, console: None, send: None };
            }
            if is_error(&t) {
                self.reload_from_active = false;
                self.has_received_program_lines = false;
                self.syntax_error_detected = true;
                term.clear_basic();
                return print_str(
                    "Syntax Error detected. Stopping reload operation and clearing buffer.",
                );
            }
            let end = is_listing_end(&t);
            if end && self.has_received_program_lines && !self.syntax_error_detected {
                self.reload_from_active = false;
                self.has_received_program_lines = false;
                return print_str("Program reload complete.");
            }
            if end && self.has_received_program_lines && self.syntax_error_detected {
                self.reload_from_active = false;
                self.has_received_program_lines = false;
                return print_str("Program reload complete (after error detected).");
            }
            let ts = string_of(&t);
            match parse_basic_line(ts.as_str()) {
                Some((n, c)) => {
                    let line = line_string(n, &c);
                    term.store_line(n, c);
                    self.has_received_program_lines = true;
                    ReceiveOutput { printed: Some(line), console: None, send: None }
                },
                None => print_str(raw),
            }
        } else if self.renum_sequence_active && self.expect_listing_after_ok {
            let t = cleaned(raw);
            if t.len() == 0 {
                return ReceiveOutput { printed: None, console: None, send: None };
            }
            if is_error(&t) {
                self.renum_sequence_active = false;
                self.expect_listing_after_ok = false;
                self.reload_from_active = false;
                self.has_received_program_lines = false;
                self.syntax_error_detected = true;
                return print_str(
                    "Syntax Error detected. Stopping renum operation. Buffer preserved.",
                );
            }
            let ok = is_renum_ok(&t);
            if ok && !self.syntax_error_detected {
                self.reload_from_active = true;
                self.expect_listing_after_ok = false;
                self.has_received_program_lines = false;
                term.clear_basic();
                return ReceiveOutput {
                    printed: Some(String::from_str(raw)),
                    console: Some(
                        String::from_str(
                            "Program buffer cleared. Reloading renumbered program from MSX0...",
                        ),
                    ),
                    send: Some(String::from_str("list\r")),
                };
            }
            if ok && self.syntax_error_detected {
                self.syntax_error_detected = false;
            }
            print_str(raw)
        } else {
            print_str(raw)
        }
    }

    /// Handles received bytes whose decoded text is `text`: a hexadecimal
    /// dump in dump mode, otherwise as [`ReceiveState::receive_text`].
    pub fn receive(&mut self, term: &mut Msxterm, bytes: Vec<u8>, text: &str) -> (r: ReceiveOutput)
        ensures
            ({
                let (s2, p2, e) = received_spec(*old(self), old(term)@.program, bytes@, text@);
                &&& *final(self) == s2
                &&& final(term)@ == (TermView { program: p2, ..old(term)@ })
                &&& r@ == e
            }),
    {
        if self.dump_mode {
            let d = dump_hex(bytes);
            ReceiveOutput { printed: Some(d), console: None, send: None }
        } else {
            self.receive_text(term, text)
        }
    }
}

fn line_string(n: u16, c: &String) -> (r: String)
    ensures
        r@ == line_text(n, c@),
{
    let mut v: Vec<char> = Vec::new();
    crate::text::push_decimal(&mut v, n);
    v.push(' ');
    let cs = chars_of(c.as_str());
    crate::text::append_chars(&mut v, &cs);
    string_of(&v)
}

// ---------------------------------------------------------------------------
// Laws
// ---------------------------------------------------------------------------

/// The state and program after receiving the texts `raws` one after another.
pub open spec fn receive_all(s: ReceiveState, p: Map<u16, Seq<char>>, raws: Seq<Seq<char>>) -> (
    ReceiveState,
    Map<u16, Seq<char>>,
)
    decreases raws.len(),
{
    if raws.len() == 0 {
        (s, p)
    } else {
        let (s1, p1) = receive_all(s, p, raws.drop_last());
        let (s2, p2, e) = receive_spec(s1, p1, raws.last());
        (s2, p2)
    }
}

/// The program made by storing the entries `es` one after another into an
/// empty program.
pub open spec fn stored_all(es: Seq<(u16, Seq<char>)>) -> Map<u16, Seq<char>>
    decreases es.len(),
{
    if es.len() == 0 {
        Map::empty()
    } else {
        stored_all(es.drop_last()).insert(es.last().0, es.last().1)
    }
}

/// The lines of `q` numbered up to `hi`.
pub open spec fn lines_up_to(q: Map<u16, Seq<char>>, hi: int) -> Map<u16, Seq<char>> {
    q.restrict(Set::new(|k: u16| k <= hi))
}

pub proof fn lemma_stored_all_entries(q: Map<u16, Seq<char>>, hi: int)
    requires
        -1 <= hi <= 0xffff,
    ensures
        stored_all(entries_spec(q, 0, hi)) == lines_up_to(q, hi),
    decreases hi + 1,
{
    if hi >= 0 {
        lemma_stored_all_entries(q, hi - 1);
        if q.contains_key(hi as u16) {
            let r = entries_spec(q, 0, hi - 1);
            assert(entries_spec(q, 0, hi) == r.push((hi as u16, q[hi as u16])));
            assert(r.push((hi as u16, q[hi as u16])).drop_last() == r);
            assert(stored_all(entries_spec(q, 0, hi)) == lines_up_to(q, hi - 1).insert(
                hi as u16,
                q[hi as u16],
            ));
        }
        assert(stored_all(entries_spec(q, 0, hi)) =~= lines_up_to(q, hi));
    } else {
        assert(lines_up_to(q, hi) =~= Map::<u16, Seq<char>>::empty());
    }
}

/// Receiving, while a reload is active, texts that clean up to the listing
/// lines of a program `q` rebuilds `q` from an empty program, and the reload
/// stays active; this holds when no listed line reads as an error message
/// or as the prompt that ends a listing.
pub proof fn law_reload_rebuilds_program(
    s: ReceiveState,
    q: Map<u16, Seq<char>>,
    raws: Seq<Seq<char>>,
)
    requires
        s.reload_from_active,
        raws.len() == entries_spec(q, 0, 0xffff).len(),
        forall|i: int|
            0 <= i < raws.len() ==> cleaned_spec(#[trigger] raws[i]) == line_text(
                entries_spec(q, 0, 0xffff)[i].0,
                entries_spec(q, 0, 0xffff)[i].1,
            ),
        forall|k: u16|
            #[trigger] q.contains_key(k) ==> !is_error_spec(line_text(k, q[k]))
                && !is_listing_end_spec(line_text(k, q[k])),
    ensures
        receive_all(s, Map::empty(), raws).1 == q,
        receive_all(s, Map::empty(), raws).0.reload_from_active,
{
    let es = entries_spec(q, 0, 0xffff);
    law_listing_ordered(q, 0, 0xffff);
    lemma_receive_prefix(s, q, raws, raws.len() as int);
    assert(raws.take(raws.len() as int) == raws);
    assert(es.take(es.len() as int) == es);
    lemma_stored_all_entries(q, 0xffff);
    assert(lines_up_to(q, 0xffff) =~= q);
}

proof fn lemma_receive_prefix(s: ReceiveState, q: Map<u16, Seq<char>>, raws: Seq<Seq<char>>, n: int)
    requires
        s.reload_from_active,
        0 <= n <= raws.len(),
        raws.len() == entries_spec(q, 0, 0xffff).len(),
        forall|i: int|
            0 <= i < raws.len() ==> cleaned_spec(#[trigger] raws[i]) == line_text(
                entries_spec(q, 0, 0xffff)[i].0,
                entries_spec(q, 0, 0xffff)[i].1,
            ),
        forall|k: u16|
            #[trigger] q.contains_key(k) ==> !is_error_spec(line_text(k, q[k]))
                && !is_listing_end_spec(line_text(k, q[k])),
    ensures
        receive_all(s, Map::empty(), raws.take(n)).0.reload_from_active,
        receive_all(s, Map::empty(), raws.take(n)).1 == stored_all(
            entries_spec(q, 0, 0xffff).take(n),
        ),
    decreases n,
{
    let es = entries_spec(q, 0, 0xffff);
    if n > 0 {
        lemma_receive_prefix(s, q, raws, n - 1);
        assert(raws.take(n).drop_last() == raws.take(n - 1));
        assert(raws.take(n).last() == raws[n - 1]);
        assert(es.take(n).drop_last() == es.take(n - 1));
        assert(es.take(n).last() == es[n - 1]);
        law_listing_ordered(q, 0, 0xffff);
        let e = es[n - 1];
        assert(q.contains_key(e.0) && q[e.0] == e.1);
        law_listed_line_reads_back(e.0, e.1);
        let t = cleaned_spec(raws[n - 1]);
        assert(t == line_text(e.0, e.1));
        assert(t.len() > 0) by {
            assert(line_text(e.0, e.1).len() >= 1) by {
                lemma_decimal_digits(e.0 as nat);
            }
        }
    } else {
        assert(raws.take(0) == Seq::<Seq<char>>::empty());
        assert(es.take(0) == Seq::<(u16, Seq<char>)>::empty());
    }
}

/// During a reload, once a program line has been read, a received line
/// `"{n} {stmt}"` is stored as line `n` and the reload goes on, unless the
/// line is `Ok`, ends with `OK`, contains `READY` or `ok`, or holds an error
/// message.
pub proof fn law_reload_stores_listed_line(
    s: ReceiveState,
    p: Map<u16, Seq<char>>,
    raw: Seq<char>,
    n: u16,
    stmt: Seq<char>,
)
    requires
        s.reload_from_active,
        s.has_received_program_lines,
        cleaned_spec(raw) == line_text(n, stmt),
        line_text(n, stmt) != "Ok"@,
        !ends_with_spec(line_text(n, stmt), "OK"@),
        !contains_spec(line_text(n, stmt), "READY"@),
        !contains_spec(line_text(n, stmt), "ok"@),
        !is_error_spec(line_text(n, stmt)),
    ensures
        receive_spec(s, p, raw).1 == p.insert(n, stmt),
        receive_spec(s, p, raw).0.reload_from_active,
        receive_spec(s, p, raw).2.printed == Some(line_text(n, stmt)),
{
    law_listed_line_reads_back(n, stmt);
    lemma_decimal_digits(n as nat);
    assert(line_text(n, stmt).len() > 0);
}

/// During a reload that has read program lines and met no error, the `Ok`
/// prompt ends the reload and leaves the program as read.
pub proof fn law_reload_ends_at_ok(s: ReceiveState, p: Map<u16, Seq<char>>, raw: Seq<char>)
    requires
        s.reload_from_active,
        s.has_received_program_lines,
        !s.syntax_error_detected,
        cleaned_spec(raw) == "Ok"@,
        !is_error_spec("Ok"@),
    ensures
        !receive_spec(s, p, raw).0.reload_from_active,
        receive_spec(s, p, raw).1 == p,
        receive_spec(s, p, raw).2.printed == Some("Program reload complete."@),
{
    reveal_strlit("Ok");
}

/// Whatever the receiving state, after `RenumStart` an answer `Ok`, `OK`,
/// `ok`, or one containing `OK.`, that holds no error message empties the
/// program, sends `list\r`, shows the answer and starts reading the listing
/// back.
pub proof fn law_renum_ok_starts_reload(s: ReceiveState, p: Map<u16, Seq<char>>, raw: Seq<char>)
    requires
        cleaned_spec(raw) == "Ok"@ || cleaned_spec(raw) == "OK"@ || cleaned_spec(raw) == "ok"@
            || contains_spec(cleaned_spec(raw), "OK."@),
        cleaned_spec(raw).len() > 0,
        !is_error_spec(cleaned_spec(raw)),
    ensures
        receive_spec(apply_spec(s, Command::RenumStart), p, raw).0.reload_from_active,
        receive_spec(apply_spec(s, Command::RenumStart), p, raw).1 == Map::<
            u16,
            Seq<char>,
        >::empty(),
        receive_spec(apply_spec(s, Command::RenumStart), p, raw).2.send == Some("list\r"@),
        receive_spec(apply_spec(s, Command::RenumStart), p, raw).2.printed == Some(raw),
{
}

/// An error message while a reload is active ends the reload, marks the
/// error and empties the program.
pub proof fn law_reload_error_clears(s: ReceiveState, p: Map<u16, Seq<char>>, raw: Seq<char>)
    requires
        s.reload_from_active,
        cleaned_spec(raw).len() > 0,
        is_error_spec(cleaned_spec(raw)),
    ensures
        !receive_spec(s, p, raw).0.reload_from_active,
        receive_spec(s, p, raw).0.syntax_error_detected,
        receive_spec(s, p, raw).1 == Map::<u16, Seq<char>>::empty(),
{
}

/// An error message in answer to `RenumStart` stops the renumbering, marks
/// the error, sends nothing and keeps the program.
pub proof fn law_renum_error_keeps(s: ReceiveState, p: Map<u16, Seq<char>>, raw: Seq<char>)
    requires
        cleaned_spec(raw).len() > 0,
        is_error_spec(cleaned_spec(raw)),
    ensures
        !receive_spec(apply_spec(s, Command::RenumStart), p, raw).0.renum_sequence_active,
        !receive_spec(apply_spec(s, Command::RenumStart), p, raw).0.reload_from_active,
        receive_spec(apply_spec(s, Command::RenumStart), p, raw).0.syntax_error_detected,
        receive_spec(apply_spec(s, Command::RenumStart), p, raw).1 == p,
        receive_spec(apply_spec(s, Command::RenumStart), p, raw).2.send is None,
{
}

} // verus!
