//! The terminal's copy of the BASIC program, keyed by line number.
use vstd::prelude::*;
use std::collections::BTreeMap;
use crate::lines::lemma_line_text_parts;
use crate::text::{
    lemma_decimal_digits, lemma_find_spec, lemma_parse_decimal,
    append_chars, chars_of, decimal_spec, find_char, find_spec, parse_u16, parse_u16_spec,
    push_decimal, slice_chars, string_of, trim_chars, trim_spec,
};

verus! {

broadcast use vstd::std_specs::btree::group_btree_axioms;
use vstd::std_specs::btree::{spec_btree_map_iter, increasing_seq};
use crate::order::{lemma_u16_keys_ordered, lemma_increasing_keys};
use vstd::std_specs::iter::IteratorSpec;

/// A BASIC program: statement text by line number.
pub open spec fn program_of(m: Map<u16, String>) -> Map<u16, Seq<char>> {
    Map::new(|k: u16| m.contains_key(k), |k: u16| m[k]@)
}

/// The listing line of line `k`: its number in decimal, a space, the statement.
pub open spec fn line_text(k: u16, stmt: Seq<char>) -> Seq<char> {
    decimal_spec(k as nat) + seq![' '] + stmt
}

/// The lines of `p` numbered `lo` to `hi` with their statements, in
/// increasing order of line number.
pub open spec fn entries_spec(p: Map<u16, Seq<char>>, lo: int, hi: int) -> Seq<(u16, Seq<char>)>
    decreases hi - lo + 1,
{
    if hi < lo {
        Seq::<(u16, Seq<char>)>::empty()
    } else {
        let r = entries_spec(p, lo, hi - 1);
        if 0 <= hi <= 0xffff && p.contains_key(hi as u16) {
            r.push((hi as u16, p[hi as u16]))
        } else {
            r
        }
    }
}

/// The listing lines (`"{n} {stmt}"`) of the lines of `p` numbered `lo` to
/// `hi`, in increasing order of line number.
pub open spec fn listing_spec(p: Map<u16, Seq<char>>, lo: int, hi: int) -> Seq<Seq<char>> {
    listing_of(entries_spec(p, lo, hi))
}

/// The listing lines of `es`.
pub open spec fn listing_of(es: Seq<(u16, Seq<char>)>) -> Seq<Seq<char>> {
    es.map_values(|e: (u16, Seq<char>)| line_text(e.0, e.1))
}

/// The views of program entries.
pub open spec fn entry_views(v: Seq<(u16, String)>) -> Seq<(u16, Seq<char>)> {
    v.map_values(|e: (u16, String)| (e.0, e.1@))
}

/// The views of a vector of strings.
pub open spec fn string_views(v: Seq<String>) -> Seq<Seq<char>> {
    v.map_values(|s: String| s@)
}

proof fn lemma_entries_gap(p: Map<u16, Seq<char>>, lo: int, a: int, b: int)
    requires
        a <= b,
        forall|k: u16| a < k <= b ==> !p.contains_key(k),
    ensures
        entries_spec(p, lo, b) == entries_spec(p, lo, a),
    decreases b - a,
{
    if a < b {
        lemma_entries_gap(p, lo, a, b - 1);
        if 0 <= b <= 0xffff {
            assert(!p.contains_key(b as u16));
        }
    }
}

/// Key of the `i`-th entry of an ordered walk over a map.
pub open spec fn key_at(items: Seq<(&u16, &String)>, i: int) -> int {
    *items[i].0 as int
}

/// The walk `items` visits the entries of `m` once each, in increasing key order.
pub open spec fn ordered_walk(m: Map<u16, String>, items: Seq<(&u16, &String)>) -> bool {
    &&& forall|i: int, j: int|
        0 <= i < j < items.len() ==> *(#[trigger] items[i]).0 < *(#[trigger] items[j]).0
    &&& forall|i: int|
        0 <= i < items.len() ==> m.contains_key(*(#[trigger] items[i]).0) && m[*items[i].0]
            == *items[i].1
    &&& forall|k: u16| m.contains_key(k) ==> exists|i: int| 0 <= i < items.len() && *(#[trigger] items[i]).0 == k
}

/// Between two consecutive steps of an ordered walk there is no key of the map.
proof fn lemma_walk_gap(m: Map<u16, String>, items: Seq<(&u16, &String)>, idx: int)
    requires
        ordered_walk(m, items),
        0 <= idx <= items.len(),
    ensures
        forall|q: u16|
            (if idx == 0 {
                -1
            } else {
                key_at(items, idx - 1)
            }) < q && q < (if idx < items.len() {
                key_at(items, idx)
            } else {
                0x10000
            }) ==> !#[trigger] m.contains_key(q),
{
    assert forall|q: u16|
        (if idx == 0 {
            -1
        } else {
            key_at(items, idx - 1)
        }) < q && q < (if idx < items.len() {
            key_at(items, idx)
        } else {
            0x10000
        }) implies !#[trigger] m.contains_key(q) by {
        if m.contains_key(q) {
            let j = choose|j: int| 0 <= j < items.len() && *(#[trigger] items[j]).0 == q;
            if j < idx {
                if j < idx - 1 {
                    assert(*items[j].0 < *items[idx - 1].0);
                }
            } else if idx < items.len() {
                if j > idx {
                    assert(*items[idx].0 < *items[j].0);
                }
            }
        }
    }
}

/// The listing line of line `k`.
fn format_line(k: u16, v: &String) -> (r: String)
    ensures
        r@ == line_text(k, v@),
{
    let mut line: Vec<char> = Vec::new();
    push_decimal(&mut line, k);
    line.push(' ');
    let vc = chars_of(v.as_str());
    append_chars(&mut line, &vc);
    string_of(&line)
}

/// The lines of `m` numbered `start` to `end` with their statements, in
/// increasing order of line number.
pub fn entries(m: &BTreeMap<u16, String>, start: u16, end: u16) -> (r: Vec<(u16, String)>)
    ensures
        entry_views(r@) == entries_spec(program_of(m@), start as int, end as int),
{
    proof {
        lemma_u16_keys_ordered();
    }
    let ghost p = program_of(m@);
    let mut out: Vec<(u16, String)> = Vec::new();
    if m.is_empty() {
        proof {
            lemma_entries_gap(p, start as int, -1, end as int);
        }
        return out;
    }
    let ghost mut prev: int = -1;
    let ghost walk = spec_btree_map_iter(m).remaining();
    for kv in it: m.iter()
        invariant
            p == program_of(m@),
            walk == spec_btree_map_iter(m).remaining(),
            it.seq() == walk,
            increasing_seq(walk.map_values(|kv: (&u16, &String)| *kv.0)),
            prev == if it.index() == 0 {
                -1
            } else {
                key_at(walk, it.index() - 1)
            },
            entry_views(out@) == entries_spec(p, start as int, if it.index()
                == walk.len() || prev >= end {
                end as int
            } else {
                prev
            }),
    {
        let (k, v) = kv;
        let ghost items = walk;
        let ghost idx = it.index();
        proof {
            lemma_increasing_keys(items);
            assert(ordered_walk(m@, items));
            lemma_walk_gap(m@, items, idx);
        }
        let ghost old_out = entry_views(out@);
        let ghost kk = *k as int;
        assert(kk == key_at(items, idx));
        if start <= *k && *k <= end {
            let stmt = v.clone();
            out.push((*k, stmt));
            assert(entry_views(out@) == old_out.push((*k, stmt@)));
        }
        proof {
            let hi = if kk < end { kk } else { end as int };
            if prev < end {
                lemma_entries_gap(p, start as int, prev, hi - (if kk <= end { 1int } else { 0int }));
            }
            prev = kk;
            if idx + 1 == m@.dom().len() && kk < end {
                lemma_walk_gap(m@, items, idx + 1);
                lemma_entries_gap(p, start as int, kk, end as int);
            }
        }
    }
    out
}

/// What the terminal knows: its modes, the program, the command help table.
pub struct TermView {
    pub dump_mode: bool,
    pub lower_mode: bool,
    pub kanji_mode: bool,
    pub program: Map<u16, Seq<char>>,
    pub commands: Map<Seq<char>, Seq<char>>,
}

/// The help table held as pairs; a later pair overrides an earlier one.
pub open spec fn table_view(t: Seq<(String, String)>) -> Map<Seq<char>, Seq<char>>
    decreases t.len(),
{
    if t.len() == 0 {
        Map::empty()
    } else {
        table_view(t.drop_last()).insert(t.last().0@, t.last().1@)
    }
}

/// The state of the terminal: display and send modes, the local copy of
/// the BASIC program, and the help texts of the local commands.
#[derive(Clone)]
pub struct Msxterm {
    pub dump_mode: bool,
    pub lower_mode: bool,
    pub kanji_mode: bool,
    pub prog_buff: BTreeMap<u16, String>,
    pub t_com: Vec<(String, String)>,
}

impl View for Msxterm {
    type V = TermView;

    open spec fn view(&self) -> TermView {
        TermView {
            dump_mode: self.dump_mode,
            lower_mode: self.lower_mode,
            kanji_mode: self.kanji_mode,
            program: program_of(self.prog_buff@),
            commands: table_view(self.t_com@),
        }
    }
}

/// Splits a console line at its first space (`splitn(2, ' ')`): the first
/// word, and the rest if there is a space.
pub open spec fn split_first_word(line: Seq<char>) -> (Seq<char>, Option<Seq<char>>) {
    match find_spec(line, ' ') {
        Some(i) => (line.take(i), Some(line.skip(i + 1))),
        None => (line, None),
    }
}

/// The program after a console line is entered: a line that starts with a
/// line number stores the trimmed rest under that number, or deletes that
/// line when nothing follows the number; any other line leaves it as is.
pub open spec fn parse_basic_spec(p: Map<u16, Seq<char>>, line: Seq<char>) -> Map<u16, Seq<char>> {
    let (number, rest) = split_first_word(line);
    match parse_u16_spec(number) {
        None => p,
        Some(n) => match rest {
            Some(stmt) => p.insert(n, trim_spec(stmt)),
            None => p.remove(n),
        },
    }
}

impl Msxterm {
    /// A terminal with every mode off, no program and no help texts.
    pub fn new() -> (r: Msxterm)
        ensures
            r@.dump_mode == false,
            r@.lower_mode == false,
            r@.kanji_mode == false,
            r@.program == Map::<u16, Seq<char>>::empty(),
            r@.commands == Map::<Seq<char>, Seq<char>>::empty(),
    {
        let r = Msxterm {
            dump_mode: false,
            lower_mode: false,
            kanji_mode: false,
            prog_buff: BTreeMap::new(),
            t_com: Vec::new(),
        };
        assert(r@.program == Map::<u16, Seq<char>>::empty());
        r
    }

    /// Registers the help text of the `#list` command.
    pub fn init(&mut self)
        ensures
            final(self)@ == (TermView {
                commands: old(self)@.commands.insert("#list"@, "list Program"@),
                ..old(self)@
            }),
    {
        let k = String::from_str("#list");
        let v = String::from_str("list Program");
        let ghost before = self.t_com@;
        self.t_com.push((k, v));
        assert(self.t_com@.drop_last() == before);
        assert(program_of(self.prog_buff@) == old(self)@.program);
    }

    /// Enters a console line into the program: `"N text"` stores the trimmed
    /// `text` as line `N`, a bare `"N"` deletes line `N`, where `N` is a
    /// decimal `u16`; other lines leave the program unchanged.
    pub fn parse_basic(&mut self, line: &str)
        ensures
            final(self)@ == (TermView {
                program: parse_basic_spec(old(self)@.program, line@),
                ..old(self)@
            }),
    {
        proof {
            lemma_u16_keys_ordered();
        }
        let cs = chars_of(line);
        let ghost p0 = program_of(self.prog_buff@);
        let (number, rest) = match find_char(&cs, ' ') {
            Some(i) => (slice_chars(&cs, 0, i), Some(slice_chars(&cs, i + 1, cs.len()))),
            None => (cs, None),
        };
        match parse_u16(&number) {
            None => {},
            Some(n) => match rest {
                Some(stmt) => {
                    let t = trim_chars(&stmt);
                    let ts = string_of(&t);
                    self.prog_buff.insert(n, ts);
                    assert(program_of(self.prog_buff@) == p0.insert(n, t@));
                },
                None => {
                    self.prog_buff.remove(&n);
                    assert(program_of(self.prog_buff@) == p0.remove(n));
                },
            },
        }
    }

    /// The program lines numbered `start` to `end`, as `"{n} {statement}"`,
    /// in increasing order of line number.
    pub fn print_basic(&self, start: u16, end: u16) -> (r: Vec<String>)
        requires
            self@.program.dom().len() == 0 || start <= end,
        ensures
            string_views(r@) == listing_spec(self@.program, start as int, end as int),
    {
        let es = entries(&self.prog_buff, start, end);
        let ghost ev = entry_views(es@);
        let mut out: Vec<String> = Vec::new();
        for i in 0..es.len()
            invariant
                ev == entry_views(es@),
                string_views(out@) == listing_of(ev.take(i as int)),
        {
            let line = format_line(es[i].0, &es[i].1);
            let ghost before = string_views(out@);
            out.push(line);
            assert(ev.take(i + 1) == ev.take(i as int).push(ev[i as int]));
            assert(string_views(out@) == before.push(line@));
            assert(listing_of(ev.take(i + 1)) == listing_of(ev.take(i as int)).push(
                line_text(ev[i as int].0, ev[i as int].1),
            ));
        }
        assert(ev.take(ev.len() as int) == ev);
        out
    }

    /// Stores `stmt`, as it is, as line `n`.
    pub fn store_line(&mut self, n: u16, stmt: String)
        ensures
            final(self)@ == (TermView {
                program: old(self)@.program.insert(n, stmt@),
                ..old(self)@
            }),
    {
        proof {
            lemma_u16_keys_ordered();
        }
        let ghost sv = stmt@;
        self.prog_buff.insert(n, stmt);
        assert(program_of(self.prog_buff@) == old(self)@.program.insert(n, sv));
    }

    /// Empties the program.
    pub fn clear_basic(&mut self)
        ensures
            final(self)@ == (TermView { program: Map::<u16, Seq<char>>::empty(), ..old(self)@ }),
    {
        self.prog_buff.clear();
        assert(program_of(self.prog_buff@) == Map::<u16, Seq<char>>::empty());
    }
}

// ---------------------------------------------------------------------------
// Laws
// ---------------------------------------------------------------------------

/// A listing holds exactly the lines of the program in the range, each once,
/// with its statement, in increasing order of line number.
pub proof fn law_listing_ordered(p: Map<u16, Seq<char>>, lo: int, hi: int)
    ensures
        forall|i: int, j: int|
            0 <= i < j < entries_spec(p, lo, hi).len() ==> (#[trigger] entries_spec(p, lo, hi)[i]).0
                < (#[trigger] entries_spec(p, lo, hi)[j]).0,
        forall|i: int|
            0 <= i < entries_spec(p, lo, hi).len() ==> {
                let e = #[trigger] entries_spec(p, lo, hi)[i];
                &&& lo <= e.0 <= hi
                &&& p.contains_key(e.0)
                &&& p[e.0] == e.1
            },
        forall|k: u16|
            lo <= k <= hi && #[trigger] p.contains_key(k) ==> exists|i: int|
                0 <= i < entries_spec(p, lo, hi).len() && (#[trigger] entries_spec(p, lo, hi)[i]).0
                    == k,
    decreases hi - lo + 1,
{
    if hi >= lo {
        law_listing_ordered(p, lo, hi - 1);
        let r = entries_spec(p, lo, hi - 1);
        let es = entries_spec(p, lo, hi);
        assert forall|k: u16| lo <= k <= hi && #[trigger] p.contains_key(k) implies exists|i: int|
            0 <= i < es.len() && (#[trigger] es[i]).0 == k by {
            if k < hi {
                let i = choose|i: int| 0 <= i < r.len() && (#[trigger] r[i]).0 == k;
                assert(es[i] == r[i]);
            } else {
                assert(es[es.len() - 1].0 == k);
            }
        }
        assert forall|i: int, j: int| 0 <= i < j < es.len() implies (#[trigger] es[i]).0 < (
        #[trigger] es[j]).0 by {
            if j < r.len() {
                assert(es[i] == r[i] && es[j] == r[j]);
            } else {
                assert(es[i] == r[i]);
            }
        }
        assert forall|i: int| 0 <= i < es.len() implies {
            let e = #[trigger] es[i];
            &&& lo <= e.0 <= hi
            &&& p.contains_key(e.0)
            &&& p[e.0] == e.1
        } by {
            if i < r.len() {
                assert(es[i] == r[i]);
            }
        }
    }
}

/// Entering `"{k} {stmt}"` stores the trimmed statement as line `k`, which
/// the listing of line `k` then shows.
pub proof fn law_entered_line_is_listed(p: Map<u16, Seq<char>>, k: u16, stmt: Seq<char>)
    ensures
        parse_basic_spec(p, line_text(k, stmt)) == p.insert(k, trim_spec(stmt)),
        listing_spec(parse_basic_spec(p, line_text(k, stmt)), k as int, k as int) == seq![
            line_text(k, trim_spec(stmt)),
        ],
{
    lemma_line_text_parts(k, stmt);
    let q = p.insert(k, trim_spec(stmt));
    assert(entries_spec(q, k as int, k as int - 1) == Seq::<(u16, Seq<char>)>::empty());
    assert(entries_spec(q, k as int, k as int) == seq![(k, trim_spec(stmt))]);
}

/// Entering a line number alone deletes that line.
pub proof fn law_number_alone_deletes(p: Map<u16, Seq<char>>, k: u16)
    ensures
        parse_basic_spec(p, decimal_spec(k as nat)) == p.remove(k),
{
    lemma_decimal_digits(k as nat);
    lemma_parse_decimal(k);
    lemma_find_spec(decimal_spec(k as nat), ' ', decimal_spec(k as nat).len() as int);
}

/// Entering a listed line again leaves the program as it is, when its
/// statement has no surrounding whitespace.
pub proof fn law_reentered_line_keeps(p: Map<u16, Seq<char>>, k: u16)
    requires
        p.contains_key(k),
        trim_spec(p[k]) == p[k],
    ensures
        parse_basic_spec(p, line_text(k, p[k])) == p,
{
    law_entered_line_is_listed(p, k, p[k]);
    assert(p.insert(k, p[k]) == p);
}

/// An empty program lists nothing.
pub proof fn law_empty_lists_nothing(lo: int, hi: int)
    ensures
        listing_spec(Map::<u16, Seq<char>>::empty(), lo, hi) == Seq::<Seq<char>>::empty(),
    decreases hi - lo + 1,
{
    if hi >= lo {
        law_empty_lists_nothing(lo, hi - 1);
    }
}

} // verus!
