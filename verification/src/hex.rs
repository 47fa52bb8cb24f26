//! Hexadecimal dumps of received bytes and hexadecimal byte input
//! (`#hex 41 42 ...`).
use vstd::prelude::*;
use crate::text::{
    chars_of, digit_value, digits_value, all_digits, lemma_split_concat, lemma_split_none,
    parse_hex_u8, parse_hex_u8_spec, split_chars, split_spec, string_of, views,
};

verus! {

/// The upper-case hexadecimal digit of `d` (`{:X}`).
pub open spec fn hex_upper_digit(d: nat) -> char {
    seq!['0', '1', '2', '3', '4', '5', '6', '7', '8', '9', 'A', 'B', 'C', 'D', 'E', 'F'][d as int]
}

/// `b` as two upper-case hexadecimal digits (`{:02X}`).
pub open spec fn hex_pair(b: u8) -> Seq<char> {
    seq![hex_upper_digit(b as nat / 16), hex_upper_digit(b as nat % 16)]
}

/// Each byte of `v` as two upper-case hexadecimal digits followed by a space.
pub open spec fn dump_hex_spec(v: Seq<u8>) -> Seq<char>
    decreases v.len(),
{
    if v.len() == 0 {
        Seq::<char>::empty()
    } else {
        hex_pair(v[0]) + seq![' '] + dump_hex_spec(v.drop_first())
    }
}

/// The bytes that the hexadecimal tokens among `tokens` denote, in order;
/// a token that is not a hexadecimal byte is passed over.
pub open spec fn hex_values_spec(tokens: Seq<Seq<char>>) -> Seq<u8>
    decreases tokens.len(),
{
    if tokens.len() == 0 {
        Seq::<u8>::empty()
    } else {
        let r = hex_values_spec(tokens.drop_last());
        match parse_hex_u8_spec(tokens.last()) {
            Some(v) => r.push(v),
            None => r,
        }
    }
}

/// The bytes of a `#hex` command line: every space-separated token after
/// the first that reads as a hexadecimal byte.
pub open spec fn hex2u8_spec(s: Seq<char>) -> Seq<u8> {
    hex_values_spec(split_spec(s, ' ').drop_first())
}

fn hex_digit_char(d: u8) -> (c: char)
    requires
        d < 16,
    ensures
        c == hex_upper_digit(d as nat),
{
    let cs = ['0', '1', '2', '3', '4', '5', '6', '7', '8', '9', 'A', 'B', 'C', 'D', 'E', 'F'];
    let c = cs[d as usize];
    assert(cs@ == seq!['0', '1', '2', '3', '4', '5', '6', '7', '8', '9', 'A', 'B', 'C', 'D', 'E', 'F']);
    c
}

/// Renders bytes as upper-case hexadecimal pairs, each followed by a space.
pub fn dump_hex(uv: Vec<u8>) -> (r: String)
    ensures
        r@ == dump_hex_spec(uv@),
{
    let mut out: Vec<char> = Vec::new();
    assert(uv@.skip(0) == uv@);
    assert(out@ + dump_hex_spec(uv@) == dump_hex_spec(uv@));
    for i in 0..uv.len()
        invariant
            out@ + dump_hex_spec(uv@.skip(i as int)) == dump_hex_spec(uv@),
    {
        let b = uv[i];
        let ghost before = out@;
        assert(uv@.skip(i as int).drop_first() == uv@.skip(i + 1));
        assert(uv@.skip(i as int)[0] == b);
        out.push(hex_digit_char(b / 16));
        out.push(hex_digit_char(b % 16));
        out.push(' ');
        assert(out@ == before + hex_pair(b) + seq![' ']);
        assert(out@ + dump_hex_spec(uv@.skip(i + 1)) == before + dump_hex_spec(
            uv@.skip(i as int),
        ));
    }
    assert(uv@.skip(uv@.len() as int) == Seq::<u8>::empty());
    assert(out@ + Seq::<char>::empty() == out@);
    string_of(&out)
}

/// Reads the bytes of a `#hex` command line: the tokens after the first,
/// separated by single spaces, that are hexadecimal numbers below 256.
pub fn hex2u8(hex: &str) -> (r: Vec<u8>)
    ensures
        r@ == hex2u8_spec(hex@),
{
    let cs = chars_of(hex);
    let tokens = split_chars(&cs, ' ');
    let ghost toks = views(tokens@);
    let mut out: Vec<u8> = Vec::new();
    let mut i: usize = 1;
    assert(toks.subrange(1, 1) == Seq::<Seq<char>>::empty());
    while i < tokens.len()
        invariant
            1 <= i <= tokens@.len(),
            toks == views(tokens@),
            out@ == hex_values_spec(toks.subrange(1, i as int)),
        decreases tokens@.len() - i,
    {
        assert(toks.subrange(1, i + 1).drop_last() == toks.subrange(1, i as int));
        assert(toks.subrange(1, i + 1).last() == tokens@[i as int]@);
        match parse_hex_u8(&tokens[i]) {
            Some(v) => {
                out.push(v);
            },
            None => {},
        }
        i = i + 1;
    }
    assert(toks.subrange(1, toks.len() as int) == toks.drop_first());
    out
}

// ---------------------------------------------------------------------------
// A `#hex` line made of a dump reads back as the dumped bytes
// ---------------------------------------------------------------------------

proof fn lemma_hex_upper_digit(d: nat)
    requires
        d < 16,
    ensures
        digit_value(hex_upper_digit(d), 16) == Some(d),
        hex_upper_digit(d) != ' ',
        hex_upper_digit(d) != '+',
{
    assert(d == 0 || d == 1 || d == 2 || d == 3 || d == 4 || d == 5 || d == 6 || d == 7 || d == 8
        || d == 9 || d == 10 || d == 11 || d == 12 || d == 13 || d == 14 || d == 15);
}

proof fn lemma_hex_pair(b: u8)
    ensures
        parse_hex_u8_spec(hex_pair(b)) == Some(b),
        forall|i: int| 0 <= i < hex_pair(b).len() ==> #[trigger] hex_pair(b)[i] != ' ',
{
    let p = hex_pair(b);
    lemma_hex_upper_digit(b as nat / 16);
    lemma_hex_upper_digit(b as nat % 16);
    assert(p.drop_last().drop_last() == Seq::<char>::empty());
    assert(digits_value(Seq::<char>::empty(), 16) == 0);
    assert(digits_value(p.drop_last(), 16) == b as nat / 16);
    assert(digits_value(p, 16) == (b as nat / 16) * 16 + b as nat % 16);
    assert(all_digits(p, 16)) by {
        assert forall|i: int| 0 <= i < p.len() implies #[trigger] digit_value(p[i], 16) is Some by {
            if i == 0 {
            } else {
            }
        }
    }
}

/// The two-digit pairs of the bytes of `v`.
pub open spec fn hex_pairs(v: Seq<u8>) -> Seq<Seq<char>> {
    Seq::new(v.len(), |i: int| hex_pair(v[i]))
}

proof fn lemma_split_dump(v: Seq<u8>)
    ensures
        split_spec(dump_hex_spec(v), ' ') == hex_pairs(v).push(Seq::<char>::empty()),
    decreases v.len(),
{
    if v.len() == 0 {
        assert(hex_pairs(v).push(Seq::<char>::empty()) == seq![Seq::<char>::empty()]);
    } else {
        lemma_split_dump(v.drop_first());
        lemma_hex_pair(v[0]);
        lemma_split_concat(hex_pair(v[0]), dump_hex_spec(v.drop_first()), ' ');
        lemma_split_none(hex_pair(v[0]), ' ');
        assert(hex_pairs(v).push(Seq::<char>::empty()) == seq![hex_pair(v[0])] + hex_pairs(
            v.drop_first(),
        ).push(Seq::<char>::empty()));
    }
}

proof fn lemma_hex_values_pairs(v: Seq<u8>)
    ensures
        hex_values_spec(hex_pairs(v)) == v,
        hex_values_spec(hex_pairs(v).push(Seq::<char>::empty())) == v,
    decreases v.len(),
{
    let t = hex_pairs(v);
    assert(t.push(Seq::<char>::empty()).drop_last() == t);
    assert(parse_hex_u8_spec(Seq::<char>::empty()) is None);
    assert(t.push(Seq::<char>::empty()).last() == Seq::<char>::empty());
    assert(hex_values_spec(t.push(Seq::<char>::empty())) == hex_values_spec(t));
    if v.len() > 0 {
        lemma_hex_values_pairs(v.drop_last());
        assert(t.drop_last() == hex_pairs(v.drop_last()));
        lemma_hex_pair(v.last());
        assert(v.drop_last().push(v.last()) == v);
    } else {
        assert(t == Seq::<Seq<char>>::empty());
    }
}

/// A `#hex` line whose arguments are a dump of `v` gives back `v`: for a
/// command word `cmd` without spaces, `hex2u8(cmd + " " + dump_hex(v)) == v`.
pub proof fn law_hex_roundtrip(cmd: Seq<char>, v: Seq<u8>)
    requires
        forall|i: int| 0 <= i < cmd.len() ==> cmd[i] != ' ',
    ensures
        hex2u8_spec(cmd + seq![' '] + dump_hex_spec(v)) == v,
{
    lemma_split_concat(cmd, dump_hex_spec(v), ' ');
    lemma_split_none(cmd, ' ');
    lemma_split_dump(v);
    lemma_hex_values_pairs(v);
    assert((seq![cmd] + hex_pairs(v).push(Seq::<char>::empty())).drop_first() == hex_pairs(
        v,
    ).push(Seq::<char>::empty()));
}

/// Every byte takes three characters in a dump.
pub proof fn law_dump_hex_length(v: Seq<u8>)
    ensures
        dump_hex_spec(v).len() == 3 * v.len(),
    decreases v.len(),
{
    if v.len() > 0 {
        law_dump_hex_length(v.drop_first());
    }
}

} // verus!
