//! Character-level text handling: whitespace trimming, splitting on a
//! separator, prefix and substring tests, and decimal and hexadecimal
//! numerals, each specified over `Seq<char>`.
use vstd::prelude::*;

verus! {

broadcast use vstd::string::group_string_axioms;

// ---------------------------------------------------------------------------
// Conversions between `str`, `String` and `Vec<char>`
// ---------------------------------------------------------------------------

/// The characters of `s`, in order.
pub fn chars_of(s: &str) -> (r: Vec<char>)
    ensures
        r@ == s@,
{
    let mut out: Vec<char> = Vec::new();
    for c in it: s.chars()
        invariant
            out@ == it.seq().take(it.index() as int),
            it.seq() == s@,
    {
        out.push(c);
    }
    out
}

/// `String::push`: appends one character.
#[verifier::external_body]
fn string_push(s: &mut String, c: char)
    ensures
        final(s)@ == old(s)@.push(c),
{
    s.push(c);
}

/// The string made of the characters of `cs`.
pub fn string_of(cs: &Vec<char>) -> (r: String)
    ensures
        r@ == cs@,
{
    let mut out = String::new();
    for i in 0..cs.len()
        invariant
            out@ == cs@.take(i as int),
    {
        string_push(&mut out, cs[i]);
        assert(cs@.take(i + 1) == cs@.take(i as int).push(cs@[i as int]));
    }
    assert(cs@.take(cs@.len() as int) == cs@);
    out
}

/// Appends `src` to `dst`.
pub fn append_chars(dst: &mut Vec<char>, src: &Vec<char>)
    ensures
        final(dst)@ == old(dst)@ + src@,
{
    for i in 0..src.len()
        invariant
            dst@ == old(dst)@ + src@.take(i as int),
    {
        dst.push(src[i]);
        assert(src@.take(i + 1) == src@.take(i as int).push(src@[i as int]));
    }
    assert(src@.take(src@.len() as int) == src@);
}

/// Appends the characters of the literal-like `src` to `dst`.
pub fn append_str(dst: &mut Vec<char>, src: &str)
    ensures
        final(dst)@ == old(dst)@ + src@,
{
    let cs = chars_of(src);
    append_chars(dst, &cs);
}

// ---------------------------------------------------------------------------
// Whitespace and trimming
// ---------------------------------------------------------------------------

/// Unicode `White_Space`: the characters that `char::is_whitespace` accepts.
pub open spec fn is_ws(c: char) -> bool {
    let u = c as u32;
    ||| 0x09 <= u <= 0x0d
    ||| u == 0x20
    ||| u == 0x85
    ||| u == 0xa0
    ||| u == 0x1680
    ||| 0x2000 <= u <= 0x200a
    ||| u == 0x2028
    ||| u == 0x2029
    ||| u == 0x202f
    ||| u == 0x205f
    ||| u == 0x3000
}

/// Whether `c` is Unicode whitespace.
pub fn is_whitespace(c: char) -> (r: bool)
    ensures
        r == is_ws(c),
{
    let u = c as u32;
    (0x09 <= u && u <= 0x0d) || u == 0x20 || u == 0x85 || u == 0xa0 || u == 0x1680 || (0x2000
        <= u && u <= 0x200a) || u == 0x2028 || u == 0x2029 || u == 0x202f || u == 0x205f || u
        == 0x3000
}

/// `s` without its leading whitespace.
pub open spec fn trim_start_spec(s: Seq<char>) -> Seq<char>
    decreases s.len(),
{
    if s.len() > 0 && is_ws(s[0]) {
        trim_start_spec(s.drop_first())
    } else {
        s
    }
}

/// `s` without its trailing whitespace.
pub open spec fn trim_end_spec(s: Seq<char>) -> Seq<char>
    decreases s.len(),
{
    if s.len() > 0 && is_ws(s.last()) {
        trim_end_spec(s.drop_last())
    } else {
        s
    }
}

/// `s` without leading and trailing whitespace (`str::trim`).
pub open spec fn trim_spec(s: Seq<char>) -> Seq<char> {
    trim_start_spec(trim_end_spec(s))
}

/// Index of the first character of `s` at or after `from` that is not whitespace.
fn skip_ws(s: &Vec<char>, from: usize, to: usize) -> (i: usize)
    requires
        from <= to <= s@.len(),
    ensures
        from <= i <= to,
        trim_start_spec(s@.subrange(from as int, to as int)) == s@.subrange(i as int, to as int),
{
    let mut i: usize = from;
    while i < to && is_whitespace(s[i])
        invariant
            from <= i <= to <= s@.len(),
            trim_start_spec(s@.subrange(from as int, to as int)) == trim_start_spec(
                s@.subrange(i as int, to as int),
            ),
        decreases to - i,
    {
        assert(s@.subrange(i as int, to as int).drop_first() == s@.subrange(i + 1, to as int));
        i = i + 1;
    }
    i
}

/// Index just past the last character of `s` before `to` that is not whitespace.
fn skip_ws_back(s: &Vec<char>, from: usize, to: usize) -> (j: usize)
    requires
        from <= to <= s@.len(),
    ensures
        from <= j <= to,
        trim_end_spec(s@.subrange(from as int, to as int)) == s@.subrange(from as int, j as int),
{
    let mut j: usize = to;
    while j > from && is_whitespace(s[j - 1])
        invariant
            from <= j <= to <= s@.len(),
            trim_end_spec(s@.subrange(from as int, to as int)) == trim_end_spec(
                s@.subrange(from as int, j as int),
            ),
        decreases j,
    {
        assert(s@.subrange(from as int, j as int).drop_last() == s@.subrange(
            from as int,
            j - 1,
        ));
        j = j - 1;
    }
    j
}

/// `s[from..to]`.
pub fn slice_chars(s: &Vec<char>, from: usize, to: usize) -> (r: Vec<char>)
    requires
        from <= to <= s@.len(),
    ensures
        r@ == s@.subrange(from as int, to as int),
{
    let mut out: Vec<char> = Vec::new();
    let mut i: usize = from;
    while i < to
        invariant
            from <= i <= to <= s@.len(),
            out@ == s@.subrange(from as int, i as int),
        decreases to - i,
    {
        out.push(s[i]);
        assert(s@.subrange(from as int, i + 1) == s@.subrange(from as int, i as int).push(
            s@[i as int],
        ));
        i = i + 1;
    }
    out
}

/// `s` without its leading whitespace (`str::trim_start`).
pub fn trim_start_chars(s: &Vec<char>) -> (r: Vec<char>)
    ensures
        r@ == trim_start_spec(s@),
{
    assert(s@.subrange(0, s@.len() as int) == s@);
    let i = skip_ws(s, 0, s.len());
    slice_chars(s, i, s.len())
}

/// `s` without leading and trailing whitespace (`str::trim`).
pub fn trim_chars(s: &Vec<char>) -> (r: Vec<char>)
    ensures
        r@ == trim_spec(s@),
{
    assert(s@.subrange(0, s@.len() as int) == s@);
    let j = skip_ws_back(s, 0, s.len());
    let i = skip_ws(s, 0, j);
    slice_chars(s, i, j)
}

// ---------------------------------------------------------------------------
// Splitting
// ---------------------------------------------------------------------------

/// The pieces of `s` between occurrences of `sep` (`str::split` with a
/// character pattern): never empty, one more piece than `sep` occurs.
pub open spec fn split_spec(s: Seq<char>, sep: char) -> Seq<Seq<char>>
    decreases s.len(),
{
    if s.len() == 0 {
        seq![Seq::<char>::empty()]
    } else {
        let r = split_spec(s.drop_last(), sep);
        if s.last() == sep {
            r.push(Seq::<char>::empty())
        } else {
            r.update(r.len() - 1, r.last().push(s.last()))
        }
    }
}

pub proof fn lemma_split_nonempty(s: Seq<char>, sep: char)
    ensures
        split_spec(s, sep).len() >= 1,
    decreases s.len(),
{
    if s.len() > 0 {
        lemma_split_nonempty(s.drop_last(), sep);
    }
}

/// Splitting `x`, a separator, then `y` gives the pieces of `x` then those of `y`.
pub proof fn lemma_split_concat(x: Seq<char>, y: Seq<char>, sep: char)
    ensures
        split_spec(x + seq![sep] + y, sep) == split_spec(x, sep) + split_spec(y, sep),
    decreases y.len(),
{
    let s = x + seq![sep] + y;
    if y.len() == 0 {
        assert(s.drop_last() == x);
        assert(split_spec(y, sep) == seq![Seq::<char>::empty()]);
    } else {
        lemma_split_concat(x, y.drop_last(), sep);
        lemma_split_nonempty(y.drop_last(), sep);
        lemma_split_nonempty(x, sep);
        assert(s.drop_last() == x + seq![sep] + y.drop_last());
        assert(s.last() == y.last());
        let a = split_spec(x, sep);
        let b = split_spec(y.drop_last(), sep);
        if y.last() == sep {
            assert((a + b).push(Seq::<char>::empty()) == a + b.push(Seq::<char>::empty()));
        } else {
            assert((a + b).update((a + b).len() - 1, (a + b).last().push(y.last())) == a + b.update(
                b.len() - 1,
                b.last().push(y.last()),
            ));
        }
    }
}

/// A text without the separator is a single piece.
pub proof fn lemma_split_none(x: Seq<char>, sep: char)
    requires
        forall|i: int| 0 <= i < x.len() ==> x[i] != sep,
    ensures
        split_spec(x, sep) == seq![x],
    decreases x.len(),
{
    if x.len() > 0 {
        lemma_split_none(x.drop_last(), sep);
        assert(x.drop_last().push(x.last()) == x);
        assert(seq![x.drop_last()].update(0, x.drop_last().push(x.last())) == seq![x]);
    } else {
        assert(x == Seq::<char>::empty());
    }
}

/// The views of the pieces held in `v`.
pub open spec fn views(v: Seq<Vec<char>>) -> Seq<Seq<char>> {
    v.map_values(|x: Vec<char>| x@)
}

/// Splits `s` at every occurrence of `sep`.
pub fn split_chars(s: &Vec<char>, sep: char) -> (r: Vec<Vec<char>>)
    ensures
        views(r@) == split_spec(s@, sep),
        r@.len() >= 1,
{
    let mut done: Vec<Vec<char>> = Vec::new();
    let mut cur: Vec<char> = Vec::new();
    for i in 0..s.len()
        invariant
            split_spec(s@.take(i as int), sep) == views(done@).push(cur@),
    {
        let c = s[i];
        assert(s@.take(i + 1).drop_last() == s@.take(i as int));
        assert(s@.take(i + 1).last() == c);
        if c == sep {
            let ghost old_done = done@;
            done.push(cur);
            cur = Vec::new();
            assert(views(done@) == views(old_done).push(views(done@).last()));
        } else {
            cur.push(c);
        }
        assert(split_spec(s@.take(i + 1), sep) == views(done@).push(cur@));
    }
    assert(s@.take(s@.len() as int) == s@);
    let ghost before = views(done@);
    done.push(cur);
    assert(views(done@) == before.push(views(done@).last()));
    done
}

// ---------------------------------------------------------------------------
// Searching
// ---------------------------------------------------------------------------

/// Index of the first occurrence of `c` in `s`.
pub open spec fn find_spec(s: Seq<char>, c: char) -> Option<int>
    decreases s.len(),
{
    if s.len() == 0 {
        None
    } else if s[0] == c {
        Some(0)
    } else {
        match find_spec(s.drop_first(), c) {
            Some(i) => Some(i + 1),
            None => None,
        }
    }
}

pub proof fn lemma_find_spec(s: Seq<char>, c: char, i: int)
    requires
        0 <= i <= s.len(),
        forall|j: int| 0 <= j < i ==> s[j] != c,
    ensures
        i < s.len() && s[i] == c ==> find_spec(s, c) == Some(i),
        i == s.len() ==> find_spec(s, c) is None,
    decreases i,
{
    if i > 0 {
        lemma_find_spec(s.drop_first(), c, i - 1);
    }
}

/// Index of the first occurrence of `c` in `s` (`str::find` by character
/// position).
pub fn find_char(s: &Vec<char>, c: char) -> (r: Option<usize>)
    ensures
        match r {
            Some(i) => find_spec(s@, c) == Some(i as int),
            None => find_spec(s@, c) is None,
        },
        r matches Some(i) ==> i < s@.len() && s@[i as int] == c,
{
    let mut i: usize = 0;
    while i < s.len()
        invariant
            i <= s@.len(),
            forall|j: int| 0 <= j < i ==> s@[j] != c,
        decreases s@.len() - i,
    {
        if s[i] == c {
            proof {
                lemma_find_spec(s@, c, i as int);
            }
            return Some(i);
        }
        i = i + 1;
    }
    proof {
        lemma_find_spec(s@, c, i as int);
    }
    None
}

/// `s` starts with `p`.
pub open spec fn starts_with_spec(s: Seq<char>, p: Seq<char>) -> bool {
    p.len() <= s.len() && s.take(p.len() as int) == p
}

/// `s` ends with `p`.
pub open spec fn ends_with_spec(s: Seq<char>, p: Seq<char>) -> bool {
    p.len() <= s.len() && s.skip(s.len() - p.len()) == p
}

/// `p` occurs in `s`.
pub open spec fn contains_spec(s: Seq<char>, p: Seq<char>) -> bool {
    exists|i: int| 0 <= i <= s.len() - p.len() && #[trigger] s.subrange(i, i + p.len()) == p
}

/// Whether `s[at..at + p.len()]` is `p`.
fn matches_at(s: &Vec<char>, at: usize, p: &Vec<char>) -> (r: bool)
    requires
        at <= s@.len(),
    ensures
        r == (p@.len() <= s@.len() - at && s@.subrange(at as int, at + p@.len()) == p@),
{
    if p.len() > s.len() - at {
        return false;
    }
    let mut k: usize = 0;
    while k < p.len()
        invariant
            at + p@.len() <= s.len(),
            p@.len() <= s@.len() - at,
            k <= p@.len(),
            forall|j: int| 0 <= j < k ==> s@[at + j] == p@[j],
        decreases p@.len() - k,
    {
        if s[at + k] != p[k] {
            assert(s@.subrange(at as int, at + p@.len())[k as int] != p@[k as int]);
            return false;
        }
        k = k + 1;
    }
    assert(s@.subrange(at as int, at + p@.len()) == p@);
    true
}

/// `str::starts_with`.
pub fn starts_with(s: &Vec<char>, p: &str) -> (r: bool)
    ensures
        r == starts_with_spec(s@, p@),
{
    let pc = chars_of(p);
    matches_at(s, 0, &pc)
}

/// `str::ends_with`.
pub fn ends_with(s: &Vec<char>, p: &str) -> (r: bool)
    ensures
        r == ends_with_spec(s@, p@),
{
    let pc = chars_of(p);
    if pc.len() > s.len() {
        return false;
    }
    let r = matches_at(s, s.len() - pc.len(), &pc);
    assert(s@.subrange(s@.len() - pc@.len(), s@.len() as int) == s@.skip(
        s@.len() - pc@.len(),
    ));
    r
}

/// `str::contains` with a string pattern.
pub fn contains(s: &Vec<char>, p: &str) -> (r: bool)
    ensures
        r == contains_spec(s@, p@),
{
    let pc = chars_of(p);
    if pc.len() > s.len() {
        return false;
    }
    let last: usize = s.len() - pc.len();
    let mut i: usize = 0;
    loop
        invariant
            pc@ == p@,
            pc@.len() <= s@.len(),
            last == s@.len() - pc@.len(),
            i <= last,
            forall|j: int| 0 <= j < i ==> #[trigger] s@.subrange(j, j + pc@.len()) != pc@,
        decreases last - i,
    {
        if matches_at(s, i, &pc) {
            return true;
        }
        if i == last {
            return false;
        }
        i = i + 1;
    }
}

/// `s == t` as strings.
pub fn eq_str(s: &Vec<char>, t: &str) -> (r: bool)
    ensures
        r == (s@ == t@),
{
    let tc = chars_of(t);
    if tc.len() != s.len() {
        return false;
    }
    let r = matches_at(s, 0, &tc);
    assert(s@.subrange(0, s@.len() as int) == s@);
    r
}

// ---------------------------------------------------------------------------
// Numerals
// ---------------------------------------------------------------------------

/// The value of `c` as a digit in base `radix` (`char::to_digit`), if it is one.
pub open spec fn digit_value(c: char, radix: nat) -> Option<nat> {
    let u = c as u32;
    let v: int = if 0x30 <= u <= 0x39 {
        u - 0x30
    } else if 0x61 <= u <= 0x7a {
        u - 0x61 + 10
    } else if 0x41 <= u <= 0x5a {
        u - 0x41 + 10
    } else {
        radix as int
    };
    if v < radix {
        Some(v as nat)
    } else {
        None
    }
}

/// Every character of `d` is a digit in base `radix`.
pub open spec fn all_digits(d: Seq<char>, radix: nat) -> bool {
    forall|i: int| 0 <= i < d.len() ==> #[trigger] digit_value(d[i], radix) is Some
}

/// The number that the digits `d` spell in base `radix`.
pub open spec fn digits_value(d: Seq<char>, radix: nat) -> nat
    decreases d.len(),
{
    if d.len() == 0 {
        0
    } else {
        digits_value(d.drop_last(), radix) * radix + digit_value(d.last(), radix).unwrap()
    }
}

/// What `from_str_radix` gives for an unsigned type whose largest value is
/// `max`: an optional `+`, then at least one digit, and a value that fits.
pub open spec fn parse_uint_spec(s: Seq<char>, radix: nat, max: nat) -> Option<nat> {
    let d = if s.len() > 0 && s[0] == '+' {
        s.drop_first()
    } else {
        s
    };
    if d.len() == 0 || !all_digits(d, radix) || digits_value(d, radix) > max {
        None
    } else {
        Some(digits_value(d, radix))
    }
}

/// `str::parse::<u16>`.
pub open spec fn parse_u16_spec(s: Seq<char>) -> Option<u16> {
    match parse_uint_spec(s, 10, 0xffff) {
        Some(v) => Some(v as u16),
        None => None,
    }
}

/// `u8::from_str_radix(_, 16)`.
pub open spec fn parse_hex_u8_spec(s: Seq<char>) -> Option<u8> {
    match parse_uint_spec(s, 16, 0xff) {
        Some(v) => Some(v as u8),
        None => None,
    }
}

fn digit_of(c: char, radix: u32) -> (r: Option<u32>)
    requires
        2 <= radix <= 36,
    ensures
        match r {
            Some(v) => digit_value(c, radix as nat) == Some(v as nat),
            None => digit_value(c, radix as nat) is None,
        },
{
    let u = c as u32;
    let v: u32 = if 0x30 <= u && u <= 0x39 {
        u - 0x30
    } else if 0x61 <= u && u <= 0x7a {
        u - 0x61 + 10
    } else if 0x41 <= u && u <= 0x5a {
        u - 0x41 + 10
    } else {
        radix
    };
    if v < radix {
        Some(v)
    } else {
        None
    }
}

proof fn lemma_capped_step(v: nat, r: nat, d: nat, cap: nat)
    requires
        1 <= r,
        d < r,
    ensures
        v >= cap ==> v * r + d >= cap,
{
    if v >= cap {
        assert(v * r >= v) by (nonlinear_arith)
            requires
                r >= 1,
        ;
    }
}

/// Parses an unsigned numeral in base `radix` whose value may not exceed `max`.
fn parse_uint(s: &Vec<char>, radix: u32, max: u32) -> (r: Option<u32>)
    requires
        2 <= radix <= 36,
        max <= 0xffff,
    ensures
        match r {
            Some(v) => parse_uint_spec(s@, radix as nat, max as nat) == Some(v as nat),
            None => parse_uint_spec(s@, radix as nat, max as nat) is None,
        },
{
    let ghost d = if s@.len() > 0 && s@[0] == '+' {
        s@.drop_first()
    } else {
        s@
    };
    let start: usize = if s.len() > 0 && s[0] == '+' {
        1
    } else {
        0
    };
    assert(d == s@.skip(start as int));
    if start == s.len() {
        return None;
    }
    let cap: u32 = max + 1;
    let mut value: u32 = 0;
    let mut i: usize = start;
    while i < s.len()
        invariant
            start <= i <= s@.len(),
            d == s@.skip(start as int),
            d == (if s@.len() > 0 && s@[0] == '+' {
                s@.drop_first()
            } else {
                s@
            }),
            2 <= radix <= 36,
            max <= 0xffff,
            cap == max + 1,
            all_digits(s@.subrange(start as int, i as int), radix as nat),
            value as nat == if digits_value(s@.subrange(start as int, i as int), radix as nat)
                < cap {
                digits_value(s@.subrange(start as int, i as int), radix as nat)
            } else {
                cap as nat
            },
        decreases s@.len() - i,
    {
        let ghost pre = s@.subrange(start as int, i as int);
        let ghost next = s@.subrange(start as int, i + 1);
        assert(next.drop_last() == pre);
        match digit_of(s[i], radix) {
            None => {
                assert(d[i - start] == s@[i as int]);
                assert(digit_value(d[i - start], radix as nat) is None);
                assert(!all_digits(d, radix as nat));
                assert(d.len() > 0);
                return None;
            },
            Some(dv) => {
                proof {
                    lemma_capped_step(
                        digits_value(pre, radix as nat),
                        radix as nat,
                        dv as nat,
                        cap as nat,
                    );
                }
                if value >= cap {
                    value = cap;
                } else {
                    assert(value * radix <= 65536 * 36) by (nonlinear_arith)
                        requires
                            value <= 65536,
                            radix <= 36,
                    ;
                    let nv: u32 = value * radix + dv;
                    value = if nv < cap {
                        nv
                    } else {
                        cap
                    };
                }
                assert(all_digits(next, radix as nat)) by {
                    assert forall|k: int| 0 <= k < next.len() implies #[trigger] digit_value(
                        next[k],
                        radix as nat,
                    ) is Some by {
                        if k < pre.len() {
                            assert(next[k] == pre[k]);
                        }
                    }
                }
            },
        }
        i = i + 1;
    }
    assert(s@.subrange(start as int, s@.len() as int) == d);
    if value >= cap {
        None
    } else {
        Some(value)
    }
}

/// `str::parse::<u16>` on the characters `s`.
pub fn parse_u16(s: &Vec<char>) -> (r: Option<u16>)
    ensures
        r == parse_u16_spec(s@),
{
    match parse_uint(s, 10, 0xffff) {
        Some(v) => Some(v as u16),
        None => None,
    }
}

/// `u8::from_str_radix(s, 16)` on the characters `s`.
pub fn parse_hex_u8(s: &Vec<char>) -> (r: Option<u8>)
    ensures
        r == parse_hex_u8_spec(s@),
{
    match parse_uint(s, 16, 0xff) {
        Some(v) => Some(v as u8),
        None => None,
    }
}

/// The character of the decimal digit `d`.
pub open spec fn decimal_digit(d: nat) -> char {
    seq!['0', '1', '2', '3', '4', '5', '6', '7', '8', '9'][d as int]
}

pub proof fn lemma_decimal_digit(d: nat)
    requires
        d < 10,
    ensures
        digit_value(decimal_digit(d), 10) == Some(d),
        !is_ws(decimal_digit(d)),
        decimal_digit(d) != '+',
        decimal_digit(d) != ' ',
        decimal_digit(d) != '-',
{
    assert(d == 0 || d == 1 || d == 2 || d == 3 || d == 4 || d == 5 || d == 6 || d == 7 || d == 8
        || d == 9);
}

/// `n` written in decimal without leading zeros (`u16::to_string`).
pub open spec fn decimal_spec(n: nat) -> Seq<char>
    decreases n,
{
    if n < 10 {
        seq![decimal_digit(n)]
    } else {
        decimal_spec(n / 10).push(decimal_digit(n % 10))
    }
}

/// Appends `n` written in decimal to `out`.
pub fn push_decimal(out: &mut Vec<char>, n: u16)
    ensures
        final(out)@ == old(out)@ + decimal_spec(n as nat),
    decreases n,
{
    if n < 10 {
        out.push(char_of_digit(n as u8));
    } else {
        push_decimal(out, n / 10);
        out.push(char_of_digit((n % 10) as u8));
    }
}

fn char_of_digit(d: u8) -> (c: char)
    requires
        d < 10,
    ensures
        c == decimal_digit(d as nat),
{
    let cs = ['0', '1', '2', '3', '4', '5', '6', '7', '8', '9'];
    let c = cs[d as usize];
    assert(cs@ == seq!['0', '1', '2', '3', '4', '5', '6', '7', '8', '9']);
    c
}

/// The decimal numeral of `n` reads back as `n`.
pub proof fn lemma_decimal_digits(n: nat)
    ensures
        decimal_spec(n).len() >= 1,
        all_digits(decimal_spec(n), 10),
        digits_value(decimal_spec(n), 10) == n,
        decimal_spec(n)[0] != '+',
        forall|i: int| 0 <= i < decimal_spec(n).len() ==> !is_ws(#[trigger] decimal_spec(n)[i]),
        forall|i: int| 0 <= i < decimal_spec(n).len() ==> #[trigger] decimal_spec(n)[i] != ' ',
        forall|i: int| 0 <= i < decimal_spec(n).len() ==> #[trigger] decimal_spec(n)[i] != '-',
        decimal_spec(n).last() == decimal_digit(n % 10),
    decreases n,
{
    lemma_decimal_digit(n % 10);
    if n < 10 {
        assert(decimal_spec(n).drop_last() == Seq::<char>::empty());
        assert(decimal_spec(n).last() == decimal_digit(n));
        assert(digits_value(Seq::<char>::empty(), 10) == 0);
        assert(digits_value(decimal_spec(n), 10) == digits_value(Seq::<char>::empty(), 10) * 10 + n);
    } else {
        lemma_decimal_digits(n / 10);
        let p = decimal_spec(n / 10);
        let s = decimal_spec(n);
        assert(s.drop_last() == p);
        assert(s.last() == decimal_digit(n % 10));
        assert(digits_value(s, 10) == digits_value(p, 10) * 10 + n % 10);
        assert(digits_value(p, 10) == n / 10);
        assert forall|i: int| 0 <= i < s.len() implies #[trigger] digit_value(s[i], 10) is Some by {
            if i < p.len() {
                assert(s[i] == p[i]);
            }
        }
        assert forall|i: int| 0 <= i < s.len() implies !is_ws(#[trigger] s[i]) by {
            if i < p.len() {
                assert(s[i] == p[i]);
            }
        }
        assert forall|i: int| 0 <= i < s.len() implies #[trigger] s[i] != ' ' by {
            if i < p.len() {
                assert(s[i] == p[i]);
            }
        }
        assert forall|i: int| 0 <= i < s.len() implies #[trigger] s[i] != '-' by {
            if i < p.len() {
                assert(s[i] == p[i]);
            }
        }
    }
}

/// Writing a `u16` in decimal and parsing it back gives the same number.
pub proof fn lemma_parse_decimal(n: u16)
    ensures
        parse_u16_spec(decimal_spec(n as nat)) == Some(n),
{
    lemma_decimal_digits(n as nat);
}

/// A larger number never has fewer decimal digits.
pub proof fn lemma_decimal_len_mono(a: nat, b: nat)
    requires
        a <= b,
    ensures
        decimal_spec(a).len() <= decimal_spec(b).len(),
    decreases b,
{
    if a >= 10 {
        lemma_decimal_len_mono(a / 10, b / 10);
    } else if b >= 10 {
        lemma_decimal_len_mono(0, b / 10);
    }
}

/// A non-empty trimmed text does not end in whitespace.
pub proof fn lemma_trimmed_ends_solid(v: Seq<char>)
    requires
        v.len() > 0,
        trim_spec(v) == v,
    ensures
        !is_ws(v.last()),
{
    if is_ws(v.last()) {
        lemma_trim_end_shorter(v);
        lemma_trim_start_shorter(trim_end_spec(v));
        assert(trim_spec(v).len() < v.len());
    }
}

proof fn lemma_trim_end_shorter(v: Seq<char>)
    requires
        v.len() > 0,
        is_ws(v.last()),
    ensures
        trim_end_spec(v).len() < v.len(),
{
    lemma_trim_end_len(v.drop_last());
}

proof fn lemma_trim_end_len(v: Seq<char>)
    ensures
        trim_end_spec(v).len() <= v.len(),
    decreases v.len(),
{
    if v.len() > 0 {
        lemma_trim_end_len(v.drop_last());
    }
}

proof fn lemma_trim_start_shorter(v: Seq<char>)
    ensures
        trim_start_spec(v).len() <= v.len(),
    decreases v.len(),
{
    if v.len() > 0 {
        lemma_trim_start_shorter(v.drop_first());
    }
}

/// A non-empty trimmed text does not start with whitespace.
pub proof fn lemma_trimmed_starts_solid(v: Seq<char>)
    requires
        v.len() > 0,
        trim_spec(v) == v,
    ensures
        !is_ws(v[0]),
{
    lemma_trimmed_ends_solid(v);
    assert(trim_end_spec(v) == v);
    if is_ws(v[0]) {
        lemma_trim_start_shorter(v.drop_first());
        assert(trim_spec(v).len() < v.len());
    }
}

} // verus!
