//! Startup-override parsing: an optional generator seed and an optional
//! literal board pattern, supplied once as TOML text before the first tick.
//! Malformed override data never fails the engine: each part is either
//! applied whole or ignored, leaving the defaults intact.

use vstd::prelude::*;
use vstd::string::StringSliceAdditionalSpecFns;

use crate::board::board_dims;
use crate::board::borders_walled;
use crate::board::Piles;
use crate::game::game_wf;
use crate::game::Game;
use crate::rng::rng_from_seed;

verus! {

/// The integer under the `seed` key of the TOML text, if the text is
/// well-formed TOML whose `seed` key holds an integer: what
/// `toml::Value::as_integer` returns for that key, a function of the text
/// alone.
pub uninterp spec fn toml_seed_of(s: Seq<char>) -> Option<i64>;

/// The bytes of the string under the `pattern` key of the TOML text, if the
/// text is well-formed TOML whose `pattern` key holds a string: what
/// `toml::Value::as_str` returns for that key, a function of the text alone.
pub uninterp spec fn toml_pattern_bytes(s: Seq<char>) -> Option<Seq<u8>>;

/// Relies on the `FromStr` parse of `toml::Table`, on `toml::map::Map::get`
/// and on `toml::Value::{as_integer, as_str}`: hands back, as plain values,
/// the integer under the `seed` key and the byte content of the string under
/// the `pattern` key. Text that is not well-formed TOML yields neither; the
/// parse returns errors rather than panicking. Both results depend on the
/// text alone.
#[verifier::external_body]
fn toml_overrides(s: &str) -> (r: (Option<i64>, Option<Vec<u8>>))
    ensures
        r.0 == toml_seed_of(s@),
        (match r.1 {
            Some(pb) => toml_pattern_bytes(s@) == Some(pb@),
            None => toml_pattern_bytes(s@) is None,
        }),
{
    let table = match s.parse::<toml::Table>() {
        Ok(t) => t,
        Err(_) => return (None, None),
    };
    let seed = table.get("seed").and_then(|v| v.as_integer());
    let pattern = table.get("pattern").and_then(|v| v.as_str()).map(|p| p.as_bytes().to_vec());
    (seed, pattern)
}

/// The line-feed byte that separates pattern lines.
pub open spec fn is_nl(b: u8) -> bool {
    b == 0x0au8
}

/// ASCII whitespace, as the tokenizer skips it: space, tab, line feed,
/// form feed, carriage return.
pub open spec fn is_ws(b: u8) -> bool {
    b == 0x20u8 || b == 0x09u8 || b == 0x0au8 || b == 0x0cu8 || b == 0x0du8
}

/// An ASCII decimal digit.
pub open spec fn is_digit(b: u8) -> bool {
    0x30u8 <= b <= 0x39u8
}

/// The position of the first line feed at or after `pos`, or the length of
/// the text if there is none.
pub open spec fn find_nl_at(s: Seq<u8>, pos: int) -> int
    decreases s.len() - pos,
{
    if pos < 0 || pos >= s.len() {
        s.len() as int
    } else if is_nl(s[pos]) {
        pos
    } else {
        find_nl_at(s, pos + 1)
    }
}

/// The position of the first whitespace byte at or after `pos` but before
/// `lend`, or `lend` if there is none: the end of a token starting at `pos`.
pub open spec fn tok_end_at(s: Seq<u8>, pos: int, lend: int) -> int
    decreases lend - pos,
{
    if pos < 0 || pos >= lend || pos >= s.len() {
        lend
    } else if is_ws(s[pos]) {
        pos
    } else {
        tok_end_at(s, pos + 1, lend)
    }
}

/// Every byte of `s` in `[a, b)` is an ASCII digit.
pub open spec fn all_digits(s: Seq<u8>, a: int, b: int) -> bool {
    forall|p: int| a <= p < b ==> is_digit(#[trigger] s[p])
}

/// The value of the decimal digit run of `s` in `[a, b)`.
pub open spec fn num_val(s: Seq<u8>, a: int, b: int) -> int
    decreases b - a,
{
    if b <= a {
        0
    } else {
        num_val(s, a, b - 1) * 10 + (s[b - 1] - 0x30)
    }
}

/// Where the digit run of a token in `[start, end)` begins: one past an
/// optional leading plus sign.
pub open spec fn num_start(s: Seq<u8>, start: int, end: int) -> int {
    if start < end && start < s.len() && s[start] == 0x2bu8 {
        start + 1
    } else {
        start
    }
}

/// The number a token of `s` in `[start, end)` denotes as a cell value: an
/// optional leading plus sign, then at least one digit, denoting at most
/// 255; anything else is malformed.
pub open spec fn parse_num(s: Seq<u8>, start: int, end: int) -> Option<u8> {
    let q = num_start(s, start, end);
    if q >= end || !all_digits(s, q, end) {
        None
    } else if num_val(s, q, end) > 255 {
        None
    } else {
        Some(num_val(s, q, end) as u8)
    }
}

/// `find_nl_at` finds the first line feed: it stays within `[pos, len]`,
/// points at a line feed unless it is the length, and skips none.
pub proof fn lemma_find_nl_at_bounds(s: Seq<u8>, pos: int)
    requires
        0 <= pos <= s.len(),
    ensures
        pos <= find_nl_at(s, pos) <= s.len(),
        find_nl_at(s, pos) < s.len() ==> is_nl(s[find_nl_at(s, pos)]),
        forall|p: int| pos <= p < find_nl_at(s, pos) ==> !is_nl(#[trigger] s[p]),
    decreases s.len() - pos,
{
    if pos < s.len() && !is_nl(s[pos]) {
        lemma_find_nl_at_bounds(s, pos + 1);
    }
}

/// `tok_end_at` finds the first whitespace byte before `lend`: it stays
/// within `[pos, lend]`, points at whitespace unless it is `lend`, and
/// skips none.
pub proof fn lemma_tok_end_at_bounds(s: Seq<u8>, pos: int, lend: int)
    requires
        0 <= pos <= lend,
    ensures
        pos <= tok_end_at(s, pos, lend) <= lend,
        tok_end_at(s, pos, lend) < lend && tok_end_at(s, pos, lend) < s.len() ==> is_ws(
            s[tok_end_at(s, pos, lend)],
        ),
        forall|p: int|
            pos <= p < tok_end_at(s, pos, lend) && p < s.len() ==> !is_ws(#[trigger] s[p]),
    decreases lend - pos,
{
    if pos < lend && pos < s.len() && !is_ws(s[pos]) {
        lemma_tok_end_at_bounds(s, pos + 1, lend);
    }
}

/// A digit run's value is non-negative and never shrinks as the run grows.
pub proof fn lemma_num_val_monotone(s: Seq<u8>, a: int, p: int, b: int)
    requires
        a <= p <= b,
        all_digits(s, a, b),
    ensures
        0 <= num_val(s, a, p) <= num_val(s, a, b),
    decreases b - p,
{
    if p == b {
        lemma_num_val_nonneg(s, a, b);
    } else {
        lemma_num_val_monotone(s, a, p, b - 1);
        assert(is_digit(s[b - 1]));
    }
}

/// A digit run's value is non-negative.
pub proof fn lemma_num_val_nonneg(s: Seq<u8>, a: int, b: int)
    requires
        all_digits(s, a, b),
    ensures
        num_val(s, a, b) >= 0,
    decreases b - a,
{
    if b > a {
        lemma_num_val_nonneg(s, a, b - 1);
        assert(is_digit(s[b - 1]));
    }
}

/// The all-empty 21x12 grid.
pub open spec fn zero_grid() -> Seq<Seq<u8>> {
    Seq::new(21, |y: int| Seq::new(12, |x: int| 0u8))
}

/// Parse the tokens of the line `[pos, lend)` of `s` into row `row` of the
/// grid, the first token into column 0 and so on: whitespace separates
/// tokens, each token must denote a cell value, and a token that falls
/// outside the 21x12 grid makes the whole pattern malformed.
pub open spec fn parse_cols(
    s: Seq<u8>,
    pos: int,
    lend: int,
    row: int,
    col: int,
    grid: Seq<Seq<u8>>,
) -> Option<Seq<Seq<u8>>>
    decreases lend - pos,
    via parse_cols_decreases
{
    if pos < 0 || pos >= lend || pos >= s.len() {
        Some(grid)
    } else if is_ws(s[pos]) {
        parse_cols(s, pos + 1, lend, row, col, grid)
    } else {
        let te = tok_end_at(s, pos, lend);
        if row >= 21 || col >= 12 {
            None
        } else {
            match parse_num(s, pos, te) {
                None => None,
                Some(v) => parse_cols(
                    s,
                    te,
                    lend,
                    row,
                    col + 1,
                    grid.update(row, grid[row].update(col, v)),
                ),
            }
        }
    }
}

#[via_fn]
proof fn parse_cols_decreases(
    s: Seq<u8>,
    pos: int,
    lend: int,
    row: int,
    col: int,
    grid: Seq<Seq<u8>>,
) {
    if 0 <= pos && pos < lend && pos < s.len() && !is_ws(s[pos]) {
        assert(tok_end_at(s, pos, lend) == tok_end_at(s, pos + 1, lend));
        lemma_tok_end_at_bounds(s, pos + 1, lend);
    }
}

/// Parse the lines of `s` from `pos` on into the grid, the line at `pos`
/// into row `row` and each following line into the next row.
pub open spec fn parse_rows(s: Seq<u8>, pos: int, row: int, grid: Seq<Seq<u8>>) -> Option<
    Seq<Seq<u8>>,
>
    decreases s.len() - pos,
    via parse_rows_decreases
{
    if pos < 0 || pos >= s.len() {
        Some(grid)
    } else {
        let e = find_nl_at(s, pos);
        match parse_cols(s, pos, e, row, 0, grid) {
            None => None,
            Some(g) => if e >= s.len() {
                Some(g)
            } else {
                parse_rows(s, e + 1, row + 1, g)
            },
        }
    }
}

#[via_fn]
proof fn parse_rows_decreases(s: Seq<u8>, pos: int, row: int, grid: Seq<Seq<u8>>) {
    if 0 <= pos && pos < s.len() {
        lemma_find_nl_at_bounds(s, pos);
    }
}

/// What a pattern text denotes: line `i` of the text fills row `i` of an
/// initially all-empty grid, its `j`-th whitespace-separated token the cell
/// in column `j`. The text is malformed — and denotes nothing — if any
/// token is not a plain decimal cell value or falls outside the grid.
pub open spec fn pattern_of(s: Seq<u8>) -> Option<Seq<Seq<u8>>> {
    parse_rows(s, 0, 0, zero_grid())
}

/// Whether byte `b` is ASCII whitespace.
fn is_ws_byte(b: u8) -> (r: bool)
    ensures
        r == is_ws(b),
{
    b == 0x20 || b == 0x09 || b == 0x0a || b == 0x0c || b == 0x0d
}

/// Parse one token as a cell value: an optional leading plus sign, then at
/// least one decimal digit, denoting at most 255.
fn parse_num_token(bytes: &[u8], start: usize, end: usize) -> (r: Option<u8>)
    requires
        start <= end <= bytes@.len(),
    ensures
        r == parse_num(bytes@, start as int, end as int),
{
    let ghost s = bytes@;
    let mut q: usize = start;
    if q < end && bytes[q] == 0x2b {
        q += 1;
    }
    if q >= end {
        return None;
    }
    let ghost q0 = q as int;
    let mut acc: u32 = 0;
    while q < end
        invariant
            q0 <= q <= end <= s.len(),
            s == bytes@,
            q0 == num_start(s, start as int, end as int),
            q0 < end,
            all_digits(s, q0, q as int),
            acc == num_val(s, q0, q as int),
            acc <= 255,
        decreases end - q,
    {
        let c = bytes[q];
        if !(0x30 <= c && c <= 0x39) {
            assert(!all_digits(s, q0, end as int));
            return None;
        }
        acc = acc * 10 + ((c - 0x30) as u32);
        q += 1;
        if acc > 255 {
            proof {
                if all_digits(s, q0, end as int) {
                    lemma_num_val_monotone(s, q0, q as int, end as int);
                }
            }
            return None;
        }
    }
    Some(acc as u8)
}

/// Parse the tokens of one line into one grid row of the board under
/// construction; false means the pattern is malformed.
fn parse_line(bytes: &[u8], pos: usize, lend: usize, row: usize, piles: &mut Piles) -> (ok: bool)
    requires
        pos <= lend <= bytes@.len(),
    ensures
        match parse_cols(bytes@, pos as int, lend as int, row as int, 0, old(piles)@) {
            Some(g) => ok && final(piles)@ == g,
            None => !ok,
        },
{
    let ghost s = bytes@;
    let mut p: usize = pos;
    let mut col: usize = 0;
    while p < lend
        invariant
            pos <= p <= lend <= s.len(),
            s == bytes@,
            parse_cols(s, pos as int, lend as int, row as int, 0, old(piles)@) == parse_cols(
                s,
                p as int,
                lend as int,
                row as int,
                col as int,
                piles@,
            ),
        decreases lend - p,
    {
        if is_ws_byte(bytes[p]) {
            p += 1;
        } else {
            let mut te: usize = p + 1;
            while te < lend && !is_ws_byte(bytes[te])
                invariant
                    p < te <= lend <= s.len(),
                    s == bytes@,
                    !is_ws(s[p as int]),
                    forall|c: int| p < c < te ==> !is_ws(#[trigger] s[c]),
                decreases lend - te,
            {
                te += 1;
            }
            proof {
                lemma_tok_end_at_bounds(s, p as int, lend as int);
                assert(tok_end_at(s, p as int, lend as int) == te as int) by {
                    let t = tok_end_at(s, p as int, lend as int);
                    if t < te {
                        assert(!is_ws(s[t]));
                    }
                    if te < t {
                        assert(!is_ws(s[te as int]));
                        assert(is_ws(s[te as int]));
                    }
                }
            }
            if row >= 21 || col >= 12 {
                return false;
            }
            match parse_num_token(bytes, p, te) {
                None => {
                    return false;
                },
                Some(v) => {
                    let ghost prev = piles@;
                    let mut grid_row = piles.pattern[row];
                    grid_row[col] = v;
                    piles.pattern[row] = grid_row;
                    proof {
                        assert(piles@ =~~= prev.update(row as int, prev[row as int].update(
                            col as int,
                            v,
                        )));
                    }
                    col += 1;
                    p = te;
                },
            }
        }
    }
    true
}

/// Parse a whole board pattern from text: one line of whitespace-separated
/// cell values per board row. The result is the denoted grid, or `None`
/// when the text is malformed.
pub fn parse_pattern(text: &str) -> (r: Option<Piles>)
    ensures
        match r {
            Some(p) => pattern_of(text.spec_bytes()) == Some(p@),
            None => pattern_of(text.spec_bytes()) is None,
        },
{
    parse_pattern_bytes(text.as_bytes())
}

/// Parse a whole board pattern from its bytes: one line of
/// whitespace-separated cell values per board row. The result is the
/// denoted grid, or `None` when the bytes are malformed.
pub fn parse_pattern_bytes(bytes: &[u8]) -> (r: Option<Piles>)
    ensures
        match r {
            Some(p) => pattern_of(bytes@) == Some(p@),
            None => pattern_of(bytes@) is None,
        },
{
    let ghost s = bytes@;
    let mut piles = Piles::new();
    proof {
        assert(piles@ =~~= zero_grid());
    }
    let mut pos: usize = 0;
    let mut row: usize = 0;
    while pos < bytes.len()
        invariant
            pos <= s.len(),
            row <= pos,
            s == bytes@,
            pattern_of(s) == parse_rows(s, pos as int, row as int, piles@),
        decreases s.len() - pos,
    {
        let mut e: usize = pos;
        while e < bytes.len() && bytes[e] != 0x0a
            invariant
                pos <= e <= s.len(),
                s == bytes@,
                forall|p: int| pos <= p < e ==> !is_nl(#[trigger] s[p]),
            decreases s.len() - e,
        {
            e += 1;
        }
        proof {
            lemma_find_nl_at_bounds(s, pos as int);
            assert(find_nl_at(s, pos as int) == e as int) by {
                let t = find_nl_at(s, pos as int);
                if t < e {
                    assert(!is_nl(s[t]));
                }
                if e < t {
                    assert(!is_nl(s[e as int]));
                    assert(is_nl(s[e as int]));
                }
            }
        }
        let ghost prev = piles@;
        let ok = parse_line(bytes, pos, e, row, &mut piles);
        proof {
            assert(parse_rows(s, pos as int, row as int, prev) == (match parse_cols(
                s,
                pos as int,
                e as int,
                row as int,
                0,
                prev,
            ) {
                None => None::<Seq<Seq<u8>>>,
                Some(g) => if e >= s.len() {
                    Some(g)
                } else {
                    parse_rows(s, e + 1, row + 1, g)
                },
            }));
        }
        if !ok {
            return None;
        }
        if e >= bytes.len() {
            return Some(piles);
        }
        pos = e + 1;
        row += 1;
    }
    Some(piles)
}

impl Game {
    /// Apply a one-time startup override from TOML text: a `seed` integer
    /// reseeds the generator, and a `pattern` string replaces the whole
    /// board, provided it denotes a well-formed grid whose borders are
    /// walls. A missing key or malformed part is ignored in isolation and
    /// the corresponding default stays; nothing else of the state changes.
    pub fn load_config(&mut self, content: &str)
        ensures
            final(self).is_over == old(self).is_over,
            final(self).frame == old(self).frame,
            final(self).settle_wait == old(self).settle_wait,
            final(self).block == old(self).block,
            final(self).next_block == old(self).next_block,
            final(self).block_created_count == old(self).block_created_count,
            toml_seed_of(content@) is None ==> final(self).rng == old(self).rng,
            (match toml_pattern_bytes(content@) {
                None => final(self).piles@ == old(self).piles@,
                Some(pb) => match pattern_of(pb) {
                    Some(g) => final(self).piles@ == (if borders_walled(g) {
                        g
                    } else {
                        old(self).piles@
                    }),
                    None => final(self).piles@ == old(self).piles@,
                },
            }),
            game_wf(old(self)@) ==> game_wf(final(self)@),
    {
        let (seed, pattern) = toml_overrides(content);
        match seed {
            Some(seed) => {
                self.rng = rng_from_seed(seed as u64);
            },
            None => {},
        }
        match pattern {
            Some(pb) => match parse_pattern_bytes(pb.as_slice()) {
                Some(p) => {
                    if p.has_walled_borders() {
                        proof {
                            assert(board_dims(p@));
                        }
                        self.piles = p;
                    }
                },
                None => {},
            },
            None => {},
        }
    }
}

} // verus!
