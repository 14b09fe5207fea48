//! What raw bytes stand for: big-endian numbers and length-prefixed cells.

use vstd::prelude::*;
use vstd::arithmetic::power2::pow2;

verus! {

/// The number that `s` writes in base 256, most significant byte first.
pub open spec fn be_nat(s: Seq<u8>) -> nat
    decreases s.len(),
{
    if s.len() == 0 {
        0
    } else {
        be_nat(s.drop_last()) * 256 + s.last() as nat
    }
}

/// The low `bits` bits of `n`, read as a two's complement number.
pub open spec fn twos(n: nat, bits: nat) -> int {
    let low = n as int % pow2(bits) as int;
    if low < pow2((bits - 1) as nat) {
        low
    } else {
        low - pow2(bits)
    }
}

/// A cell on the wire: absent, or some bytes.
pub type Cell = Option<Seq<u8>>;

/// The signed four-byte number at the front of `s`.
pub open spec fn be_int(s: Seq<u8>) -> int {
    twos(be_nat(s.take(4)), 32)
}

/// The cell at the front of `s` and what follows it, or `None` where `s` ends too early.
/// A cell is a four-byte length and that many bytes; a negative length marks an absent cell.
pub open spec fn next_cell(s: Seq<u8>) -> Option<(Cell, Seq<u8>)> {
    if s.len() < 4 {
        None
    } else {
        let n = be_int(s);
        if n < 0 {
            Some((None, s.skip(4)))
        } else if s.len() < 4 + n {
            None
        } else {
            Some((Some(s.subrange(4, 4 + n)), s.skip(4 + n)))
        }
    }
}

/// The first `n` cells of `s`, or `None` where `s` ends before the last of them does.
pub open spec fn cells_of(s: Seq<u8>, n: nat) -> Option<Seq<Cell>>
    decreases n,
{
    if n == 0 {
        Some(Seq::empty())
    } else {
        match next_cell(s) {
            None => None,
            Some((cell, rest)) => match cells_of(rest, (n - 1) as nat) {
                None => None,
                Some(cells) => Some(seq![cell] + cells),
            },
        }
    }
}

/// As many cells are found as were looked for.
pub proof fn lemma_cells_len(s: Seq<u8>, n: nat)
    ensures
        cells_of(s, n) matches Some(found) ==> found.len() == n,
    decreases n,
{
    if n > 0 {
        match next_cell(s) {
            Some((_, rest)) => lemma_cells_len(rest, (n - 1) as nat),
            None => {},
        }
    }
}

/// The cells of a list or a set: a count, then that many cells.
pub open spec fn list_cells(s: Seq<u8>) -> Option<Seq<Cell>> {
    if s.len() < 4 {
        None
    } else {
        cells_of(s.skip(4), be_int(s) as nat)
    }
}

/// The pairs of cells of a map: a count, then that many cells and as many again, each key before
/// its value.
pub open spec fn map_cells(s: Seq<u8>) -> Option<Seq<(Cell, Cell)>> {
    if s.len() < 4 {
        None
    } else {
        let n = be_int(s) as nat;
        match cells_of(s.skip(4), 2 * n) {
            None => None,
            Some(cells) => Some(Seq::new(n, |i: int| (cells[2 * i], cells[2 * i + 1]))),
        }
    }
}

/// What the fields of a user-defined value hold from the field `from` on, of `n` fields in all, where
/// `s` is what is left of the value there. As long as `s` goes on, they are its cells. The first
/// field that `s` ends in, or before, is absent. Where fewer than eight bytes were left there, so are
/// all that follow it; else they are as in `otherwise`.
pub open spec fn udt_cells_of(s: Seq<u8>, n: nat, from: nat, otherwise: Seq<Cell>) -> Seq<Cell>
    decreases n - from,
{
    if from >= n {
        Seq::empty()
    } else {
        match next_cell(s) {
            Some((cell, rest)) => seq![cell] + udt_cells_of(rest, n, from + 1, otherwise),
            None => Seq::new(
                (n - from) as nat,
                |i: int|
                    if i == 0 || s.len() < 8 {
                        None
                    } else {
                        otherwise[from + i]
                    },
            ),
        }
    }
}

/// Each field holds one cell.
pub proof fn lemma_udt_cells_len(s: Seq<u8>, n: nat, from: nat, otherwise: Seq<Cell>)
    requires
        from <= n,
    ensures
        udt_cells_of(s, n, from, otherwise).len() == n - from,
    decreases n - from,
{
    if from < n {
        match next_cell(s) {
            Some((_, rest)) => lemma_udt_cells_len(rest, n, from + 1, otherwise),
            None => {},
        }
    }
}

/// The number of bytes that `n` machine words take.
pub open spec fn words(n: int) -> int {
    if usize::BITS == 64 {
        8 * n
    } else {
        4 * n
    }
}

/// Whether room for `n` items of `size` bytes each can be asked of an allocator at all.
pub open spec fn reservable(n: int, size: int) -> bool {
    0 <= n <= isize::MAX as int / size
}

/// Whether room for `n` items of `count` machine words each can be asked of an allocator at all.
pub(crate) fn is_reservable(n: usize, count: usize) -> (r: bool)
    requires
        1 <= count <= 100,
    ensures
        r == reservable(n as int, words(count as int)),
{
    let size: usize = if usize::BITS == 64 {
        8 * count
    } else {
        4 * count
    };
    n <= isize::MAX as usize / size
}

/// What a cell held as a vector stands for.
pub open spec fn cell(c: Option<Vec<u8>>) -> Cell {
    match c {
        None => None,
        Some(bytes) => Some(bytes@),
    }
}

/// What cells held as vectors stand for.
pub open spec fn cells(v: Seq<Option<Vec<u8>>>) -> Seq<Cell> {
    v.map_values(|c: Option<Vec<u8>>| cell(c))
}

/// What pairs of cells held as vectors stand for.
pub open spec fn cell_pairs(v: Seq<(Option<Vec<u8>>, Option<Vec<u8>>)>) -> Seq<(Cell, Cell)> {
    v.map_values(|p: (Option<Vec<u8>>, Option<Vec<u8>>)| (cell(p.0), cell(p.1)))
}

/// What rows of cells held as vectors stand for.
pub open spec fn rows_of(v: Seq<Vec<Option<Vec<u8>>>>) -> Seq<Seq<Cell>> {
    v.map_values(|row: Vec<Option<Vec<u8>>>| cells(row@))
}

} // verus!
