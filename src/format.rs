use vstd::prelude::*;
use crate::encoder::{classify, hex_digit, hex_pair};

verus! {

pub const SPACE: u8 = 32;

pub const PIPE: u8 = 124;

pub const NEWLINE: u8 = 10;

/// The offset column of a line that starts at byte `v`: eight lowercase hex
/// digits of `v` modulo 2^32, most significant first, then two spaces.
#[verifier::opaque]
pub open spec fn offset_text(v: nat) -> Seq<u8> {
    let w = v % 0x1_0000_0000;
    seq![
        hex_digit((w / 0x10000000 % 16) as int),
        hex_digit((w / 0x1000000 % 16) as int),
        hex_digit((w / 0x100000 % 16) as int),
        hex_digit((w / 0x10000 % 16) as int),
        hex_digit((w / 0x1000 % 16) as int),
        hex_digit((w / 0x100 % 16) as int),
        hex_digit((w / 0x10 % 16) as int),
        hex_digit((w % 16) as int),
        SPACE,
        SPACE,
    ]
}

/// The width of the hex column cell at line position `pos`: the two digits
/// and a space, one more space after the eighth byte, and a space and the
/// sidebar's opening `|` after the sixteenth.
pub open spec fn cell_width(pos: int) -> int {
    if pos == 7 {
        4
    } else if pos == 15 {
        5
    } else {
        3
    }
}

/// What follows the two digits in the cell at line position `pos`.
pub open spec fn cell_sep(pos: int) -> Seq<u8> {
    if pos == 7 {
        seq![SPACE, SPACE]
    } else if pos == 15 {
        seq![SPACE, SPACE, PIPE]
    } else {
        seq![SPACE]
    }
}

/// The hex column cell of byte `b` at line position `pos`.
pub open spec fn byte_cell(b: u8, pos: int) -> Seq<u8> {
    hex_pair(b) + cell_sep(pos)
}

/// The blank cell that stands for a missing byte at line position `pos`:
/// spaces of the same width, and the `|` where the real cell has one.
pub open spec fn pad_cell(pos: int) -> Seq<u8> {
    if pos == 7 {
        seq![SPACE, SPACE, SPACE, SPACE]
    } else if pos == 15 {
        seq![SPACE, SPACE, SPACE, SPACE, PIPE]
    } else {
        seq![SPACE, SPACE, SPACE]
    }
}

/// The sidebar of a line: each byte's sidebar character, then `|` and a
/// newline.
pub open spec fn sidebar(line: Seq<u8>) -> Seq<u8> {
    line.map_values(|b: u8| classify(b)) + seq![PIPE, NEWLINE]
}

/// What writing the byte at index `i` of the stream `s` emits: the offset
/// column when it opens a line, its cell, and the sidebar when it completes
/// a line.
pub open spec fn byte_output(s: Seq<u8>, i: int) -> Seq<u8> {
    let pos = i % 16;
    let head = if pos == 0 {
        offset_text(i as nat)
    } else {
        Seq::empty()
    };
    let side = if pos == 15 {
        sidebar(s.subrange(i - 15, i + 1))
    } else {
        Seq::empty()
    };
    head + byte_cell(s[i], pos) + side
}

/// What writing the bytes of `s` from index `from` up to `to` emits, once the
/// bytes before `from` have been written.
pub open spec fn rendered(s: Seq<u8>, from: int, to: int) -> Seq<u8>
    decreases to - from,
{
    if to <= from {
        Seq::empty()
    } else {
        rendered(s, from, to - 1) + byte_output(s, to - 1)
    }
}

/// What writing the whole stream `s` to a fresh formatter emits.
pub open spec fn dump(s: Seq<u8>) -> Seq<u8> {
    rendered(s, 0, s.len() as int)
}

/// The blank cells for line positions `from` up to `to`.
pub open spec fn pads(from: int, to: int) -> Seq<u8>
    decreases to - from,
{
    if to <= from {
        Seq::empty()
    } else {
        pads(from, to - 1) + pad_cell(to - 1)
    }
}

/// What closing emits after the stream `s` was written: nothing when the
/// last line is complete; else the blank cells for the rest of that line and
/// the sidebar of the bytes it holds.
pub open spec fn tail(s: Seq<u8>) -> Seq<u8> {
    let used = (s.len() % 16) as int;
    if used == 0 {
        Seq::empty()
    } else {
        pads(used, 16) + sidebar(s.subrange(s.len() - used, s.len() as int))
    }
}

/// The hex column cells of the bytes of one line, from position 0.
pub open spec fn cells(line: Seq<u8>) -> Seq<u8>
    decreases line.len(),
{
    if line.len() == 0 {
        Seq::empty()
    } else {
        cells(line.drop_last()) + byte_cell(line.last(), line.len() - 1)
    }
}

/// One finished line of the dump for the bytes `line` (at most sixteen) that
/// start at byte `off`: offset column, the cells, blank cells up to the
/// sidebar, and the sidebar.
pub open spec fn line_text(off: nat, line: Seq<u8>) -> Seq<u8> {
    offset_text(off) + cells(line) + pads(line.len() as int, 16) + sidebar(line)
}

/// The finished dump of `s`, line by line: one line for each sixteen bytes,
/// and one for the bytes that remain, if any.
pub open spec fn layout(s: Seq<u8>) -> Seq<u8>
    decreases s.len(),
{
    if s.len() == 0 {
        Seq::empty()
    } else {
        let start = (s.len() - 1) / 16 * 16;
        layout(s.subrange(0, start)) + line_text(start as nat, s.subrange(start, s.len() as int))
    }
}

} // verus!
