use vstd::prelude::*;
use crate::format::{
    byte_cell, byte_output, cells, dump, layout, line_text, offset_text, pad_cell, pads, rendered,
    sidebar, tail, NEWLINE,
};

verus! {

/// Writing up to `b` and then on to `c` emits what writing up to `c` does.
pub proof fn lemma_rendered_split(s: Seq<u8>, a: int, b: int, c: int)
    requires
        a <= b <= c,
    ensures
        rendered(s, a, c) == rendered(s, a, b) + rendered(s, b, c),
    decreases c - b,
{
    if c > b {
        lemma_rendered_split(s, a, b, c - 1);
        assert(rendered(s, a, b) + rendered(s, b, c) =~= rendered(s, a, b) + rendered(s, b, c - 1)
            + byte_output(s, c - 1));
    } else {
        assert(rendered(s, a, b) + rendered(s, b, c) =~= rendered(s, a, c));
    }
}

/// What the bytes before `b` emit does not depend on the bytes after them.
proof fn lemma_rendered_prefix(s: Seq<u8>, p: int, a: int, b: int)
    requires
        0 <= a <= b <= p <= s.len(),
    ensures
        rendered(s, a, b) == rendered(s.subrange(0, p), a, b),
    decreases b - a,
{
    if b > a {
        lemma_rendered_prefix(s, p, a, b - 1);
        let t = s.subrange(0, p);
        let i = b - 1;
        if i % 16 == 15 {
            assert(s.subrange(i - 15, i + 1) =~= t.subrange(i - 15, i + 1));
        }
        assert(byte_output(s, i) == byte_output(t, i));
    }
}

/// Writing the stream in two chunks emits what writing it at once does.
pub proof fn lemma_two_chunks(a: Seq<u8>, b: Seq<u8>)
    ensures
        dump(a) + rendered(a + b, a.len() as int, (a + b).len() as int) == dump(a + b),
{
    let s = a + b;
    lemma_rendered_split(s, 0, a.len() as int, s.len() as int);
    lemma_rendered_prefix(s, a.len() as int, 0, a.len() as int);
    assert(s.subrange(0, a.len() as int) =~= a);
}

/// All the chunks of `cs`, one after another.
pub open spec fn concat(cs: Seq<Seq<u8>>) -> Seq<u8>
    decreases cs.len(),
{
    if cs.len() == 0 {
        Seq::empty()
    } else {
        concat(cs.drop_last()) + cs.last()
    }
}

/// What a fresh formatter emits when it is written the chunks of `cs` in
/// turn, each write emitting what its contract states.
pub open spec fn chunked_output(cs: Seq<Seq<u8>>) -> Seq<u8>
    decreases cs.len(),
{
    if cs.len() == 0 {
        Seq::empty()
    } else {
        chunked_output(cs.drop_last()) + rendered(
            concat(cs),
            concat(cs.drop_last()).len() as int,
            concat(cs).len() as int,
        )
    }
}

/// However a stream is cut into chunks, writing the chunks in turn emits
/// exactly what writing the whole stream at once does.
pub proof fn lemma_chunking(cs: Seq<Seq<u8>>)
    ensures
        chunked_output(cs) == dump(concat(cs)),
    decreases cs.len(),
{
    if cs.len() == 0 {
        assert(dump(Seq::<u8>::empty()) =~= Seq::<u8>::empty());
    } else {
        lemma_chunking(cs.drop_last());
        lemma_two_chunks(concat(cs.drop_last()), cs.last());
    }
}

/// Writing the bytes of a line that starts at `p`, up to its position `t`.
proof fn lemma_line_render(s: Seq<u8>, p: int, t: int)
    requires
        p % 16 == 0,
        0 <= p,
        0 <= t <= 16,
        p + t <= s.len(),
    ensures
        rendered(s, p, p + t) == (if t > 0 {
            offset_text(p as nat)
        } else {
            Seq::empty()
        }) + cells(s.subrange(p, p + t)) + (if t == 16 {
            sidebar(s.subrange(p, p + 16))
        } else {
            Seq::empty()
        }),
    decreases t,
{
    let line = s.subrange(p, p + t);
    if t == 0 {
        assert(cells(line) =~= Seq::<u8>::empty());
        assert(rendered(s, p, p) =~= Seq::<u8>::empty());
    } else {
        lemma_line_render(s, p, t - 1);
        let i = p + t - 1;
        assert(i % 16 == t - 1);
        assert(line.drop_last() =~= s.subrange(p, p + t - 1));
        assert(line.last() == s[i]);
        assert(cells(line) == cells(s.subrange(p, p + t - 1)) + byte_cell(s[i], t - 1));
        if t == 1 {
            assert(cells(s.subrange(p, p)) =~= Seq::<u8>::empty());
        }
        assert(rendered(s, p, p + t) =~= (if t > 0 {
            offset_text(p as nat)
        } else {
            Seq::empty()
        }) + cells(line) + (if t == 16 {
            sidebar(s.subrange(p, p + 16))
        } else {
            Seq::empty()
        }));
    }
}

/// The width of the hex column cells of the first `n` line positions.
spec fn col_width(n: int) -> int {
    3 * n + (if n >= 8 {
        1int
    } else {
        0int
    }) + (if n >= 16 {
        2int
    } else {
        0int
    })
}

proof fn lemma_cells_len(line: Seq<u8>)
    requires
        line.len() <= 16,
    ensures
        cells(line).len() == col_width(line.len() as int),
    decreases line.len(),
{
    if line.len() > 0 {
        lemma_cells_len(line.drop_last());
    }
}

proof fn lemma_pads_len(from: int, to: int)
    requires
        0 <= from <= to <= 16,
    ensures
        pads(from, to).len() == col_width(to) - col_width(from),
    decreases to - from,
{
    if to > from {
        lemma_pads_len(from, to - 1);
    }
}

proof fn lemma_offset_text_len(v: nat)
    ensures
        offset_text(v).len() == 10,
{
    reveal(offset_text);
}

/// Every line of the dump, full or not, has the same width up to its
/// sidebar, and ends with the sidebar's `|` and a newline.
pub proof fn lemma_line_shape(off: nat, line: Seq<u8>)
    requires
        line.len() <= 16,
    ensures
        line_text(off, line).len() == 63 + line.len(),
        (offset_text(off) + cells(line) + pads(line.len() as int, 16)).len() == 61,
        line_text(off, line) == offset_text(off) + cells(line) + pads(line.len() as int, 16)
            + sidebar(line),
        line_text(off, line)[line_text(off, line).len() - 1] == NEWLINE,
        line_text(off, line)[line_text(off, line).len() - 2] == crate::format::PIPE,
{
    lemma_cells_len(line);
    lemma_pads_len(line.len() as int, 16);
    lemma_offset_text_len(off);
}

/// Closing emits nothing when the last line is complete, and otherwise
/// finishes that line; the whole output, closing included, is one finished
/// line for each sixteen bytes and one for the bytes that remain. No line
/// is empty.
pub proof fn lemma_close_output(s: Seq<u8>)
    ensures
        tail(s).len() == 0 <==> s.len() % 16 == 0,
        dump(s) + tail(s) == layout(s),
    decreases s.len(),
{
    let len = s.len() as int;
    if len % 16 != 0 {
        let u = len % 16;
        assert(sidebar(s.subrange(len - u, len)).len() >= 2);
    }
    if len == 0 {
        assert(dump(s) + tail(s) =~= layout(s));
    } else {
        let start = (len - 1) / 16 * 16;
        assert(start % 16 == 0 && 1 <= len - start <= 16 && len % 16 == (len - start) % 16)
            by (nonlinear_arith)
            requires
                start == (len - 1) / 16 * 16,
                len >= 1,
        ;
        let t = len - start;
        let prev = s.subrange(0, start);
        let line = s.subrange(start, len);
        lemma_close_output(prev);
        lemma_rendered_split(s, 0, start, len);
        lemma_rendered_prefix(s, start, 0, start);
        lemma_line_render(s, start, t);
        assert(tail(prev) =~= Seq::<u8>::empty());
        assert(dump(prev) == layout(prev));
        if t == 16 {
            assert(s.subrange(start, start + 16) =~= line);
            assert(pads(16, 16) =~= Seq::<u8>::empty());
            assert(tail(s) =~= Seq::<u8>::empty());
        } else {
            assert(s.subrange(len - t, len) =~= line);
        }
        assert(dump(s) + tail(s) =~= layout(prev) + line_text(start as nat, line));
    }
}

proof fn lemma_full_lines_len(s: Seq<u8>, j: int)
    requires
        0 <= j,
        16 * j <= s.len(),
    ensures
        rendered(s, 0, 16 * j).len() == 79 * j,
    decreases j,
{
    if j > 0 {
        lemma_full_lines_len(s, j - 1);
        lemma_rendered_split(s, 0, 16 * (j - 1), 16 * j);
        lemma_line_render(s, 16 * (j - 1), 16);
        lemma_cells_len(s.subrange(16 * (j - 1), 16 * j));
        lemma_offset_text_len((16 * (j - 1)) as nat);
    }
}

/// Each completed line of the dump starts with the offset column of sixteen
/// times its index: line `j` fills the 79 bytes from `79 * j`.
pub proof fn lemma_line_offsets(s: Seq<u8>, j: int)
    requires
        0 <= j,
        16 * (j + 1) <= s.len(),
    ensures
        dump(s).subrange(79 * j, 79 * j + 10) == offset_text((16 * j) as nat),
        dump(s).subrange(79 * j, 79 * j + 79) == line_text(
            (16 * j) as nat,
            s.subrange(16 * j, 16 * j + 16),
        ),
{
    let len = s.len() as int;
    let line = s.subrange(16 * j, 16 * j + 16);
    lemma_full_lines_len(s, j);
    lemma_rendered_split(s, 0, 16 * j, len);
    lemma_rendered_split(s, 16 * j, 16 * j + 16, len);
    lemma_line_render(s, 16 * j, 16);
    lemma_line_shape((16 * j) as nat, line);
    lemma_offset_text_len((16 * j) as nat);
    assert(pads(16, 16) =~= Seq::<u8>::empty());
    let x = rendered(s, 0, 16 * j);
    let y = rendered(s, 16 * j, 16 * j + 16);
    let z = rendered(s, 16 * j + 16, len);
    assert(y =~= line_text((16 * j) as nat, line));
    assert(dump(s) =~= x + y + z);
    assert(dump(s).subrange(79 * j, 79 * j + 79) =~= y);
    assert(y.subrange(0, 10) =~= offset_text((16 * j) as nat));
    assert(dump(s).subrange(79 * j, 79 * j + 10) =~= y.subrange(0, 10));
}

} // verus!
