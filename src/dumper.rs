use vstd::prelude::*;
use crate::encoder::{classify, encode, hex_of, hex_pair, to_char};
use crate::offset::lemma_offset_text;
use crate::format::{
    byte_output, cell_width, offset_text, pad_cell, pads, rendered, sidebar, tail, NEWLINE, PIPE,
    SPACE,
};

verus! {

/// Why the formatter refused an operation.
#[derive(Debug, Clone, Copy, PartialEq, Eq, Structural)]
pub enum DumpError {
    /// A write after `close`.
    WriteClosed,
    /// A flush after `close`.
    FlushClosed,
}

/// The streaming hex-dump formatter. Bytes go in through `write`, in chunks
/// of any size; the text that is ready goes out at once, appended to the
/// caller's buffer; `close` finishes a partial last line.
pub struct HexDumper {
    /// Bytes accepted so far, modulo 2^32.
    n: u32,
    /// Sidebar characters of the current line, with room for `|` and newline.
    right_chars: [u8; 18],
    /// Bytes placed on the current line.
    used: usize,
    closed: bool,
    /// Every byte accepted so far.
    input: Ghost<Seq<u8>>,
}

impl HexDumper {
    /// The bytes accepted so far.
    pub closed spec fn input(&self) -> Seq<u8> {
        self.input@
    }

    pub closed spec fn is_closed(&self) -> bool {
        self.closed
    }

    pub closed spec fn wf(&self) -> bool {
        let len = self.input@.len();
        &&& self.used < 16
        &&& self.used == len % 16
        &&& self.n == len % 0x1_0000_0000
        &&& forall|j: int|
            0 <= j < self.used ==> self.right_chars@[j] == classify(
                #[trigger] self.input@[len - self.used + j],
            )
    }

    /// A formatter that has accepted nothing yet.
    pub fn new() -> (r: HexDumper)
        ensures
            r.wf(),
            r.input() == Seq::<u8>::empty(),
            !r.is_closed(),
    {
        HexDumper { n: 0, right_chars: [0; 18], used: 0, closed: false, input: Ghost(Seq::empty()) }
    }

    /// Whether `close` has been called.
    pub fn closed(&self) -> (r: bool)
        ensures
            r == self.is_closed(),
    {
        self.closed
    }

    /// Formats `buf`, appending to `out` everything that its bytes complete.
    /// Fails, emitting nothing, once the formatter is closed.
    #[verifier::rlimit(50)]
    pub fn write(&mut self, buf: &[u8], out: &mut Vec<u8>) -> (r: Result<usize, DumpError>)
        requires
            old(self).wf(),
        ensures
            final(self).wf(),
            old(self).is_closed() ==> r == Err::<usize, DumpError>(DumpError::WriteClosed)
                && final(out)@ == old(out)@ && final(self).input() == old(self).input()
                && final(self).is_closed(),
            !old(self).is_closed() ==> r == Ok::<usize, DumpError>(buf@.len() as usize)
                && final(self).input() == old(self).input() + buf@ && !final(self).is_closed()
                && final(out)@ == old(out)@ + rendered(
                final(self).input(),
                old(self).input().len() as int,
                final(self).input().len() as int,
            ),
    {
        if self.closed {
            return Err(DumpError::WriteClosed);
        }
        let ghost start = self.input@.len() as int;
        let ghost whole = self.input@ + buf@;
        let ghost out0 = out@;
        let len = buf.len();
        let mut i: usize = 0;
        proof {
            assert(whole.subrange(0, start) =~= self.input@);
        }
        while i < len
            invariant
                len == buf@.len(),
                0 <= i <= len,
                whole == old(self).input() + buf@,
                start == old(self).input().len(),
                self.wf(),
                !self.closed,
                self.input@ == whole.subrange(0, start + i),
                out@ == out0 + rendered(whole, start, start + i),
            decreases len - i,
        {
            let b = buf[i];
            let ghost pre = out@;
            let ghost k = start + i;
            proof {
                assert(self.input@.len() == k);
            }
            if self.used == 0 {
                self.emit_offset(out);
            }
            let ghost mid = out@;
            emit_cell(out, b, self.used);
            let pos = self.used;
            let ghost rc0 = self.right_chars@;
            let ghost in0 = self.input@;
            self.right_chars[pos] = to_char(b);
            self.used = pos + 1;
            self.n = self.n.wrapping_add(1);
            self.input = Ghost(whole.subrange(0, k + 1));
            proof {
                assert(self.input@[k] == b);
                assert forall|j: int| 0 <= j < self.used implies self.right_chars@[j] == classify(
                    #[trigger] self.input@[k + 1 - self.used + j],
                ) by {
                    if j < pos {
                        assert(rc0[j] == classify(in0[k - pos + j]));
                        assert(in0[k - pos + j] == self.input@[k - pos + j]);
                    }
                }
            }
            if self.used == 16 {
                self.right_chars[16] = PIPE;
                self.right_chars[17] = NEWLINE;
                let ghost before = out@;
                emit(out, self.right_chars.as_slice(), 18);
                proof {
                    let line = whole.subrange(k - 15, k + 1);
                    assert(self.right_chars@.subrange(0, 18) =~= sidebar(line)) by {
                        assert forall|j: int| 0 <= j < 16 implies self.right_chars@[j]
                            == sidebar(line)[j] by {
                            assert(self.input@[k + 1 - 16 + j] == line[j]);
                        }
                    }
                    assert(out@ == before + sidebar(line));
                }
                self.used = 0;
            }
            proof {
                let head = if pos == 0 {
                    offset_text(k as nat)
                } else {
                    Seq::empty()
                };
                assert(k % 16 == pos);
                assert(whole[k] == b);
                assert(mid == pre + head);
                assert(out@ =~= pre + byte_output(whole, k));
                assert(self.input@.len() == k + 1);
            }
            i += 1;
        }
        proof {
            assert(whole.subrange(0, start + len) =~= whole);
        }
        Ok(len)
    }

    /// Appends the offset column of the line that the next byte opens.
    fn emit_offset(&self, out: &mut Vec<u8>)
        requires
            self.wf(),
        ensures
            final(out)@ == old(out)@ + offset_text(self.input().len()),
    {
        let n = self.n;
        proof {
            lemma_offset_text(self.input@.len(), n);
        }
        let tmp: [u8; 4] = [
            ((n >> 24) & 0xff) as u8,
            ((n >> 16) & 0xff) as u8,
            ((n >> 8) & 0xff) as u8,
            (n & 0xff) as u8,
        ];
        let mut seg: [u8; 10] = [SPACE; 10];
        encode(&mut seg, tmp.as_slice());
        proof {
            let t = tmp@;
            let t1 = seq![t[0]];
            let t2 = seq![t[0], t[1]];
            let t3 = seq![t[0], t[1], t[2]];
            assert(t1.drop_last() =~= Seq::<u8>::empty());
            assert(t2.drop_last() =~= t1);
            assert(t3.drop_last() =~= t2);
            assert(t.drop_last() =~= t3);
            assert(hex_of(Seq::<u8>::empty()) == Seq::<u8>::empty());
            assert(hex_of(t1) =~= hex_pair(t[0]));
            assert(hex_of(t2) =~= hex_pair(t[0]) + hex_pair(t[1]));
            assert(hex_of(t3) =~= hex_pair(t[0]) + hex_pair(t[1]) + hex_pair(t[2]));
            assert(hex_of(t) =~= hex_pair(t[0]) + hex_pair(t[1]) + hex_pair(t[2]) + hex_pair(t[3]));
            assert(seg@ =~= seg@.subrange(0, 8) + seg@.subrange(8, 10));
            assert(seg@.subrange(8, 10) =~= seq![SPACE, SPACE]);
            assert(seg@ =~= offset_text(self.input@.len()));
        }
        emit(out, seg.as_slice(), 10);
        proof {
            assert(seg@.subrange(0, 10) =~= seg@);
        }
    }

    /// Reports whether the formatter still accepts a flush of its sink.
    pub fn flush(&self) -> (r: Result<(), DumpError>)
        ensures
            self.is_closed() ==> r == Err::<(), DumpError>(DumpError::FlushClosed),
            !self.is_closed() ==> r == Ok::<(), DumpError>(()),
    {
        if self.closed {
            Err(DumpError::FlushClosed)
        } else {
            Ok(())
        }
    }

    /// Closes the formatter: finishes a partial last line with blank cells
    /// and its sidebar. Closing again emits nothing.
    pub fn close(&mut self, out: &mut Vec<u8>)
        requires
            old(self).wf(),
        ensures
            final(self).wf(),
            final(self).is_closed(),
            final(self).input() == old(self).input(),
            old(self).is_closed() ==> final(out)@ == old(out)@,
            !old(self).is_closed() ==> final(out)@ == old(out)@ + tail(old(self).input()),
    {
        if self.closed {
            return;
        }
        self.closed = true;
        if self.used == 0 {
            return;
        }
        let n_bytes = self.used;
        let ghost out0 = out@;
        let mut pos: usize = n_bytes;
        while pos < 16
            invariant
                n_bytes <= pos <= 16,
                out@ == out0 + pads(n_bytes as int, pos as int),
            decreases 16 - pos,
        {
            let pad: [u8; 5] = [SPACE, SPACE, SPACE, SPACE, PIPE];
            let l = cell_len(pos);
            emit(out, pad.as_slice(), l);
            proof {
                assert(pad@.subrange(0, l as int) =~= pad_cell(pos as int));
            }
            pos += 1;
        }
        let ghost s = self.input@;
        self.right_chars[n_bytes] = PIPE;
        self.right_chars[n_bytes + 1] = NEWLINE;
        emit(out, self.right_chars.as_slice(), n_bytes + 2);
        proof {
            let line = s.subrange(s.len() - n_bytes, s.len() as int);
            assert(self.right_chars@.subrange(0, n_bytes + 2) =~= sidebar(line)) by {
                assert forall|j: int| 0 <= j < n_bytes implies self.right_chars@[j]
                    == sidebar(line)[j] by {
                    assert(s[s.len() - n_bytes + j] == line[j]);
                }
            }
        }
    }
}

/// The width of the cell at line position `pos`.
fn cell_len(pos: usize) -> (r: usize)
    ensures
        r == cell_width(pos as int),
{
    if pos == 7 {
        4
    } else if pos == 15 {
        5
    } else {
        3
    }
}

/// Appends the hex column cell of `b` at line position `pos`.
fn emit_cell(out: &mut Vec<u8>, b: u8, pos: usize)
    requires
        pos < 16,
    ensures
        final(out)@ == old(out)@ + crate::format::byte_cell(b, pos as int),
{
    let one: [u8; 1] = [b];
    let mut cell: [u8; 5] = [SPACE, SPACE, SPACE, SPACE, PIPE];
    let ghost blank = cell@;
    encode(&mut cell, one.as_slice());
    let l = cell_len(pos);
    proof {
        assert(one@.drop_last() =~= Seq::<u8>::empty());
        assert(hex_of(one@) =~= hex_pair(b));
        assert(cell@.subrange(0, 2) == hex_pair(b));
        assert(cell@.subrange(2, 5) == blank.subrange(2, 5));
        assert(cell@[2] == SPACE && cell@[3] == SPACE && cell@[4] == PIPE) by {
            assert(cell@[2] == cell@.subrange(2, 5)[0]);
            assert(cell@[3] == cell@.subrange(2, 5)[1]);
            assert(cell@[4] == cell@.subrange(2, 5)[2]);
        }
        assert(cell@[0] == hex_pair(b)[0] && cell@[1] == hex_pair(b)[1]) by {
            assert(cell@[0] == cell@.subrange(0, 2)[0]);
            assert(cell@[1] == cell@.subrange(0, 2)[1]);
        }
        assert(cell@.subrange(0, l as int) =~= crate::format::byte_cell(b, pos as int));
    }
    emit(out, cell.as_slice(), l);
}

/// Appends the first `len` bytes of `seg` to `out`.
fn emit(out: &mut Vec<u8>, seg: &[u8], len: usize)
    requires
        len <= seg@.len(),
    ensures
        final(out)@ == old(out)@ + seg@.subrange(0, len as int),
{
    let mut i: usize = 0;
    while i < len
        invariant
            len <= seg@.len(),
            0 <= i <= len,
            out@ == old(out)@ + seg@.subrange(0, i as int),
        decreases len - i,
    {
        out.push(seg[i]);
        proof {
            assert(seg@.subrange(0, i + 1) =~= seg@.subrange(0, i as int).push(seg@[i as int]));
        }
        i += 1;
    }
}

} // verus!
