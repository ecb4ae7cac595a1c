use vstd::prelude::*;

use crate::ascii_frame::{byte_char, bytes_to_chars, char_byte, chars_to_bytes, is_printable_ascii, AsciiFrame};

verus! {

/// `256` to the power `n`.
pub open spec fn pow256(n: nat) -> nat
    decreases n,
{
    if n == 0 {
        1
    } else {
        256 * pow256((n - 1) as nat)
    }
}

/// The number that bytes `b` spell in big-endian order.
pub open spec fn be_value(b: Seq<u8>) -> nat
    decreases b.len(),
{
    if b.len() == 0 {
        0
    } else {
        be_value(b.drop_last()) * 256 + b.last() as nat
    }
}

/// The low `n` bytes of `v`, most significant first.
pub open spec fn be_bytes(v: nat, n: nat) -> Seq<u8>
    decreases n,
{
    if n == 0 {
        Seq::empty()
    } else {
        be_bytes(v / 256, (n - 1) as nat).push((v % 256) as u8)
    }
}

/// Why a datagram is not a frame.
#[derive(PartialEq, Eq, Structural, Clone, Copy, Debug)]
pub enum WireError {
    /// Fewer than 16 bytes: no room for the width and the height.
    ShortHeader,
    /// Fewer than `w * h` bytes of cells after the header.
    ShortBody,
    /// The width or the height is zero.
    ZeroDimension,
}

/// The datagram of a `w` by `h` frame: width and height as 8-byte big-endian
/// numbers, then one byte per cell.
pub open spec fn encode_frame(w: nat, h: nat, cells: Seq<char>) -> Seq<u8> {
    be_bytes(w, 8) + be_bytes(h, 8) + chars_to_bytes(cells)
}

/// The frame that datagram `d` holds (width, height, cells), or why it holds none.
pub open spec fn decode_frame(d: Seq<u8>) -> Result<(nat, nat, Seq<char>), WireError> {
    if d.len() < 16 {
        Err(WireError::ShortHeader)
    } else {
        let w = be_value(d.subrange(0, 8));
        let h = be_value(d.subrange(8, 16));
        if w == 0 || h == 0 {
            Err(WireError::ZeroDimension)
        } else if d.len() < 16 + w * h {
            Err(WireError::ShortBody)
        } else {
            Ok((w, h, bytes_to_chars(d.subrange(16, (16 + w * h) as int))))
        }
    }
}

/// The character of decimal digit `d`.
pub open spec fn digit_char(d: nat) -> char {
    byte_char((48 + d) as u8)
}

/// The decimal digits of `n`, without leading zeros.
pub open spec fn decimal(n: nat) -> Seq<char>
    decreases n,
{
    if n < 10 {
        seq![digit_char(n)]
    } else {
        decimal(n / 10).push(digit_char(n % 10))
    }
}

/// The escape sequence that moves the cursor to column `x`, row `y` (both
/// counted from zero).
pub open spec fn cursor_to(x: nat, y: nat) -> Seq<char> {
    seq!['\x1b', '['] + decimal(y + 1) + seq![';'] + decimal(x + 1) + seq!['H']
}

/// The escape sequences that clear the screen and put the cursor top left.
pub open spec fn clear_sequence() -> Seq<char> {
    seq!['\x1b', '[', '2', 'J', '\x1b', '[', '1', ';', '1', 'H']
}

/// What repaints the first `n` cells of a `w`-column grid from `prev` to `cur`:
/// for each cell that differs, a cursor move and the new character.
pub open spec fn paint(prev: Seq<char>, cur: Seq<char>, w: nat, n: nat) -> Seq<char>
    decreases n,
{
    if n == 0 {
        Seq::empty()
    } else {
        let i = (n - 1) as nat;
        paint(prev, cur, w, i) + if cur[i as int] != prev[i as int] {
            cursor_to(i % w, i / w).push(cur[i as int])
        } else {
            Seq::empty()
        }
    }
}

/// Paints frames on a terminal, sending only the cells that changed since the
/// last frame.
pub struct AsciiRenderer {
    prev_frame: Vec<char>,
    prev_w: usize,
    prev_h: usize,
}

/// `b` read as a big-endian number is below `256` to the power of its length.
pub proof fn lemma_be_value_bound(b: Seq<u8>)
    ensures
        be_value(b) < pow256(b.len()),
    decreases b.len(),
{
    if b.len() > 0 {
        lemma_be_value_bound(b.drop_last());
        let v = be_value(b.drop_last());
        let p = pow256((b.len() - 1) as nat);
        assert(v * 256 + b.last() < 256 * p) by (nonlinear_arith)
            requires
                v < p,
                b.last() < 256,
        ;
    }
}

/// Spelling a number below `256^n` in `n` big-endian bytes and reading them
/// back gives the number.
pub proof fn lemma_be_round_trip(v: nat, n: nat)
    requires
        v < pow256(n),
    ensures
        be_bytes(v, n).len() == n,
        be_value(be_bytes(v, n)) == v,
    decreases n,
{
    if n > 0 {
        let p = pow256((n - 1) as nat);
        assert(v / 256 < p) by (nonlinear_arith)
            requires
                v < 256 * p,
        ;
        lemma_be_round_trip(v / 256, (n - 1) as nat);
        let b = be_bytes(v, n);
        assert(b.drop_last() =~= be_bytes(v / 256, (n - 1) as nat));
        assert((v % 256) as u8 as nat == v % 256);
    } else {
        assert(v == 0);
    }
}

/// Repainting a grid that differs from the previous one in cell `i` alone
/// writes one cursor move to that cell and its new character.
pub proof fn lemma_paint_one_change(prev: Seq<char>, cur: Seq<char>, w: nat, n: nat, i: nat)
    requires
        n <= prev.len(),
        n <= cur.len(),
        i < n,
        prev[i as int] != cur[i as int],
        forall|j: int| 0 <= j < n && j != i ==> prev[j] == cur[j],
    ensures
        paint(prev, cur, w, n) == cursor_to(i % w, i / w).push(cur[i as int]),
    decreases n,
{
    let k = (n - 1) as nat;
    if k == i {
        lemma_paint_equal_prefix(prev, cur, w, k);
        assert(paint(prev, cur, w, n) =~= cursor_to(i % w, i / w).push(cur[i as int]));
    } else {
        lemma_paint_one_change(prev, cur, w, k, i);
        assert(paint(prev, cur, w, n) =~= paint(prev, cur, w, k));
    }
}

/// Cells that agree in the first `n` positions paint nothing.
proof fn lemma_paint_equal_prefix(prev: Seq<char>, cur: Seq<char>, w: nat, n: nat)
    requires
        n <= prev.len(),
        n <= cur.len(),
        forall|j: int| 0 <= j < n ==> prev[j] == cur[j],
    ensures
        paint(prev, cur, w, n) == Seq::<char>::empty(),
    decreases n,
{
    if n > 0 {
        lemma_paint_equal_prefix(prev, cur, w, (n - 1) as nat);
        assert(paint(prev, cur, w, n) =~= Seq::<char>::empty());
    }
}

/// A frame rendered right after a frame of the same dimensions that differs
/// from it in one cell only produces exactly one cursor move and that
/// cell's character, with no screen clear.
pub proof fn lemma_render_one_change(f1: Seq<char>, f2: Seq<char>, w: nat, h: nat, i: nat)
    requires
        w > 0,
        h > 0,
        f1.len() == w * h,
        f2.len() == w * h,
        i < w * h,
        f1[i as int] != f2[i as int],
        forall|j: int| 0 <= j < w * h && j != i ==> f1[j] == f2[j],
    ensures
        paint(f1, f2, w, w * h) == cursor_to(i % w, i / w).push(f2[i as int]),
{
    lemma_paint_one_change(f1, f2, w, w * h, i);
}

fn read_be_u64(d: &[u8], start: usize) -> (r: u64)
    requires
        start + 8 <= d@.len(),
    ensures
        r as nat == be_value(d@.subrange(start as int, start + 8)),
{
    let len = d.len();
    let mut v: u64 = 0;
    let mut k: usize = 0;
    while k < 8
        invariant
            len == d@.len(),
            start + 8 <= d@.len(),
            k <= 8,
            v as nat == be_value(d@.subrange(start as int, start + k)),
        decreases 8 - k,
    {
        proof {
            lemma_be_value_bound(d@.subrange(start as int, start + k));
            assert(pow256(k as nat) <= pow256(7)) by {
                lemma_pow256_mono(k as nat, 7);
            }
            reveal_with_fuel(pow256, 8);
            assert(d@.subrange(start as int, start + k + 1).drop_last() =~= d@.subrange(
                start as int,
                start + k,
            ));
        }
        v = v * 256 + d[start + k] as u64;
        k = k + 1;
    }
    v
}

/// Powers of 256 grow with the exponent.
pub proof fn lemma_pow256_mono(a: nat, b: nat)
    requires
        a <= b,
    ensures
        pow256(a) <= pow256(b),
    decreases b,
{
    if a < b {
        lemma_pow256_mono(a, (b - 1) as nat);
    }
}

fn push_be(out: &mut Vec<u8>, v: u64, n: usize)
    requires
        n <= 8,
    ensures
        final(out)@ == old(out)@ + be_bytes(v as nat, n as nat),
    decreases n,
{
    if n > 0 {
        push_be(out, v / 256, n - 1);
        out.push((v % 256) as u8);
        assert(final(out)@ =~= old(out)@ + be_bytes(v as nat, n as nat));
    } else {
        assert(final(out)@ =~= old(out)@ + be_bytes(v as nat, n as nat));
    }
}

fn push_decimal(out: &mut Vec<char>, n: usize)
    ensures
        final(out)@ == old(out)@ + decimal(n as nat),
    decreases n,
{
    if n >= 10 {
        push_decimal(out, n / 10);
    }
    let d: u8 = (n % 10) as u8;
    out.push((48u8 + d) as char);
    assert(final(out)@ =~= old(out)@ + decimal(n as nat));
}

impl AsciiRenderer {
    /// The cells of the last frame painted.
    pub closed spec fn prev(&self) -> Seq<char> {
        self.prev_frame@
    }

    /// Width of the last frame painted (zero before the first).
    pub closed spec fn prev_width(&self) -> nat {
        self.prev_w as nat
    }

    /// Height of the last frame painted (zero before the first).
    pub closed spec fn prev_height(&self) -> nat {
        self.prev_h as nat
    }

    /// A renderer that has painted nothing.
    pub fn new() -> (r: Self)
        ensures
            r.prev() == Seq::<char>::empty(),
            r.prev_width() == 0,
            r.prev_height() == 0,
    {
        AsciiRenderer { prev_frame: Vec::new(), prev_w: 0, prev_h: 0 }
    }

    /// What to write to the terminal to show `frame`. When the dimensions
    /// changed, the screen is cleared first and the previous frame counts as
    /// all spaces; then each cell that differs from the previous frame gets a
    /// cursor move and its character. The frame becomes the previous one.
    pub fn render(&mut self, frame: &AsciiFrame) -> (r: Vec<char>)
        requires
            frame.wf(),
        ensures
            ({
                let resized = frame.w != old(self).prev_width() || frame.h != old(self).prev_height()
                    || old(self).prev().len() != frame.w * frame.h;
                let base = if resized {
                    Seq::new((frame.w * frame.h) as nat, |i: int| ' ')
                } else {
                    old(self).prev()
                };
                let lead = if resized {
                    clear_sequence()
                } else {
                    Seq::empty()
                };
                r@ == lead + paint(base, frame.chars@, frame.w as nat, (frame.w * frame.h) as nat)
            }),
            final(self).prev() == frame.chars@,
            final(self).prev_width() == frame.w,
            final(self).prev_height() == frame.h,
    {
        let n = frame.chars.len();
        let mut out: Vec<char> = Vec::new();
        if frame.w != self.prev_w || frame.h != self.prev_h || self.prev_frame.len() != n {
            self.prev_frame = vec![' '; n];
            self.prev_w = frame.w;
            self.prev_h = frame.h;
            out.push('\x1b');
            out.push('[');
            out.push('2');
            out.push('J');
            out.push('\x1b');
            out.push('[');
            out.push('1');
            out.push(';');
            out.push('1');
            out.push('H');
            assert(out@ =~= clear_sequence());
            assert(self.prev_frame@ =~= Seq::new((frame.w * frame.h) as nat, |i: int| ' '));
        }
        let ghost base = self.prev_frame@;
        let ghost lead = out@;
        let w = frame.w;
        let mut i: usize = 0;
        while i < n
            invariant
                frame.wf(),
                w == frame.w,
                n == frame.chars@.len(),
                n == w * frame.h,
                base.len() == n,
                self.prev_frame@.len() == n,
                i <= n,
                forall|j: int| 0 <= j < i ==> self.prev_frame@[j] == frame.chars@[j],
                forall|j: int| i <= j < n ==> self.prev_frame@[j] == base[j],
                out@ == lead + paint(base, frame.chars@, w as nat, i as nat),
                self.prev_w == frame.w,
                self.prev_h == frame.h,
            decreases n - i,
        {
            let c = frame.chars[i];
            if c != self.prev_frame[i] {
                let x = i % w;
                let y = i / w;
                proof {
                    assert(y < frame.h) by (nonlinear_arith)
                        requires
                            i < w * frame.h,
                            y == i / w,
                            w > 0,
                    ;
                }
                out.push('\x1b');
                out.push('[');
                push_decimal(&mut out, y + 1);
                out.push(';');
                push_decimal(&mut out, x + 1);
                out.push('H');
                out.push(c);
                self.prev_frame.set(i, c);
            }
            proof {
                assert(out@ =~= lead + paint(base, frame.chars@, w as nat, (i + 1) as nat));
            }
            i = i + 1;
        }
        assert(self.prev_frame@ =~= frame.chars@);
        out
    }

    /// The frame that a datagram holds: a big-endian 8-byte width, a
    /// big-endian 8-byte height, then one byte per cell; bytes past the cells
    /// are ignored.
    pub fn process_datagram(&self, datagram: &[u8]) -> (r: Result<AsciiFrame, WireError>)
        ensures
            match decode_frame(datagram@) {
                Ok((w, h, cells)) => r is Ok && r->Ok_0.wf() && r->Ok_0.w == w && r->Ok_0.h == h
                    && r->Ok_0.chars@ == cells,
                Err(e) => r is Err && r->Err_0 == e,
            },
    {
        let len = datagram.len();
        if len < 16 {
            return Err(WireError::ShortHeader);
        }
        let w64 = read_be_u64(datagram, 0);
        let h64 = read_be_u64(datagram, 8);
        if w64 == 0 || h64 == 0 {
            return Err(WireError::ZeroDimension);
        }
        if w64 > usize::MAX as u64 || h64 > usize::MAX as u64 {
            proof {
                assert(w64 * h64 >= w64 && w64 * h64 >= h64) by (nonlinear_arith)
                    requires
                        w64 >= 1,
                        h64 >= 1,
                ;
            }
            return Err(WireError::ShortBody);
        }
        let w = w64 as usize;
        let h = h64 as usize;
        let n = match w.checked_mul(h) {
            Some(n) => n,
            None => {
                return Err(WireError::ShortBody);
            },
        };
        if len - 16 < n {
            return Err(WireError::ShortBody);
        }
        let body = slice_subrange(datagram, 16, 16 + n);
        match AsciiFrame::from_bytes(w, h, body) {
            Ok(f) => {
                assert(body@.take(w * h) =~= body@);
                Ok(f)
            },
            Err(_) => {
                assert(false);
                Err(WireError::ShortBody)
            },
        }
    }

    /// The datagram of `frame`: width and height as 8-byte big-endian numbers,
    /// then the low byte of each cell.
    pub fn serialize_frame(frame: &AsciiFrame) -> (r: Vec<u8>)
        ensures
            r@ == encode_frame(frame.w as nat, frame.h as nat, frame.chars@),
    {
        let mut bytes: Vec<u8> = Vec::new();
        push_be(&mut bytes, frame.w as u64, 8);
        push_be(&mut bytes, frame.h as u64, 8);
        let body = frame.bytes();
        let ghost head = bytes@;
        let mut i: usize = 0;
        while i < body.len()
            invariant
                i <= body@.len(),
                bytes@ == head + body@.take(i as int),
            decreases body@.len() - i,
        {
            bytes.push(body[i]);
            i = i + 1;
            assert(bytes@ =~= head + body@.take(i as int));
        }
        assert(body@.take(i as int) =~= body@);
        bytes
    }
}

/// Bytes `from` up to `to` of `s`.
fn slice_subrange(s: &[u8], from: usize, to: usize) -> (r: &[u8])
    requires
        from <= to <= s@.len(),
    ensures
        r@ == s@.subrange(from as int, to as int),
{
    vstd::slice::slice_subrange(s, from, to)
}

/// A frame whose cells are all printable ASCII comes back unchanged from its
/// datagram.
pub proof fn lemma_wire_round_trip(w: nat, h: nat, cells: Seq<char>)
    requires
        0 < w < pow256(8),
        0 < h < pow256(8),
        cells.len() == w * h,
        forall|i: int| 0 <= i < cells.len() ==> is_printable_ascii(#[trigger] cells[i]),
    ensures
        decode_frame(encode_frame(w, h, cells)) == Ok::<(nat, nat, Seq<char>), WireError>(
            (w, h, cells),
        ),
{
    let d = encode_frame(w, h, cells);
    lemma_be_round_trip(w, 8);
    lemma_be_round_trip(h, 8);
    assert(d.subrange(0, 8) =~= be_bytes(w, 8));
    assert(d.subrange(8, 16) =~= be_bytes(h, 8));
    assert(d.subrange(16, (16 + w * h) as int) =~= chars_to_bytes(cells));
    assert forall|i: int| 0 <= i < cells.len() implies byte_char(char_byte(cells[i])) == cells[i] by {
        let c = cells[i];
        let x = c as u32;
        assert(is_printable_ascii(c));
        assert(x % 256 == x);
        assert(char_byte(c) as u32 == x);
        vstd::utf8::char_u32_cast(c, x);
    }
    assert(bytes_to_chars(chars_to_bytes(cells)) =~= cells);
}

} // verus!
