use vstd::prelude::*;
use crate::event::{InputSequence, ESCAPE};
use crate::text::char_from_u32;

verus! {

/// What the next bytes of terminal input make.  The counts are the bytes
/// that are used up.
#[derive(Debug, Clone, Copy, PartialEq, Eq, Structural)]
pub enum Decoded {
    /// A complete input sequence.
    Input(InputSequence, usize),
    /// An escape sequence that is not supported; it is dropped.
    Skip(usize),
    /// The bytes end inside a sequence; more input decides it.
    NeedMore,
    /// The input has ended.
    End,
    /// A lead byte of UTF-8 without its continuation bytes, or a number
    /// that does not fit in 32 bits: the terminal reader gives such input
    /// no meaning.
    Malformed,
}

pub open spec fn is_digit(b: u8) -> bool {
    0x30 <= b <= 0x39
}

pub open spec fn is_cont(b: u8) -> bool {
    0x80 <= b < 0xC0
}

/// The number written by the digits from `i` on, added to `v` so far, and
/// where the digits end.
pub open spec fn digit_run(b: Seq<u8>, i: int, v: int) -> (int, int)
    decreases b.len() - i,
{
    if 0 <= i < b.len() && is_digit(b[i]) {
        digit_run(b, i + 1, v * 10 + (b[i] - 0x30))
    } else {
        (v, i)
    }
}

/// A UTF-8 sequence at the start of `b` (whose first byte is not ESC):
/// plain bytes below `0xC0` stand for themselves; a lead byte must be
/// followed by its continuation bytes.  The character takes the low bits
/// of the lead byte and of the continuation bytes after the first, which
/// are not counted.
pub open spec fn utf8_step(b: Seq<u8>, eof: bool) -> Decoded {
    let n = b.len();
    let lead = b[0];
    let need = if lead >= 0xF0 { 4int } else if lead >= 0xE0 { 3int } else { 2int };
    if lead < 0xC0 {
        Decoded::Input(InputSequence::Char((lead as u32) as char), 1)
    } else if n < 2 || !is_cont(b[1]) {
        if n < 2 && !eof { Decoded::NeedMore } else { Decoded::Malformed }
    } else if need == 2 {
        Decoded::Input(InputSequence::Char(((lead % 32) as u32 * 64 + (b[1] % 64) as u32) as char), 2)
    } else if n < 3 || !is_cont(b[2]) {
        if n < 3 && !eof { Decoded::NeedMore } else { Decoded::Malformed }
    } else if need == 3 {
        Decoded::Input(InputSequence::Char(((lead % 16) as u32 * 64 + (b[2] % 64) as u32) as char), 3)
    } else if n < 4 || !is_cont(b[3]) {
        if n < 4 && !eof { Decoded::NeedMore } else { Decoded::Malformed }
    } else {
        Decoded::Input(InputSequence::Char(
            ((lead % 8) as u32 * 4096 + (b[2] % 64) as u32 * 64 + (b[3] % 64) as u32) as char,
        ), 4)
    }
}

/// The end of a CSI sequence at `pos`: `byte` is the byte there, or the
/// last digit where the input has ended.  After `;` a second number must
/// end in `~` (a key code and its modifiers); ESC drops the sequence
/// before it; any other byte ends a sequence with one modifier.  Private
/// sequences (`ESC [ ?`) are dropped.
pub open spec fn csi_tail(b: Seq<u8>, eof: bool, private: bool, pos: int, byte: u8, modifier: int) -> Decoded {
    let n = b.len() as int;
    if byte == 0x3B {
        let p1 = pos + 1;
        if p1 >= n {
            if eof { Decoded::Skip(p1 as usize) } else { Decoded::NeedMore }
        } else if is_digit(b[p1]) {
            let (m2, e2) = digit_run(b, p1, 0);
            if m2 > u32::MAX {
                Decoded::Malformed
            } else if e2 >= n && !eof {
                Decoded::NeedMore
            } else {
                let byte2 = if e2 < n { b[e2] } else { b[e2 - 1] };
                if byte2 != 0x7E {
                    Decoded::Skip((if e2 < n { e2 } else { n }) as usize)
                } else if private {
                    Decoded::Skip((e2 + 1) as usize)
                } else {
                    Decoded::Input(InputSequence::KeyCode { key_code: modifier as u32, modifier: m2 as u32 }, (e2 + 1) as usize)
                }
            }
        } else if b[p1] != 0x7E {
            Decoded::Skip(p1 as usize)
        } else if private {
            Decoded::Skip((p1 + 1) as usize)
        } else {
            Decoded::Input(InputSequence::KeyCode { key_code: modifier as u32, modifier: 1 }, (p1 + 1) as usize)
        }
    } else if byte == ESCAPE {
        Decoded::Skip(pos as usize)
    } else {
        let p2 = if pos + 1 <= n { pos + 1 } else { n };
        if private {
            Decoded::Skip(p2 as usize)
        } else {
            Decoded::Input(InputSequence::Modifier { modifier: modifier as u32, char: (byte as u32) as char }, p2 as usize)
        }
    }
}

/// One attempt at decoding the start of `b`; `eof` tells whether the
/// input ends after `b`.  ESC alone at the end of the input is the ESC
/// character; `ESC [` starts a CSI sequence (see [`csi_tail`]); `ESC O`
/// a single shift; ESC before any other byte is that byte with Alt.
pub open spec fn decode_step(b: Seq<u8>, eof: bool) -> Decoded {
    let n = b.len() as int;
    if n == 0 {
        if eof { Decoded::End } else { Decoded::NeedMore }
    } else if b[0] != ESCAPE {
        utf8_step(b, eof)
    } else if n < 2 {
        if eof { Decoded::Input(InputSequence::Char('\x1B'), 1) } else { Decoded::NeedMore }
    } else if b[1] == 0x5B {
        if n < 3 {
            if eof { Decoded::Skip(2) } else { Decoded::NeedMore }
        } else {
            let private = b[2] == 0x3F;
            let p = if private { 3int } else { 2int };
            if p >= n {
                if eof { Decoded::Skip(p as usize) } else { Decoded::NeedMore }
            } else if is_digit(b[p]) {
                let (v, e) = digit_run(b, p, 0);
                if v > u32::MAX {
                    Decoded::Malformed
                } else if e >= n && !eof {
                    Decoded::NeedMore
                } else {
                    csi_tail(b, eof, private, e, if e < n { b[e] } else { b[e - 1] }, v)
                }
            } else {
                csi_tail(b, eof, private, p, b[p], 1)
            }
        }
    } else if b[1] == 0x4F {
        if n < 3 {
            if eof { Decoded::Input(InputSequence::Alt('O'), 2) } else { Decoded::NeedMore }
        } else {
            Decoded::Input(InputSequence::SingleShift3((b[2] as u32) as char), 3)
        }
    } else {
        Decoded::Input(InputSequence::Alt((b[1] as u32) as char), 2)
    }
}

/// Decoding from `start` on, dropping unsupported sequences: the result
/// and where it was found.
pub open spec fn decode_from(b: Seq<u8>, eof: bool, start: int) -> (Decoded, int)
    decreases b.len() - start,
{
    if start < 0 || start > b.len() {
        (Decoded::End, start)
    } else {
        match decode_step(b.skip(start), eof) {
            Decoded::Skip(k) => if k >= 1 && start + k <= b.len() {
                decode_from(b, eof, start + k)
            } else if k >= 1 {
                (Decoded::End, b.len() as int)
            } else {
                (Decoded::Skip(k), start)
            },
            d => (d, start),
        }
    }
}

pub proof fn lemma_digit_run(b: Seq<u8>, i: int, v: int)
    requires
        0 <= i <= b.len(),
        0 <= v,
    ensures
        i <= digit_run(b, i, v).1 <= b.len(),
        digit_run(b, i, v).0 >= v,
        digit_run(b, i, v).1 > i ==> is_digit(b[digit_run(b, i, v).1 - 1]),
    decreases b.len() - i,
{
    if i < b.len() && is_digit(b[i]) {
        lemma_digit_run(b, i + 1, v * 10 + (b[i] - 0x30));
    }
}

/// Parses the digits from `i` on into `v`; `None` where the number does
/// not fit in 32 bits.
fn parse_digits(b: &[u8], i: usize) -> (r: Option<(u32, usize)>)
    requires
        i <= b@.len(),
    ensures
        digit_run(b@, i as int, 0).0 > u32::MAX <==> r is None,
        r matches Some((v, e)) ==> v == digit_run(b@, i as int, 0).0 && e == digit_run(b@, i as int, 0).1,
{
    proof {
        lemma_digit_run(b@, i as int, 0);
    }
    let mut v: u32 = 0;
    let mut k = i;
    while k < b.len() && b[k] >= 0x30 && b[k] <= 0x39
        invariant
            i <= k <= b@.len(),
            digit_run(b@, i as int, 0) == digit_run(b@, k as int, v as int),
        decreases b.len() - k,
    {
        proof {
            lemma_digit_run(b@, k + 1, v * 10 + (b[k as int] - 0x30));
        }
        let d = (b[k] - 0x30) as u32;
        if v > (u32::MAX - d) / 10 {
            return None;
        }
        v = v * 10 + d;
        k += 1;
    }
    Some((v, k))
}

/// See [`csi_tail`].
fn csi_tail_exec(b: &[u8], eof: bool, private: bool, pos: usize, byte: u8, modifier: u32) -> (r: Decoded)
    requires
        pos <= b@.len(),
        b@.len() < usize::MAX,
    ensures
        r == csi_tail(b@, eof, private, pos as int, byte, modifier as int),
{
    let n = b.len();
    if byte == 0x3B {
        let p1 = pos + 1;
        if p1 >= n {
            return if eof { Decoded::Skip(p1) } else { Decoded::NeedMore };
        }
        let y = b[p1];
        if y >= 0x30 && y <= 0x39 {
            proof {
                lemma_digit_run(b@, p1 as int, 0);
            }
            match parse_digits(b, p1) {
                None => Decoded::Malformed,
                Some((m2, e2)) => {
                    if e2 >= n && !eof {
                        return Decoded::NeedMore;
                    }
                    let byte2 = if e2 < n { b[e2] } else { b[e2 - 1] };
                    if byte2 != 0x7E {
                        Decoded::Skip(if e2 < n { e2 } else { n })
                    } else if private {
                        Decoded::Skip(e2 + 1)
                    } else {
                        Decoded::Input(InputSequence::KeyCode { key_code: modifier, modifier: m2 }, e2 + 1)
                    }
                },
            }
        } else if y != 0x7E {
            Decoded::Skip(p1)
        } else if private {
            Decoded::Skip(p1 + 1)
        } else {
            Decoded::Input(InputSequence::KeyCode { key_code: modifier, modifier: 1 }, p1 + 1)
        }
    } else if byte == ESCAPE {
        Decoded::Skip(pos)
    } else {
        let p2 = if pos + 1 <= n { pos + 1 } else { n };
        if private {
            Decoded::Skip(p2)
        } else {
            Decoded::Input(InputSequence::Modifier { modifier, char: byte as char }, p2)
        }
    }
}

/// The character with code `v`, below `0xD800`.
fn small_char(v: u32) -> (c: char)
    requires
        v < 0xD800,
    ensures
        c == v as char,
{
    match char_from_u32(v) {
        Some(c) => c,
        None => ' ',
    }
}

/// See [`utf8_step`].
fn utf8_step_exec(b: &[u8], eof: bool) -> (r: Decoded)
    requires
        b@.len() > 0,
    ensures
        r == utf8_step(b@, eof),
{
    let n = b.len();
    let lead = b[0];
    if lead < 0xC0 {
        return Decoded::Input(InputSequence::Char(lead as char), 1);
    }
    let need: usize = if lead >= 0xF0 { 4 } else if lead >= 0xE0 { 3 } else { 2 };
    if n < 2 || !(b[1] >= 0x80 && b[1] < 0xC0) {
        return if n < 2 && !eof { Decoded::NeedMore } else { Decoded::Malformed };
    }
    if need == 2 {
        let v = (lead % 32) as u32 * 64 + (b[1] % 64) as u32;
        return Decoded::Input(InputSequence::Char(small_char(v)), 2);
    }
    if n < 3 || !(b[2] >= 0x80 && b[2] < 0xC0) {
        return if n < 3 && !eof { Decoded::NeedMore } else { Decoded::Malformed };
    }
    if need == 3 {
        let v = (lead % 16) as u32 * 64 + (b[2] % 64) as u32;
        return Decoded::Input(InputSequence::Char(small_char(v)), 3);
    }
    if n < 4 || !(b[3] >= 0x80 && b[3] < 0xC0) {
        return if n < 4 && !eof { Decoded::NeedMore } else { Decoded::Malformed };
    }
    let v = (lead % 8) as u32 * 4096 + (b[2] % 64) as u32 * 64 + (b[3] % 64) as u32;
    Decoded::Input(InputSequence::Char(small_char(v)), 4)
}

/// One attempt at decoding the start of `b`; see [`decode_step`].
pub fn decode_step_exec(b: &[u8], eof: bool) -> (r: Decoded)
    requires
        b@.len() < usize::MAX,
    ensures
        r == decode_step(b@, eof),
{
    let n = b.len();
    if n == 0 {
        return if eof { Decoded::End } else { Decoded::NeedMore };
    }
    if b[0] != ESCAPE {
        return utf8_step_exec(b, eof);
    }
    if n < 2 {
        return if eof { Decoded::Input(InputSequence::Char('\x1B'), 1) } else { Decoded::NeedMore };
    }
    if b[1] == 0x5B {
        if n < 3 {
            return if eof { Decoded::Skip(2) } else { Decoded::NeedMore };
        }
        let private = b[2] == 0x3F;
        let p: usize = if private { 3 } else { 2 };
        if p >= n {
            return if eof { Decoded::Skip(p) } else { Decoded::NeedMore };
        }
        let x = b[p];
        if x >= 0x30 && x <= 0x39 {
            proof {
                lemma_digit_run(b@, p as int, 0);
            }
            match parse_digits(b, p) {
                None => Decoded::Malformed,
                Some((v, e)) => {
                    if e >= n && !eof {
                        return Decoded::NeedMore;
                    }
                    let byte = if e < n { b[e] } else { b[e - 1] };
                    csi_tail_exec(b, eof, private, e, byte, v)
                },
            }
        } else {
            csi_tail_exec(b, eof, private, p, x, 1)
        }
    } else if b[1] == 0x4F {
        if n < 3 {
            return if eof { Decoded::Input(InputSequence::Alt('O'), 2) } else { Decoded::NeedMore };
        }
        Decoded::Input(InputSequence::SingleShift3(b[2] as char), 3)
    } else {
        Decoded::Input(InputSequence::Alt(b[1] as char), 2)
    }
}

/// Decodes the next input sequence of `b`, dropping unsupported escape
/// sequences; see [`decode_from`].  The second number is where the result
/// starts: the bytes before it were dropped.
pub fn decode_input(b: &[u8], eof: bool) -> (r: (Decoded, usize))
    requires
        b@.len() < usize::MAX,
    ensures
        (r.0, r.1 as int) == decode_from(b@, eof, 0),
{
    let mut start: usize = 0;
    while start <= b.len()
        invariant
            start <= b@.len(),
            b@.len() < usize::MAX,
            decode_from(b@, eof, 0) == decode_from(b@, eof, start as int),
        decreases b@.len() - start,
    {
        let rest = vstd::slice::slice_subrange(b, start, b.len());
        assert(rest@ =~= b@.skip(start as int));
        let d = decode_step_exec(rest, eof);
        match d {
            Decoded::Skip(k) => {
                if k < 1 {
                    return (d, start);
                }
                if k > b.len() - start {
                    return (Decoded::End, b.len());
                }
                start = start + k;
            },
            _ => {
                return (d, start);
            },
        }
    }
    (Decoded::End, start)
}

} // verus!
