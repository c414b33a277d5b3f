use vstd::prelude::*;
use crate::fmt::{hex_digits, push_hex};
use crate::errors::RuntimeError;

verus! {

/// A byte shows as itself when it is a graphic ASCII character, else as `.`.
pub open spec fn shown_char(b: u8) -> char {
    if 0x21 <= b && b <= 0x7e {
        b as char
    } else {
        '.'
    }
}

/// A byte as two upper-case hex digits and a space.
pub open spec fn byte_hex(b: u8) -> Seq<char> {
    seq![crate::fmt::hex_char(b as nat / 16), crate::fmt::hex_char(b as nat % 16), ' ']
}

/// The hex columns of a chunk.
pub open spec fn hex_part(chunk: Seq<u8>) -> Seq<char>
    decreases chunk.len(),
{
    if chunk.len() == 0 {
        Seq::empty()
    } else {
        hex_part(chunk.drop_last()) + byte_hex(chunk.last())
    }
}

/// The character columns of a chunk.
pub open spec fn ascii_part(chunk: Seq<u8>) -> Seq<char>
    decreases chunk.len(),
{
    if chunk.len() == 0 {
        Seq::empty()
    } else {
        ascii_part(chunk.drop_last()) + seq![shown_char(chunk.last())]
    }
}

/// Three spaces for each of `n` missing bytes.
pub open spec fn pad_part(n: nat) -> Seq<char>
    decreases n,
{
    if n == 0 {
        Seq::empty()
    } else {
        pad_part((n - 1) as nat) + seq![' ', ' ', ' ']
    }
}

/// One dump line: the address, each byte as two hex digits and a space, optional padding
/// up to sixteen bytes, then the shown characters between bars.
pub open spec fn dump_line(addr: nat, chunk: Seq<u8>, prefix: bool, pad: bool) -> Seq<char> {
    (if prefix {
        seq!['0', 'x']
    } else {
        Seq::empty()
    }) + hex_digits(addr, 4) + seq![':', ' '] + hex_part(chunk) + (if pad && chunk.len() < 16 {
        pad_part((16 - chunk.len()) as nat)
    } else {
        Seq::empty()
    }) + seq![' ', '|'] + ascii_part(chunk) + seq!['|', '\n']
}

/// The dump of `bytes` in lines of sixteen, the first line at address `base`.
pub open spec fn dump_text(base: nat, bytes: Seq<u8>, prefix: bool, pad: bool) -> Seq<char>
    decreases bytes.len(),
{
    if bytes.len() == 0 {
        Seq::empty()
    } else if bytes.len() <= 16 {
        dump_line(base, bytes, prefix, pad)
    } else {
        dump_line(base, bytes.subrange(0, 16), prefix, pad) + dump_text(
            base + 16,
            bytes.subrange(16, bytes.len() as int),
            prefix,
            pad,
        )
    }
}

fn digit_char_str(d: u8) -> (r: &'static str)
    requires
        d < 16,
    ensures
        r@ == seq![crate::fmt::hex_char(d as nat)],
{
    proof {
        reveal_strlit("0123456789ABCDEF");
    }
    let t = "0123456789ABCDEF";
    let r = t.substring_ascii(d as usize, d as usize + 1);
    proof {
        assert(r@ =~= seq![crate::fmt::hex_char(d as nat)]);
    }
    r
}

fn shown_str(b: u8) -> (r: &'static str)
    ensures
        r@ == seq![shown_char(b)],
{
    proof {
        reveal_strlit(" !\"#$%&'()*+,-./0123456789:;<=>?@ABCDEFGHIJKLMNOPQRSTUVWXYZ[\\]^_`abcdefghijklmnopqrstuvwxyz{|}~");
        reveal_strlit(".");
    }
    let t = " !\"#$%&'()*+,-./0123456789:;<=>?@ABCDEFGHIJKLMNOPQRSTUVWXYZ[\\]^_`abcdefghijklmnopqrstuvwxyz{|}~";
    if 0x21 <= b && b <= 0x7e {
        let i = (b - 0x20) as usize;
        let r = t.substring_ascii(i, i + 1);
        proof {
            assert(r@ =~= seq![shown_char(b)]);
        }
        r
    } else {
        "."
    }
}

/// Appends one dump line for `bytes[start..end)`.
fn push_line(out: &mut String, addr: u64, bytes: &[u8], start: usize, end: usize, prefix: bool, pad: bool)
    requires
        start <= end <= bytes@.len(),
        end - start <= 16,
    ensures
        final(out)@ == old(out)@ + dump_line(
            addr as nat,
            bytes@.subrange(start as int, end as int),
            prefix,
            pad,
        ),
{
    let ghost chunk = bytes@.subrange(start as int, end as int);
    let ghost s0 = out@;
    proof {
        reveal_strlit("0x");
        reveal_strlit(": ");
        reveal_strlit(" ");
        reveal_strlit("   ");
        reveal_strlit(" |");
        reveal_strlit("|\n");
    }
    if prefix {
        out.append("0x");
    }
    push_hex(out, addr, 4);
    out.append(": ");
    let ghost s1 = out@;
    let mut i = start;
    while i < end
        invariant
            start <= i <= end,
            end <= bytes@.len(),
            out@ == s1 + hex_part(bytes@.subrange(start as int, i as int)),
        decreases end - i,
    {
        let b = bytes[i];
        proof {
            reveal_strlit(" ");
        }
        out.append(digit_char_str(b / 16));
        out.append(digit_char_str(b % 16));
        out.append(" ");
        proof {
            assert(bytes@.subrange(start as int, i + 1).last() == b);
            assert(bytes@.subrange(start as int, i + 1).drop_last() =~= bytes@.subrange(start as int, i as int));
            assert(out@ =~= s1 + hex_part(bytes@.subrange(start as int, i + 1)));
        }
        i = i + 1;
    }
    let ghost s2 = out@;
    if pad && end - start < 16 {
        let mut j: usize = 0;
        while j < 16 - (end - start)
            invariant
                start <= end,
                end - start < 16,
                j <= 16 - (end - start),
                out@ == s2 + pad_part(j as nat),
            decreases 16 - (end - start) - j,
        {
            proof {
                reveal_strlit("   ");
            }
            out.append("   ");
            proof {
                assert(out@ =~= s2 + pad_part((j + 1) as nat));
            }
            j = j + 1;
        }
    }
    let ghost s3 = out@;
    out.append(" |");
    let ghost s4 = out@;
    let mut i = start;
    while i < end
        invariant
            start <= i <= end,
            end <= bytes@.len(),
            out@ == s4 + ascii_part(bytes@.subrange(start as int, i as int)),
        decreases end - i,
    {
        out.append(shown_str(bytes[i]));
        proof {
            assert(bytes@.subrange(start as int, i + 1).drop_last() =~= bytes@.subrange(start as int, i as int));
            assert(out@ =~= s4 + ascii_part(bytes@.subrange(start as int, i + 1)));
        }
        i = i + 1;
    }
    out.append("|\n");
    proof {
        assert(out@ =~= s0 + dump_line(addr as nat, chunk, prefix, pad));
    }
}

/// Appends the dump of `bytes`, its first line at address `base`.
pub fn push_dump(out: &mut String, base: u64, bytes: &[u8], prefix: bool, pad: bool)
    requires
        base + bytes@.len() <= u64::MAX,
    ensures
        final(out)@ == old(out)@ + dump_text(base as nat, bytes@, prefix, pad),
{
    let n = bytes.len();
    let mut pos: usize = 0;
    proof {
        assert(bytes@.subrange(0, n as int) =~= bytes@);
    }
    while pos < n
        invariant
            n == bytes@.len(),
            pos <= n,
            base + n <= u64::MAX,
            old(out)@ + dump_text(base as nat, bytes@, prefix, pad) == out@ + dump_text(
                (base + pos) as nat,
                bytes@.subrange(pos as int, n as int),
                prefix,
                pad,
            ),
        decreases n - pos,
    {
        let end = if n - pos > 16 {
            pos + 16
        } else {
            n
        };
        let ghost rest = bytes@.subrange(pos as int, n as int);
        let ghost before = out@;
        push_line(out, base + pos as u64, bytes, pos, end, prefix, pad);
        proof {
            if rest.len() > 16 {
                assert(rest.subrange(0, 16) =~= bytes@.subrange(pos as int, end as int));
                assert(rest.subrange(16, rest.len() as int) =~= bytes@.subrange(end as int, n as int));
            } else {
                assert(rest =~= bytes@.subrange(pos as int, end as int));
                assert(bytes@.subrange(end as int, n as int) =~= Seq::<u8>::empty());
            }
            assert(before + dump_text((base + pos) as nat, rest, prefix, pad) =~= out@ + dump_text(
                (base + end) as nat,
                bytes@.subrange(end as int, n as int),
                prefix,
                pad,
            ));
        }
        pos = end;
    }
    proof {
        assert(out@ + dump_text((base + pos) as nat, bytes@.subrange(pos as int, n as int), prefix, pad) =~= out@);
    }
}

/// Dumps `len` bytes of memory from `offset`, clipped to the end of memory.
/// An offset at or past the end of memory is refused.
pub fn memdump(memory: &[u8], offset: u64, len: usize) -> (r: Result<String, RuntimeError>)
    ensures
        offset >= memory@.len() ==> r == Err::<String, RuntimeError>(RuntimeError::InvalidMemoryAccess),
        offset < memory@.len() ==> (r matches Ok(s) && s@ == dump_text(
            offset as nat,
            memory@.subrange(offset as int, if offset + len < memory@.len() {
                offset + len
            } else {
                memory@.len() as int
            }),
            true,
            false,
        )),
{
    let total = memory.len();
    if offset >= total as u64 {
        return Err(RuntimeError::InvalidMemoryAccess);
    }
    let start = offset as usize;
    let end = if len < total - start {
        start + len
    } else {
        total
    };
    let part = copy_range(memory, start, end);
    let mut out = String::new();
    push_dump(&mut out, offset, part.as_slice(), true, false);
    proof {
        assert(out@ =~= dump_text(offset as nat, part@, true, false));
    }
    Ok(out)
}

fn copy_range(s: &[u8], start: usize, end: usize) -> (r: Vec<u8>)
    requires
        start <= end <= s@.len(),
    ensures
        r@ == s@.subrange(start as int, end as int),
{
    let mut out: Vec<u8> = Vec::new();
    let mut i = start;
    while i < end
        invariant
            start <= i <= end,
            end <= s@.len(),
            out@ == s@.subrange(start as int, i as int),
        decreases end - i,
    {
        out.push(s[i]);
        i = i + 1;
        assert(out@ =~= s@.subrange(start as int, i as int));
    }
    out
}

/// A hex dump of a whole byte string: offsets from zero, rows padded to sixteen bytes.
pub fn wasm_to_hex(bytes: &[u8]) -> (r: String)
    requires
        bytes@.len() <= u64::MAX,
    ensures
        r@ == dump_text(0, bytes@, false, true),
{
    let mut out = String::new();
    push_dump(&mut out, 0, bytes, false, true);
    proof {
        assert(out@ =~= dump_text(0, bytes@, false, true));
    }
    out
}

} // verus!
