//! Byte-level rewriting: tab substitution and non-printable-byte escaping.

use vstd::prelude::*;
use crate::config::{CatOptions, Config};

verus! {

/// The classification table of show-nonprinting mode: what a single byte
/// becomes. Control bytes (line feed excepted) become `^` notation, bytes
/// with the high bit set become `M-` notation, and printable ASCII, tab
/// and line feed pass through unchanged.
pub open spec fn spec_escape_byte(b: u8) -> Seq<u8> {
    if b <= 8 || (11 <= b && b <= 31) {
        seq![94u8, (b + 64) as u8]
    } else if b == 127 {
        seq![94u8, 63u8]
    } else if 128 <= b && b <= 159 {
        seq![77u8, 45u8, 94u8, (b - 64) as u8]
    } else if 160 <= b && b <= 254 {
        seq![77u8, 45u8, (b - 128) as u8]
    } else if b == 255 {
        seq![77u8, 45u8, 94u8, 63u8]
    } else {
        seq![b]
    }
}

/// What one byte of a line becomes on the byte-by-byte rewrite path.
/// A configured tab replacement takes priority over escaping; without it,
/// show-nonprinting escapes the byte; otherwise the byte is kept.
pub open spec fn spec_emit_byte(c: Config, b: u8) -> Seq<u8> {
    match c.tab {
        Option::Some(t) => {
            if b == 9 {
                t
            } else if c.show_nonprinting {
                spec_escape_byte(b)
            } else {
                seq![b]
            }
        },
        Option::None => {
            if c.show_nonprinting {
                spec_escape_byte(b)
            } else {
                seq![b]
            }
        },
    }
}

/// The byte-by-byte rewrite of a whole line.
pub open spec fn spec_rewrite(c: Config, line: Seq<u8>) -> Seq<u8>
    decreases line.len(),
{
    if line.len() == 0 {
        Seq::empty()
    } else {
        spec_rewrite(c, line.drop_last()) + spec_emit_byte(c, line.last())
    }
}

/// Escape one byte per the show-nonprinting classification table.
pub fn escape_byte(b: u8) -> (r: Vec<u8>)
    ensures
        r@ == spec_escape_byte(b),
{
    let r: Vec<u8> = if b <= 8 || (11 <= b && b <= 31) {
        vec![94u8, b + 64]
    } else if b == 127 {
        vec![94u8, 63u8]
    } else if 128 <= b && b <= 159 {
        vec![77u8, 45u8, 94u8, b - 64]
    } else if 160 <= b && b <= 254 {
        vec![77u8, 45u8, b - 128]
    } else if b == 255 {
        vec![77u8, 45u8, 94u8, 63u8]
    } else {
        vec![b]
    };
    proof {
        assert(r@ =~= spec_escape_byte(b));
    }
    r
}

/// Append every byte of `src` to `out`.
pub fn push_all(out: &mut Vec<u8>, src: &[u8])
    ensures
        final(out)@ == old(out)@ + src@,
{
    let ghost out0 = out@;
    let mut k: usize = 0;
    while k < src.len()
        invariant
            k <= src@.len(),
            out@ == out0 + src@.take(k as int),
        decreases src@.len() - k,
    {
        out.push(src[k]);
        proof {
            assert(out0 + src@.take(k as int) + seq![src@[k as int]] =~= out0 + src@.take(
                k as int + 1,
            ));
        }
        k = k + 1;
    }
    proof {
        assert(src@.take(src@.len() as int) =~= src@);
    }
}

/// Append to `out` what one byte of a line becomes: the tab replacement,
/// its escape, or the byte itself.
pub fn emit_byte(options: &CatOptions, b: u8, out: &mut Vec<u8>)
    ensures
        final(out)@ == old(out)@ + spec_emit_byte(options@, b),
{
    match &options.tab_char {
        Option::Some(t) => {
            if b == 9 {
                push_all(out, t.as_slice());
            } else if options.show_nonprinting {
                let e = escape_byte(b);
                push_all(out, e.as_slice());
            } else {
                out.push(b);
                proof {
                    assert(out@ =~= old(out)@ + spec_emit_byte(options@, b));
                }
            }
        },
        Option::None => {
            if options.show_nonprinting {
                let e = escape_byte(b);
                push_all(out, e.as_slice());
            } else {
                out.push(b);
                proof {
                    assert(out@ =~= old(out)@ + spec_emit_byte(options@, b));
                }
            }
        },
    }
}

/// Append the byte-by-byte rewrite of `line` to `out`.
pub fn rewrite_line(options: &CatOptions, line: &Vec<u8>, out: &mut Vec<u8>)
    ensures
        final(out)@ == old(out)@ + spec_rewrite(options@, line@),
{
    let ghost out0 = out@;
    let mut k: usize = 0;
    while k < line.len()
        invariant
            k <= line@.len(),
            out@ == out0 + spec_rewrite(options@, line@.take(k as int)),
        decreases line@.len() - k,
    {
        emit_byte(options, line[k], out);
        proof {
            let pre = line@.take(k as int + 1);
            assert(pre.drop_last() =~= line@.take(k as int));
            assert(pre.last() == line@[k as int]);
            assert(out0 + spec_rewrite(options@, line@.take(k as int)) + spec_emit_byte(
                options@,
                line@[k as int],
            ) =~= out0 + spec_rewrite(options@, pre));
        }
        k = k + 1;
    }
    proof {
        assert(line@.take(line@.len() as int) =~= line@);
    }
}

} // verus!
