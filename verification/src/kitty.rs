//! The Kitty graphics protocol: a frame sent as base64 in chunks of at most
//! 4096 characters, the first carrying the image parameters.
use vstd::prelude::*;
use crate::base64::{base64_encode, base64_spec, encode_group, sextet_char_spec};
use crate::text::{decimal, push_char, push_decimal, push_str};
use crate::view::{cmd_views, DrawCmd, DrawCmdView, Frame};

verus! {

/// Characters of payload per escape sequence.
pub const CHUNK_SIZE: usize = 4096;

/// Number of escape sequences for a payload of `len` characters.
pub open spec fn num_chunks(len: nat) -> nat {
    (len + 4095) / 4096
}

/// End of chunk `j` of a payload of `len` characters.
pub open spec fn chunk_end(len: nat, j: int) -> int {
    if 4096 * j + 4096 <= len { 4096 * j + 4096 } else { len as int }
}

/// Chunk `j` of the payload `b`.
pub open spec fn chunk_payload(b: Seq<char>, j: int) -> Seq<char> {
    b.subrange(4096 * j, chunk_end(b.len(), j))
}

/// The first `k` chunks of `b`, concatenated.
pub open spec fn payloads(b: Seq<char>, k: nat) -> Seq<char>
    decreases k,
{
    if k == 0 {
        Seq::empty()
    } else {
        payloads(b, (k - 1) as nat) + chunk_payload(b, k - 1)
    }
}

/// The escape sequence carrying chunk `j` of the payload `b`: the first one
/// transmits and displays an RGB image of `w` x `h` pixels over `cw` x `ch`
/// cells (`m=1` while more chunks follow).
pub open spec fn kitty_chunk(b: Seq<char>, w: u32, h: u32, cw: u16, ch: u16, j: int) -> Seq<char> {
    let end = chunk_end(b.len(), j);
    let payload = chunk_payload(b, j);
    let m = if end == b.len() { '0' } else { '1' };
    if j == 0 {
        "\x1b_Ga=T,f=24,s="@ + decimal(w as nat) + ",v="@ + decimal(h as nat) + ",c="@ + decimal(cw as nat)
            + ",r="@ + decimal(ch as nat) + ",m="@ + seq![m] + ",q=2;"@ + payload + "\x1b\\"@
    } else {
        "\x1b_Gm="@ + seq![m] + ";"@ + payload + "\x1b\\"@
    }
}

/// The commands that draw `img` at cell (`x`, `y`) over `cw` x `ch` cells.
pub open spec fn kitty_spec(img: &Frame, x: u16, y: u16, cw: u16, ch: u16) -> Seq<DrawCmdView> {
    let b = base64_spec(img.spec_data());
    seq![DrawCmdView::MoveTo(x, y)] + Seq::new(
        num_chunks(b.len()),
        |j: int| DrawCmdView::Raw(kitty_chunk(b, img.spec_width(), img.spec_height(), cw, ch, j)),
    )
}

/// Base64 output is ASCII.
proof fn lemma_base64_ascii(d: Seq<u8>)
    ensures
        forall|i: int| 0 <= i < base64_spec(d).len() ==> '\0' <= #[trigger] base64_spec(d)[i] <= '\u{7f}',
    decreases d.len(),
{
    if d.len() > 3 {
        lemma_base64_ascii(d.skip(3));
        let g = encode_group(d.take(3));
        assert forall|i: int| 0 <= i < base64_spec(d).len() implies '\0' <= #[trigger] base64_spec(d)[i] <= '\u{7f}' by {
            if i >= 4 {
                assert(base64_spec(d)[i] == base64_spec(d.skip(3))[i - 4]);
            }
        }
    }
}

/// Writes the escape sequences of `img` (see `kitty_spec`).
pub fn render_kitty(img: &Frame, x_offset: u16, y_offset: u16, char_w: u16, char_h: u16, out: &mut Vec<DrawCmd>)
    ensures
        cmd_views(final(out)@) == cmd_views(old(out)@) + kitty_spec(img, x_offset, y_offset, char_w, char_h),
{
    let width = img.width();
    let height = img.height();
    let b64 = base64_encode(img.as_raw().as_slice());
    let ghost b = b64@;
    proof {
        lemma_base64_ascii(img.spec_data());
    }
    let bs: &str = b64.as_str();
    assert(bs.is_ascii());
    let ghost out0 = cmd_views(out@);
    out.push(DrawCmd::MoveTo(x_offset, y_offset));
    let total = b64.unicode_len();
    let mut i: usize = 0;
    let mut j: usize = 0;
    let ghost all = Seq::new(
        num_chunks(b.len()),
        |j: int| DrawCmdView::Raw(kitty_chunk(b, width, height, char_w, char_h, j)),
    );
    proof {
        assert(all.take(0) =~= Seq::<DrawCmdView>::empty());
        assert(cmd_views(out@) =~= out0 + seq![DrawCmdView::MoveTo(x_offset, y_offset)] + all.take(0));
    }
    while i < total
        invariant
            bs@ == b,
            bs.is_ascii(),
            total == b.len(),
            i == (if 4096 * j <= total { 4096 * j } else { total as int }),
            j <= num_chunks(b.len()),
            all == Seq::new(
                num_chunks(b.len()),
                |j: int| DrawCmdView::Raw(kitty_chunk(b, width, height, char_w, char_h, j)),
            ),
            cmd_views(out@) == out0 + seq![DrawCmdView::MoveTo(x_offset, y_offset)] + all.take(j as int),
        decreases total - i,
    {
        assert(j < num_chunks(b.len())) by (nonlinear_arith)
            requires 4096 * j < total, num_chunks(b.len()) == (total + 4095) / 4096;
        let end = if total - i >= CHUNK_SIZE { i + CHUNK_SIZE } else { total };
        let chunk: &str = bs.substring_ascii(i, end);
        let mut seq_s = String::new();
        if j == 0 {
            push_str(&mut seq_s, "\x1b_Ga=T,f=24,s=");
            push_decimal(&mut seq_s, width as u64);
            push_str(&mut seq_s, ",v=");
            push_decimal(&mut seq_s, height as u64);
            push_str(&mut seq_s, ",c=");
            push_decimal(&mut seq_s, char_w as u64);
            push_str(&mut seq_s, ",r=");
            push_decimal(&mut seq_s, char_h as u64);
            push_str(&mut seq_s, ",m=");
            push_char(&mut seq_s, if end == total { '0' } else { '1' });
            push_str(&mut seq_s, ",q=2;");
        } else {
            push_str(&mut seq_s, "\x1b_Gm=");
            push_char(&mut seq_s, if end == total { '0' } else { '1' });
            push_str(&mut seq_s, ";");
        }
        push_str(&mut seq_s, chunk);
        push_str(&mut seq_s, "\x1b\\");
        proof {
            let k = kitty_chunk(b, width, height, char_w, char_h, j as int);
            assert(seq_s@ =~= k);
        }
        let ghost prev = cmd_views(out@);
        out.push(DrawCmd::Raw(seq_s));
        proof {
            assert(all.take(j + 1) =~= all.take(j as int).push(all[j as int]));
            assert(cmd_views(out@) =~= prev.push(DrawCmdView::Raw(seq_s@)));
        }
        i = end;
        j = j + 1;
    }
    proof {
        assert(j >= num_chunks(b.len())) by (nonlinear_arith)
            requires 4096 * j >= total, num_chunks(b.len()) == (total + 4095) / 4096;
        assert(all.take(j as int) =~= all);
    }
}

} // verus!
