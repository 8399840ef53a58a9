//! ESC/POS byte assembly for a stamp.
//!
//! Layout: `ESC @` init, then either a 24x24 raster glyph (when `lines` is
//! empty and `glyph_seed` is set) or centered title/subtitle/body text,
//! followed by `size_hint`-many feed lines and a `GS V B 0` cut. The glyph
//! is a built-in deterministic raster derived from `glyph_seed`.

use vstd::prelude::*;
use vstd::utf8::encode_utf8;

use crate::catalog::Stamp;
use crate::text::str_eq;

verus! {

/// `ESC @`: initialize printer.
pub open spec fn init_bytes() -> Seq<u8> {
    seq![0x1Bu8, 0x40u8]
}

/// `ESC a 1`: center justification.
pub open spec fn center_bytes() -> Seq<u8> {
    seq![0x1Bu8, 0x61u8, 0x01u8]
}

/// `ESC a 0`: left justification.
pub open spec fn left_bytes() -> Seq<u8> {
    seq![0x1Bu8, 0x61u8, 0x00u8]
}

/// `GS V B 0`: feed and cut.
pub open spec fn cut_bytes() -> Seq<u8> {
    seq![0x1Du8, 0x56u8, 0x42u8, 0x00u8]
}

/// Raster rows are 3 bytes (24 dots) wide.
pub const RASTER_ROW_BYTES: usize = 3;

/// The raster has 24 rows.
pub const RASTER_ROWS: usize = 24;

/// `GS v 0`, normal mode, 3 bytes by 24 rows: the raster header.
pub open spec fn raster_header() -> Seq<u8> {
    seq![0x1Du8, 0x76u8, 0x30u8, 0x00u8, 3u8, 0x00u8, 24u8, 0x00u8]
}

/// Number of trailing feed lines for a `size_hint`.
pub open spec fn feed_count(size_hint: Seq<char>) -> nat {
    if size_hint == "small"@ {
        2
    } else if size_hint == "large"@ {
        8
    } else {
        4
    }
}

/// A text line: its UTF-8 bytes and a line feed.
pub open spec fn text_line(line: Seq<char>) -> Seq<u8> {
    encode_utf8(line) + seq![0x0Au8]
}

/// The body lines, each as a text line, in order.
pub open spec fn body_lines(lines: Seq<String>) -> Seq<u8>
    decreases lines.len(),
{
    if lines.len() == 0 {
        Seq::empty()
    } else {
        body_lines(lines.drop_last()) + text_line(lines.last()@)
    }
}

/// Centered title, subtitle when non-empty, and body lines, then back to left
/// justification.
pub open spec fn text_block(stamp: Stamp) -> Seq<u8> {
    center_bytes() + text_line(stamp.title@) + (if stamp.subtitle@.len() > 0 {
        text_line(stamp.subtitle@)
    } else {
        Seq::empty()
    }) + body_lines(stamp.lines@) + left_bytes()
}

/// One step of the 64-bit linear congruential generator behind the glyph.
pub open spec fn lcg_next(state: u64) -> u64 {
    state.wrapping_mul(6_364_136_223_846_793_005u64).wrapping_add(1_442_695_040_888_963_407u64)
}

/// The generator's state after `n` steps from `seed`.
pub open spec fn lcg_state(seed: u64, n: nat) -> u64
    decreases n,
{
    if n == 0 {
        seed
    } else {
        lcg_next(lcg_state(seed, (n - 1) as nat))
    }
}

/// The raster byte drawn from a generator state: bits 24..32.
pub open spec fn raster_byte(state: u64) -> u8 {
    ((state >> 24u64) & 0xFFu64) as u8
}

/// The raster glyph for `seed`: the header, then 72 bytes, the `i`-th drawn
/// from the generator state after `i + 1` steps.
pub open spec fn glyph_bytes(seed: u64) -> Seq<u8> {
    raster_header() + Seq::new(72, |i: int| raster_byte(lcg_state(seed, (i + 1) as nat)))
}

/// Whether `stamp` renders as a raster glyph: no lines and a glyph seed.
pub open spec fn is_glyph_only(stamp: Stamp) -> bool {
    stamp.lines@.len() == 0 && stamp.glyph_seed is Some
}

/// What goes between the init and the feed lines: the raster glyph for a
/// glyph-only stamp, the centered text otherwise.
pub open spec fn stamp_body(stamp: Stamp) -> Seq<u8> {
    if is_glyph_only(stamp) {
        glyph_bytes(stamp.glyph_seed.unwrap())
    } else {
        text_block(stamp)
    }
}

/// The full ESC/POS byte stream of `stamp`.
pub open spec fn rendered(stamp: Stamp) -> Seq<u8> {
    init_bytes() + stamp_body(stamp) + Seq::new(feed_count(stamp.size_hint@), |i: int| 0x0Au8)
        + cut_bytes()
}

/// Every rendered stream opens with the `ESC @` init and ends with the
/// `GS V B 0` cut. A glyph-only stamp (no lines, a glyph seed) carries the
/// `GS v 0` raster header right after the init, followed by the 72 raster
/// bytes; every other stamp carries its title's UTF-8 bytes verbatim right
/// after the init and the centering command.
pub proof fn lemma_render_frame(stamp: Stamp)
    ensures
        rendered(stamp).len() >= 6,
        rendered(stamp).take(2) == init_bytes(),
        rendered(stamp).skip(rendered(stamp).len() - 4) == cut_bytes(),
        !is_glyph_only(stamp) ==> rendered(stamp).subrange(
            5,
            5 + encode_utf8(stamp.title@).len() as int,
        ) == encode_utf8(stamp.title@),
        is_glyph_only(stamp) ==> rendered(stamp).subrange(2, 10)
            == raster_header() && rendered(stamp).len() > 80,
{
    let r = rendered(stamp);
    let body = stamp_body(stamp);
    let feeds = Seq::new(feed_count(stamp.size_hint@), |i: int| 0x0Au8);
    assert(r == init_bytes() + body + feeds + cut_bytes());
    assert(r.take(2) =~= init_bytes());
    assert(r.skip(r.len() - 4) =~= cut_bytes());
    if !is_glyph_only(stamp) {
        let t = encode_utf8(stamp.title@);
        assert(body.subrange(3, 3 + t.len() as int) =~= t);
        assert(r.subrange(5, 5 + t.len() as int) =~= t);
    }
    if is_glyph_only(stamp) {
        assert(r.subrange(2, 10) =~= raster_header());
    }
}

/// Number of bytes that the first `i` body lines take, each as its UTF-8
/// bytes and a line feed.
pub open spec fn lines_bytes_before(lines: Seq<String>, i: int) -> int
    decreases i,
{
    if i <= 0 || i > lines.len() {
        0
    } else {
        lines_bytes_before(lines, i - 1) + encode_utf8(lines[i - 1]@).len() + 1
    }
}

/// The body lines of the first `m` lines form a prefix of the body lines of
/// all of them, `lines_bytes_before(lines, m)` bytes long.
proof fn lemma_body_lines_prefix(lines: Seq<String>, m: int)
    requires
        0 <= m <= lines.len(),
    ensures
        body_lines(lines.take(m)).len() == lines_bytes_before(lines, m),
        0 <= lines_bytes_before(lines, m) <= body_lines(lines).len(),
        body_lines(lines).subrange(0, lines_bytes_before(lines, m)) == body_lines(lines.take(m)),
    decreases lines.len() - m,
{
    if m == 0 {
        assert(lines.take(0) =~= Seq::<String>::empty());
        assert(body_lines(lines).subrange(0, 0) =~= Seq::<u8>::empty());
    } else {
        lemma_body_lines_prefix_len(lines, m);
    }
    if m < lines.len() {
        lemma_body_lines_prefix(lines, m + 1);
        lemma_body_lines_prefix_len(lines, m + 1);
        assert(lines.take(m + 1).drop_last() =~= lines.take(m));
        let whole = body_lines(lines);
        let longer = body_lines(lines.take(m + 1));
        let shorter = body_lines(lines.take(m));
        assert(longer == shorter + text_line(lines[m]@));
        let b0 = lines_bytes_before(lines, m);
        let b1 = lines_bytes_before(lines, m + 1);
        assert(b1 == b0 + encode_utf8(lines[m]@).len() + 1);
        assert(whole.subrange(0, b1) == longer);
        assert forall|k: int| 0 <= k < b0 implies whole[k] == longer[k] by {
            assert(whole.subrange(0, b1)[k] == whole[k]);
        }
        assert(whole.subrange(0, lines_bytes_before(lines, m)) =~= longer.subrange(
            0,
            lines_bytes_before(lines, m),
        ));
        assert(longer.subrange(0, lines_bytes_before(lines, m)) =~= shorter);
    } else {
        lemma_body_lines_prefix_len(lines, m);
        assert(lines.take(m) =~= lines);
        assert(body_lines(lines).subrange(0, lines_bytes_before(lines, m)) =~= body_lines(lines));
    }
}

proof fn lemma_body_lines_prefix_len(lines: Seq<String>, m: int)
    requires
        0 <= m <= lines.len(),
    ensures
        body_lines(lines.take(m)).len() == lines_bytes_before(lines, m),
    decreases m,
{
    if m > 0 {
        lemma_body_lines_prefix_len(lines, m - 1);
        assert(lines.take(m).drop_last() =~= lines.take(m - 1));
        assert(lines.take(m).last() == lines[m - 1]);
    } else {
        assert(lines.take(0) =~= Seq::<String>::empty());
    }
}

/// The body lines of a text stamp come out in index order: the `i`-th line's
/// UTF-8 bytes and its line feed stand right after the title line, the
/// subtitle line when there is one, and the bytes of lines `0..i`.
pub proof fn lemma_render_lines_in_order(stamp: Stamp, i: int)
    requires
        0 <= i < stamp.lines@.len(),
    ensures
        ({
            let head = 5 + encode_utf8(stamp.title@).len() + 1 + (if stamp.subtitle@.len() > 0 {
                encode_utf8(stamp.subtitle@).len() + 1
            } else {
                0
            });
            let start = head + lines_bytes_before(stamp.lines@, i);
            let line = encode_utf8(stamp.lines@[i]@);
            &&& rendered(stamp).subrange(start, start + line.len()) == line
            &&& rendered(stamp)[start + line.len()] == 0x0Au8
        }),
{
    let lines = stamp.lines@;
    let sub = if stamp.subtitle@.len() > 0 {
        text_line(stamp.subtitle@)
    } else {
        Seq::empty()
    };
    let head_bytes = init_bytes() + center_bytes() + text_line(stamp.title@) + sub;
    let body = body_lines(lines);
    let r = rendered(stamp);
    assert(!is_glyph_only(stamp));
    assert(r =~= head_bytes + body + (left_bytes() + Seq::new(
        feed_count(stamp.size_hint@),
        |k: int| 0x0Au8,
    ) + cut_bytes()));
    lemma_body_lines_prefix(lines, i);
    lemma_body_lines_prefix(lines, i + 1);
    assert(lines.take(i + 1).drop_last() =~= lines.take(i));
    assert(lines.take(i + 1).last() == lines[i]);
    let before = lines_bytes_before(lines, i);
    let line = encode_utf8(lines[i]@);
    let upto = body_lines(lines.take(i + 1));
    assert(upto == body_lines(lines.take(i)) + text_line(lines[i]@));
    assert(lines_bytes_before(lines, i + 1) == before + line.len() + 1);
    assert(body.subrange(0, before + line.len() + 1) == upto);
    assert forall|k: int| before <= k < before + line.len() + 1 implies body[k] == upto[k] by {
        assert(body.subrange(0, before + line.len() + 1)[k] == body[k]);
    }
    assert(upto.subrange(before, before + line.len() + 1) =~= text_line(lines[i]@));
    assert(body.subrange(before, before + line.len() + 1) =~= upto.subrange(
        before,
        before + line.len() + 1,
    ));
    let start = head_bytes.len() + before;
    assert(r.subrange(start, start + line.len()) =~= body.subrange(before, before + line.len()));
    assert(body.subrange(before, before + line.len()) =~= line);
    assert(r[start + line.len()] == body[before + line.len()]);
    assert(body[before + line.len()] == text_line(lines[i]@)[line.len() as int]);
}

fn feed_lines(size_hint: &str) -> (n: usize)
    ensures
        n == feed_count(size_hint@),
{
    if str_eq(size_hint, "small") {
        2
    } else if str_eq(size_hint, "large") {
        8
    } else {
        4
    }
}

fn push_text_line(buf: &mut Vec<u8>, line: &str)
    ensures
        final(buf)@ == old(buf)@ + text_line(line@),
{
    let bytes = line.as_bytes();
    let n = bytes.len();
    let ghost start = buf@;
    let mut i: usize = 0;
    while i < n
        invariant
            n == bytes@.len(),
            bytes@ == encode_utf8(line@),
            i <= n,
            buf@ == start + bytes@.take(i as int),
        decreases n - i,
    {
        buf.push(bytes[i]);
        i = i + 1;
        assert(bytes@.take(i as int) == bytes@.take(i - 1) + seq![bytes@[i - 1]]);
    }
    assert(bytes@.take(n as int) == bytes@);
    buf.push(0x0A);
}

fn step(state: u64) -> (next: u64)
    ensures
        next == lcg_next(state),
{
    state.wrapping_mul(6_364_136_223_846_793_005).wrapping_add(1_442_695_040_888_963_407)
}

fn byte_of(state: u64) -> (b: u8)
    ensures
        b == raster_byte(state),
{
    ((state >> 24) & 0xFF) as u8
}

/// Deterministic 24x24 raster bit-image from `seed` (`GS v 0` command).
fn glyph_raster(seed: u64) -> (out: Vec<u8>)
    ensures
        out@ == glyph_bytes(seed),
{
    let mut out: Vec<u8> = Vec::new();
    out.push(0x1D);
    out.push(0x76);
    out.push(0x30);
    out.push(0x00);
    out.push(RASTER_ROW_BYTES as u8);
    out.push(0x00);
    out.push(RASTER_ROWS as u8);
    out.push(0x00);
    assert(out@ == raster_header());
    let mut state = seed;
    let total = RASTER_ROW_BYTES * RASTER_ROWS;
    let mut i: usize = 0;
    while i < total
        invariant
            total == 72,
            i <= total,
            state == lcg_state(seed, i as nat),
            out@.len() == 8 + i,
            out@.take(8) == raster_header(),
            forall|j: int| 0 <= j < i ==> #[trigger] out@[8 + j] == raster_byte(lcg_state(seed, (j + 1) as nat)),
        decreases total - i,
    {
        let ghost prev = out@;
        state = step(state);
        let b = byte_of(state);
        out.push(b);
        assert(out@.take(8) == prev.take(8));
        i = i + 1;
    }
    assert forall|k: int| 0 <= k < 80 implies #[trigger] out@[k] == glyph_bytes(seed)[k] by {
        if k >= 8 {
            assert(out@[8 + (k - 8)] == raster_byte(lcg_state(seed, (k - 8 + 1) as nat)));
        } else {
            assert(out@.take(8)[k] == out@[k]);
        }
    }
    assert(out@ =~= glyph_bytes(seed));
    out
}

/// Assemble the ESC/POS byte stream for `stamp`.
pub fn render(stamp: &Stamp) -> (bytes: Vec<u8>)
    ensures
        bytes@ == rendered(*stamp),
{
    let mut buf: Vec<u8> = Vec::new();
    buf.push(0x1B);
    buf.push(0x40);
    let raster_seed = if stamp.lines.len() == 0 {
        stamp.glyph_seed
    } else {
        None
    };
    if let Some(seed) = raster_seed {
        let mut raster = glyph_raster(seed);
        buf.append(&mut raster);
    } else {
        buf.push(0x1B);
        buf.push(0x61);
        buf.push(0x01);
        push_text_line(&mut buf, stamp.title.as_str());
        if stamp.subtitle.as_str().unicode_len() > 0 {
            push_text_line(&mut buf, stamp.subtitle.as_str());
        }
        let ghost before_lines = buf@;
        let n = stamp.lines.len();
        let mut i: usize = 0;
        while i < n
            invariant
                n == stamp.lines@.len(),
                i <= n,
                buf@ == before_lines + body_lines(stamp.lines@.take(i as int)),
            decreases n - i,
        {
            push_text_line(&mut buf, stamp.lines[i].as_str());
            i = i + 1;
            assert(stamp.lines@.take(i as int).drop_last() == stamp.lines@.take(i - 1));
        }
        assert(stamp.lines@.take(n as int) == stamp.lines@);
        buf.push(0x1B);
        buf.push(0x61);
        buf.push(0x00);
    }
    assert(buf@ == init_bytes() + stamp_body(*stamp));
    let ghost before_feed = buf@;
    let feeds = feed_lines(stamp.size_hint.as_str());
    let mut k: usize = 0;
    while k < feeds
        invariant
            k <= feeds,
            buf@ == before_feed + Seq::new(k as nat, |i: int| 0x0Au8),
        decreases feeds - k,
    {
        buf.push(0x0A);
        k = k + 1;
        assert(buf@ == before_feed + Seq::new(k as nat, |i: int| 0x0Au8));
    }
    buf.push(0x1D);
    buf.push(0x56);
    buf.push(0x42);
    buf.push(0x00);
    buf
}

} // verus!
