//! Video frames: the frame relay between the engine's video callback and the
//! pacer, the declared pixel format, and the pass that converts a frame into
//! the presentation buffer.
use crate::convert::{bytes_per_pixel, pixel_bytes, ConversionTables, PixelFormat};
use vstd::prelude::*;

verus! {

/// One raster from the engine: rows of `pitch` bytes each.
pub struct VideoFrame {
    pub frame_buffer: Vec<u8>,
    pub pitch: u32,
}

impl View for VideoFrame {
    type V = (Seq<u8>, u32);

    open spec fn view(&self) -> (Seq<u8>, u32) {
        (self.frame_buffer@, self.pitch)
    }
}

impl VideoFrame {
    /// Number of bytes in a raster of `height` rows of `pitch` bytes, or
    /// `None` when that does not fit in `usize`.
    pub fn byte_len(pitch: usize, height: u32) -> (r: Option<usize>)
        ensures
            r == (if pitch * height <= usize::MAX {
                Some((pitch * height) as usize)
            } else {
                None
            }),
    {
        pitch.checked_mul(height as usize)
    }
}

/// What the relay holds after `f` is published to it: `f`, unless its buffer
/// is empty, which leaves the relay as it was.
pub open spec fn relay_after_publish(held: Option<(Seq<u8>, u32)>, f: (Seq<u8>, u32)) -> Option<(Seq<u8>, u32)> {
    if f.0.len() == 0 {
        held
    } else {
        Some(f)
    }
}

/// What the relay holds after each frame of `frames` is published in turn.
pub open spec fn relay_after_publishes(
    held: Option<(Seq<u8>, u32)>,
    frames: Seq<(Seq<u8>, u32)>,
) -> Option<(Seq<u8>, u32)>
    decreases frames.len(),
{
    if frames.len() == 0 {
        held
    } else {
        relay_after_publish(relay_after_publishes(held, frames.drop_last()), frames.last())
    }
}

/// Hand-off of the newest frame from the engine's video callback to the
/// pacer. It holds at most one frame: a newer frame replaces an unread one.
pub struct VideoFrameRelay {
    held: Option<VideoFrame>,
}

impl View for VideoFrameRelay {
    type V = Option<(Seq<u8>, u32)>;

    closed spec fn view(&self) -> Option<(Seq<u8>, u32)> {
        match self.held {
            Some(f) => Some(f@),
            None => None,
        }
    }
}

impl VideoFrameRelay {
    /// An empty relay.
    pub fn new() -> (r: VideoFrameRelay)
        ensures
            r@ == None::<(Seq<u8>, u32)>,
    {
        VideoFrameRelay { held: None }
    }

    /// Publishes a frame, replacing any unread one. An empty buffer is
    /// malformed input: it is dropped, the relay is unchanged, and `false` is
    /// returned.
    pub fn publish(&mut self, frame_buffer: Vec<u8>, pitch: u32) -> (accepted: bool)
        ensures
            accepted == (frame_buffer@.len() > 0),
            final(self)@ == relay_after_publish(old(self)@, (frame_buffer@, pitch)),
    {
        if frame_buffer.len() == 0 {
            false
        } else {
            self.held = Some(VideoFrame { frame_buffer, pitch });
            true
        }
    }

    /// Takes the held frame, leaving the relay empty; `None` when no frame
    /// was published since the last take.
    pub fn take(&mut self) -> (r: Option<VideoFrame>)
        ensures
            final(self)@ == None::<(Seq<u8>, u32)>,
            match r {
                Some(f) => old(self)@ == Some(f@),
                None => old(self)@ == None::<(Seq<u8>, u32)>,
            },
    {
        self.held.take()
    }
}

/// Latest wins: after any run of publishes of frames with non-empty buffers
/// to an empty relay, it holds nothing when the run is empty and otherwise
/// exactly the last frame of the run; no earlier frame is ever seen.
pub proof fn lemma_latest_frame_wins(frames: Seq<(Seq<u8>, u32)>)
    requires
        forall|i: int| 0 <= i < frames.len() ==> (#[trigger] frames[i]).0.len() > 0,
    ensures
        relay_after_publishes(None, frames) == (if frames.len() == 0 {
            None
        } else {
            Some(frames.last())
        }),
{
}

/// The pixel format reported by the engine; ARGB8888 until one is declared.
pub struct EmulatorPixelFormat(pub PixelFormat);

impl Default for EmulatorPixelFormat {
    fn default() -> (r: EmulatorPixelFormat)
        ensures
            r.0 == PixelFormat::ARGB8888,
    {
        EmulatorPixelFormat(PixelFormat::ARGB8888)
    }
}

/// The format in force: the declared one, else the documented fallback,
/// ARGB8888.
pub open spec fn active_format(declared: Option<PixelFormat>) -> PixelFormat {
    match declared {
        Some(f) => f,
        None => PixelFormat::ARGB8888,
    }
}

/// The pixel format of a content session: unset until the engine declares
/// one, then fixed for the rest of the session.
pub struct PixelFormatState {
    declared: Option<PixelFormat>,
}

impl View for PixelFormatState {
    type V = Option<PixelFormat>;

    closed spec fn view(&self) -> Option<PixelFormat> {
        self.declared
    }
}

impl PixelFormatState {
    /// No format declared yet.
    pub fn new() -> (r: PixelFormatState)
        ensures
            r@ == None::<PixelFormat>,
    {
        PixelFormatState { declared: None }
    }

    /// Records the engine's declaration; once a format is set, later
    /// declarations are ignored.
    pub fn declare(&mut self, f: PixelFormat)
        ensures
            final(self)@ == (if old(self)@ is None {
                Some(f)
            } else {
                old(self)@
            }),
    {
        if self.declared.is_none() {
            self.declared = Some(f);
        }
    }

    /// The format in force.
    pub fn active(&self) -> (r: PixelFormat)
        ensures
            r == active_format(self@),
    {
        match self.declared {
            Some(f) => f,
            None => EmulatorPixelFormat::default().0,
        }
    }

    /// Bytes per source pixel in the format in force: 2 or 4.
    pub fn bytes_per_pixel(&self) -> (r: u8)
        ensures
            r == bytes_per_pixel(active_format(self@)),
    {
        match self.active() {
            PixelFormat::ARGB8888 => 4,
            _ => 2,
        }
    }
}

/// Applies the declarations that arrived since the last call, in order, and
/// returns the bytes per pixel of the format then in force.
pub fn set_up_pixel_format(state: &mut PixelFormatState, received: &[PixelFormat]) -> (bpp: u8)
    ensures
        final(state)@ == (if old(state)@ is Some {
            old(state)@
        } else if received@.len() > 0 {
            Some(received@[0])
        } else {
            None
        }),
        bpp == bytes_per_pixel(active_format(final(state)@)),
{
    let mut i: usize = 0;
    while i < received.len()
        invariant
            i <= received@.len(),
            state@ == (if old(state)@ is Some {
                old(state)@
            } else if i > 0 {
                Some(received@[0])
            } else {
                None
            }),
        decreases received@.len() - i,
    {
        state.declare(received[i]);
        i = i + 1;
    }
    state.bytes_per_pixel()
}

/// Offset of pixel `x` within a source row of format `f`.
pub open spec fn pixel_offset(f: PixelFormat, x: int) -> int {
    match f {
        PixelFormat::ARGB8888 => 4 * x,
        _ => 2 * x,
    }
}

/// Offset of source row `y`.
pub open spec fn src_row_start(pitch: int, y: int) -> int {
    y * pitch
}

/// Offset of destination row `y` in an ARGB8888 buffer `width` pixels wide.
pub open spec fn dest_row_start(width: int, y: int) -> int {
    y * (4 * width)
}

/// Pixel `x` of a row that starts at `s` in the source and at `d` in the
/// destination lies wholly inside both buffers.
pub open spec fn row_fits(f: PixelFormat, src_len: int, dest_len: int, s: int, d: int, x: int) -> bool {
    &&& s + pixel_offset(f, x) + bytes_per_pixel(f) <= src_len
    &&& d + 4 * x + 4 <= dest_len
}

/// Pixel (`x`, `y`) lies wholly inside both the source and the destination.
pub open spec fn pixel_fits(
    f: PixelFormat,
    src_len: int,
    dest_len: int,
    pitch: int,
    width: int,
    y: int,
    x: int,
) -> bool {
    row_fits(f, src_len, dest_len, src_row_start(pitch, y), dest_row_start(width, y), x)
}

/// Position of byte `i` of destination pixel (`x`, `y`).
pub open spec fn dest_pos(width: int, y: int, x: int, i: int) -> int {
    dest_row_start(width, y) + 4 * x + i
}

proof fn lemma_row_starts(pitch: int, width: int, y: int)
    requires
        pitch >= 0,
        width >= 0,
        y >= 0,
    ensures
        src_row_start(pitch, y + 1) == src_row_start(pitch, y) + pitch,
        dest_row_start(width, y + 1) == dest_row_start(width, y) + 4 * width,
        src_row_start(pitch, y) >= 0,
        dest_row_start(width, y) >= 0,
{
    assert((y + 1) * pitch == y * pitch + pitch) by (nonlinear_arith);
    assert((y + 1) * (4 * width) == y * (4 * width) + 4 * width) by (nonlinear_arith);
    assert(y * pitch >= 0) by (nonlinear_arith)
        requires
            y >= 0,
            pitch >= 0,
    ;
    assert(y * (4 * width) >= 0) by (nonlinear_arith)
        requires
            y >= 0,
            width >= 0,
    ;
}

proof fn lemma_earlier_row_below(width: int, y1: int, x: int, y: int)
    requires
        0 <= y1 < y,
        0 <= x < width,
    ensures
        dest_row_start(width, y1) + 4 * x + 4 <= dest_row_start(width, y),
{
    assert(y1 * (4 * width) + 4 * x + 4 <= y * (4 * width)) by (nonlinear_arith)
        requires
            0 <= y1 < y,
            0 <= x < width,
    ;
}

/// Converts the pixels of one row, from the left, while they fit both
/// buffers; returns how many were converted.
fn render_row(
    tables: &ConversionTables,
    f: PixelFormat,
    src: &[u8],
    s_row: usize,
    dest: &mut [u8],
    d_row: usize,
    width: u32,
) -> (n: usize)
    requires
        tables.wf(),
        s_row <= src@.len(),
        d_row <= old(dest)@.len(),
    ensures
        final(dest)@.len() == old(dest)@.len(),
        n <= width,
        forall|x: int|
            0 <= x < width ==> (x < n <==> #[trigger] row_fits(
                f,
                src@.len() as int,
                old(dest)@.len() as int,
                s_row as int,
                d_row as int,
                x,
            )),
        forall|x: int|
            0 <= x < n ==> #[trigger] final(dest)@.subrange(d_row + 4 * x, d_row + 4 * x + 4)
                == pixel_bytes(f, src@, s_row + pixel_offset(f, x)),
        forall|k: int|
            0 <= k < old(dest)@.len() && (k < d_row || k >= d_row + 4 * n) ==> #[trigger] final(dest)@[k] == old(dest)@[k],
{
    let bpp: usize = match f {
        PixelFormat::ARGB8888 => 4,
        _ => 2,
    };
    let ghost src_len = src@.len() as int;
    let ghost dest_len = dest@.len() as int;
    let mut x: usize = 0;
    let mut s: usize = s_row;
    let mut d: usize = d_row;
    while x < width as usize
        invariant
            tables.wf(),
            bpp == bytes_per_pixel(f),
            src_len == src@.len(),
            dest@.len() == dest_len,
            dest_len == old(dest)@.len(),
            x <= width,
            s == s_row + pixel_offset(f, x as int),
            d == d_row + 4 * x,
            s <= src_len,
            d <= dest_len,
            forall|x1: int| 0 <= x1 < x ==> #[trigger] row_fits(f, src_len, dest_len, s_row as int, d_row as int, x1),
            forall|x1: int|
                0 <= x1 < x ==> #[trigger] dest@.subrange(d_row + 4 * x1, d_row + 4 * x1 + 4)
                    == pixel_bytes(f, src@, s_row + pixel_offset(f, x1)),
            forall|k: int|
                0 <= k < dest_len && (k < d_row || k >= d) ==> #[trigger] dest@[k] == old(dest)@[k],
        decreases width - x,
    {
        if bpp > src.len() - s || 4 > dest.len() - d {
            assert forall|x1: int| x <= x1 < width implies !#[trigger] row_fits(
                f,
                src_len,
                dest_len,
                s_row as int,
                d_row as int,
                x1,
            ) by {}
            return x;
        }
        let ghost prev = dest@;
        tables.convert_pixel(f, src, s, dest, d);
        assert forall|x1: int| 0 <= x1 < x implies #[trigger] dest@.subrange(
            d_row + 4 * x1,
            d_row + 4 * x1 + 4,
        ) == pixel_bytes(f, src@, s_row + pixel_offset(f, x1)) by {
            assert(dest@.subrange(d_row + 4 * x1, d_row + 4 * x1 + 4) =~= prev.subrange(
                d_row + 4 * x1,
                d_row + 4 * x1 + 4,
            ));
        }
        s = s + bpp;
        d = d + 4;
        x = x + 1;
    }
    x
}

/// Converts a frame of format `format` into `dest`, an ARGB8888 buffer
/// `video_width` pixels wide, four bytes per pixel, least significant first.
/// A pixel that would lie past the end of either buffer is not converted, and
/// neither is the rest of its row: such a row is clipped, never read or
/// written out of bounds. Bytes outside the converted pixels keep their value.
pub fn render_frame(
    tables: &ConversionTables,
    format: PixelFormat,
    frame: &VideoFrame,
    video_height: u32,
    video_width: u32,
    dest: &mut [u8],
)
    requires
        tables.wf(),
    ensures
        final(dest)@.len() == old(dest)@.len(),
        forall|y: int, x: int|
            0 <= y < video_height && 0 <= x < video_width && #[trigger] pixel_fits(
                format,
                frame.frame_buffer@.len() as int,
                old(dest)@.len() as int,
                frame.pitch as int,
                video_width as int,
                y,
                x,
            ) ==> final(dest)@.subrange(
                dest_pos(video_width as int, y, x, 0),
                dest_pos(video_width as int, y, x, 4),
            ) == pixel_bytes(
                format,
                frame.frame_buffer@,
                src_row_start(frame.pitch as int, y) + pixel_offset(format, x),
            ),
        forall|y: int, x: int, i: int|
            0 <= y < video_height && 0 <= x < video_width && 0 <= i < 4 && !pixel_fits(
                format,
                frame.frame_buffer@.len() as int,
                old(dest)@.len() as int,
                frame.pitch as int,
                video_width as int,
                y,
                x,
            ) && dest_pos(video_width as int, y, x, i) < old(dest)@.len() ==> #[trigger] final(dest)@[dest_pos(video_width as int, y, x, i)] == old(dest)@[dest_pos(
                video_width as int,
                y,
                x,
                i,
            )],
        forall|k: int|
            dest_row_start(video_width as int, video_height as int) <= k < old(dest)@.len()
                ==> #[trigger] final(dest)@[k] == old(dest)@[k],
{
    let src = frame.frame_buffer.as_slice();
    let pitch = frame.pitch;
    let ghost src_len = src@.len() as int;
    let ghost dest_len = dest@.len() as int;
    let ghost w = video_width as int;
    let ghost p = pitch as int;
    let mut y: u32 = 0;
    let mut s_row: usize = 0;
    let mut d_row: usize = 0;
    while y < video_height
        invariant
            tables.wf(),
            src@ == frame.frame_buffer@,
            src_len == src@.len(),
            dest@.len() == dest_len,
            dest_len == old(dest)@.len(),
            w == video_width,
            p == frame.pitch,
            pitch == frame.pitch,
            y <= video_height,
            s_row == if src_row_start(p, y as int) <= src_len {
                src_row_start(p, y as int)
            } else {
                src_len
            },
            d_row == if dest_row_start(w, y as int) <= dest_len {
                dest_row_start(w, y as int)
            } else {
                dest_len
            },
            forall|y1: int, x: int|
                0 <= y1 < y && 0 <= x < w && #[trigger] pixel_fits(format, src_len, dest_len, p, w, y1, x)
                    ==> dest@.subrange(dest_pos(w, y1, x, 0), dest_pos(w, y1, x, 4)) == pixel_bytes(
                    format,
                    src@,
                    src_row_start(p, y1) + pixel_offset(format, x),
                ),
            forall|y1: int, x: int, i: int|
                0 <= y1 < y && 0 <= x < w && 0 <= i < 4 && !pixel_fits(format, src_len, dest_len, p, w, y1, x)
                    && dest_pos(w, y1, x, i) < dest_len ==> #[trigger] dest@[dest_pos(w, y1, x, i)]
                    == old(dest)@[dest_pos(w, y1, x, i)],
            forall|k: int|
                dest_row_start(w, y as int) <= k < dest_len ==> #[trigger] dest@[k] == old(dest)@[k],
        decreases video_height - y,
    {
        proof {
            lemma_row_starts(p, w, y as int);
        }
        let ghost prev = dest@;
        let n = render_row(tables, format, src, s_row, dest, d_row, video_width);
        proof {
            let yi = y as int;
            assert forall|x: int| 0 <= x < w implies #[trigger] pixel_fits(format, src_len, dest_len, p, w, yi, x)
                == row_fits(format, src_len, dest_len, s_row as int, d_row as int, x) by {}
            assert forall|y1: int, x: int|
                0 <= y1 < yi + 1 && 0 <= x < w && #[trigger] pixel_fits(format, src_len, dest_len, p, w, y1, x)
                implies dest@.subrange(dest_pos(w, y1, x, 0), dest_pos(w, y1, x, 4)) == pixel_bytes(
                format,
                src@,
                src_row_start(p, y1) + pixel_offset(format, x),
            ) by {
                if y1 < yi {
                    lemma_earlier_row_below(w, y1, x, yi);
                    assert(dest@.subrange(dest_pos(w, y1, x, 0), dest_pos(w, y1, x, 4)) =~= prev.subrange(
                        dest_pos(w, y1, x, 0),
                        dest_pos(w, y1, x, 4),
                    ));
                } else {
                    assert(row_fits(format, src_len, dest_len, s_row as int, d_row as int, x));
                }
            }
            assert forall|y1: int, x: int, i: int|
                0 <= y1 < yi + 1 && 0 <= x < w && 0 <= i < 4 && !pixel_fits(format, src_len, dest_len, p, w, y1, x)
                    && dest_pos(w, y1, x, i) < dest_len implies #[trigger] dest@[dest_pos(w, y1, x, i)]
                == old(dest)@[dest_pos(w, y1, x, i)] by {
                if y1 < yi {
                    lemma_earlier_row_below(w, y1, x, yi);
                } else {
                    assert(!row_fits(format, src_len, dest_len, s_row as int, d_row as int, x));
                }
            }
        }
        if (pitch as usize) <= src.len() - s_row {
            s_row = s_row + pitch as usize;
        } else {
            s_row = src.len();
        }
        if (video_width as u64) * 4 <= (dest.len() - d_row) as u64 {
            d_row = d_row + (video_width as usize) * 4;
        } else {
            d_row = dest.len();
        }
        y = y + 1;
    }
}

} // verus!
