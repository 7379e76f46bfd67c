//! Pixel-format conversion to ARGB8888: reference formulas, the lookup tables
//! built from them once per session, and the frame conversion pass.
use vstd::prelude::*;

verus! {

/// Pixel layouts an engine may declare for its frames.
#[derive(Clone, Copy, Debug, PartialEq, Eq, Structural)]
pub enum PixelFormat {
    /// 16 bits: 1 alpha bit, 5 bits each of red, green, blue.
    ARGB1555,
    /// 32 bits: 8 bits each of alpha, red, green, blue.
    ARGB8888,
    /// 16 bits: 5 bits red, 6 bits green, 5 bits blue.
    RGB565,
}

/// Bytes that one source pixel takes in a frame of format `f`.
pub open spec fn bytes_per_pixel(f: PixelFormat) -> int {
    match f {
        PixelFormat::ARGB8888 => 4,
        _ => 2,
    }
}

/// Widens a 5-bit channel to 8 bits, rounding to the nearest level.
pub open spec fn expand5(c: int) -> int {
    (c * 527 + 23) / 64
}

/// Widens a 6-bit channel to 8 bits, rounding to the nearest level.
pub open spec fn expand6(c: int) -> int {
    (c * 259 + 33) / 64
}

/// The ARGB8888 value of the RGB565 pixel `v`: opaque, with each channel
/// widened to 8 bits.
pub open spec fn rgb565_to_argb8888(v: int) -> int {
    0xFF00_0000 + expand5(v / 2048 % 32) * 0x1_0000 + expand6(v / 32 % 64) * 0x100 + expand5(v % 32)
}

/// The ARGB8888 value of the ARGB1555 pixel `v`: the alpha bit becomes 0 or
/// 255 and each colour channel is widened to 8 bits.
pub open spec fn argb1555_to_argb8888(v: int) -> int {
    (v / 32768 % 2) * 0xFF00_0000 + expand5(v / 1024 % 32) * 0x1_0000 + expand5(v / 32 % 32) * 0x100
        + expand5(v % 32)
}

/// The four bytes of `v`, least significant first.
pub open spec fn le_bytes(v: int) -> Seq<u8> {
    seq![(v % 256) as u8, (v / 256 % 256) as u8, (v / 65536 % 256) as u8, (v / 16777216 % 256) as u8]
}

/// The 16-bit value stored little-endian at `s` in `src`.
pub open spec fn read_u16(src: Seq<u8>, s: int) -> int {
    src[s] + src[s + 1] * 256
}

/// The ARGB8888 bytes for the source pixel of format `f` that starts at `s`.
pub open spec fn pixel_bytes(f: PixelFormat, src: Seq<u8>, s: int) -> Seq<u8> {
    match f {
        PixelFormat::RGB565 => le_bytes(rgb565_to_argb8888(read_u16(src, s))),
        PixelFormat::ARGB1555 => le_bytes(argb1555_to_argb8888(read_u16(src, s))),
        PixelFormat::ARGB8888 => src.subrange(s, s + 4),
    }
}

/// Widens a 5-bit channel to 8 bits.
fn widen5(c: u32) -> (r: u32)
    requires
        c < 32,
    ensures
        r == expand5(c as int),
        r < 256,
{
    let t = c * 527 + 23;
    let r = t >> 6;
    proof {
        assert(r == t / 64) by (bit_vector)
            requires
                r == t >> 6,
        ;
    }
    r
}

/// Widens a 6-bit channel to 8 bits.
fn widen6(c: u32) -> (r: u32)
    requires
        c < 64,
    ensures
        r == expand6(c as int),
        r < 256,
{
    let t = c * 259 + 33;
    let r = t >> 6;
    proof {
        assert(r == t / 64) by (bit_vector)
            requires
                r == t >> 6,
        ;
    }
    r
}

/// Converts one RGB565 pixel by bit arithmetic.
pub fn rgb565_pixel(v: u16) -> (r: u32)
    ensures
        r == rgb565_to_argb8888(v as int),
{
    let w = v as u32;
    let r5 = (w >> 11) & 0x1F;
    let g6 = (w >> 5) & 0x3F;
    let b5 = w & 0x1F;
    proof {
        assert(r5 == w / 2048 % 32 && g6 == w / 32 % 64 && b5 == w % 32) by (bit_vector)
            requires
                r5 == (w >> 11) & 0x1F,
                g6 == (w >> 5) & 0x3F,
                b5 == w & 0x1F,
        ;
    }
    let r8 = widen5(r5);
    let g8 = widen6(g6);
    let b8 = widen5(b5);
    let r = 0xFF00_0000u32 | (r8 << 16) | (g8 << 8) | b8;
    proof {
        assert(r == 0xFF00_0000u32 + r8 * 0x1_0000 + g8 * 0x100 + b8) by (bit_vector)
            requires
                r == 0xFF00_0000u32 | (r8 << 16) | (g8 << 8) | b8,
                r8 < 256,
                g8 < 256,
                b8 < 256,
        ;
    }
    r
}

/// Converts one ARGB1555 pixel by bit arithmetic.
pub fn argb1555_pixel(v: u16) -> (r: u32)
    ensures
        r == argb1555_to_argb8888(v as int),
{
    let w = v as u32;
    let a1 = (w >> 15) & 0x01;
    let r5 = (w >> 10) & 0x1F;
    let g5 = (w >> 5) & 0x1F;
    let b5 = w & 0x1F;
    proof {
        assert(a1 == w / 32768 % 2 && r5 == w / 1024 % 32 && g5 == w / 32 % 32 && b5 == w % 32)
            by (bit_vector)
            requires
                a1 == (w >> 15) & 0x01,
                r5 == (w >> 10) & 0x1F,
                g5 == (w >> 5) & 0x1F,
                b5 == w & 0x1F,
        ;
    }
    let a8 = a1 * 255;
    let r8 = widen5(r5);
    let g8 = widen5(g5);
    let b8 = widen5(b5);
    let r = (a8 << 24) | (r8 << 16) | (g8 << 8) | b8;
    proof {
        assert(r == a8 * 0x100_0000 + r8 * 0x1_0000 + g8 * 0x100 + b8) by (bit_vector)
            requires
                r == (a8 << 24) | (r8 << 16) | (g8 << 8) | b8,
                a8 < 256,
                r8 < 256,
                g8 < 256,
                b8 < 256,
        ;
    }
    r
}

/// Lookup tables from 16-bit source pixels to ARGB8888, built once per
/// session and shared by every frame.
pub struct ConversionTables {
    rgb565: Vec<u32>,
    argb1555: Vec<u32>,
}

impl ConversionTables {
    /// The RGB565 table, indexed by the raw pixel value.
    pub closed spec fn rgb565_table(&self) -> Seq<u32> {
        self.rgb565@
    }

    /// The ARGB1555 table, indexed by the pixel value without its alpha bit.
    pub closed spec fn argb1555_table(&self) -> Seq<u32> {
        self.argb1555@
    }

    /// Each table has one entry per index, equal to the reference formula.
    pub open spec fn wf(&self) -> bool {
        &&& self.rgb565_table().len() == 65536
        &&& forall|i: int|
            0 <= i < 65536 ==> #[trigger] self.rgb565_table()[i] == rgb565_to_argb8888(i)
        &&& self.argb1555_table().len() == 32768
        &&& forall|i: int|
            0 <= i < 32768 ==> #[trigger] self.argb1555_table()[i] == argb1555_to_argb8888(i)
    }

    /// Builds both tables: 65536 RGB565 entries and 32768 ARGB1555 entries,
    /// each equal to the reference formula for its index.
    pub fn new() -> (r: ConversionTables)
        ensures
            r.wf(),
    {
        let mut rgb565: Vec<u32> = Vec::new();
        let mut i: u32 = 0;
        while i < 65536
            invariant
                i <= 65536,
                rgb565@.len() == i,
                forall|k: int| 0 <= k < i ==> #[trigger] rgb565@[k] == rgb565_to_argb8888(k),
            decreases 65536 - i,
        {
            rgb565.push(rgb565_pixel(i as u16));
            i = i + 1;
        }
        let mut argb1555: Vec<u32> = Vec::new();
        let mut j: u32 = 0;
        while j < 32768
            invariant
                j <= 32768,
                argb1555@.len() == j,
                forall|k: int| 0 <= k < j ==> #[trigger] argb1555@[k] == argb1555_to_argb8888(k),
            decreases 32768 - j,
        {
            argb1555.push(argb1555_pixel(j as u16));
            j = j + 1;
        }
        ConversionTables { rgb565, argb1555 }
    }

    /// Converts an RGB565 pixel by table lookup.
    pub fn convert_rgb565(&self, v: u16) -> (r: u32)
        requires
            self.wf(),
        ensures
            r == rgb565_to_argb8888(v as int),
    {
        self.rgb565[v as usize]
    }

    /// Converts an ARGB1555 pixel: the table gives the colour, the top bit
    /// the alpha.
    pub fn convert_argb1555(&self, v: u16) -> (r: u32)
        requires
            self.wf(),
        ensures
            r == argb1555_to_argb8888(v as int),
    {
        let low_bits = v & 0x7FFF;
        let alpha_bit = v & 0x8000;
        proof {
            assert(low_bits == v % 32768 && (alpha_bit != 0) == (v / 32768 % 2 == 1)
                && v / 1024 % 32 == low_bits / 1024 % 32 && v / 32 % 32 == low_bits / 32 % 32
                && v % 32 == low_bits % 32) by (bit_vector)
                requires
                    low_bits == v & 0x7FFF,
                    alpha_bit == v & 0x8000,
            ;
        }
        let colour = self.argb1555[low_bits as usize];
        proof {
            assert(low_bits / 32768 % 2 == 0);
            assert(colour < 0x100_0000);
        }
        if alpha_bit != 0 {
            let r = colour | 0xFF00_0000u32;
            proof {
                assert(r == colour + 0xFF00_0000u32) by (bit_vector)
                    requires
                        r == colour | 0xFF00_0000u32,
                        colour < 0x100_0000,
                ;
            }
            r
        } else {
            colour
        }
    }

    /// Writes the ARGB8888 bytes of the source pixel of format `f` at `s` to
    /// `dest` at `d`, least significant byte first; no other byte changes.
    pub fn convert_pixel(&self, f: PixelFormat, src: &[u8], s: usize, dest: &mut [u8], d: usize)
        requires
            self.wf(),
            s + bytes_per_pixel(f) <= src@.len(),
            d + 4 <= old(dest)@.len(),
        ensures
            final(dest)@.len() == old(dest)@.len(),
            final(dest)@.subrange(d as int, d + 4) == pixel_bytes(f, src@, s as int),
            forall|k: int|
                0 <= k < old(dest)@.len() && !(d <= k < d + 4) ==> #[trigger] final(dest)@[k]
                    == old(dest)@[k],
    {
        match f {
            PixelFormat::ARGB8888 => {
                dest[d] = src[s];
                dest[d + 1] = src[s + 1];
                dest[d + 2] = src[s + 2];
                dest[d + 3] = src[s + 3];
                assert(dest@.subrange(d as int, d + 4) =~= pixel_bytes(f, src@, s as int));
            },
            _ => {
                let v: u16 = src[s] as u16 + (src[s + 1] as u16) * 256;
                let argb = match f {
                    PixelFormat::RGB565 => self.convert_rgb565(v),
                    _ => self.convert_argb1555(v),
                };
                dest[d] = (argb % 256) as u8;
                dest[d + 1] = (argb / 256 % 256) as u8;
                dest[d + 2] = (argb / 65536 % 256) as u8;
                dest[d + 3] = (argb / 16777216 % 256) as u8;
                assert(dest@.subrange(d as int, d + 4) =~= pixel_bytes(f, src@, s as int));
            },
        }
    }
}

/// Colour bucket of pixel `p` of an ARGB8888 buffer (bytes blue, green, red,
/// alpha): the top four bits of red, green and blue, in that order.
pub open spec fn pixel_bucket(frame: Seq<u8>, p: int) -> int {
    (frame[4 * p + 2] / 16) * 256 + (frame[4 * p + 1] / 16) * 16 + frame[4 * p] / 16
}

/// Number of the first `n` pixels of `frame` whose bucket is `b`.
pub open spec fn bucket_count(frame: Seq<u8>, n: int, b: int) -> nat
    decreases n,
{
    if n <= 0 {
        0
    } else {
        bucket_count(frame, n - 1, b) + if pixel_bucket(frame, n - 1) == b {
            1nat
        } else {
            0nat
        }
    }
}

/// Number of buckets: 16 levels for each of red, green and blue.
pub const BUCKETS: usize = 4096;

/// The opaque ARGB8888 colour that stands for bucket `b`: each 4-bit level
/// spread over 8 bits.
pub open spec fn bucket_color(b: int) -> int {
    0xFF00_0000 + (b / 256) * 17 * 0x1_0000 + (b / 16 % 16) * 17 * 0x100 + (b % 16) * 17
}

/// Bucket `b` is the most common among the whole pixels of `frame`, and no
/// lower bucket is as common.
pub open spec fn is_dominant_bucket(frame: Seq<u8>, b: int) -> bool {
    let n = (frame.len() / 4) as int;
    &&& 0 <= b < BUCKETS
    &&& forall|b2: int| 0 <= b2 < BUCKETS ==> #[trigger] bucket_count(frame, n, b2) <= bucket_count(frame, n, b)
    &&& forall|b2: int| 0 <= b2 < b ==> #[trigger] bucket_count(frame, n, b2) < bucket_count(frame, n, b)
}

proof fn lemma_whole_pixel(len: int, p: int)
    requires
        0 <= p < len / 4,
    ensures
        4 * p + 4 <= len / 4 * 4 <= len,
{
    vstd::arithmetic::div_mod::lemma_fundamental_div_mod(len, 4);
}

proof fn lemma_bucket_count_bound(frame: Seq<u8>, n: int, b: int)
    ensures
        bucket_count(frame, n, b) <= if n > 0 {
            n
        } else {
            0
        },
    decreases n,
{
    if n > 0 {
        lemma_bucket_count_bound(frame, n - 1, b);
    }
}

/// The dominant colour of an ARGB8888 frame: the colour of its most common
/// bucket, the lowest such bucket on a tie (black for an empty frame).
pub fn dominant_color(frame: &[u8]) -> (r: u32)
    ensures
        exists|b: int| is_dominant_bucket(frame@, b) && r == bucket_color(b),
{
    let npix = frame.len() / 4;
    let mut hist: Vec<u64> = Vec::new();
    let mut b: usize = 0;
    while b < BUCKETS
        invariant
            b <= BUCKETS,
            hist@.len() == b,
            forall|k: int| 0 <= k < b ==> #[trigger] hist@[k] == 0,
        decreases BUCKETS - b,
    {
        hist.push(0);
        b = b + 1;
    }
    let mut p: usize = 0;
    while p < npix
        invariant
            npix == frame@.len() / 4,
            p <= npix,
            hist@.len() == BUCKETS,
            forall|k: int| 0 <= k < BUCKETS ==> #[trigger] hist@[k] == bucket_count(frame@, p as int, k),
        decreases npix - p,
    {
        proof {
            lemma_whole_pixel(frame@.len() as int, p as int);
            assert(4 * p + 4 <= frame.len());
        }
        let bucket = (frame[4 * p + 2] / 16) as usize * 256 + (frame[4 * p + 1] / 16) as usize * 16
            + (frame[4 * p] / 16) as usize;
        proof {
            lemma_bucket_count_bound(frame@, p as int, bucket as int);
        }
        hist[bucket] = hist[bucket] + 1;
        p = p + 1;
        assert forall|k: int| 0 <= k < BUCKETS implies #[trigger] hist@[k] == bucket_count(frame@, p as int, k) by {}
    }
    let mut best: usize = 0;
    let mut k: usize = 1;
    while k < BUCKETS
        invariant
            1 <= k <= BUCKETS,
            best < k,
            hist@.len() == BUCKETS,
            forall|j: int| 0 <= j < BUCKETS ==> #[trigger] hist@[j] == bucket_count(frame@, npix as int, j),
            forall|j: int| 0 <= j < k ==> #[trigger] hist@[j] <= hist@[best as int],
            forall|j: int| 0 <= j < best ==> #[trigger] hist@[j] < hist@[best as int],
        decreases BUCKETS - k,
    {
        if hist[k] > hist[best] {
            best = k;
        }
        k = k + 1;
    }
    let level_r = (best / 256) as u32 * 17;
    let level_g = (best / 16 % 16) as u32 * 17;
    let level_b = (best % 16) as u32 * 17;
    let r = 0xFF00_0000u32 + level_r * 0x1_0000 + level_g * 0x100 + level_b;
    proof {
        assert forall|j: int| 0 <= j < BUCKETS implies #[trigger] bucket_count(frame@, npix as int, j)
            <= bucket_count(frame@, npix as int, best as int) by {
            assert(hist@[j] <= hist@[best as int]);
        }
        assert forall|j: int| 0 <= j < best implies #[trigger] bucket_count(frame@, npix as int, j)
            < bucket_count(frame@, npix as int, best as int) by {
            assert(hist@[j] < hist@[best as int]);
        }
        assert(is_dominant_bucket(frame@, best as int));
        assert(r == bucket_color(best as int));
    }
    r
}

/// Fills every whole pixel of `dest` with the ARGB8888 colour `color`, least
/// significant byte first; trailing bytes short of a pixel keep their value.
pub fn fill_solid(dest: &mut [u8], color: u32)
    ensures
        final(dest)@.len() == old(dest)@.len(),
        forall|p: int|
            0 <= p < old(dest)@.len() / 4 ==> #[trigger] final(dest)@.subrange(4 * p, 4 * p + 4) == le_bytes(
                color as int,
            ),
        forall|k: int|
            old(dest)@.len() / 4 * 4 <= k < old(dest)@.len() ==> #[trigger] final(dest)@[k] == old(dest)@[k],
{
    let npix = dest.len() / 4;
    let b0 = (color % 256) as u8;
    let b1 = (color / 256 % 256) as u8;
    let b2 = (color / 65536 % 256) as u8;
    let b3 = (color / 16777216 % 256) as u8;
    let mut p: usize = 0;
    while p < npix
        invariant
            npix == old(dest)@.len() / 4,
            dest@.len() == old(dest)@.len(),
            p <= npix,
            seq![b0, b1, b2, b3] == le_bytes(color as int),
            forall|q: int| 0 <= q < p ==> #[trigger] dest@.subrange(4 * q, 4 * q + 4) == le_bytes(color as int),
            forall|k: int| 4 * p <= k < dest@.len() ==> #[trigger] dest@[k] == old(dest)@[k],
        decreases npix - p,
    {
        let ghost prev = dest@;
        proof {
            lemma_whole_pixel(dest@.len() as int, p as int);
            assert(4 * p + 4 <= dest.len());
        }
        let d = 4 * p;
        dest[d] = b0;
        dest[d + 1] = b1;
        dest[d + 2] = b2;
        dest[d + 3] = b3;
        assert forall|q: int| 0 <= q < p + 1 implies #[trigger] dest@.subrange(4 * q, 4 * q + 4) == le_bytes(
            color as int,
        ) by {
            if q < p {
                assert(dest@.subrange(4 * q, 4 * q + 4) =~= prev.subrange(4 * q, 4 * q + 4));
            } else {
                assert(dest@.subrange(4 * q, 4 * q + 4) =~= seq![b0, b1, b2, b3]);
            }
        }
        p = p + 1;
    }
}

} // verus!
