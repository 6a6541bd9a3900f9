use vstd::prelude::*;
use crate::text::{UNIT, VIS_THRESHOLD};

verus! {

/// One coverage sample reported by glyph rasterization: the texel it
/// covers, in buffer coordinates, and the coverage at that texel, a
/// fixed-point fraction of one (`UNIT` stands for full coverage).
#[derive(Clone, Copy, PartialEq, Eq, Structural, Debug)]
pub struct GlyphSample {
    pub x: u32,
    pub y: u32,
    pub coverage: u32,
}

/// The length, in values, of an RGBA buffer of the given size.
pub open spec fn buffer_len(width: u32, height: u32) -> int {
    width * height * 4
}

/// A fully transparent black buffer of the given size.
pub open spec fn zero_buffer(width: u32, height: u32) -> Seq<u32> {
    Seq::new(buffer_len(width, height) as nat, |i: int| 0u32)
}

/// Whether a sample writes its texel: its coverage is above the
/// visibility threshold and the texel lies inside the buffer.
pub open spec fn sample_hits(s: GlyphSample, width: u32, height: u32) -> bool {
    s.coverage > VIS_THRESHOLD && s.x < width && s.y < height
}

/// The alpha a sample writes: the text's alpha scaled by coverage.
pub open spec fn scaled_alpha(alpha: u32, coverage: u32) -> int {
    (alpha * coverage) / (UNIT as int)
}

/// The buffer after one sample: a hit overwrites its texel's four
/// channels — the text color, with alpha scaled by coverage — and a
/// miss changes nothing.
pub open spec fn write_sample(
    buf: Seq<u32>,
    s: GlyphSample,
    color: [u32; 4],
    width: u32,
    height: u32,
) -> Seq<u32> {
    if sample_hits(s, width, height) {
        let base = (s.x + s.y * width) * 4;
        buf.update(base, color[0]).update(base + 1, color[1]).update(base + 2, color[2]).update(
            base + 3,
            scaled_alpha(color[3], s.coverage) as u32,
        )
    } else {
        buf
    }
}

/// The buffer the samples leave behind, applied in order to an all
/// transparent buffer: a later sample overwrites an earlier one's
/// texel, nothing blends.
pub open spec fn rastered(
    samples: Seq<GlyphSample>,
    color: [u32; 4],
    width: u32,
    height: u32,
) -> Seq<u32>
    decreases samples.len(),
{
    if samples.len() == 0 {
        zero_buffer(width, height)
    } else {
        write_sample(
            rastered(samples.drop_last(), color, width, height),
            samples.last(),
            color,
            width,
            height,
        )
    }
}

/// An all-transparent buffer for the given size, what invisible text
/// uploads.
pub fn blank_buffer(width: u32, height: u32) -> (r: Vec<u32>)
    requires
        buffer_len(width, height) <= usize::MAX,
    ensures
        r@ == zero_buffer(width, height),
{
    let texels = (width as usize) * (height as usize);
    let n = texels * 4;
    let r = vec![0u32; n];
    proof {
        assert(r@ =~= zero_buffer(width, height));
    }
    r
}

/// Fills the pixel buffer for one laid-out text: every sample above
/// the visibility threshold that falls inside the buffer writes the
/// text color at its texel, with alpha scaled by its coverage; later
/// samples overwrite earlier ones.
#[verifier::loop_isolation(false)]
pub fn fill_buffer(width: u32, height: u32, color: [u32; 4], samples: &Vec<GlyphSample>) -> (r:
    Vec<u32>)
    requires
        buffer_len(width, height) <= usize::MAX,
        color[3] <= UNIT,
        forall|i: int| 0 <= i < samples@.len() ==> samples@[i].coverage <= UNIT,
    ensures
        r@ == rastered(samples@, color, width, height),
        r@.len() == buffer_len(width, height),
{
    let texels = (width as usize) * (height as usize);
    let n = texels * 4;
    let mut buf = vec![0u32; n];
    proof {
        assert(buf@ =~= zero_buffer(width, height));
        assert(samples@.take(0) =~= Seq::<GlyphSample>::empty());
    }
    let count = samples.len();
    let mut i: usize = 0;
    while i < count
        invariant
            0 <= i <= count,
            buf@ == rastered(samples@.take(i as int), color, width, height),
            buf@.len() == buffer_len(width, height),
        decreases count - i,
    {
        let s = samples[i];
        let ghost pre = buf@;
        if s.coverage > VIS_THRESHOLD && s.x < width && s.y < height {
            proof {
                assert(s.x + s.y * width < width * height) by (nonlinear_arith)
                    requires
                        s.x < width,
                        s.y < height,
                {}
            }
            let base = ((s.x as usize) + (s.y as usize) * (width as usize)) * 4;
            proof {
                assert(base + 3 < n);
            }
            proof {
                assert(color[3] * s.coverage <= UNIT * UNIT) by (nonlinear_arith)
                    requires
                        color[3] <= UNIT,
                        s.coverage <= UNIT,
                {}
            }
            let a = (((color[3] as u64) * (s.coverage as u64)) / (UNIT as u64)) as u32;
            proof {
                vstd::arithmetic::div_mod::lemma_div_is_ordered(
                    color[3] * s.coverage,
                    UNIT * UNIT,
                    UNIT as int,
                );
                vstd::arithmetic::div_mod::lemma_div_multiples_vanish(UNIT as int, UNIT as int);
                assert(a == scaled_alpha(color[3], s.coverage));
            }
            buf[base] = color[0];
            buf[base + 1] = color[1];
            buf[base + 2] = color[2];
            buf[base + 3] = a;
            proof {
                assert(buf@ =~= write_sample(pre, s, color, width, height));
            }
        }
        proof {
            assert(samples@.take(i + 1).drop_last() =~= samples@.take(i as int));
            assert(samples@.take(i + 1).last() == s);
            assert(buf@ == rastered(samples@.take(i + 1), color, width, height));
        }
        i += 1;
    }
    proof {
        assert(samples@.take(count as int) =~= samples@);
    }
    buf
}

} // verus!
