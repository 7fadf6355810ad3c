//! Layer compositing arithmetic.
use vstd::prelude::*;

verus! {

/// Compositing mode
#[derive(Debug, Clone, Copy)]
pub enum CompositeMode {
    /// Normal alpha blending
    Normal,
    /// Additive blending
    Add,
    /// Multiply blending
    Multiply,
    /// XOR blending for shapes
    Xor,
}

/// One blended channel: `(s * a + d * (255 - a) + 255) >> 8`.
pub open spec fn blend_channel(s: u8, d: u8, a: u8) -> u8 {
    ((s * a + d * (255 - a) + 255) / 256) as u8
}

/// The libass-compatible "source over destination" blend of two RGBA pixels.
pub open spec fn spec_alpha_blend(src: [u8; 4], dst: [u8; 4]) -> [u8; 4] {
    let a = src[3];
    if a == 0 {
        dst
    } else if a == 255 && dst[3] == 0 {
        src
    } else {
        [
            blend_channel(src[0], dst[0], a),
            blend_channel(src[1], dst[1], a),
            blend_channel(src[2], dst[2], a),
            blend_channel(255, dst[3], a),
        ]
    }
}

proof fn lemma_blend_channel_fits(s: u8, d: u8, a: u8)
    ensures
        0 <= s * a + d * (255 - a) + 255 <= 65280,
        (s * a + d * (255 - a) + 255) / 256 <= 255,
{
    assert(0 <= s * a <= 255 * a) by (nonlinear_arith)
        requires s <= 255, a >= 0;
    assert(0 <= d * (255 - a) <= 255 * (255 - a)) by (nonlinear_arith)
        requires d <= 255, a <= 255;
}

fn blend_channel_exec(s: u8, d: u8, a: u32) -> (r: u8)
    requires
        a <= 255,
    ensures
        r == blend_channel(s, d, a as u8),
{
    proof {
        lemma_blend_channel_fits(s, d, a as u8);
    }
    let inv = 255 - a;
    let sum: u32 = s as u32 * a + d as u32 * inv + 255;
    assert(sum >> 8u32 == sum / 256) by (bit_vector);
    (sum >> 8) as u8
}

/// Apply alpha blending using libass-compatible formula
///
/// Integer arithmetic with a rounding bias of 255 and a shift by 8 in place of
/// a division by 255, as libass's bitmap multiplication does.
pub fn alpha_blend(src: [u8; 4], dst: [u8; 4]) -> (out: [u8; 4])
    ensures
        out == spec_alpha_blend(src, dst),
        src[3] == 0 ==> out == dst,
        src[3] == 255 && dst[3] == 0 ==> out == src,
        src[3] != 0 && !(src[3] == 255 && dst[3] == 0) ==> {
            &&& out[0] as int == (src[0] * src[3] + dst[0] * (255 - src[3]) + 255) / 256
            &&& out[1] as int == (src[1] * src[3] + dst[1] * (255 - src[3]) + 255) / 256
            &&& out[2] as int == (src[2] * src[3] + dst[2] * (255 - src[3]) + 255) / 256
            &&& out[3] as int == (255 * src[3] + dst[3] * (255 - src[3]) + 255) / 256
        },
{
    proof {
        lemma_partial_blend_formula(src, dst);
    }
    let src_alpha = src[3] as u32;

    if src_alpha == 0 {
        return dst;
    }

    if src_alpha == 255 && dst[3] == 0 {
        return src;
    }

    let out_r = blend_channel_exec(src[0], dst[0], src_alpha);
    let out_g = blend_channel_exec(src[1], dst[1], src_alpha);
    let out_b = blend_channel_exec(src[2], dst[2], src_alpha);
    let out_alpha = blend_channel_exec(255, dst[3], src_alpha);

    let out = [out_r, out_g, out_b, out_alpha];
    assert(out =~= spec_alpha_blend(src, dst));
    out
}

/// In a partial blend (source neither fully transparent nor opaque over a
/// transparent destination), colour channel `c` of the result is
/// `(src[c] * a + dst[c] * (255 - a) + 255) / 256` with `a` the source alpha:
/// it mixes channel `c` of the source with channel `c` of the destination
/// only, and the result's alpha is `(255 * a + dst_alpha * (255 - a) + 255) / 256`.
pub proof fn lemma_partial_blend_formula(src: [u8; 4], dst: [u8; 4])
    ensures
        src[3] != 0 && !(src[3] == 255 && dst[3] == 0) ==> {
            &&& forall|c: int| 0 <= c < 3 ==> #[trigger] spec_alpha_blend(src, dst)[c] as int
                == (src[c] * src[3] + dst[c] * (255 - src[3]) + 255) / 256
            &&& spec_alpha_blend(src, dst)[3] as int == (255 * src[3] + dst[3] * (255 - src[3]) + 255) / 256
        },
{
    lemma_blend_channel_fits(src[0], dst[0], src[3]);
    lemma_blend_channel_fits(src[1], dst[1], src[3]);
    lemma_blend_channel_fits(src[2], dst[2], src[3]);
    lemma_blend_channel_fits(255, dst[3], src[3]);
}

/// Blending a fully transparent source leaves the destination unchanged.
pub proof fn lemma_transparent_source_is_identity(src: [u8; 4], dst: [u8; 4])
    requires
        src[3] == 0,
    ensures
        spec_alpha_blend(src, dst) == dst,
{
}

/// Blending a fully opaque source yields the source, whatever the destination.
pub proof fn lemma_opaque_source_replaces(src: [u8; 4], dst: [u8; 4])
    requires
        src[3] == 255,
    ensures
        spec_alpha_blend(src, dst) == src,
{
    if dst[3] != 0 {
        assert forall|s: u8, d: u8| blend_channel(s, d, 255) == s by {
            assert(d * (255 - 255) == 0) by (nonlinear_arith);
            assert((s * 255 + 255) / 256 == s) by (nonlinear_arith)
                requires s <= 255;
        }
        assert(blend_channel(255, dst[3], 255) == 255u8);
        assert(spec_alpha_blend(src, dst) =~= src);
    }
}

/// The blended alpha is never below the source alpha.
pub proof fn lemma_blend_alpha_at_least_source(src: [u8; 4], dst: [u8; 4])
    ensures
        spec_alpha_blend(src, dst)[3] >= src[3],
{
    let a = src[3];
    if a != 0 && !(a == 255 && dst[3] == 0) {
        lemma_blend_channel_fits(255, dst[3], a);
        assert((255 * a + dst[3] * (255 - a) + 255) / 256 >= a) by (nonlinear_arith)
            requires a <= 255, dst[3] >= 0, a >= 0, dst[3] * (255 - a) >= 0;
    }
}

} // verus!
