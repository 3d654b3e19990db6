//! Compute API: a small parallel-compute abstraction (CPU backend today, a
//! GPU backend once a driver lands) with the compositor's blend kernel.

use vstd::prelude::*;

verus! {

/// Which backend executed a dispatch.
#[derive(Clone, Copy, PartialEq, Eq, Debug)]
pub enum Backend {
    /// No GPU present: CPU fallback (current).
    Cpu,
    /// GPU compute (future).
    Gpu,
}

/// The active compute backend.
pub fn backend() -> (b: Backend)
    ensures
        b == Backend::Cpu,
{
    Backend::Cpu
}

/// Channel `sh` (16 = red, 8 = green, 0 = blue) of a pixel.
pub open spec fn channel(p: u32, sh: u32) -> u32 {
    (p >> sh) & 0xFF
}

/// One blended channel: `(s * a + d * (255 - a)) / 255`.
pub open spec fn mix(s: u32, d: u32, a: u32) -> u32 {
    ((s * a + d * (255 - a)) / 255) as u32
}

/// The blended pixel `src * alpha + dst * (1 - alpha)` per channel.
pub open spec fn blend_px(s: u32, d: u32, a: u8) -> u32 {
    (mix(channel(s, 16), channel(d, 16), a as u32) * 65536 + mix(channel(s, 8), channel(d, 8), a as u32) * 256
        + mix(channel(s, 0), channel(d, 0), a as u32)) as u32
}

fn mix_exec(s: u32, d: u32, sh: u32, a: u32) -> (r: u32)
    requires
        sh <= 16,
        a <= 255,
    ensures
        r == mix(channel(s, sh), channel(d, sh), a),
        r <= 255,
{
    let sc = (s >> sh) & 0xFF;
    let dc = (d >> sh) & 0xFF;
    assert(sc <= 255 && dc <= 255) by (bit_vector)
        requires sc == (s >> sh) & 0xFF, dc == (d >> sh) & 0xFF;
    assert(sc * a + dc * (255 - a) <= 255 * 255) by (nonlinear_arith)
        requires sc <= 255, dc <= 255, a <= 255;
    (sc * a + dc * (255 - a)) / 255
}

/// Blend two pixel buffers, `dst = src*alpha + dst*(1-alpha)` per channel,
/// over their common length. Returns the backend used.
pub fn blend_buffers(dst: &mut Vec<u32>, src: &[u32], alpha: u8) -> (b: Backend)
    ensures
        b == Backend::Cpu,
        final(dst)@.len() == old(dst)@.len(),
        forall|i: int| 0 <= i < old(dst)@.len() && i < src@.len() ==> #[trigger] final(dst)@[i] == blend_px(src@[i], old(dst)@[i], alpha),
        forall|i: int| src@.len() <= i < old(dst)@.len() ==> #[trigger] final(dst)@[i] == old(dst)@[i],
{
    let n = if dst.len() < src.len() { dst.len() } else { src.len() };
    let a = alpha as u32;
    let mut i: usize = 0;
    while i < n
        invariant
            n <= dst@.len(),
            n <= src@.len(),
            n == dst@.len() || n == src@.len(),
            i <= n,
            a == alpha as u32,
            dst@.len() == old(dst)@.len(),
            forall|j: int| 0 <= j < i ==> #[trigger] dst@[j] == blend_px(src@[j], old(dst)@[j], alpha),
            forall|j: int| i <= j < dst@.len() ==> #[trigger] dst@[j] == old(dst)@[j],
        decreases n - i,
    {
        let s = src[i];
        let d = dst[i];
        let r = mix_exec(s, d, 16, a);
        let g = mix_exec(s, d, 8, a);
        let bl = mix_exec(s, d, 0, a);
        assert((r << 16) | (g << 8) | bl == r * 65536 + g * 256 + bl) by (bit_vector)
            requires r <= 255, g <= 255, bl <= 255;
        dst.set(i, (r << 16) | (g << 8) | bl);
        i = i + 1;
    }
    backend()
}

} // verus!
