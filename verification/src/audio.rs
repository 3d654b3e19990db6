//! AC'97 audio: the mixer's volume encoding, the integer sine generator, the
//! playback planning over the DMA buffer pool, and the device state that
//! backs the audio syscalls. Port and DMA access happen at the hardware edge,
//! which writes the register values computed here.

use vstd::prelude::*;

verus! {

/// Number of DMA buffers in the buffer-descriptor list.
pub const NUM_BUFFERS: usize = 8;
/// Bytes per DMA buffer.
pub const FRAME_BYTES: usize = 4096;
/// 16-bit samples (words) per DMA buffer.
pub const WORDS_PER_BUF: usize = 2048;
/// Output sample rate in Hz.
pub const SAMPLE_RATE: u32 = 48_000;
/// Mixer register offset of the master volume.
pub const NAM_MASTER_VOL: u16 = 0x02;
/// Bus-master status register offset of the PCM-out box.
pub const PO_SR: u16 = 0x16;
/// "DMA controller halted" status bit.
pub const SR_DCH: u16 = 0x01;

/// The per-channel attenuation for a volume percentage (0 = loudest, 0x3F =
/// quietest).
pub open spec fn attenuation(pct: u32) -> int {
    let p = if pct > 100 { 100 } else { pct as int };
    (100 - p) * 0x3F / 100
}

/// The AC'97 stereo master-volume register value: bit 15 mutes; otherwise
/// both channel bytes hold the attenuation.
pub open spec fn vol_encode_spec(pct: u32, muted: bool) -> u16 {
    if muted || pct == 0 { 0x8000 } else { (attenuation(pct) * 256 + attenuation(pct)) as u16 }
}

/// Encode a 0..=100 volume percentage into an AC'97 stereo attenuation value.
pub fn vol_encode(pct: u32, muted: bool) -> (v: u16)
    ensures
        v == vol_encode_spec(pct, muted),
{
    if muted || pct == 0 {
        return 0x8000;
    }
    let p = if pct > 100 { 100 } else { pct };
    let att = ((100 - p) * 0x3F / 100) as u16;
    assert(att <= 63);
    assert((att << 8) | att == att * 256 + att) by (bit_vector)
        requires att <= 63;
    (att << 8) | att
}

/// Integer sine over one period of `phase & 0xFFFF`: a parabola per
/// half-period, sign by bit 15, scaled by 1/4 (truncating toward zero).
pub open spec fn sine_spec(phase: u32) -> int {
    let x = (phase & 0xFFFF) as int;
    let a = x - 32768;
    let sq = (a * a) / 32768;
    let tri = 32768 - sq;
    let v = if (phase & 0x8000) != 0 { -tri } else { tri };
    if v >= 0 { v / 4 } else { -((-v) / 4) }
}

/// Integer sine: input phase 0..=0xFFFF maps one period; output within
/// -8192..=8192.
pub fn sine_fx(phase: u32) -> (s: i16)
    ensures
        s == sine_spec(phase),
        -8192 <= s <= 8192,
{
    let x = (phase & 0xFFFF) as i64;
    assert((phase & 0xFFFF) <= 0xFFFF) by (bit_vector);
    let a = x - 32768;
    assert(0 <= a * a <= 32768 * 32768) by (nonlinear_arith)
        requires -32768 <= a <= 32767;
    let sq = (a * a) / 32768;
    let tri = 32768 - sq;
    let v = if (phase & 0x8000) != 0 { -tri } else { tri };
    let q = if v >= 0 { v / 4 } else { -((-v) / 4) };
    q as i16
}

/// How the sample frames of a tone fill the DMA buffers: the number of
/// frames in each used buffer (full buffers, then a final partial one).
pub open spec fn tone_frames(ms: u32) -> int {
    (SAMPLE_RATE as int * ms as int) / 1000
}

/// The per-buffer frame counts of a tone lasting `ms` milliseconds: up to
/// eight buffers of 1024 stereo frames, the last possibly partial; at least
/// one buffer is always programmed.
pub fn tone_plan(ms: u32) -> (counts: Vec<usize>)
    ensures
        1 <= counts@.len() <= NUM_BUFFERS,
        forall|i: int| 0 <= i < counts@.len() ==> #[trigger] counts@[i] as int == if tone_frames(ms) - 1024 * i >= 1024 {
            1024
        } else if tone_frames(ms) - 1024 * i > 0 {
            tone_frames(ms) - 1024 * i
        } else {
            0
        },
        tone_frames(ms) > 0 ==> counts@.len() == if tone_frames(ms) >= 1024 * NUM_BUFFERS { NUM_BUFFERS as int } else {
            (tone_frames(ms) + 1023) / 1024
        },
{
    let total: u64 = SAMPLE_RATE as u64 * ms as u64 / 1000;
    let frames_per_buf: u64 = 1024;
    let mut remaining = total;
    let mut counts: Vec<usize> = Vec::new();
    let mut i: usize = 0;
    while i < NUM_BUFFERS && remaining > 0
        invariant
            i <= NUM_BUFFERS,
            counts@.len() == i,
            total == tone_frames(ms),
            frames_per_buf == 1024,
            remaining == if total - 1024 * i > 0 { total - 1024 * i } else { 0 },
            i > 0 ==> total - 1024 * (i - 1) > 0,
            forall|j: int| 0 <= j < i ==> #[trigger] counts@[j] as int == if tone_frames(ms) - 1024 * j >= 1024 {
                1024
            } else if tone_frames(ms) - 1024 * j > 0 {
                tone_frames(ms) - 1024 * j
            } else {
                0
            },
        decreases NUM_BUFFERS - i,
    {
        let cnt = if frames_per_buf < remaining { frames_per_buf } else { remaining };
        counts.push(cnt as usize);
        remaining = remaining - cnt;
        i = i + 1;
    }
    proof {
        if total > 0 {
            let t = total as int;
            let n = i as int;
            if remaining == 0 {
                assert(n > 0);
                assert((t + 1023) / 1024 == n) by (nonlinear_arith)
                    requires t - 1024 * n <= 0, t - 1024 * (n - 1) > 0;
                if t >= 1024 * 8 {
                    assert(n == 8);
                }
            } else {
                assert(n == 8);
            }
        }
    }
    if counts.len() == 0 {
        counts.push(0);
    }
    counts
}

/// The phase increment per frame for `freq` Hz: `freq * 65536 / 48000`,
/// truncated to 32 bits.
pub open spec fn tone_step(freq: u32) -> u32 {
    ((freq as int * 65536 / SAMPLE_RATE as int) % 0x1_0000_0000) as u32
}

/// The phase of frame `n` (32-bit wrapping accumulator).
pub open spec fn tone_phase(phase0: u32, freq: u32, n: int) -> u32 {
    ((phase0 as int + n * tone_step(freq) as int) % 0x1_0000_0000) as u32
}

/// The generated stereo samples of a tone: `count` frames of the integer
/// sine at `freq` Hz starting at `phase0`, each frame written to the left and
/// right channel, and the phase to continue from.
pub fn tone_samples(count: usize, freq: u32, phase0: u32) -> (r: (Vec<i16>, u32))
    requires
        count <= 1024,
    ensures
        r.0@.len() == 2 * count,
        forall|n: int| 0 <= n < count ==> r.0@[2 * n] == sine_spec(#[trigger] tone_phase(phase0, freq, n))
            && r.0@[2 * n + 1] == sine_spec(tone_phase(phase0, freq, n)),
        r.1 == tone_phase(phase0, freq, count as int),
{
    let f = freq as u64;
    assert(f << 16 == f * 65536) by (bit_vector)
        requires f < 0x1_0000_0000;
    let q: u64 = (f << 16) / SAMPLE_RATE as u64;
    let step = q as u32;
    assert(q as u32 == q % 0x1_0000_0000) by (bit_vector);
    assert(step == tone_step(freq));
    let mut phase = phase0;
    let mut out: Vec<i16> = Vec::new();
    let mut n: usize = 0;
    while n < count
        invariant
            n <= count <= 1024,
            out@.len() == 2 * n,
            step == tone_step(freq),
            phase == tone_phase(phase0, freq, n as int),
            forall|k: int| 0 <= k < n ==> out@[2 * k] == sine_spec(#[trigger] tone_phase(phase0, freq, k))
                && out@[2 * k + 1] == sine_spec(tone_phase(phase0, freq, k)),
        decreases count - n,
    {
        let s = sine_fx(phase);
        out.push(s);
        out.push(s);
        proof {
            vstd::arithmetic::div_mod::lemma_add_mod_noop(phase0 as int + n * step as int, step as int, 0x1_0000_0000);
            vstd::arithmetic::div_mod::lemma_mod_twice(step as int, 0x1_0000_0000);
            assert(phase0 as int + (n + 1) * step as int == phase0 as int + n * step as int + step as int) by (nonlinear_arith);
        }
        phase = phase.wrapping_add(step);
        n = n + 1;
    }
    (out, phase)
}

/// An initialized AC'97 controller.
pub struct Ac97 {
    /// Native Audio Mixer I/O base.
    pub nam: u16,
    /// Native Audio Bus Master I/O base.
    pub nabm: u16,
    /// Master volume, 0..=100.
    pub volume: u32,
    pub muted: bool,
    /// NAM reset-register readback (capabilities).
    pub reset_caps: u16,
    /// Whether the mixer write/readback check succeeded.
    pub mixer_ok: bool,
}

/// The volume a freshly brought-up card plays at, in percent.
pub const DEFAULT_VOLUME: u32 = 80;

/// The attenuation written to the master-volume register and read back to
/// check that the mixer answers.
pub const MIXER_PROBE: u16 = 0x0808;

/// A PCI function is an AC'97 controller: a multimedia audio device, or
/// the Intel 82801AA that QEMU models.
pub open spec fn is_ac97_spec(d: crate::pci::PciDevice) -> bool {
    (d.class == 0x04 && d.subclass == 0x01) || (d.vendor_id == 0x8086 && d.device_id == 0x2415)
}

/// Whether a PCI function is an AC'97 controller (see [`is_ac97_spec`]).
pub fn is_ac97(d: &crate::pci::PciDevice) -> (b: bool)
    ensures
        b == is_ac97_spec(*d),
{
    (d.class == 0x04 && d.subclass == 0x01) || (d.vendor_id == 0x8086 && d.device_id == 0x2415)
}

/// The first AC'97 controller among the PCI functions found on the bus.
pub fn find_ac97(devs: &Vec<crate::pci::PciDevice>) -> (r: Option<usize>)
    ensures
        r matches Some(i) ==> i < devs@.len() && is_ac97_spec(devs@[i as int])
            && forall|j: int| 0 <= j < i ==> !is_ac97_spec(#[trigger] devs@[j]),
        r is None ==> forall|j: int| 0 <= j < devs@.len() ==> !is_ac97_spec(#[trigger] devs@[j]),
{
    let mut i: usize = 0;
    while i < devs.len()
        invariant
            i <= devs@.len(),
            forall|j: int| 0 <= j < i ==> !is_ac97_spec(#[trigger] devs@[j]),
        decreases devs@.len() - i,
    {
        if is_ac97(&devs[i]) {
            return Some(i);
        }
        i = i + 1;
    }
    None
}

/// The controller state after bring-up, from its two I/O bases, the codec
/// reset readback and the master-volume readback of [`MIXER_PROBE`]: none
/// when either base is missing (0); else at [`DEFAULT_VOLUME`], unmuted, with
/// the mixer check passed exactly when the probe read back unchanged.
pub fn bring_up(nam: u16, nabm: u16, reset_caps: u16, readback: u16) -> (r: Option<Ac97>)
    ensures
        (nam == 0 || nabm == 0) <==> r is None,
        r matches Some(a) ==> a.nam == nam && a.nabm == nabm && a.volume == DEFAULT_VOLUME && !a.muted
            && a.reset_caps == reset_caps && a.mixer_ok == (readback == MIXER_PROBE),
{
    if nam == 0 || nabm == 0 {
        return None;
    }
    Some(Ac97 { nam, nabm, volume: DEFAULT_VOLUME, muted: false, reset_caps, mixer_ok: readback == MIXER_PROBE })
}

/// The audio subsystem: the sound card, when one was brought up.
pub struct AudioState {
    pub device: Option<Ac97>,
}

impl AudioState {
    /// No sound card yet.
    pub fn new() -> (s: AudioState)
        ensures
            s.device is None,
    {
        AudioState { device: None }
    }
}

/// Is a sound card present and initialized?
pub fn is_present(st: &AudioState) -> (p: bool)
    ensures
        p == st.device is Some,
{
    st.device.is_some()
}

/// Was the mixer write/readback check successful?
pub fn mixer_ok(st: &AudioState) -> (ok: bool)
    ensures
        ok == (st.device is Some && st.device->0.mixer_ok),
{
    match &st.device {
        Some(d) => d.mixer_ok,
        None => false,
    }
}

/// Current master volume percentage (0 without a device).
pub fn volume(st: &AudioState) -> (v: u32)
    ensures
        v == (if st.device is Some { st.device->0.volume } else { 0 }),
{
    match &st.device {
        Some(d) => d.volume,
        None => 0,
    }
}

/// Is output currently muted (false without a device)?
pub fn is_muted(st: &AudioState) -> (m: bool)
    ensures
        m == (st.device is Some && st.device->0.muted),
{
    match &st.device {
        Some(d) => d.muted,
        None => false,
    }
}

/// NAM reset-register capabilities readback (0 without a device).
pub fn caps(st: &AudioState) -> (c: u16)
    ensures
        c == (if st.device is Some { st.device->0.reset_caps } else { 0 }),
{
    match &st.device {
        Some(d) => d.reset_caps,
        None => 0,
    }
}

/// Set the master output volume (clamped to 100). A non-zero volume
/// un-mutes. Returns false without a device. The hardware edge then writes
/// [`master_register`] to the mixer.
pub fn set_volume(st: &mut AudioState, pct: u32) -> (ok: bool)
    ensures
        ok == old(st).device is Some,
        !ok ==> final(st).device is None,
        ok ==> final(st).device is Some && ({
            let (o, n) = (old(st).device->0, final(st).device->0);
            &&& n.volume == (if pct > 100 { 100 } else { pct })
            &&& n.muted == (if n.volume > 0 { false } else { o.muted })
            &&& n.nam == o.nam && n.nabm == o.nabm && n.reset_caps == o.reset_caps && n.mixer_ok == o.mixer_ok
        }),
{
    match &mut st.device {
        Some(d) => {
            d.volume = if pct > 100 { 100 } else { pct };
            if d.volume > 0 {
                d.muted = false;
            }
            true
        },
        None => false,
    }
}

/// Toggle mute; returns the new muted state (false without a device).
pub fn toggle_mute(st: &mut AudioState) -> (m: bool)
    ensures
        old(st).device is None ==> !m && final(st).device is None,
        old(st).device is Some ==> final(st).device is Some && m == !old(st).device->0.muted
            && final(st).device->0 == (Ac97 { muted: m, ..old(st).device->0 }),
{
    match &mut st.device {
        Some(d) => {
            d.muted = !d.muted;
            d.muted
        },
        None => false,
    }
}

/// The (port, value) the hardware edge writes to apply the current volume
/// and mute state.
pub fn master_register(st: &AudioState) -> (w: Option<(u16, u16)>)
    ensures
        st.device is None ==> w is None,
        st.device is Some ==> w == Some((st.device->0.nam.wrapping_add(NAM_MASTER_VOL),
            vol_encode_spec(st.device->0.volume, st.device->0.muted))),
{
    match &st.device {
        Some(d) => Some((d.nam.wrapping_add(NAM_MASTER_VOL), vol_encode(d.volume, d.muted))),
        None => None,
    }
}

/// Is the PCM-out DMA engine running, given the PCM-out status register
/// value the hardware edge read? (False without a device.)
pub fn is_playing(st: &AudioState, status: u16) -> (p: bool)
    ensures
        p == (st.device is Some && status & SR_DCH == 0),
{
    st.device.is_some() && status & SR_DCH == 0
}

/// Law: a non-zero volume always leaves the device un-muted, and a volume
/// above 100 reads back as 100.
pub proof fn lemma_set_volume_unmutes(pct: u32)
    ensures
        pct > 0 ==> (if pct > 100 { 100 } else { pct }) > 0,
        vol_encode_spec(pct, false) == vol_encode_spec(if pct > 100 { 100 } else { pct }, false),
{
}

} // verus!
