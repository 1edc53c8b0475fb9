//! Shared-memory layout and the length-prefixed message framing between the
//! host and its plugin worker processes.
use vstd::prelude::*;
use crate::clips::ScheduledMidiEvent;

verus! {

/// Round `v` up to the next multiple of `a` (a power of two).
pub open spec fn spec_align(v: int, a: int) -> int {
    ((v + a - 1) / a) * a
}

/// Rounds `v` up with the mask `!(a - 1)`; for the alignment the layout uses
/// (64) this is the next multiple of `a`.
pub fn align(v: usize, a: usize) -> (r: usize)
    requires
        a > 0,
        v + a - 1 <= usize::MAX,
    ensures
        r == ((v + (a - 1)) as usize & !((a - 1) as usize)),
        a == 64 ==> r == spec_align(v as int, a as int),
{
    let x = v + (a - 1);
    let r = x & !(a - 1);
    if a == 64 {
        assert(x & !63usize == (x / 64) * 64) by (bit_vector);
    }
    r
}


pub const PROTOCOL_VERSION: u32 = 1;
pub const MAX_BLOCK_FRAMES: usize = 4096;
pub const MAX_CHANNELS: usize = 2;
pub const MAX_MIDI_EVENTS: usize = 512;
pub const SHM_MAGIC: u32 = 0xC077_DA01;

/// Bytes of the `repr(C)` shared-memory header, of one MIDI event slot, and
/// of one audio sample (`f32`), as laid out in the shared region.
pub const SHM_HEADER_BYTES: usize = 48;
pub const SHM_MIDI_EVENT_BYTES: usize = 8;
pub const SAMPLE_BYTES: usize = 4;

/// A plugin found by a scan.
#[derive(Debug, Clone)]
pub struct PluginDescriptor {
    pub uid: String,
    pub name: String,
    pub vendor: String,
    /// Path of the plugin bundle.
    pub path: String,
    pub is_instrument: bool,
    pub is_effect: bool,
    pub has_editor: bool,
}

/// A descriptor as plain values: uid, name, vendor, path, and the
/// instrument / effect / editor flags.
pub type DescriptorView = (Seq<char>, Seq<char>, Seq<char>, Seq<char>, bool, bool, bool);

impl View for PluginDescriptor {
    type V = DescriptorView;

    open spec fn view(&self) -> DescriptorView {
        (self.uid@, self.name@, self.vendor@, self.path@, self.is_instrument, self.is_effect, self.has_editor)
    }
}

/// Header at the start of the shared region (laid out `repr(C)` by the
/// processes that map it: `SHM_HEADER_BYTES` bytes).
#[derive(Debug, Clone, Copy, PartialEq, Eq, Structural)]
pub struct ShmHeader {
    pub magic: u32,
    pub version: u32,
    pub frames: u32,
    pub channels_in: u32,
    pub channels_out: u32,
    pub midi_count: u32,
    pub host_seq: u64,
    pub worker_seq: u64,
    pub flags: u32,
    pub _pad: u32,
}

/// One MIDI event slot of the shared region (`SHM_MIDI_EVENT_BYTES` bytes).
#[derive(Debug, Clone, Copy, PartialEq, Eq, Structural)]
pub struct ShmMidiEvent {
    pub sample_offset: u32,
    pub status: u8,
    pub data1: u8,
    pub data2: u8,
    pub _pad: u8,
}

/// Byte offsets of the parts of the shared region.
#[derive(Debug, Clone, Copy, PartialEq, Eq, Structural)]
pub struct ShmLayout {
    pub header_offset: usize,
    pub midi_offset: usize,
    pub audio_in_offset: usize,
    pub audio_out_offset: usize,
    pub total_size: usize,
}

/// The layout: the header first, then the MIDI slots, the input audio and
/// the output audio, each starting on a 64-byte boundary.
pub open spec fn shm_layout() -> ShmLayout {
    let midi = (MAX_MIDI_EVENTS * SHM_MIDI_EVENT_BYTES) as int;
    let audio = (MAX_CHANNELS * MAX_BLOCK_FRAMES * SAMPLE_BYTES) as int;
    let midi_offset = spec_align(SHM_HEADER_BYTES as int, 64);
    let audio_in_offset = spec_align(midi_offset + midi, 64);
    let audio_out_offset = spec_align(audio_in_offset + audio, 64);
    let total_size = spec_align(audio_out_offset + audio, 64);
    ShmLayout {
        header_offset: 0,
        midi_offset: midi_offset as usize,
        audio_in_offset: audio_in_offset as usize,
        audio_out_offset: audio_out_offset as usize,
        total_size: total_size as usize,
    }
}

impl ShmLayout {
    pub fn new() -> (l: ShmLayout)
        ensures
            l == shm_layout(),
            l == (ShmLayout { header_offset: 0, midi_offset: 64, audio_in_offset: 4160, audio_out_offset: 36928,
                total_size: 69696 }),
    {
        let header: usize = SHM_HEADER_BYTES;
        let midi: usize = MAX_MIDI_EVENTS * SHM_MIDI_EVENT_BYTES;
        let audio: usize = MAX_CHANNELS * MAX_BLOCK_FRAMES * SAMPLE_BYTES;
        let header_offset: usize = 0;
        let midi_offset: usize = align(header, 64);
        let audio_in_offset: usize = align(midi_offset + midi, 64);
        let audio_out_offset: usize = align(audio_in_offset + audio, 64);
        let total_size: usize = align(audio_out_offset + audio, 64);
        ShmLayout { header_offset, midi_offset, audio_in_offset, audio_out_offset, total_size }
    }

    pub fn default() -> (l: ShmLayout)
        ensures
            l == shm_layout(),
    {
        ShmLayout::new()
    }
}

/// The four little-endian bytes of `n`.
pub open spec fn le_bytes(n: u32) -> Seq<u8> {
    seq![(n & 0xff) as u8, ((n >> 8u32) & 0xff) as u8, ((n >> 16u32) & 0xff) as u8, ((n >> 24u32) & 0xff) as u8]
}

/// The `u32` whose little-endian bytes are `b0..b3`.
pub open spec fn le_value(b0: u8, b1: u8, b2: u8, b3: u8) -> u32 {
    (b0 as u32) | ((b1 as u32) << 8u32) | ((b2 as u32) << 16u32) | ((b3 as u32) << 24u32)
}

pub proof fn lemma_le_roundtrip(n: u32)
    ensures
        le_value(le_bytes(n)[0], le_bytes(n)[1], le_bytes(n)[2], le_bytes(n)[3]) == n,
{
    let b0 = (n & 0xff) as u8;
    let b1 = ((n >> 8u32) & 0xff) as u8;
    let b2 = ((n >> 16u32) & 0xff) as u8;
    let b3 = ((n >> 24u32) & 0xff) as u8;
    assert((b0 as u32) | ((b1 as u32) << 8u32) | ((b2 as u32) << 16u32) | ((b3 as u32) << 24u32) == n) by (bit_vector)
        requires
            b0 == (n & 0xff) as u8,
            b1 == ((n >> 8u32) & 0xff) as u8,
            b2 == ((n >> 16u32) & 0xff) as u8,
            b3 == ((n >> 24u32) & 0xff) as u8,
    ;
}

/// A message frame: the payload length as four little-endian bytes, then
/// the payload (a length past `u32::MAX` wraps, as the cast does).
pub open spec fn framed(payload: Seq<u8>) -> Seq<u8> {
    le_bytes(payload.len() as u32) + payload
}

/// The payload length of the frame at the start of `buffer`, once the
/// whole frame has arrived.
pub open spec fn complete_payload_len(buffer: Seq<u8>) -> Option<nat> {
    if buffer.len() < 4 {
        None
    } else {
        let len = le_value(buffer[0], buffer[1], buffer[2], buffer[3]) as nat;
        if buffer.len() < 4 + len {
            None
        } else {
            Some(len)
        }
    }
}

/// Frame `payload` for the socket: its length as a little-endian `u32`,
/// then the payload.
pub fn frame_message(payload: &Vec<u8>) -> (out: Vec<u8>)
    ensures
        out@ == framed(payload@),
{
    let n: u32 = payload.len() as u32;
    let mut out: Vec<u8> = Vec::new();
    out.push((n & 0xff) as u8);
    out.push(((n >> 8u32) & 0xff) as u8);
    out.push(((n >> 16u32) & 0xff) as u8);
    out.push(((n >> 24u32) & 0xff) as u8);
    let mut i: usize = 0;
    while i < payload.len()
        invariant
            i <= payload@.len(),
            out@ == le_bytes(n) + payload@.take(i as int),
        decreases payload@.len() - i,
    {
        out.push(payload[i]);
        proof {
            assert(out@ =~= le_bytes(n) + payload@.take(i as int + 1));
        }
        i = i + 1;
    }
    proof {
        assert(payload@.take(payload@.len() as int) =~= payload@);
    }
    out
}

/// The payload length of the first frame of `buffer`, when all of it has
/// arrived.
pub fn complete_frame(buffer: &Vec<u8>) -> (r: Option<usize>)
    ensures
        match complete_payload_len(buffer@) {
            Some(n) => r == Some(n as usize),
            None => r is None,
        },
{
    if buffer.len() < 4 {
        return None;
    }
    let len: u32 = (buffer[0] as u32) | ((buffer[1] as u32) << 8u32) | ((buffer[2] as u32) << 16u32)
        | ((buffer[3] as u32) << 24u32);
    let len: usize = len as usize;
    if buffer.len() - 4 < len {
        None
    } else {
        Some(len)
    }
}

/// Drop the first `n` bytes (a frame that was read).
pub fn drop_front(buffer: &mut Vec<u8>, n: usize)
    requires
        n <= old(buffer)@.len(),
    ensures
        final(buffer)@ == old(buffer)@.skip(n as int),
{
    let mut rest: Vec<u8> = Vec::new();
    let mut i: usize = n;
    while i < buffer.len()
        invariant
            n <= i <= buffer@.len(),
            rest@ == buffer@.subrange(n as int, i as int),
        decreases buffer@.len() - i,
    {
        rest.push(buffer[i]);
        proof {
            assert(rest@ =~= buffer@.subrange(n as int, i as int + 1));
        }
        i = i + 1;
    }
    proof {
        assert(rest@ =~= buffer@.skip(n as int));
    }
    *buffer = rest;
}

/// A frame read back from the front of a buffer is the payload that was
/// framed, whatever follows it.
pub proof fn law_frame_roundtrip(payload: Seq<u8>, rest: Seq<u8>)
    requires
        payload.len() <= u32::MAX,
    ensures
        complete_payload_len(framed(payload) + rest) == Some(payload.len()),
        (framed(payload) + rest).subrange(4, 4 + payload.len() as int) == payload,
        (framed(payload) + rest).skip(4 + payload.len() as int) == rest,
{
    let b = framed(payload) + rest;
    lemma_le_roundtrip(payload.len() as u32);
    assert(b[0] == le_bytes(payload.len() as u32)[0]);
    assert(b[1] == le_bytes(payload.len() as u32)[1]);
    assert(b[2] == le_bytes(payload.len() as u32)[2]);
    assert(b[3] == le_bytes(payload.len() as u32)[3]);
    assert(b.subrange(4, 4 + payload.len() as int) =~= payload);
    assert(b.skip(4 + payload.len() as int) =~= rest);
}

/// A buffer holding less than a whole frame yields nothing yet.
pub proof fn law_partial_frame_waits(payload: Seq<u8>, k: int)
    requires
        payload.len() <= u32::MAX,
        0 <= k < framed(payload).len(),
    ensures
        complete_payload_len(framed(payload).take(k)) is None,
{
    let b = framed(payload).take(k);
    if k >= 4 {
        lemma_le_roundtrip(payload.len() as u32);
        assert(b[0] == le_bytes(payload.len() as u32)[0]);
        assert(b[1] == le_bytes(payload.len() as u32)[1]);
        assert(b[2] == le_bytes(payload.len() as u32)[2]);
        assert(b[3] == le_bytes(payload.len() as u32)[3]);
    }
}

/// The lowercase hex digit of `d` (below 16).
pub open spec fn hex_digit(d: int) -> char {
    if d < 10 { (48 + d) as char } else { (87 + d) as char }
}

/// The 32 lowercase hex digits of `id`, most significant first (the
/// "simple" form of a UUID).
pub open spec fn hex32(id: u128) -> Seq<char> {
    Seq::new(32, |i: int| hex_digit(((id as int) / vstd::arithmetic::power2::pow2((4 * (31 - i)) as nat) as int) % 16))
}

/// Name of the shared-memory region of a plugin instance.
pub fn shm_name_for(instance: u128) -> (s: String)
    ensures
        s@ == "/cott-daw-"@ + hex32(instance),
{
    let mut s = crate::text::owned("/cott-daw-");
    let ghost prefix = s@;
    let mut i: usize = 0;
    while i < 32
        invariant
            i <= 32,
            s@ == prefix + hex32(instance).take(i as int),
        decreases 32 - i,
    {
        let shift: u32 = (4 * (31 - i)) as u32;
        let d: u32 = ((instance >> shift) & 0xf) as u32;
        proof {
            let sh = (4 * (31 - i)) as u32;
            assert(instance >> sh == (instance as int) / vstd::arithmetic::power2::pow2(sh as nat) as int) by {
                vstd::bits::lemma_u128_shr_is_div(instance, sh as u128);
            }
            assert((instance >> sh) & 0xf == (instance >> sh) % 16) by (bit_vector);
        }
        let c = if d < 10 { ((48 + d) as u8) as char } else { ((87 + d) as u8) as char };
        crate::text::push_char(&mut s, c);
        proof {
            assert(s@ =~= prefix + hex32(instance).take(i as int + 1));
        }
        i = i + 1;
    }
    proof {
        assert(hex32(instance).take(32) =~= hex32(instance));
    }
    s
}
/// Bits of `ShmHeader::flags`.
pub const SHM_REQUEST_PROCESS: u32 = 0b0001;
pub const SHM_PROCESS_DONE: u32 = 0b0010;
pub const SHM_WORKER_FAILED: u32 = 0b0100;
pub const SHM_BYPASS: u32 = 0b1000;

/// Frames processed for a block of `block_len` into an output of
/// `output_frames`: no more than either, nor than the shared area holds.
pub open spec fn request_frames(block_len: u32, output_frames: usize) -> usize {
    let a: int = if (block_len as int) < (output_frames as int) { block_len as int } else { output_frames as int };
    (if a < MAX_BLOCK_FRAMES as int { a } else { MAX_BLOCK_FRAMES as int }) as usize
}

/// Fill in the header for a process request: the frame count, stereo in and
/// out, the number of MIDI events (at most `MAX_MIDI_EVENTS`), the next
/// request sequence number (wrapping) and the request flag. Returns the
/// frame count and the sequence number the completion must carry.
pub fn prepare_process_request(header: &mut ShmHeader, block_len: u32, output_frames: usize, midi_len: usize)
    -> (r: (usize, u64))
    ensures
        r.0 == request_frames(block_len, output_frames),
        r.1 == final(header).host_seq,
        *final(header) == (ShmHeader {
            frames: r.0 as u32,
            channels_in: 2,
            channels_out: 2,
            midi_count: (if midi_len < MAX_MIDI_EVENTS { midi_len } else { MAX_MIDI_EVENTS }) as u32,
            host_seq: old(header).host_seq.wrapping_add(1),
            flags: SHM_REQUEST_PROCESS,
            ..*old(header)
        }),
{
    let a: usize = if (block_len as usize) < output_frames { block_len as usize } else { output_frames };
    let frames: usize = if a < MAX_BLOCK_FRAMES { a } else { MAX_BLOCK_FRAMES };
    header.frames = frames as u32;
    header.channels_in = 2;
    header.channels_out = 2;
    header.midi_count = (if midi_len < MAX_MIDI_EVENTS { midi_len } else { MAX_MIDI_EVENTS }) as u32;
    header.host_seq = header.host_seq.wrapping_add(1);
    header.flags = SHM_REQUEST_PROCESS;
    (frames, header.host_seq)
}

/// A MIDI event in its shared-memory slot.
pub open spec fn shm_event(ev: ScheduledMidiEvent) -> ShmMidiEvent {
    ShmMidiEvent { sample_offset: ev.sample_offset, status: ev.status, data1: ev.data1, data2: ev.data2, _pad: 0 }
}

/// The MIDI slots written for a block: the first `MAX_MIDI_EVENTS` events.
pub fn shm_midi_slots(midi: &Vec<ScheduledMidiEvent>) -> (r: Vec<ShmMidiEvent>)
    ensures
        r@ == midi@.take(if midi@.len() < MAX_MIDI_EVENTS { midi@.len() as int } else { MAX_MIDI_EVENTS as int })
            .map_values(|ev: ScheduledMidiEvent| shm_event(ev)),
{
    let n: usize = if midi.len() < MAX_MIDI_EVENTS { midi.len() } else { MAX_MIDI_EVENTS };
    let mut r: Vec<ShmMidiEvent> = Vec::new();
    let mut i: usize = 0;
    while i < n
        invariant
            i <= n,
            n <= midi.len(),
            r@ == midi@.take(i as int).map_values(|ev: ScheduledMidiEvent| shm_event(ev)),
        decreases n - i,
    {
        let ev = midi[i];
        r.push(ShmMidiEvent { sample_offset: ev.sample_offset, status: ev.status, data1: ev.data1, data2: ev.data2, _pad: 0 });
        proof {
            assert(r@ =~= midi@.take(i as int + 1).map_values(|ev: ScheduledMidiEvent| shm_event(ev)));
        }
        i = i + 1;
    }
    r
}

/// The worker has finished the request with sequence number `expected`:
/// the header carries that sequence and the done flag.
pub fn completion_accepted(header: &ShmHeader, expected: u64) -> (r: bool)
    ensures
        r == (header.worker_seq == expected && header.flags & SHM_PROCESS_DONE != 0),
{
    header.worker_seq == expected && header.flags & SHM_PROCESS_DONE != 0
}

} // verus!
