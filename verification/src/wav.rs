//! WAV files in the form MPC software reads:
//!
//!   fmt  (16 bytes, PCM)
//!   atem (JSON: slice/loop metadata)
//!   meta (4 bytes: zeroed)
//!   data (16-bit signed PCM samples, little-endian)

use crate::text::{decimal, push_decimal};
use vstd::prelude::*;
use vstd::string::*;
use vstd::utf8::{encode_scalar, encode_utf8};

verus! {

/// Loop metadata forwarded from the IT sample header.
pub struct LoopInfo {
    /// True if the sample has an active forward or ping-pong loop.
    pub active: bool,
    /// Loop start, in sample frames (inclusive).
    pub start: u32,
    /// Loop end, in sample frames (exclusive, as stored in the sample header).
    pub end: u32,
    /// Ping-pong (alternating) loop if true; forward if false.
    pub pingpong: bool,
}

/// Little-endian bytes of a 16-bit value.
pub open spec fn le16_bytes(v: int) -> Seq<u8> {
    seq![(v % 256) as u8, (v / 256 % 256) as u8]
}

/// Little-endian bytes of a 32-bit value.
pub open spec fn le32_bytes(v: int) -> Seq<u8> {
    seq![(v % 256) as u8, (v / 256 % 256) as u8, (v / 65536 % 256) as u8, (v / 16777216 % 256) as u8]
}

/// The samples as 16-bit little-endian two's complement bytes.
pub open spec fn pcm_bytes(samples: Seq<i16>) -> Seq<u8> {
    Seq::new(2 * samples.len(), |i: int| {
        let u = samples[i / 2] as u16;
        if i % 2 == 0 { (u % 256) as u8 } else { (u / 256) as u8 }
    })
}

/// Number of whole frames of `num_channels` samples (at least one channel is assumed).
pub open spec fn frame_count(num_samples: nat, num_channels: u16) -> u32 {
    (num_samples / (if num_channels == 0 { 1 } else { num_channels as nat })) as u32
}

/// Loop start written to the slice metadata: the loop's start if one is active, else 0.
pub open spec fn loop_start_of(loop_info: Option<&LoopInfo>) -> u32 {
    match loop_info {
        Some(l) => if l.active { l.start } else { 0 },
        None => 0,
    }
}

/// Loop mode written to the slice metadata: 0 = one-shot, 1 = forward, 2 = ping-pong.
pub open spec fn loop_mode_of(loop_info: Option<&LoopInfo>) -> u32 {
    match loop_info {
        Some(l) => if l.active && l.pingpong { 2 } else if l.active { 1 } else { 0 },
        None => 0,
    }
}

/// The JSON slice description of the `atem` chunk.
pub open spec fn atem_json(end: u32, loop_start: u32, loop_mode: u32) -> Seq<char> {
    "{\n    \"version\": 1,\n    \"value0\": {\n        \"defaultSlice\": {\n            \"Start\": 0,\n            \"End\": "@
        + decimal(end as nat) + ",\n            \"LoopStart\": "@ + decimal(loop_start as nat)
        + ",\n            \"LoopMode\": "@ + decimal(loop_mode as nat)
        + ",\n            \"PulsePosition\": 0,\n            \"LoopCrossfadeLength\": 0,\n            \"LoopCrossfadeType\": 0,\n            \"TailLength\": 0.0,\n            \"TailLoopPosition\": 0.5\n        },\n        \"numBars\": 2,\n        \"Num slices\": 0\n    },\n    \"value1\": {\n        \"version\": 1,\n        \"note\": \"C#\",\n        \"scale\": \"Major\"\n    }\n}"@
}

/// The `atem` text, padded with a space to an even number of bytes: MPC's RIFF parser
/// does not skip the padding byte of odd-sized chunks.
pub open spec fn atem_text(samples_len: nat, num_channels: u16, loop_info: Option<&LoopInfo>) -> Seq<char> {
    let frames = frame_count(samples_len, num_channels);
    let last_frame: u32 = if frames > 0 { (frames - 1) as u32 } else { 0 };
    let json = atem_json(last_frame, loop_start_of(loop_info), loop_mode_of(loop_info));
    if encode_utf8(json).len() % 2 != 0 { json.push(' ') } else { json }
}

/// Size of the `data` chunk as written in its header (the byte count, kept to 32 bits).
pub open spec fn data_size(samples_len: nat) -> u32 {
    ((2 * samples_len) % 0x1_0000_0000) as u32
}

/// The RIFF size field: everything after it.
pub open spec fn riff_size(atem_len: nat, samples_len: nat) -> int {
    4 + (8 + 16) + (8 + atem_len) + (8 + 4) + (8 + data_size(samples_len))
}

/// The RIFF header: "RIFF", the size of the rest, "WAVE".
pub open spec fn riff_header(size: int) -> Seq<u8> {
    seq![0x52u8, 0x49, 0x46, 0x46] + le32_bytes(size) + seq![0x57u8, 0x41, 0x56, 0x45]
}

/// The `fmt ` chunk of 16-bit PCM.
pub open spec fn fmt_chunk(num_channels: u16, sample_rate: u32) -> Seq<u8> {
    let block_align = 2 * num_channels;
    seq![0x66u8, 0x6d, 0x74, 0x20] + le32_bytes(16) + le16_bytes(1) + le16_bytes(num_channels as int)
        + le32_bytes(sample_rate as int) + le32_bytes(sample_rate * block_align) + le16_bytes(
        block_align,
    ) + le16_bytes(16)
}

/// The `atem` chunk holding `atem`.
pub open spec fn atem_chunk(atem: Seq<u8>) -> Seq<u8> {
    seq![0x61u8, 0x74, 0x65, 0x6d] + le32_bytes(atem.len() as int) + atem
}

/// The `meta` chunk: four zero bytes.
pub open spec fn meta_chunk() -> Seq<u8> {
    seq![0x6du8, 0x65, 0x74, 0x61] + le32_bytes(4) + seq![0u8, 0, 0, 0]
}

/// The `data` chunk holding the samples.
pub open spec fn data_chunk(samples: Seq<i16>) -> Seq<u8> {
    seq![0x64u8, 0x61, 0x74, 0x61] + le32_bytes(data_size(samples.len()) as int) + pcm_bytes(samples)
}

/// The whole WAV file.
pub open spec fn wav_file(samples: Seq<i16>, num_channels: u16, sample_rate: u32, loop_info: Option<&LoopInfo>) -> Seq<u8> {
    let atem = encode_utf8(atem_text(samples.len(), num_channels, loop_info));
    riff_header(riff_size(atem.len(), samples.len())) + fmt_chunk(num_channels, sample_rate)
        + atem_chunk(atem) + meta_chunk() + data_chunk(samples)
}

/// The sizes of a WAV file fit its 32- and 16-bit header fields.
pub open spec fn wav_fits(samples_len: nat, num_channels: u16, sample_rate: u32, loop_info: Option<&LoopInfo>) -> bool {
    &&& 2 * num_channels <= u16::MAX
    &&& sample_rate * (2 * num_channels) <= u32::MAX
    &&& riff_size(encode_utf8(atem_text(samples_len, num_channels, loop_info)).len(), samples_len) <= u32::MAX
}

fn push_bytes(out: &mut Vec<u8>, b: &[u8])
    ensures
        final(out)@ == old(out)@ + b@,
{
    let mut i: usize = 0;
    while i < b.len()
        invariant
            i <= b@.len(),
            out@ == old(out)@ + b@.subrange(0, i as int),
        decreases b@.len() - i,
    {
        out.push(b[i]);
        i = i + 1;
        assert(out@ =~= old(out)@ + b@.subrange(0, i as int));
    }
    assert(b@.subrange(0, b@.len() as int) =~= b@);
}

fn push_le16(out: &mut Vec<u8>, v: u16)
    ensures
        final(out)@ == old(out)@ + le16_bytes(v as int),
{
    out.push((v % 256) as u8);
    out.push((v / 256 % 256) as u8);
    assert(out@ =~= old(out)@ + le16_bytes(v as int));
}

fn push_le32(out: &mut Vec<u8>, v: u32)
    ensures
        final(out)@ == old(out)@ + le32_bytes(v as int),
{
    out.push((v % 256) as u8);
    out.push((v / 256 % 256) as u8);
    out.push((v / 65536 % 256) as u8);
    out.push((v / 16777216 % 256) as u8);
    assert(out@ =~= old(out)@ + le32_bytes(v as int));
}

fn push_tag(out: &mut Vec<u8>, a: u8, b: u8, c: u8, d: u8)
    ensures
        final(out)@ == old(out)@ + seq![a, b, c, d],
{
    out.push(a);
    out.push(b);
    out.push(c);
    out.push(d);
    assert(out@ =~= old(out)@ + seq![a, b, c, d]);
}

/// The padded `atem` text of a WAV of `num_samples` samples.
fn atem_string(num_samples: usize, num_channels: u16, loop_info: Option<&LoopInfo>) -> (json: String)
    ensures
        json@ == atem_text(num_samples as nat, num_channels, loop_info),
{
    let channels_div: u16 = if num_channels == 0 { 1 } else { num_channels };
    let num_frames = (num_samples / channels_div as usize) as u32;
    let last_frame: u32 = if num_frames > 0 { num_frames - 1 } else { 0 };
    let loop_start: u32 = match loop_info {
        Some(l) => if l.active { l.start } else { 0 },
        None => 0,
    };
    let loop_mode: u32 = match loop_info {
        Some(l) => if l.active && l.pingpong { 2 } else if l.active { 1 } else { 0 },
        None => 0,
    };

    let mut json = String::new();
    json.append("{\n    \"version\": 1,\n    \"value0\": {\n        \"defaultSlice\": {\n            \"Start\": 0,\n            \"End\": ");
    push_decimal(&mut json, last_frame as u64);
    json.append(",\n            \"LoopStart\": ");
    push_decimal(&mut json, loop_start as u64);
    json.append(",\n            \"LoopMode\": ");
    push_decimal(&mut json, loop_mode as u64);
    json.append(",\n            \"PulsePosition\": 0,\n            \"LoopCrossfadeLength\": 0,\n            \"LoopCrossfadeType\": 0,\n            \"TailLength\": 0.0,\n            \"TailLoopPosition\": 0.5\n        },\n        \"numBars\": 2,\n        \"Num slices\": 0\n    },\n    \"value1\": {\n        \"version\": 1,\n        \"note\": \"C#\",\n        \"scale\": \"Major\"\n    }\n}");
    assert(json@ =~= atem_json(last_frame, loop_start, loop_mode));
    assert(num_frames == frame_count(num_samples as nat, num_channels));
    assert(loop_start == loop_start_of(loop_info));
    assert(loop_mode == loop_mode_of(loop_info));
    let ghost unpadded = json@;
    let ghost frames = frame_count(num_samples as nat, num_channels);
    assert(last_frame == (if frames > 0 { (frames - 1) as u32 } else { 0 }));
    assert(unpadded == atem_json(
        (if frames > 0 { (frames - 1) as u32 } else { 0 }),
        loop_start_of(loop_info),
        loop_mode_of(loop_info),
    ));
    let padded = json.as_str().as_bytes().len() % 2 != 0;
    assert(padded == (encode_utf8(unpadded).len() % 2 != 0));

    // MPC's RIFF parser doesn't skip the padding byte on odd-size chunks, so it
    // misreads all subsequent chunk offsets: keep the JSON an even number of bytes.
    if padded {
        json.append(" ");
        proof {
            reveal_strlit(" ");
            assert(json@ =~= unpadded.push(' '));
        }
    }
    assert(json@ =~= atem_text(num_samples as nat, num_channels, loop_info));
    json
}

/// Writes a 16-bit PCM WAV in the MPC form (fmt + atem + meta + data) to `writer`.
///
/// `samples` is flat PCM: mono = [s0, s1, ...], stereo = [L0, R0, L1, R1, ...];
/// `num_channels` is 1 or 2; `sample_rate` the native rate in Hz; `loop_info` the loop
/// taken from the IT sample header (None = one-shot).
pub fn write_wav(
    writer: &mut Vec<u8>,
    samples: &[i16],
    num_channels: u16,
    sample_rate: u32,
    loop_info: Option<&LoopInfo>,
)
    requires
        wav_fits(samples@.len(), num_channels, sample_rate, loop_info),
    ensures
        final(writer)@ == old(writer)@ + wav_file(samples@, num_channels, sample_rate, loop_info),
{
    let json = atem_string(samples.len(), num_channels, loop_info);
    let atem_bytes = json.as_str().as_bytes();

    // Chunk sizes
    let n = samples.len();
    proof {
        assert((2 * n) % 0x1_0000_0000 == 2 * (n % 0x8000_0000)) by (nonlinear_arith);
    }
    let data_bytes = (n % 0x8000_0000) as u32 * 2;
    let atem_len = atem_bytes.len() as u32;
    // RIFF payload = "WAVE"(4) + fmt(8+16) + atem(8+len) + meta(8+4) + data(8+data_bytes)
    let riff_size: u32 = 4 + (8 + 16) + (8 + atem_len) + (8 + 4) + (8 + data_bytes);

    let ghost w0 = writer@;
    push_tag(writer, 0x52, 0x49, 0x46, 0x46);  // "RIFF"
    push_le32(writer, riff_size);
    push_tag(writer, 0x57, 0x41, 0x56, 0x45);  // "WAVE"
    assert(writer@ =~= w0 + riff_header(riff_size as int));
    let ghost w1 = writer@;
    push_fmt_chunk(writer, num_channels, sample_rate);
    let ghost w2 = writer@;
    // atem chunk (always even-length, no padding byte needed)
    push_tag(writer, 0x61, 0x74, 0x65, 0x6d);  // "atem"
    push_le32(writer, atem_len);
    push_bytes(writer, atem_bytes);
    assert(writer@ =~= w2 + atem_chunk(atem_bytes@));
    let ghost w3 = writer@;
    push_tag(writer, 0x6d, 0x65, 0x74, 0x61);  // "meta"
    push_le32(writer, 4);
    push_tag(writer, 0, 0, 0, 0);
    assert(writer@ =~= w3 + meta_chunk());
    let ghost w4 = writer@;
    push_data_chunk(writer, samples, data_bytes);
    assert(writer@ =~= old(writer)@ + wav_file(samples@, num_channels, sample_rate, loop_info));
}

/// Whether the sizes of a WAV of `num_samples` samples fit its 32- and 16-bit header fields.
pub fn wav_size_fits(num_samples: usize, num_channels: u16, sample_rate: u32, loop_info: Option<&LoopInfo>) -> (r: bool)
    ensures
        r == wav_fits(num_samples as nat, num_channels, sample_rate, loop_info),
{
    let block_align: u32 = 2 * num_channels as u32;
    if block_align > 0xffff {
        return false;
    }
    proof {
        assert(sample_rate * block_align <= 0xffff_ffffu64 * 0xffffu64) by (nonlinear_arith)
            requires
                sample_rate <= 0xffff_ffffu64,
                block_align <= 0xffffu64,
        ;
    }
    let byte_rate: u64 = sample_rate as u64 * block_align as u64;
    if byte_rate > 0xffff_ffff {
        return false;
    }
    let json = atem_string(num_samples, num_channels, loop_info);
    let atem_len = json.as_str().as_bytes().len() as u64;
    if atem_len > 0xffff_ffff {
        return false;
    }
    proof {
        assert((2 * num_samples) % 0x1_0000_0000 == 2 * (num_samples % 0x8000_0000)) by (nonlinear_arith);
    }
    let data_bytes: u64 = (num_samples % 0x8000_0000) as u64 * 2;
    4 + (8 + 16) + (8 + atem_len) + (8 + 4) + (8 + data_bytes) <= 0xffff_ffff
}

fn push_fmt_chunk(writer: &mut Vec<u8>, num_channels: u16, sample_rate: u32)
    requires
        2 * num_channels <= u16::MAX,
        sample_rate * (2 * num_channels) <= u32::MAX,
    ensures
        final(writer)@ == old(writer)@ + fmt_chunk(num_channels, sample_rate),
{
    let block_align = num_channels * 2;
    let byte_rate = sample_rate * block_align as u32;
    push_tag(writer, 0x66, 0x6d, 0x74, 0x20);  // "fmt "
    push_le32(writer, 16);
    push_le16(writer, 1);  // PCM
    push_le16(writer, num_channels);
    push_le32(writer, sample_rate);
    push_le32(writer, byte_rate);
    push_le16(writer, block_align);
    push_le16(writer, 16);  // 16-bit
    assert(writer@ =~= old(writer)@ + fmt_chunk(num_channels, sample_rate));
}

fn push_data_chunk(writer: &mut Vec<u8>, samples: &[i16], data_bytes: u32)
    requires
        data_bytes == data_size(samples@.len()),
    ensures
        final(writer)@ == old(writer)@ + data_chunk(samples@),
{
    push_tag(writer, 0x64, 0x61, 0x74, 0x61);  // "data"
    push_le32(writer, data_bytes);
    let ghost before_data = writer@;
    let mut i: usize = 0;
    while i < samples.len()
        invariant
            i <= samples@.len(),
            writer@ == before_data + pcm_bytes(samples@.subrange(0, i as int)),
        decreases samples@.len() - i,
    {
        let u = samples[i] as u16;
        writer.push((u % 256) as u8);
        writer.push((u / 256) as u8);
        i = i + 1;
        assert(writer@ =~= before_data + pcm_bytes(samples@.subrange(0, i as int)));
    }
    assert(samples@.subrange(0, samples@.len() as int) =~= samples@);
    assert(writer@ =~= old(writer)@ + data_chunk(samples@));
}

proof fn lemma_encode_utf8_push(s: Seq<char>, c: char)
    ensures
        encode_utf8(s.push(c)) == encode_utf8(s) + encode_scalar(c as u32),
    decreases s.len(),
{
    if s.len() == 0 {
        assert(s.push(c).drop_first() =~= seq![]);
        assert(encode_utf8(s.push(c).drop_first()) =~= seq![]);
        assert(encode_utf8(s) =~= seq![]);
        assert(encode_utf8(s.push(c)) =~= encode_scalar(c as u32));
    } else {
        assert(s.push(c).drop_first() =~= s.drop_first().push(c));
        lemma_encode_utf8_push(s.drop_first(), c);
        assert(encode_utf8(s.push(c)) =~= encode_utf8(s) + encode_scalar(c as u32));
    }
}

/// The `atem` chunk always holds an even number of bytes, so no RIFF padding byte is ever
/// needed after it.
pub proof fn lemma_atem_even(samples_len: nat, num_channels: u16, loop_info: Option<&LoopInfo>)
    ensures
        encode_utf8(atem_text(samples_len, num_channels, loop_info)).len() % 2 == 0,
{
    let frames = frame_count(samples_len, num_channels);
    let last_frame: u32 = if frames > 0 { (frames - 1) as u32 } else { 0 };
    let json = atem_json(last_frame, loop_start_of(loop_info), loop_mode_of(loop_info));
    lemma_encode_utf8_push(json, ' ');
    assert(encode_scalar(' ' as u32).len() == 1);
}

proof fn lemma_layout(atem: Seq<u8>, samples: Seq<i16>, num_channels: u16, sample_rate: u32)
    requires
        2 * samples.len() <= u32::MAX,
    ensures
        ({
            let size = riff_size(atem.len(), samples.len());
            let w = riff_header(size) + fmt_chunk(num_channels, sample_rate) + atem_chunk(atem)
                + meta_chunk() + data_chunk(samples);
            &&& w.len() == size + 8
            &&& w.subrange(4, 8) == le32_bytes(size)
        }),
{
    let size = riff_size(atem.len(), samples.len());
    assert(data_size(samples.len()) == 2 * samples.len());
    assert(riff_header(size).len() == 12);
    assert(fmt_chunk(num_channels, sample_rate).len() == 24);
    assert(atem_chunk(atem).len() == 8 + atem.len() as int);
    assert(meta_chunk().len() == 12);
    assert(data_chunk(samples).len() == 8 + 2 * samples.len());
    let w = riff_header(size) + fmt_chunk(num_channels, sample_rate) + atem_chunk(atem) + meta_chunk()
        + data_chunk(samples);
    assert(w.subrange(4, 8) =~= le32_bytes(size));
}

/// Where the PCM bytes fit the 32-bit `data` size field, the RIFF header records the size of
/// everything after its first eight bytes.
pub proof fn lemma_riff_size(samples: Seq<i16>, num_channels: u16, sample_rate: u32, loop_info: Option<&LoopInfo>)
    requires
        2 * samples.len() <= u32::MAX,
    ensures
        wav_file(samples, num_channels, sample_rate, loop_info).len() == riff_size(
            encode_utf8(atem_text(samples.len(), num_channels, loop_info)).len(),
            samples.len(),
        ) + 8,
        wav_file(samples, num_channels, sample_rate, loop_info).subrange(4, 8) == le32_bytes(
            riff_size(encode_utf8(atem_text(samples.len(), num_channels, loop_info)).len(), samples.len()),
        ),
{
    lemma_layout(encode_utf8(atem_text(samples.len(), num_channels, loop_info)), samples, num_channels, sample_rate);
}

proof fn lemma_fmt_layout(atem: Seq<u8>, samples: Seq<i16>, num_channels: u16, sample_rate: u32)
    ensures
        ({
            let w = riff_header(riff_size(atem.len(), samples.len())) + fmt_chunk(num_channels, sample_rate)
                + atem_chunk(atem) + meta_chunk() + data_chunk(samples);
            &&& w.subrange(12, 16) == seq![0x66u8, 0x6d, 0x74, 0x20]
            &&& w.subrange(22, 24) == le16_bytes(num_channels as int)
            &&& w.subrange(24, 28) == le32_bytes(sample_rate as int)
            &&& w.subrange(28, 32) == le32_bytes(sample_rate * (2 * num_channels))
            &&& w.subrange(32, 34) == le16_bytes(2 * num_channels)
            &&& w.subrange(34, 36) == le16_bytes(16)
            &&& w.subrange(40, 44) == le32_bytes(atem.len() as int)
            &&& w.subrange(44, 44 + atem.len() as int) == atem
        }),
{
    let h = riff_header(riff_size(atem.len(), samples.len()));
    let f = fmt_chunk(num_channels, sample_rate);
    let a = atem_chunk(atem);
    let w = h + f + a + meta_chunk() + data_chunk(samples);
    assert(h.len() == 12);
    assert(f.len() == 24);
    assert(w.subrange(12, 36) =~= f);
    assert(w.subrange(36, 44 + atem.len() as int) =~= a);
    assert(w.subrange(12, 16) =~= f.subrange(0, 4));
    assert(w.subrange(22, 24) =~= f.subrange(10, 12));
    assert(w.subrange(24, 28) =~= f.subrange(12, 16));
    assert(w.subrange(28, 32) =~= f.subrange(16, 20));
    assert(w.subrange(32, 34) =~= f.subrange(20, 22));
    assert(w.subrange(34, 36) =~= f.subrange(22, 24));
    assert(w.subrange(40, 44) =~= a.subrange(4, 8));
    assert(w.subrange(44, 44 + atem.len() as int) =~= a.subrange(8, 8 + atem.len() as int));
}

/// The `fmt ` chunk of a WAV file records its channel count, its sample rate, the byte rate
/// (rate × 2 × channels) and the block alignment (2 × channels) of 16-bit PCM; the `atem`
/// chunk that follows holds the loop metadata of `num_samples / num_channels` frames.
pub proof fn lemma_wav_fmt(samples: Seq<i16>, num_channels: u16, sample_rate: u32, loop_info: Option<&LoopInfo>)
    ensures
        ({
            let w = wav_file(samples, num_channels, sample_rate, loop_info);
            let atem = encode_utf8(atem_text(samples.len(), num_channels, loop_info));
            &&& w.subrange(12, 16) == seq![0x66u8, 0x6d, 0x74, 0x20]
            &&& w.subrange(22, 24) == le16_bytes(num_channels as int)
            &&& w.subrange(24, 28) == le32_bytes(sample_rate as int)
            &&& w.subrange(28, 32) == le32_bytes(sample_rate * (2 * num_channels))
            &&& w.subrange(32, 34) == le16_bytes(2 * num_channels)
            &&& w.subrange(34, 36) == le16_bytes(16)
            &&& w.subrange(40, 44) == le32_bytes(atem.len() as int)
            &&& w.subrange(44, 44 + atem.len() as int) == atem
        }),
{
    lemma_fmt_layout(
        encode_utf8(atem_text(samples.len(), num_channels, loop_info)),
        samples,
        num_channels,
        sample_rate,
    );
}

/// A WAV file ends with its `data` chunk: the tag, the byte count, then each sample as two
/// bytes, low byte first, of its 16-bit two's complement form.
pub proof fn lemma_wav_data(samples: Seq<i16>, num_channels: u16, sample_rate: u32, loop_info: Option<&LoopInfo>)
    ensures
        ({
            let w = wav_file(samples, num_channels, sample_rate, loop_info);
            let d = w.len() - 2 * samples.len();
            &&& d >= 8
            &&& w.subrange(d - 8, d - 4) == seq![0x64u8, 0x61, 0x74, 0x61]
            &&& forall|i: int|
                0 <= i < samples.len() ==> w[d + 2 * i] == ((#[trigger] samples[i]) as u16 % 256) as u8
                    && w[d + 2 * i + 1] == (samples[i] as u16 / 256) as u8
        }),
{
    let w = wav_file(samples, num_channels, sample_rate, loop_info);
    let c = data_chunk(samples);
    let pre = w.subrange(0, w.len() - c.len());
    assert(w =~= pre + c);
    let d = w.len() - 2 * samples.len();
    assert forall|i: int| 0 <= i < samples.len() implies w[d + 2 * i] == ((#[trigger] samples[i]) as u16
        % 256) as u8 && w[d + 2 * i + 1] == (samples[i] as u16 / 256) as u8 by {
        assert(w[d + 2 * i] == c[8 + 2 * i]);
        assert(w[d + 2 * i + 1] == c[8 + 2 * i + 1]);
        assert(c[8 + 2 * i] == pcm_bytes(samples)[2 * i]);
        assert(c[8 + 2 * i + 1] == pcm_bytes(samples)[2 * i + 1]);
    }
    assert(w.subrange(d - 8, d - 4) =~= c.subrange(0, 4));
}

} // verus!
