//! The Impulse Tracker (.IT) file format: song header, instruments, envelopes
//! and sample headers, and the sample data they point to.

use crate::error::ItError;
use crate::pcm::{
    lemma_compressed8_scaled, lemma_compressed_len, lemma_raw8_scaled, scaled_from_8bit,
    compressed16, compressed8, decompress_compressed_16bit, decompress_compressed_8bit,
    extract_raw_pcm, raw_pcm,
};
use crate::reader::{le16, le32, name_text, signed8, Reader};
use crate::text::{has_visible, has_visible_char};
use vstd::pervasive::unreached;
use vstd::prelude::*;

verus! {

// ---------------------------------------------------------------------------
// Envelope
// ---------------------------------------------------------------------------

/// Bytes an envelope takes: six header bytes, then its three-byte points in a space
/// of at least 25 points.
pub open spec fn envelope_size(num_points: int) -> int {
    6 + if 3 * num_points < 75 { 75 } else { 3 * num_points }
}

/// Where reading an envelope at byte `b` fails, if it does: the first field that does
/// not fit before the end of `data`.
pub open spec fn envelope_error(data: Seq<u8>, b: int) -> Option<ItError> {
    let len = data.len() as int;
    if b + 6 > len {
        Some(ItError::UnexpectedEof { offset: (if b > len { b } else { len }) as usize })
    } else {
        let n = data[b + 1] as int;
        if b + 6 + 3 * n > len {
            let o = len - (b + 6);
            Some(ItError::UnexpectedEof { offset: (if o % 3 == 2 { len - 1 } else { len }) as usize })
        } else if b + envelope_size(n) > len {
            Some(ItError::UnexpectedEofSkip { offset: (b + 6 + 3 * n) as usize })
        } else {
            None
        }
    }
}

/// Volume, panning or pitch envelope of an instrument.
#[derive(Debug, Clone)]
pub struct Envelope {
    pub flags: u8,
    pub num_points: u8,
    pub loop_start: u8,
    pub loop_end: u8,
    pub susloop_start: u8,
    pub susloop_end: u8,
    /// Each point is (value, tick position).
    pub points: Vec<(i8, u16)>,
}

impl Envelope {
    /// The envelope holds what the bytes at `b` say.
    pub open spec fn read_from(&self, data: Seq<u8>, b: int) -> bool {
        &&& self.flags == data[b]
        &&& self.num_points == data[b + 1]
        &&& self.loop_start == data[b + 2]
        &&& self.loop_end == data[b + 3]
        &&& self.susloop_start == data[b + 4]
        &&& self.susloop_end == data[b + 5]
        &&& self.points@.len() == data[b + 1]
        &&& forall|j: int|
            0 <= j < self.points@.len() ==> #[trigger] self.points@[j] == (
                signed8(data[b + 6 + 3 * j]) as i8,
                le16(data, b + 7 + 3 * j) as u16,
            )
    }

    pub fn loop_enabled(&self) -> (r: bool)
        ensures
            r == (self.flags & 0x02 != 0),
    {
        self.flags & 0x02 != 0
    }

    pub fn sustain_enabled(&self) -> (r: bool)
        ensures
            r == (self.flags & 0x04 != 0),
    {
        self.flags & 0x04 != 0
    }

    pub fn envelope_enabled(&self) -> (r: bool)
        ensures
            r == (self.flags & 0x01 != 0),
    {
        self.flags & 0x01 != 0
    }

    /// True if this is a filter envelope (bit 7 of the pitch envelope's flags).
    pub fn is_filter(&self) -> (r: bool)
        ensures
            r == (self.flags & 0x80 != 0),
    {
        self.flags & 0x80 != 0
    }

    fn parse(r: &mut Reader) -> (res: Result<Self, ItError>)
        ensures
            final(r).data@ == old(r).data@,
            match res {
                Ok(e) => {
                    &&& envelope_error(old(r).data@, old(r).pos as int) is None
                    &&& e.read_from(old(r).data@, old(r).pos as int)
                    &&& final(r).pos == old(r).pos + envelope_size(e.num_points as int)
                },
                Err(err) => envelope_error(old(r).data@, old(r).pos as int) == Some(err),
            },
    {
        let ghost b = r.pos as int;
        let ghost data = r.data@;
        let flags = r.flags8()?;
        let num_points = r.u8()?;
        let loop_start = r.u8()?;
        let loop_end = r.u8()?;
        let susloop_start = r.u8()?;
        let susloop_end = r.u8()?;

        let n = num_points as usize;
        let mut points: Vec<(i8, u16)> = Vec::new();
        let mut k: usize = 0;
        while k < n
            invariant
                k <= n,
                n == data[b + 1],
                b + 6 <= data.len(),
                r.data@ == data,
                data == old(r).data@,
                b == old(r).pos,
                r.pos == b + 6 + 3 * k,
                b + 6 + 3 * k <= data.len(),
                points@.len() == k,
                forall|j: int|
                    0 <= j < k ==> #[trigger] points@[j] == (
                        signed8(data[b + 6 + 3 * j]) as i8,
                        le16(data, b + 7 + 3 * j) as u16,
                    ),
            decreases n - k,
        {
            let val = r.i8()?;
            let tick = r.u16_le()?;
            points.push((val, tick));
            k = k + 1;
        }
        // Each point is 3 bytes in a space of 75 bytes (25 points); skip the rest.
        let used = n * 3;
        r.skip(if used < 75 { 75 - used } else { 0 })?;

        Ok(Envelope { flags, num_points, loop_start, loop_end, susloop_start, susloop_end, points })
    }
}

// ---------------------------------------------------------------------------
// Block signatures
// ---------------------------------------------------------------------------

/// "IMPS", the signature of a sample header.
pub open spec fn sample_magic() -> Seq<u8> {
    seq![0x49u8, 0x4d, 0x50, 0x53]
}

/// "IMPI", the signature of an instrument header.
pub open spec fn instrument_magic() -> Seq<u8> {
    seq![0x49u8, 0x4d, 0x50, 0x49]
}

/// "IMPM", the signature of the song header.
pub open spec fn song_magic() -> Seq<u8> {
    seq![0x49u8, 0x4d, 0x50, 0x4d]
}

/// `e` reports that the four bytes `got` were found where `magic` was expected.
pub open spec fn is_bad_magic(e: ItError, magic: Seq<u8>, got: Seq<u8>) -> bool {
    e matches ItError::BadMagic { expected, got: g } && expected@ == magic && g@ == got
}

// ---------------------------------------------------------------------------
// Sample
// ---------------------------------------------------------------------------

/// A sample header can be read at `ptr`: its 80 bytes fit and it starts with "IMPS".
pub open spec fn sample_ok(data: Seq<u8>, ptr: int) -> bool {
    ptr + 80 <= data.len() && data.subrange(ptr, ptr + 4) == sample_magic()
}

/// The error from reading a sample header at `ptr` where `sample_ok` fails.
pub open spec fn sample_error_is(data: Seq<u8>, ptr: int, e: ItError) -> bool {
    if ptr + 80 > data.len() {
        e == ItError::SamplePointerOutOfRange { ptr: ptr as usize }
    } else {
        is_bad_magic(e, sample_magic(), data.subrange(ptr, ptr + 4))
    }
}

/// Header of one sample.
#[derive(Debug, Clone)]
pub struct Sample {
    pub dos_filename: String,
    pub global_vol: u8,
    pub flags: u8,
    pub default_vol: u8,
    pub name: String,
    pub length: u32,
    pub loop_start: u32,
    pub loop_end: u32,
    pub c5_speed: u32,
    pub susloop_start: u32,
    pub susloop_end: u32,
    pub sample_pointer: u32,
    pub vibrato_speed: u8,
    pub vibrato_depth: u8,
    pub vibrato_sweep: u8,
    pub vibrato_wave: u8,
    pub bits16: bool,
    pub stereo: bool,
    pub loop_active: bool,
    pub sustain_loop_active: bool,
    pub pingpong: bool,
    pub sustain_pingpong: bool,
    pub compressed: bool,
    /// Sample convert flags (bit 0 = signed, bit 2 = IT 2.15 double-delta compression).
    pub convert_flags: u8,
}

impl Sample {
    /// The sample holds what the 80-byte header at `p` says.
    pub open spec fn read_from(&self, data: Seq<u8>, p: int) -> bool {
        &&& self.dos_filename@ == name_text(data.subrange(p + 4, p + 16))
        &&& self.global_vol == data[p + 17]
        &&& self.flags == data[p + 18]
        &&& self.default_vol == data[p + 19]
        &&& self.name@ == name_text(data.subrange(p + 20, p + 46))
        &&& self.convert_flags == data[p + 46]
        &&& self.length == le32(data, p + 48)
        &&& self.loop_start == le32(data, p + 52)
        &&& self.loop_end == le32(data, p + 56)
        &&& self.c5_speed == le32(data, p + 60)
        &&& self.susloop_start == le32(data, p + 64)
        &&& self.susloop_end == le32(data, p + 68)
        &&& self.sample_pointer == le32(data, p + 72)
        &&& self.vibrato_speed == data[p + 76]
        &&& self.vibrato_depth == data[p + 77]
        &&& self.vibrato_sweep == data[p + 78]
        &&& self.vibrato_wave == data[p + 79]
        &&& self.flags_consistent()
    }

    /// The boolean fields are the bits of `flags`.
    pub open spec fn flags_consistent(&self) -> bool {
        &&& self.bits16 == (self.flags & 0x02 != 0)
        &&& self.stereo == (self.flags & 0x04 != 0)
        &&& self.compressed == (self.flags & 0x08 != 0)
        &&& self.loop_active == (self.flags & 0x10 != 0)
        &&& self.sustain_loop_active == (self.flags & 0x20 != 0)
        &&& self.pingpong == (self.flags & 0x40 != 0)
        &&& self.sustain_pingpong == (self.flags & 0x80 != 0)
    }

    /// Reads the sample header at `ptr`.
    fn parse(data: &[u8], ptr: u32) -> (res: Result<Self, ItError>)
        ensures
            res is Ok <==> sample_ok(data@, ptr as int),
            match res {
                Ok(smp) => smp.read_from(data@, ptr as int),
                Err(e) => sample_error_is(data@, ptr as int, e),
            },
    {
        let ptr = ptr as usize;
        if data.len() < 80 || ptr > data.len() - 80 {
            return Err(ItError::SamplePointerOutOfRange { ptr });
        }
        let mut r = Reader::new(data);
        r.seek(ptr);
        let magic: [u8; 4] = [0x49, 0x4d, 0x50, 0x53];
        proof {
            assert(magic@ =~= sample_magic());
        }
        r.magic_check(magic.as_slice())?;
        let dos_filename = r.string(12)?;
        r.skip(1)?;  // padding, always zero
        let global_vol = r.u8()?;
        let flags = r.u8()?;
        let default_vol = r.u8()?;
        let name = r.string(26)?;
        let convert_flags = r.u8()?;
        let _default_pan = r.u8()?;  // bit 7 = disabled
        let length = r.u32_le()?;
        let loop_start = r.u32_le()?;
        let loop_end = r.u32_le()?;
        let c5_speed = r.u32_le()?;
        let susloop_start = r.u32_le()?;
        let susloop_end = r.u32_le()?;
        let sample_pointer = r.u32_le()?;
        let vibrato_speed = r.u8()?;
        let vibrato_depth = r.u8()?;
        let vibrato_sweep = r.u8()?;
        let vibrato_wave = r.u8()?;

        let bits16 = flags & 0x02 != 0;
        let stereo = flags & 0x04 != 0;
        let compressed = flags & 0x08 != 0;
        let loop_active = flags & 0x10 != 0;
        let sustain_loop_active = flags & 0x20 != 0;
        let pingpong = flags & 0x40 != 0;
        let sustain_pingpong = flags & 0x80 != 0;

        Ok(Sample {
            dos_filename,
            global_vol,
            flags,
            default_vol,
            name,
            length,
            loop_start,
            loop_end,
            c5_speed,
            susloop_start,
            susloop_end,
            sample_pointer,
            vibrato_speed,
            vibrato_depth,
            vibrato_sweep,
            vibrato_wave,
            bits16,
            stereo,
            loop_active,
            sustain_loop_active,
            pingpong,
            sustain_pingpong,
            compressed,
            convert_flags,
        })
    }

    /// The name to show: the sample name, or the DOS file name when the sample name is blank.
    pub open spec fn shown_name(&self) -> Seq<char> {
        if has_visible(self.name@) { self.name@ } else { self.dos_filename@ }
    }

    /// Best display name for this sample.
    pub fn display_name(&self) -> (r: &str)
        ensures
            r@ == self.shown_name(),
    {
        if has_visible_char(self.name.as_str()) {
            self.name.as_str()
        } else {
            self.dos_filename.as_str()
        }
    }

    /// The PCM that `extract_pcm` yields from the file bytes `data`, frames interleaved
    /// for stereo; `None` where the compressed data cannot be decoded to the end.
    pub open spec fn pcm(&self, data: Seq<u8>) -> Option<Result<Seq<i16>, ItError>> {
        let ptr = self.sample_pointer as int;
        let it215 = self.convert_flags & 0x04 != 0;
        if self.length == 0 || ptr == 0 {
            Some(Ok(seq![]))
        } else if self.compressed {
            let c = if self.bits16 {
                compressed16(data, ptr, self.length as nat, self.stereo, it215)
            } else {
                compressed8(data, ptr, self.length as nat, self.stereo, it215)
            };
            match c {
                Some(v) => Some(Ok(v)),
                None => None,
            }
        } else {
            Some(raw_pcm(data, ptr, self.length as nat, self.bits16, self.stereo))
        }
    }

    /// Decodes the sample, or tells that its compressed data cannot be decoded to the end.
    pub fn checked_extract_pcm(&self, data: &[u8]) -> (res: Option<Result<Vec<i16>, ItError>>)
        requires
            data@.len() + 0x10003 <= usize::MAX,
        ensures
            match res {
                None => self.pcm(data@) is None,
                Some(Ok(v)) => self.pcm(data@) == Some(Ok::<Seq<i16>, ItError>(v@)),
                Some(Err(e)) => self.pcm(data@) == Some(Err::<Seq<i16>, ItError>(e)),
            },
    {
        let ptr = self.sample_pointer as usize;
        if self.length == 0 || ptr == 0 {
            let v: Vec<i16> = Vec::new();
            return Some(Ok(v));
        }
        // Bit 2 of convert_flags: IT 2.15 double-delta encoding (vs IT 2.14 single-delta).
        let is_it215 = self.convert_flags & 0x04 != 0;
        if self.compressed {
            let c = if self.bits16 {
                decompress_compressed_16bit(data, ptr, self.length as usize, self.stereo, is_it215)
            } else {
                decompress_compressed_8bit(data, ptr, self.length as usize, self.stereo, is_it215)
            };
            match c {
                Some(v) => Some(Ok(v)),
                None => None,
            }
        } else {
            Some(extract_raw_pcm(data, ptr, self.length as usize, self.bits16, self.stereo))
        }
    }

    /// Decompresses or extracts the sample's PCM from the IT file bytes: mono, or
    /// interleaved stereo frames.
    pub fn extract_pcm(&self, data: &[u8]) -> (res: Result<Vec<i16>, ItError>)
        requires
            data@.len() + 0x10003 <= usize::MAX,
            self.pcm(data@) is Some,
        ensures
            match res {
                Ok(v) => self.pcm(data@) == Some(Ok::<Seq<i16>, ItError>(v@)),
                Err(e) => self.pcm(data@) == Some(Err::<Seq<i16>, ItError>(e)),
            },
    {
        match self.checked_extract_pcm(data) {
            Some(r) => r,
            None => unreached(),
        }
    }
}

/// How a sample read from a file is decoded, from its header bytes: the flags byte (offset
/// 18) gives 16-bit data (bit 1), stereo (bit 2) and compression (bit 3); the convert byte
/// (offset 46) gives IT 2.15 double-delta compression (bit 2). A sample with data of a
/// non-zero length decodes from the 32-bit pointer at offset 72 as those bits say.
pub proof fn lemma_sample_decoding(samp: Sample, data: Seq<u8>, p: int)
    requires
        samp.read_from(data, p),
    ensures
        ({
            let flags = data[p + 18];
            let bits16 = flags & 2 != 0;
            let stereo = flags & 4 != 0;
            let it215 = data[p + 46] & 4 != 0;
            let ptr = le32(data, p + 72);
            let length = le32(data, p + 48) as nat;
            &&& length == 0 || ptr == 0 ==> samp.pcm(data) == Some(Ok::<Seq<i16>, ItError>(seq![]))
            &&& length > 0 && ptr != 0 && flags & 8 != 0 ==> samp.pcm(data) == match (if bits16 {
                compressed16(data, ptr, length, stereo, it215)
            } else {
                compressed8(data, ptr, length, stereo, it215)
            }) {
                Some(v) => Some(Ok::<Seq<i16>, ItError>(v)),
                None => None,
            }
            &&& length > 0 && ptr != 0 && flags & 8 == 0 ==> samp.pcm(data) == Some(
                raw_pcm(data, ptr, length, bits16, stereo),
            )
        }),
{
}

/// A sample decodes to at most `length` frames of its channels; uncompressed and stereo
/// samples that have data decode to exactly `length` frames.
pub proof fn lemma_pcm_length(samp: Sample, data: Seq<u8>)
    ensures
        samp.pcm(data) matches Some(Ok(v)) ==> {
            let frames = samp.length * (if samp.stereo { 2int } else { 1int });
            &&& v.len() <= frames
            &&& (samp.stereo || !samp.compressed) && samp.sample_pointer != 0 ==> v.len() == frames
        },
{
    let ptr = samp.sample_pointer as int;
    let it215 = samp.convert_flags & 0x04 != 0;
    lemma_compressed_len(data, ptr, samp.length as nat, samp.stereo, it215);
}

/// Every sample that an 8-bit sample decodes to is a multiple of 256: its value scaled to
/// 16 bits.
pub proof fn lemma_pcm_8bit_scaled(samp: Sample, data: Seq<u8>)
    ensures
        !samp.bits16 ==> (samp.pcm(data) matches Some(Ok(v)) ==> scaled_from_8bit(v)),
{
    let ptr = samp.sample_pointer as int;
    let it215 = samp.convert_flags & 0x04 != 0;
    lemma_compressed8_scaled(data, ptr, samp.length as nat, samp.stereo, it215);
    lemma_raw8_scaled(data, ptr, samp.length as nat, samp.stereo);
}

// ---------------------------------------------------------------------------
// Instrument
// ---------------------------------------------------------------------------

/// Where reading the fixed 304-byte part of an instrument header at `ptr`, after its
/// signature, fails in a file of `len` bytes: at the field that does not fit.
pub open spec fn instrument_header_eof(len: int, ptr: int) -> Option<ItError> {
    let o = len - ptr;
    let at = |q: int| Some(ItError::UnexpectedEof { offset: q as usize });
    let skip_at = |q: int| Some(ItError::UnexpectedEofSkip { offset: q as usize });
    if o < 16 {
        at(ptr + 4)  // DOS file name
    } else if o < 17 {
        skip_at(ptr + 16)
    } else if o < 20 {
        at(len)  // new note action, duplicate check type and action
    } else if o < 22 {
        at(ptr + 20)  // fadeout
    } else if o < 28 {
        at(len)  // pitch-pan separation and centre, volume, panning, random volume and panning
    } else if o < 30 {
        at(ptr + 28)  // tracker version
    } else if o < 31 {
        at(len)  // number of samples
    } else if o < 32 {
        skip_at(ptr + 31)
    } else if o < 58 {
        at(ptr + 32)  // name
    } else if o < 62 {
        at(len)  // filter cutoff and resonance, MIDI channel and program
    } else if o < 64 {
        at(ptr + 62)  // MIDI bank
    } else if o < 304 {
        at(len)  // note-sample table, one byte at a time
    } else {
        None
    }
}

/// Offsets of the three envelopes of the instrument header at `ptr`.
pub open spec fn env_vol_at(ptr: int) -> int {
    ptr + 304
}

pub open spec fn env_pan_at(data: Seq<u8>, ptr: int) -> int {
    env_vol_at(ptr) + envelope_size(data[env_vol_at(ptr) + 1] as int)
}

pub open spec fn env_pitch_at(data: Seq<u8>, ptr: int) -> int {
    env_pan_at(data, ptr) + envelope_size(data[env_pan_at(data, ptr) + 1] as int)
}

/// Where reading the instrument header at `ptr` fails for want of bytes, after its signature.
pub open spec fn instrument_eof(data: Seq<u8>, ptr: int) -> Option<ItError> {
    if instrument_header_eof(data.len() as int, ptr) is Some {
        instrument_header_eof(data.len() as int, ptr)
    } else if envelope_error(data, env_vol_at(ptr)) is Some {
        envelope_error(data, env_vol_at(ptr))
    } else if envelope_error(data, env_pan_at(data, ptr)) is Some {
        envelope_error(data, env_pan_at(data, ptr))
    } else {
        envelope_error(data, env_pitch_at(data, ptr))
    }
}

/// An instrument header can be read at `ptr`.
pub open spec fn instrument_ok(data: Seq<u8>, ptr: int) -> bool {
    &&& ptr + 4 <= data.len()
    &&& data.subrange(ptr, ptr + 4) == instrument_magic()
    &&& instrument_eof(data, ptr) is None
}

/// The error from reading an instrument header at `ptr` where `instrument_ok` fails.
pub open spec fn instrument_error_is(data: Seq<u8>, ptr: int, e: ItError) -> bool {
    if ptr + 4 > data.len() {
        e == ItError::UnexpectedEof { offset: ptr as usize }
    } else if data.subrange(ptr, ptr + 4) != instrument_magic() {
        is_bad_magic(e, instrument_magic(), data.subrange(ptr, ptr + 4))
    } else {
        instrument_eof(data, ptr) == Some(e)
    }
}

/// Meaning of a new note action code.
pub open spec fn nna_text(nna: u8) -> Seq<char> {
    if nna == 1 {
        "continue"@
    } else if nna == 2 {
        "note-off"@
    } else if nna == 3 {
        "fade"@
    } else {
        "cut"@
    }
}

/// Header of one instrument.
#[derive(Debug, Clone)]
pub struct Instrument {
    pub dos_filename: String,
    pub new_note_action: u8,
    pub duplicate_check_type: u8,
    pub duplicate_check_action: u8,
    pub fadeout: u16,
    pub pitch_pan_separation: u8,
    pub pitch_pan_center: u8,
    pub global_vol: u8,
    pub default_pan: u8,
    pub random_vol: u8,
    pub random_pan: u8,
    pub name: String,
    pub filter_cutoff: u8,
    pub filter_resonance: u8,
    /// 120 entries of (note transpose, 1-based sample index).
    pub note_sample_table: [(u8, u8); 120],
    pub env_vol: Envelope,
    pub env_pan: Envelope,
    pub env_pitch: Envelope,
}

impl Instrument {
    /// The instrument holds what the header at `p` says.
    pub open spec fn read_from(&self, data: Seq<u8>, p: int) -> bool {
        &&& self.dos_filename@ == name_text(data.subrange(p + 4, p + 16))
        &&& self.new_note_action == data[p + 17]
        &&& self.duplicate_check_type == data[p + 18]
        &&& self.duplicate_check_action == data[p + 19]
        &&& self.fadeout == le16(data, p + 20)
        &&& self.pitch_pan_separation == data[p + 22]
        &&& self.pitch_pan_center == data[p + 23]
        &&& self.global_vol == data[p + 24]
        &&& self.default_pan == data[p + 25]
        &&& self.random_vol == data[p + 26]
        &&& self.random_pan == data[p + 27]
        &&& self.name@ == name_text(data.subrange(p + 32, p + 58))
        &&& self.filter_cutoff == data[p + 58]
        &&& self.filter_resonance == data[p + 59]
        &&& forall|i: int|
            0 <= i < 120 ==> #[trigger] self.note_sample_table@[i] == (
                data[p + 64 + 2 * i],
                data[p + 65 + 2 * i],
            )
        &&& self.env_vol.read_from(data, env_vol_at(p))
        &&& self.env_pan.read_from(data, env_pan_at(data, p))
        &&& self.env_pitch.read_from(data, env_pitch_at(data, p))
    }

    /// Reads the instrument header at `ptr`.
    fn parse(data: &[u8], ptr: u32) -> (res: Result<Self, ItError>)
        ensures
            res is Ok <==> instrument_ok(data@, ptr as int),
            match res {
                Ok(inst) => inst.read_from(data@, ptr as int),
                Err(e) => instrument_error_is(data@, ptr as int, e),
            },
    {
        let p = ptr as usize;
        let mut r = Reader::new(data);
        r.seek(p);
        let magic: [u8; 4] = [0x49, 0x4d, 0x50, 0x49];
        proof {
            assert(magic@ =~= instrument_magic());
        }
        r.magic_check(magic.as_slice())?;

        let dos_filename = r.string(12)?;
        r.skip(1)?;  // padding
        let new_note_action = r.u8()?;
        let duplicate_check_type = r.u8()?;
        let duplicate_check_action = r.u8()?;
        let fadeout = r.u16_le()?;
        let pitch_pan_separation = r.u8()?;
        let pitch_pan_center = r.u8()?;
        let global_vol = r.u8()?;
        let default_pan = r.u8()?;
        let random_vol = r.u8()?;
        let random_pan = r.u8()?;
        let _cwtv = r.u16_le()?;
        let _num_samples = r.u8()?;
        r.skip(1)?;  // padding
        let name = r.string(26)?;
        let filter_cutoff = r.u8()?;
        let filter_resonance = r.u8()?;
        let _midi_chan = r.u8()?;
        let _midi_prog = r.u8()?;
        let _midi_bank = r.u16_le()?;

        let mut note_sample_table = [(0u8, 0u8); 120];
        let mut i: usize = 0;
        while i < 120
            invariant
                i <= 120,
                r.data@ == data@,
                p + 4 <= data@.len(),
                data@.subrange(p as int, p + 4) == instrument_magic(),
                p == ptr,
                r.pos == p + 64 + 2 * i,
                p + 64 + 2 * i <= data@.len(),
                forall|j: int|
                    0 <= j < i ==> #[trigger] note_sample_table@[j] == (
                        data@[p + 64 + 2 * j],
                        data@[p + 65 + 2 * j],
                    ),
            decreases 120 - i,
        {
            let note = r.u8()?;
            let samp = r.u8()?;
            note_sample_table[i] = (note, samp);
            i = i + 1;
        }

        let env_vol = Envelope::parse(&mut r)?;
        let env_pan = Envelope::parse(&mut r)?;
        let env_pitch = Envelope::parse(&mut r)?;

        Ok(Instrument {
            dos_filename,
            new_note_action,
            duplicate_check_type,
            duplicate_check_action,
            fadeout,
            pitch_pan_separation,
            pitch_pan_center,
            global_vol,
            default_pan,
            random_vol,
            random_pan,
            name,
            filter_cutoff,
            filter_resonance,
            note_sample_table,
            env_vol,
            env_pan,
            env_pitch,
        })
    }

    /// The name to show: the instrument name, or the DOS file name when the name is blank.
    pub open spec fn shown_name(&self) -> Seq<char> {
        if has_visible(self.name@) { self.name@ } else { self.dos_filename@ }
    }

    pub fn display_name(&self) -> (r: &str)
        ensures
            r@ == self.shown_name(),
    {
        if has_visible_char(self.name.as_str()) {
            self.name.as_str()
        } else {
            self.dos_filename.as_str()
        }
    }

    /// New note action: 0 = cut, 1 = continue, 2 = note-off, 3 = fade; any other code cuts.
    pub fn nna_name(&self) -> (r: &'static str)
        ensures
            r@ == nna_text(self.new_note_action),
    {
        match self.new_note_action {
            0 => "cut",
            1 => "continue",
            2 => "note-off",
            3 => "fade",
            _ => "cut",
        }
    }

    /// Filter cutoff, only active when bit 7 is set.
    pub fn active_filter_cutoff(&self) -> (r: Option<u8>)
        ensures
            r == (if self.filter_cutoff & 0x80 != 0 {
                Some(self.filter_cutoff & 0x7f)
            } else {
                None::<u8>
            }),
    {
        if self.filter_cutoff & 0x80 != 0 {
            Some(self.filter_cutoff & 0x7F)
        } else {
            None
        }
    }

    /// Filter resonance, only active when bit 7 is set.
    pub fn active_filter_resonance(&self) -> (r: Option<u8>)
        ensures
            r == (if self.filter_resonance & 0x80 != 0 {
                Some(self.filter_resonance & 0x7f)
            } else {
                None::<u8>
            }),
    {
        if self.filter_resonance & 0x80 != 0 {
            Some(self.filter_resonance & 0x7F)
        } else {
            None
        }
    }
}

// ---------------------------------------------------------------------------
// Song
// ---------------------------------------------------------------------------

/// Number of entries in the order list.
pub open spec fn num_orders_of(data: Seq<u8>) -> int {
    le16(data, 32)
}

/// Number of instrument headers.
pub open spec fn num_instruments_of(data: Seq<u8>) -> int {
    le16(data, 34)
}

/// Number of sample headers.
pub open spec fn num_samples_of(data: Seq<u8>) -> int {
    le16(data, 36)
}

/// Offset of the table of instrument header pointers, after the 192-byte header and the orders.
pub open spec fn inst_table_at(data: Seq<u8>) -> int {
    192 + num_orders_of(data)
}

/// Offset of the table of sample header pointers.
pub open spec fn samp_table_at(data: Seq<u8>) -> int {
    inst_table_at(data) + 4 * num_instruments_of(data)
}

/// Pointer to instrument header `i`.
pub open spec fn inst_ptr(data: Seq<u8>, i: int) -> int {
    le32(data, inst_table_at(data) + 4 * i)
}

/// Pointer to sample header `i`.
pub open spec fn samp_ptr(data: Seq<u8>, i: int) -> int {
    le32(data, samp_table_at(data) + 4 * i)
}

/// Where reading the song header and its pointer tables fails for want of bytes, after
/// the signature: at the field that does not fit.
pub open spec fn song_header_eof(data: Seq<u8>) -> Option<ItError> {
    let len = data.len() as int;
    let at = |q: int| Some(ItError::UnexpectedEof { offset: q as usize });
    let skip_at = |q: int| Some(ItError::UnexpectedEofSkip { offset: q as usize });
    if len < 30 {
        at(4)  // title
    } else if len < 32 {
        at(len)  // pattern row highlights
    } else if len < 48 {
        at(len - len % 2)  // counts, tracker versions, flags, special
    } else if len < 52 {
        at(len)  // global volume, mix volume, speed, tempo
    } else if len < 54 {
        skip_at(52)  // separation, pitch wheel depth
    } else if len < 56 {
        at(54)  // message length
    } else if len < 60 {
        at(56)  // message offset
    } else if len < 64 {
        skip_at(60)  // reserved
    } else if len < 128 {
        skip_at(64)  // channel panning
    } else if len < 192 {
        skip_at(128)  // channel volume
    } else if len < inst_table_at(data) {
        skip_at(192)  // order list
    } else if len < samp_table_at(data) {
        at(inst_table_at(data) + 4 * ((len - inst_table_at(data)) / 4))
    } else if len < samp_table_at(data) + 4 * num_samples_of(data) {
        at(samp_table_at(data) + 4 * ((len - samp_table_at(data)) / 4))
    } else {
        None
    }
}

/// The first `k` instrument headers can be read.
pub open spec fn instruments_ok_upto(data: Seq<u8>, k: int) -> bool {
    forall|i: int| 0 <= i < k ==> #[trigger] instrument_ok(data, inst_ptr(data, i))
}

/// The first `k` sample headers can be read.
pub open spec fn samples_ok_upto(data: Seq<u8>, k: int) -> bool {
    forall|i: int| 0 <= i < k ==> #[trigger] sample_ok(data, samp_ptr(data, i))
}

/// `data` holds a song that `Song::load` reads.
pub open spec fn song_ok(data: Seq<u8>) -> bool {
    &&& data.len() >= 4
    &&& data.subrange(0, 4) == song_magic()
    &&& song_header_eof(data) is None
    &&& instruments_ok_upto(data, num_instruments_of(data))
    &&& samples_ok_upto(data, num_samples_of(data))
}

/// The error `Song::load` reports on `data` where `song_ok` fails: the first failure met
/// in the header, then the instrument headers, then the sample headers.
pub open spec fn song_error_is(data: Seq<u8>, e: ItError) -> bool {
    if data.len() < 4 {
        e == ItError::UnexpectedEof { offset: 0 }
    } else if data.subrange(0, 4) != song_magic() {
        is_bad_magic(e, song_magic(), data.subrange(0, 4))
    } else if song_header_eof(data) is Some {
        song_header_eof(data) == Some(e)
    } else if !instruments_ok_upto(data, num_instruments_of(data)) {
        exists|i: int|
            0 <= i < num_instruments_of(data) && instruments_ok_upto(data, i) && !instrument_ok(
                data,
                inst_ptr(data, i),
            ) && instrument_error_is(data, inst_ptr(data, i), e)
    } else {
        exists|i: int|
            0 <= i < num_samples_of(data) && samples_ok_upto(data, i) && !sample_ok(
                data,
                samp_ptr(data, i),
            ) && sample_error_is(data, samp_ptr(data, i), e)
    }
}

/// Where a song's headers are read from: the order list holds one byte per order (OrdNum,
/// the 16-bit count at byte 32), so the instrument pointer table starts at byte 192 + OrdNum,
/// and the sample pointer table 4 × InsNum (the count at byte 34) bytes after it; each
/// pointer is a 32-bit little-endian offset.
pub proof fn lemma_pointer_tables(song: Song, data: Seq<u8>)
    requires
        song.read_from(data),
    ensures
        forall|i: int|
            0 <= i < song.instruments@.len() ==> (#[trigger] song.instruments@[i]).read_from(
                data,
                le32(data, 192 + le16(data, 32) + 4 * i),
            ),
        forall|i: int|
            0 <= i < song.samples@.len() ==> (#[trigger] song.samples@[i]).read_from(
                data,
                le32(data, 192 + le16(data, 32) + 4 * le16(data, 34) + 4 * i),
            ),
{
    assert forall|i: int| 0 <= i < song.instruments@.len() implies (#[trigger] song.instruments@[i]).read_from(
        data,
        le32(data, 192 + le16(data, 32) + 4 * i),
    ) by {
        assert(inst_ptr(data, i) == le32(data, 192 + le16(data, 32) + 4 * i));
    }
    assert forall|i: int| 0 <= i < song.samples@.len() implies (#[trigger] song.samples@[i]).read_from(
        data,
        le32(data, 192 + le16(data, 32) + 4 * le16(data, 34) + 4 * i),
    ) by {
        assert(samp_ptr(data, i) == le32(data, 192 + le16(data, 32) + 4 * le16(data, 34) + 4 * i));
    }
}

/// A whole Impulse Tracker module: header, instruments and samples.
#[derive(Debug)]
pub struct Song {
    pub title: String,
    pub num_orders: u16,
    pub num_instruments: u16,
    pub num_samples: u16,
    pub num_patterns: u16,
    pub flags: u16,
    pub global_vol: u8,
    pub mv: u8,
    pub speed: u8,
    pub tempo: u8,
    pub instruments: Vec<Instrument>,
    pub samples: Vec<Sample>,
    /// Raw file bytes (needed for PCM extraction).
    pub raw: Vec<u8>,
}

impl Song {
    /// The song holds what the file `data` says.
    pub open spec fn read_from(&self, data: Seq<u8>) -> bool {
        &&& self.title@ == name_text(data.subrange(4, 30))
        &&& self.num_orders == num_orders_of(data)
        &&& self.num_instruments == num_instruments_of(data)
        &&& self.num_samples == num_samples_of(data)
        &&& self.num_patterns == le16(data, 38)
        &&& self.flags == le16(data, 44)
        &&& self.global_vol == data[48]
        &&& self.mv == data[49]
        &&& self.speed == data[50]
        &&& self.tempo == data[51]
        &&& self.instruments@.len() == num_instruments_of(data)
        &&& forall|i: int|
            0 <= i < self.instruments@.len() ==> #[trigger] self.instruments@[i].read_from(
                data,
                inst_ptr(data, i),
            )
        &&& self.samples@.len() == num_samples_of(data)
        &&& forall|i: int|
            0 <= i < self.samples@.len() ==> #[trigger] self.samples@[i].read_from(
                data,
                samp_ptr(data, i),
            )
        &&& self.raw@ == data
    }

    /// True if the file uses instrument mode (flag bit 2).
    pub fn uses_instruments(&self) -> (r: bool)
        ensures
            r == (self.flags & 0x04 != 0),
    {
        self.flags & 0x04 != 0
    }

    /// Reads a whole module from the bytes of an .IT file.
    pub fn load(data: Vec<u8>) -> (res: Result<Self, ItError>)
        ensures
            res is Ok <==> song_ok(data@),
            match res {
                Ok(song) => song.read_from(data@),
                Err(e) => song_error_is(data@, e),
            },
    {
        let ghost d = data@;
        let mut r = Reader::new(data.as_slice());
        let magic: [u8; 4] = [0x49, 0x4d, 0x50, 0x4d];
        proof {
            assert(magic@ =~= song_magic());
        }
        r.magic_check(magic.as_slice())?;

        let title = r.string(26)?;
        let _hilight_minor = r.u8()?;
        let _hilight_major = r.u8()?;
        let num_orders = r.u16_le()?;
        let num_instruments = r.u16_le()?;
        let num_samples = r.u16_le()?;
        let num_patterns = r.u16_le()?;
        let _cwtv = r.u16_le()?;
        let _cmwt = r.u16_le()?;
        let flags = r.flags16()?;
        let _special = r.u16_le()?;
        let global_vol = r.u8()?;
        let mv = r.u8()?;
        let speed = r.u8()?;
        let tempo = r.u8()?;
        r.skip(2)?;  // separation, pitch wheel depth
        let _msglength = r.u16_le()?;
        let _msgoffset = r.u32_le()?;
        r.skip(4)?;  // reserved

        r.skip(64)?;  // channel panning
        r.skip(64)?;  // channel volume

        // Order list
        r.skip(num_orders as usize)?;

        // Instrument pointers
        let mut inst_ptrs: Vec<u32> = Vec::new();
        let mut i: u16 = 0;
        while i < num_instruments
            invariant
                r.data@ == d,
                d == data@,
                d.len() >= 192,
                d.subrange(0, 4) == song_magic(),
                num_orders == num_orders_of(d),
                num_instruments == num_instruments_of(d),
                num_samples == num_samples_of(d),
                i <= num_instruments,
                r.pos == inst_table_at(d) + 4 * i,
                r.pos <= d.len(),
                inst_ptrs@.len() == i,
                forall|j: int| 0 <= j < i ==> #[trigger] inst_ptrs@[j] == inst_ptr(d, j),
            decreases num_instruments - i,
        {
            let p = r.u32_le()?;
            inst_ptrs.push(p);
            i = i + 1;
        }

        // Sample pointers
        let mut samp_ptrs: Vec<u32> = Vec::new();
        let mut i: u16 = 0;
        while i < num_samples
            invariant
                r.data@ == d,
                d == data@,
                d.len() >= 192,
                d.subrange(0, 4) == song_magic(),
                num_orders == num_orders_of(d),
                num_instruments == num_instruments_of(d),
                num_samples == num_samples_of(d),
                i <= num_samples,
                r.pos == samp_table_at(d) + 4 * i,
                r.pos <= d.len(),
                samp_ptrs@.len() == i,
                forall|j: int| 0 <= j < i ==> #[trigger] samp_ptrs@[j] == samp_ptr(d, j),
            decreases num_samples - i,
        {
            let p = r.u32_le()?;
            samp_ptrs.push(p);
            i = i + 1;
        }
        assert(song_header_eof(d) is None);

        // Parse all instruments
        let mut instruments: Vec<Instrument> = Vec::new();
        let mut k: usize = 0;
        while k < inst_ptrs.len()
            invariant
                d == data@,
                d.len() >= 4,
                d.subrange(0, 4) == song_magic(),
                song_header_eof(d) is None,
                inst_ptrs@.len() == num_instruments_of(d),
                forall|j: int| 0 <= j < inst_ptrs@.len() ==> #[trigger] inst_ptrs@[j] == inst_ptr(d, j),
                k <= inst_ptrs@.len(),
                instruments@.len() == k,
                instruments_ok_upto(d, k as int),
                forall|j: int|
                    0 <= j < k ==> #[trigger] instruments@[j].read_from(d, inst_ptr(d, j)),
            decreases inst_ptrs@.len() - k,
        {
            let res = Instrument::parse(data.as_slice(), inst_ptrs[k]);
            match res {
                Ok(inst) => {
                    instruments.push(inst);
                },
                Err(e) => {
                    assert(instruments_ok_upto(d, k as int) && !instrument_ok(d, inst_ptr(d, k as int)));
                    return Err(e);
                },
            }
            k = k + 1;
        }

        // Parse all samples
        let mut samples: Vec<Sample> = Vec::new();
        let mut k: usize = 0;
        while k < samp_ptrs.len()
            invariant
                d == data@,
                d.len() >= 4,
                d.subrange(0, 4) == song_magic(),
                song_header_eof(d) is None,
                instruments_ok_upto(d, num_instruments_of(d)),
                samp_ptrs@.len() == num_samples_of(d),
                forall|j: int| 0 <= j < samp_ptrs@.len() ==> #[trigger] samp_ptrs@[j] == samp_ptr(d, j),
                k <= samp_ptrs@.len(),
                samples@.len() == k,
                samples_ok_upto(d, k as int),
                forall|j: int| 0 <= j < k ==> #[trigger] samples@[j].read_from(d, samp_ptr(d, j)),
            decreases samp_ptrs@.len() - k,
        {
            let res = Sample::parse(data.as_slice(), samp_ptrs[k]);
            match res {
                Ok(smp) => {
                    samples.push(smp);
                },
                Err(e) => {
                    assert(samples_ok_upto(d, k as int) && !sample_ok(d, samp_ptr(d, k as int)));
                    return Err(e);
                },
            }
            k = k + 1;
        }

        Ok(Song {
            title,
            num_orders,
            num_instruments,
            num_samples,
            num_patterns,
            flags,
            global_vol,
            mv,
            speed,
            tempo,
            instruments,
            samples,
            raw: data,
        })
    }

    /// The file bytes the song was read from.
    pub fn raw_data(&self) -> (r: &[u8])
        ensures
            r@ == self.raw@,
    {
        self.raw.as_slice()
    }
}

} // verus!
