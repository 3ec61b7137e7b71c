use it2mpc::error::ItError;
use it2mpc::it::{Sample, Song};

fn put16(d: &mut [u8], at: usize, v: u16) {
    d[at..at + 2].copy_from_slice(&v.to_le_bytes());
}

fn put32(d: &mut [u8], at: usize, v: u32) {
    d[at..at + 4].copy_from_slice(&v.to_le_bytes());
}

fn put_text(d: &mut [u8], at: usize, text: &str) {
    d[at..at + text.len()].copy_from_slice(text.as_bytes());
}

/// An 80-byte sample header (the data pointer is filled in by `song_bytes`).
fn sample_header(name: &str, flags: u8, length: u32, c5: u32, loop_start: u32, loop_end: u32) -> Vec<u8> {
    let mut h = vec![0u8; 80];
    put_text(&mut h, 0, "IMPS");
    put_text(&mut h, 4, "SMP.WAV");
    h[17] = 64; // global volume
    h[18] = flags;
    h[19] = 48; // default volume
    put_text(&mut h, 20, name);
    h[46] = 1; // signed samples
    put32(&mut h, 48, length);
    put32(&mut h, 52, loop_start);
    put32(&mut h, 56, loop_end);
    put32(&mut h, 60, c5);
    put32(&mut h, 64, 7);
    put32(&mut h, 68, 9);
    h[76] = 1;
    h[77] = 2;
    h[78] = 3;
    h[79] = 4;
    h
}

/// An instrument header: 64 bytes of fields, the note-sample table, three empty envelopes.
fn instrument_block(name: &str, nna: u8, fadeout: u16, global_vol: u8, pan: u8, sample: u8) -> Vec<u8> {
    let mut h = vec![0u8; 64 + 240 + 3 * 81];
    put_text(&mut h, 0, "IMPI");
    put_text(&mut h, 4, "INST.ITI");
    h[17] = nna;
    h[18] = 1;
    h[19] = 2;
    put16(&mut h, 20, fadeout);
    h[22] = 5;
    h[23] = 60;
    h[24] = global_vol;
    h[25] = pan;
    h[26] = 11;
    h[27] = 12;
    put_text(&mut h, 32, name);
    h[58] = 0x80 | 100; // filter cutoff, active
    h[59] = 20; // filter resonance, inactive
    for note in 0..120 {
        h[64 + 2 * note] = note as u8;
        h[64 + 2 * note + 1] = if note >= 10 { sample } else { 0 };
    }
    h[304] = 0x03; // volume envelope: on, looped
    h[304 + 81 + 81] = 0x80; // pitch envelope used as a filter
    h
}

/// A whole module: header, pointer tables, instruments, sample headers, sample data.
fn song_bytes(title: &str, flags: u16, insts: &[Vec<u8>], samples: &[(Vec<u8>, Vec<u8>)]) -> Vec<u8> {
    let mut d = vec![0u8; 192];
    put_text(&mut d, 0, "IMPM");
    put_text(&mut d, 4, title);
    put16(&mut d, 32, 0);
    put16(&mut d, 34, insts.len() as u16);
    put16(&mut d, 36, samples.len() as u16);
    put16(&mut d, 38, 3);
    put16(&mut d, 44, flags);
    d[48] = 128;
    d[49] = 48;
    d[50] = 6;
    d[51] = 125;
    let table = d.len();
    d.resize(table + 4 * (insts.len() + samples.len()), 0);
    for (i, inst) in insts.iter().enumerate() {
        let at = d.len() as u32;
        put32(&mut d, table + 4 * i, at);
        d.extend_from_slice(inst);
    }
    let mut headers = Vec::new();
    for (i, (h, _)) in samples.iter().enumerate() {
        let at = d.len();
        put32(&mut d, table + 4 * (insts.len() + i), at as u32);
        d.extend_from_slice(h);
        headers.push(at);
    }
    for (i, (_, data)) in samples.iter().enumerate() {
        if !data.is_empty() {
            let at = d.len() as u32;
            put32(&mut d, headers[i] + 72, at);
            d.extend_from_slice(data);
        }
    }
    d
}

/// Bits packed least significant first, as IT compressed blocks hold them.
fn pack_bits(values: &[(u32, u32)]) -> Vec<u8> {
    let mut out = Vec::new();
    let mut pos = 0usize;
    for &(v, width) in values {
        for b in 0..width {
            if pos % 8 == 0 {
                out.push(0u8);
            }
            if (v >> b) & 1 != 0 {
                let last = out.len() - 1;
                out[last] |= 1 << (pos % 8);
            }
            pos += 1;
        }
    }
    out
}

/// One compressed block: its byte count, then its bytes.
fn block(bytes: &[u8]) -> Vec<u8> {
    let mut b = (bytes.len() as u16).to_le_bytes().to_vec();
    b.extend_from_slice(bytes);
    b
}

fn sample_with(flags: u8, length: u32, pointer: u32, convert_flags: u8) -> Sample {
    Sample {
        dos_filename: String::new(),
        global_vol: 64,
        flags,
        default_vol: 64,
        name: String::from("s"),
        length,
        loop_start: 0,
        loop_end: 0,
        c5_speed: 8363,
        susloop_start: 0,
        susloop_end: 0,
        sample_pointer: pointer,
        vibrato_speed: 0,
        vibrato_depth: 0,
        vibrato_sweep: 0,
        vibrato_wave: 0,
        bits16: flags & 0x02 != 0,
        stereo: flags & 0x04 != 0,
        loop_active: false,
        sustain_loop_active: false,
        pingpong: false,
        sustain_pingpong: false,
        compressed: flags & 0x08 != 0,
        convert_flags,
    }
}

#[test]
fn song_header_fields_are_read() {
    let data = song_bytes("My Song", 0x0d, &[], &[]);
    let song = Song::load(data.clone()).unwrap();
    assert_eq!(song.title, "My Song");
    assert_eq!(song.num_orders, 0);
    assert_eq!(song.num_instruments, 0);
    assert_eq!(song.num_samples, 0);
    assert_eq!(song.num_patterns, 3);
    assert_eq!(song.flags, 0x0d);
    assert_eq!(song.global_vol, 128);
    assert_eq!(song.mv, 48);
    assert_eq!(song.speed, 6);
    assert_eq!(song.tempo, 125);
    assert!(song.uses_instruments());
    assert_eq!(song.raw_data(), &data[..]);
}

#[test]
fn song_uses_samples_without_flag_bit_2() {
    let song = Song::load(song_bytes("x", 0x09, &[], &[])).unwrap();
    assert!(!song.uses_instruments());
}

#[test]
fn title_stops_at_nul_and_replaces_non_ascii() {
    let mut data = song_bytes("", 0, &[], &[]);
    data[4] = b'A';
    data[5] = 0xe9;
    data[6] = b'B';
    data[7] = 0;
    data[8] = b'C';
    let song = Song::load(data).unwrap();
    assert_eq!(song.title, "A?B");
}

#[test]
fn empty_file_is_refused_at_offset_zero() {
    assert!(matches!(Song::load(Vec::new()), Err(ItError::UnexpectedEof { offset: 0 })));
}

#[test]
fn wrong_signature_is_refused() {
    let mut data = song_bytes("x", 0, &[], &[]);
    data[0] = b'X';
    match Song::load(data) {
        Err(ItError::BadMagic { expected, got }) => {
            assert_eq!(expected, b"IMPM".to_vec());
            assert_eq!(got, b"XMPM".to_vec());
        }
        other => panic!("unexpected result: {:?}", other),
    }
}

#[test]
fn truncated_title_is_refused() {
    let mut data = b"IMPM".to_vec();
    data.extend_from_slice(b"short");
    assert!(matches!(Song::load(data), Err(ItError::UnexpectedEof { offset: 4 })));
}

#[test]
fn truncated_channel_table_is_refused_as_a_skip() {
    let data = song_bytes("x", 0, &[], &[]);
    let cut = data[..100].to_vec();
    assert!(matches!(Song::load(cut), Err(ItError::UnexpectedEofSkip { offset: 64 })));
}

#[test]
fn truncated_pointer_table_is_refused() {
    let data = song_bytes("x", 0, &[], &[(sample_header("a", 0x01, 0, 8363, 0, 0), Vec::new())]);
    let cut = data[..194].to_vec();
    assert!(matches!(Song::load(cut), Err(ItError::UnexpectedEof { offset: 192 })));
}

#[test]
fn sample_pointer_past_the_end_is_refused() {
    let mut data = song_bytes("x", 0, &[], &[]);
    put16(&mut data, 36, 1);
    data.extend_from_slice(&1000u32.to_le_bytes());
    assert!(matches!(Song::load(data), Err(ItError::SamplePointerOutOfRange { ptr: 1000 })));
}

#[test]
fn sample_without_signature_is_refused() {
    let mut h = sample_header("a", 0x01, 0, 8363, 0, 0);
    h[0] = b'J';
    let data = song_bytes("x", 0, &[], &[(h, Vec::new())]);
    assert!(matches!(Song::load(data), Err(ItError::BadMagic { .. })));
}

#[test]
fn instrument_past_the_end_is_refused() {
    let inst = instrument_block("i", 0, 0, 64, 32, 1);
    let data = song_bytes("x", 4, &[inst], &[]);
    let cut = data[..data.len() - 10].to_vec();
    assert!(matches!(
        Song::load(cut),
        Err(ItError::UnexpectedEof { .. }) | Err(ItError::UnexpectedEofSkip { .. })
    ));
}

#[test]
fn sample_header_fields_are_read() {
    let flags = 0x01 | 0x02 | 0x10 | 0x40;
    let data = song_bytes("x", 0, &[], &[(sample_header("Kick", flags, 0, 22050, 10, 20), Vec::new())]);
    let song = Song::load(data).unwrap();
    let s = &song.samples[0];
    assert_eq!(s.name, "Kick");
    assert_eq!(s.dos_filename, "SMP.WAV");
    assert_eq!(s.global_vol, 64);
    assert_eq!(s.default_vol, 48);
    assert_eq!(s.flags, flags);
    assert_eq!(s.convert_flags, 1);
    assert_eq!(s.c5_speed, 22050);
    assert_eq!((s.loop_start, s.loop_end), (10, 20));
    assert_eq!((s.susloop_start, s.susloop_end), (7, 9));
    assert_eq!((s.vibrato_speed, s.vibrato_depth, s.vibrato_sweep, s.vibrato_wave), (1, 2, 3, 4));
    assert!(s.bits16);
    assert!(!s.stereo);
    assert!(!s.compressed);
    assert!(s.loop_active);
    assert!(!s.sustain_loop_active);
    assert!(s.pingpong);
    assert!(!s.sustain_pingpong);
    assert_eq!(s.display_name(), "Kick");
}

#[test]
fn blank_sample_name_shows_dos_file_name() {
    let data = song_bytes("x", 0, &[], &[(sample_header("   ", 0x01, 0, 8363, 0, 0), Vec::new())]);
    let song = Song::load(data).unwrap();
    assert_eq!(song.samples[0].display_name(), "SMP.WAV");
}

#[test]
fn instrument_fields_and_envelopes_are_read() {
    let inst = instrument_block("Lead", 3, 256, 100, 20, 1);
    let data = song_bytes("x", 4, &[inst], &[(sample_header("a", 0x01, 0, 8363, 0, 0), Vec::new())]);
    let song = Song::load(data).unwrap();
    let i = &song.instruments[0];
    assert_eq!(i.name, "Lead");
    assert_eq!(i.dos_filename, "INST.ITI");
    assert_eq!(i.new_note_action, 3);
    assert_eq!(i.nna_name(), "fade");
    assert_eq!(i.duplicate_check_type, 1);
    assert_eq!(i.duplicate_check_action, 2);
    assert_eq!(i.fadeout, 256);
    assert_eq!((i.pitch_pan_separation, i.pitch_pan_center), (5, 60));
    assert_eq!((i.global_vol, i.default_pan), (100, 20));
    assert_eq!((i.random_vol, i.random_pan), (11, 12));
    assert_eq!(i.active_filter_cutoff(), Some(100));
    assert_eq!(i.active_filter_resonance(), None);
    assert_eq!(i.note_sample_table[5], (5, 0));
    assert_eq!(i.note_sample_table[50], (50, 1));
    assert!(i.env_vol.envelope_enabled());
    assert!(i.env_vol.loop_enabled());
    assert!(!i.env_vol.sustain_enabled());
    assert!(!i.env_vol.is_filter());
    assert!(i.env_pitch.is_filter());
    assert!(!i.env_pan.envelope_enabled());
    assert!(i.env_vol.points.is_empty());
}

#[test]
fn envelope_points_are_read() {
    let mut inst = instrument_block("p", 0, 0, 64, 32, 1);
    inst[305] = 2; // two points
    inst[310] = 0xff; // -1
    inst[311..313].copy_from_slice(&300u16.to_le_bytes());
    inst[313] = 64;
    inst[314..316].copy_from_slice(&7u16.to_le_bytes());
    let data = song_bytes("x", 4, &[inst], &[]);
    let song = Song::load(data).unwrap();
    let env = &song.instruments[0].env_vol;
    assert_eq!(env.num_points, 2);
    assert_eq!(env.points, vec![(-1i8, 300u16), (64i8, 7u16)]);
}

#[test]
fn new_note_action_names() {
    let names: Vec<&str> = (0u8..6)
        .map(|nna| {
            let data = song_bytes("x", 4, &[instrument_block("n", nna, 0, 64, 32, 0)], &[]);
            let song = Song::load(data).unwrap();
            song.instruments[0].nna_name()
        })
        .collect();
    assert_eq!(names, vec!["cut", "continue", "note-off", "fade", "cut", "cut"]);
}

#[test]
fn raw_8bit_samples_are_scaled_to_16_bits() {
    let data = song_bytes("x", 0, &[], &[(sample_header("a", 0x01, 4, 8363, 0, 0), vec![0, 128, 255, 129])]);
    let song = Song::load(data).unwrap();
    let pcm = song.samples[0].extract_pcm(song.raw_data()).unwrap();
    assert_eq!(pcm, vec![-32768, 0, 32512, 256]);
}

#[test]
fn raw_16bit_samples_are_little_endian() {
    let bytes = vec![0x34, 0x12, 0xff, 0xff, 0x00, 0x80];
    let data = song_bytes("x", 0, &[], &[(sample_header("a", 0x03, 3, 8363, 0, 0), bytes)]);
    let song = Song::load(data).unwrap();
    let pcm = song.samples[0].extract_pcm(song.raw_data()).unwrap();
    assert_eq!(pcm, vec![0x1234, -1, -32768]);
}

#[test]
fn raw_stereo_sample_has_both_channels() {
    let data = song_bytes("x", 0, &[], &[(sample_header("a", 0x05, 2, 8363, 0, 0), vec![128, 129, 130, 131])]);
    let song = Song::load(data).unwrap();
    let pcm = song.samples[0].extract_pcm(song.raw_data()).unwrap();
    assert_eq!(pcm, vec![0, 256, 512, 768]);
}

#[test]
fn raw_sample_past_the_end_is_an_error() {
    let d8 = song_bytes("x", 0, &[], &[(sample_header("a", 0x01, 10, 8363, 0, 0), vec![1, 2, 3])]);
    let song = Song::load(d8).unwrap();
    assert!(matches!(song.samples[0].extract_pcm(song.raw_data()), Err(ItError::Raw8OutOfRange)));
    let d16 = song_bytes("x", 0, &[], &[(sample_header("a", 0x03, 2, 8363, 0, 0), vec![1, 2, 3])]);
    let song = Song::load(d16).unwrap();
    assert!(matches!(song.samples[0].extract_pcm(song.raw_data()), Err(ItError::Raw16OutOfRange)));
}

#[test]
fn sample_without_data_pointer_decodes_to_nothing() {
    let data = song_bytes("x", 0, &[], &[(sample_header("a", 0x01, 5, 8363, 0, 0), Vec::new())]);
    let song = Song::load(data).unwrap();
    assert_eq!(song.samples[0].sample_pointer, 0);
    assert_eq!(song.samples[0].extract_pcm(song.raw_data()).unwrap(), Vec::<i16>::new());
}

#[test]
fn compressed_8bit_single_delta() {
    let mut data = vec![0u8; 4];
    data.extend(block(&pack_bits(&[(1, 9), (2, 9), (0xff, 9)])));
    let s = sample_with(0x09, 3, 4, 0);
    assert_eq!(s.extract_pcm(&data).unwrap(), vec![256, 768, 512]);
}

#[test]
fn compressed_8bit_double_delta() {
    let mut data = vec![0u8; 4];
    data.extend(block(&pack_bits(&[(1, 9), (2, 9), (0xff, 9)])));
    let s = sample_with(0x09, 3, 4, 0x04);
    assert_eq!(s.extract_pcm(&data).unwrap(), vec![256, 1024, 1536]);
}

#[test]
fn compressed_8bit_width_changes() {
    // 9-bit code 0x100 | 4 switches to width (4 + 1) & 0xff = 5; a 5-bit sample 3;
    // the 5-bit code 1 << 4 then reads 3 bits, 6, so width (6 + 1) + 1 = 8 (not below 5);
    // an 8-bit sample 0xfe (-2).
    let bits = pack_bits(&[(0x104, 9), (3, 5), (16, 5), (6, 3), (0xfe, 8)]);
    let mut data = vec![0u8; 2];
    data.extend(block(&bits));
    let s = sample_with(0x09, 2, 2, 0);
    assert_eq!(s.extract_pcm(&data).unwrap(), vec![3 * 256, 256]);
}

#[test]
fn compressed_8bit_short_data_gives_fewer_samples() {
    let mut data = vec![0u8; 4];
    data.extend(block(&pack_bits(&[(5, 9)])));
    let s = sample_with(0x09, 10, 4, 0);
    let pcm = s.extract_pcm(&data).unwrap();
    assert!(pcm.len() < 10);
    assert_eq!(pcm[0], 5 * 256);
}

#[test]
fn compressed_16bit_single_delta() {
    let mut data = vec![0u8; 4];
    data.extend(block(&pack_bits(&[(100, 17), (0xffff, 17), (0x8000, 17)])));
    let s = sample_with(0x0b, 3, 4, 0);
    assert_eq!(s.extract_pcm(&data).unwrap(), vec![100, 99, 99i16.wrapping_add(-32768)]);
}

#[test]
fn compressed_16bit_double_delta() {
    let mut data = vec![0u8; 4];
    data.extend(block(&pack_bits(&[(100, 17), (0xffff, 17)])));
    let s = sample_with(0x0b, 2, 4, 0x04);
    assert_eq!(s.extract_pcm(&data).unwrap(), vec![100, 199]);
}

#[test]
fn compressed_stereo_channels_are_interleaved() {
    let mut data = vec![0u8; 4];
    data.extend(block(&pack_bits(&[(1, 9), (1, 9)])));
    data.extend(block(&pack_bits(&[(0xff, 9), (0xff, 9)])));
    let s = sample_with(0x0d, 2, 4, 0);
    assert_eq!(s.extract_pcm(&data).unwrap(), vec![256, -256, 512, -512]);
}

#[test]
fn compressed_stereo_with_short_channel_cannot_be_decoded() {
    let mut data = vec![0u8; 4];
    data.extend(block(&pack_bits(&[(1, 9), (1, 9)])));
    data.extend(block(&pack_bits(&[(0xff, 9)])));
    let s = sample_with(0x0d, 2, 4, 0);
    assert!(s.checked_extract_pcm(&data).is_none());
}

#[test]
fn compressed_width_zero_cannot_be_decoded() {
    // The 9-bit code 0x1ff switches to width (0x1ff + 1) & 0xff = 0.
    let mut data = vec![0u8; 4];
    data.extend(block(&pack_bits(&[(0x1ff, 9), (0, 8)])));
    let s = sample_with(0x09, 4, 4, 0);
    assert!(s.checked_extract_pcm(&data).is_none());
}

#[test]
fn decoded_8bit_samples_are_multiples_of_256() {
    let mut data = vec![0u8; 4];
    let values: Vec<(u32, u32)> = (0..40u32).map(|k| ((k * 37) % 256, 9)).collect();
    data.extend(block(&pack_bits(&values)));
    for cvt in [0u8, 4] {
        let s = sample_with(0x09, 40, 4, cvt);
        let pcm = s.extract_pcm(&data).unwrap();
        assert_eq!(pcm.len(), 40);
        assert!(pcm.iter().all(|v| v % 256 == 0));
    }
}

#[test]
fn error_messages() {
    assert_eq!(ItError::UnexpectedEof { offset: 30 }.message(), "unexpected end of file at offset 30");
    assert_eq!(ItError::UnexpectedEofSkip { offset: 64 }.message(), "unexpected end of file (skip) at offset 64");
    let bad = ItError::BadMagic { expected: b"IMPM".to_vec(), got: vec![0, 1, 255, 9] };
    assert_eq!(bad.message(), format!("bad magic: expected {:?}, got {:?}", &b"IMPM"[..], &[0u8, 1, 255, 9][..]));
    let empty = ItError::BadMagic { expected: Vec::new(), got: vec![7] };
    assert_eq!(empty.message(), "bad magic: expected [], got [7]");
    assert_eq!(ItError::SamplePointerOutOfRange { ptr: 99 }.message(), "sample pointer out of range: 99");
    assert_eq!(ItError::Raw16OutOfRange.message(), "raw 16-bit sample data out of range");
    assert_eq!(ItError::Raw8OutOfRange.message(), "raw 8-bit sample data out of range");
}

#[test]
fn load_failure_message_names_the_offset() {
    let data = b"IMPMabc".to_vec();
    let e = Song::load(data).unwrap_err();
    assert_eq!(e.message(), "unexpected end of file at offset 4");
}
