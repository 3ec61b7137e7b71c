use it2mpc::info::info_text;
use it2mpc::it::{Envelope, Instrument, Sample, Song};
use it2mpc::mpc::{generate_xal, generate_xpj, generate_xpm, sample_name, xml_escape, xpm_instrument, PadEntry};
use it2mpc::names::{checked_make_unique_name, make_unique_name, sanitize_name};
use it2mpc::project::{
    build_pads_from_instruments, build_pads_from_samples, default_project_name, extract_sample_wav,
    exceeds_pad_limit, instrument_mode, primary_sample_index, project_data_dir_name,
};
use it2mpc::wav::{wav_size_fits, write_wav, LoopInfo};
use std::io::Write;

fn sample(name: &str, default_vol: u8, global_vol: u8, flags: u8, length: u32) -> Sample {
    Sample {
        dos_filename: String::from("DOS.SMP"),
        global_vol,
        flags,
        default_vol,
        name: String::from(name),
        length,
        loop_start: 3,
        loop_end: 40,
        c5_speed: 22050,
        susloop_start: 1,
        susloop_end: 2,
        sample_pointer: 0,
        vibrato_speed: 0,
        vibrato_depth: 0,
        vibrato_sweep: 0,
        vibrato_wave: 0,
        bits16: flags & 0x02 != 0,
        stereo: flags & 0x04 != 0,
        loop_active: flags & 0x10 != 0,
        sustain_loop_active: flags & 0x20 != 0,
        pingpong: flags & 0x40 != 0,
        sustain_pingpong: flags & 0x80 != 0,
        compressed: flags & 0x08 != 0,
        convert_flags: 1,
    }
}

fn envelope() -> Envelope {
    Envelope { flags: 0, num_points: 0, loop_start: 0, loop_end: 0, susloop_start: 0, susloop_end: 0, points: Vec::new() }
}

fn instrument(name: &str, nna: u8, fadeout: u16, global_vol: u8, default_pan: u8, first_sample: u8) -> Instrument {
    let mut table = [(0u8, 0u8); 120];
    for (k, e) in table.iter_mut().enumerate() {
        *e = (k as u8, if k >= 30 { first_sample } else { 0 });
    }
    Instrument {
        dos_filename: String::from("DOS.INS"),
        new_note_action: nna,
        duplicate_check_type: 0,
        duplicate_check_action: 0,
        fadeout,
        pitch_pan_separation: 0,
        pitch_pan_center: 60,
        global_vol,
        default_pan,
        random_vol: 0,
        random_pan: 0,
        name: String::from(name),
        filter_cutoff: 0,
        filter_resonance: 0,
        note_sample_table: table,
        env_vol: envelope(),
        env_pan: envelope(),
        env_pitch: envelope(),
    }
}

/// A song built field by field; `raw` holds the sample data the samples point into.
fn song(flags: u16, instruments: Vec<Instrument>, samples: Vec<Sample>, raw: Vec<u8>) -> Song {
    Song {
        title: String::from("Test Song"),
        num_orders: 0,
        num_instruments: instruments.len() as u16,
        num_samples: samples.len() as u16,
        num_patterns: 0,
        flags,
        global_vol: 128,
        mv: 48,
        speed: 6,
        tempo: 125,
        instruments,
        samples,
        raw,
    }
}

fn expected_info(song: &Song, project_name: &str) -> String {
    let mut out = String::new();
    out += &format!("Project name : {}\n", project_name);
    out += &format!("Song title   : {}\n", song.title);
    out += &format!("Instruments  : {}\n", song.num_instruments);
    out += &format!("Samples      : {}\n", song.num_samples);
    out += &format!("Mode         : {}\n", if song.uses_instruments() { "instrument" } else { "sample" });
    out += &format!("Speed        : {}\n", song.speed);
    out += &format!("Tempo        : {}\n", song.tempo);
    out += &format!("Global vol   : {}\n", song.global_vol);
    if !song.instruments.is_empty() {
        out += "\nInstruments:\n";
        for (i, inst) in song.instruments.iter().enumerate() {
            out += &format!(
                "  {:>3}  {:26}  NNA={:10}  fadeout={}  vol={}  pan={}\n",
                i + 1,
                inst.display_name(),
                inst.nna_name(),
                inst.fadeout,
                inst.global_vol,
                if inst.default_pan <= 64 { format!("{}", inst.default_pan) } else { "default".to_string() }
            );
        }
    }
    if !song.samples.is_empty() {
        out += "\nSamples:\n";
        for (i, samp) in song.samples.iter().enumerate() {
            out += &format!(
                "  {:>3}  {:26}  len={:>7}  loop={} ({}-{}){}  {}Hz  {}bit{}\n",
                i + 1,
                samp.display_name(),
                samp.length,
                if samp.loop_active { "on " } else { "off" },
                samp.loop_start,
                samp.loop_end,
                if samp.pingpong { " pp" } else { "   " },
                samp.c5_speed,
                if samp.bits16 { 16 } else { 8 },
                if samp.stereo { " stereo" } else { "" }
            );
        }
    }
    out
}

fn expected_escape(s: &str) -> String {
    s.replace('&', "&amp;")
        .replace('<', "&lt;")
        .replace('>', "&gt;")
        .replace('"', "&quot;")
        .replace('\'', "&apos;")
}

/// Release time: fadeout (higher = faster) maps to 2 * (1 - fadeout / 128), kept within
/// 0.01..=1; none without a fadeout, except the slowest fade for a "fade" pad.
fn expected_release(fadeout: u16, fade: bool) -> f64 {
    if fadeout == 0 {
        if fade { 1.0 } else { 0.0 }
    } else {
        (2.0 * (1.0 - (fadeout as f64 / 128.0))).max(0.01).min(1.0)
    }
}

fn expected_xpm(program_name: &str, pads: &[PadEntry]) -> String {
    let mut xml = String::new();
    xml.push_str("<?xml version=\"1.0\" encoding=\"UTF-8\"?>\n\n");
    xml.push_str("<MPCVObject>\n");
    xml.push_str("  <Version>\n");
    xml.push_str("    <File_Version>1.7</File_Version>\n");
    xml.push_str("    <Application>MPC-V</Application>\n");
    xml.push_str("    <Application_Version>2.0</Application_Version>\n");
    xml.push_str("    <Platform>Windows</Platform>\n");
    xml.push_str("  </Version>\n");
    xml.push_str("  <Program type=\"Drum\">\n");
    xml.push_str(&format!("    <Name>{}</Name>\n", expected_escape(program_name)));

    // ProgramPads JSON blob
    xml.push_str("    <ProgramPads>{\n");
    xml.push_str("    &quot;ProgramPads&quot;: {\n");
    xml.push_str("        &quot;Universal&quot;: {\n");
    xml.push_str("            &quot;value0&quot;: true\n");
    xml.push_str("        },\n");
    xml.push_str("        &quot;Type&quot;: {\n");
    xml.push_str("            &quot;value0&quot;: 1\n");
    xml.push_str("        },\n");
    xml.push_str("        &quot;universalPad&quot;: 32512,\n");
    xml.push_str("        &quot;pads&quot;: {\n");
    for i in 0..128 {
        let comma = if i < 127 { "," } else { "" };
        xml.push_str(&format!("            &quot;value{}&quot;: 0{}\n", i, comma));
    }
    xml.push_str("        },\n");
    xml.push_str("        &quot;UnusedPads&quot;: {\n");
    xml.push_str("            &quot;value0&quot;: 1\n");
    xml.push_str("        }\n");
    xml.push_str("    }\n");
    xml.push_str("}</ProgramPads>\n");

    // Program-level defaults
    xml.push_str("    <AudioRoute>\n");
    xml.push_str("      <AudioRoute>2</AudioRoute>\n");
    xml.push_str("      <AudioRouteSubIndex>0</AudioRouteSubIndex>\n");
    xml.push_str("      <InsertsEnabled>True</InsertsEnabled>\n");
    xml.push_str("    </AudioRoute>\n");
    xml.push_str("    <Send1>0.000000</Send1>\n");
    xml.push_str("    <Send2>0.000000</Send2>\n");
    xml.push_str("    <Send3>0.000000</Send3>\n");
    xml.push_str("    <Send4>0.000000</Send4>\n");
    xml.push_str("    <Volume>0.707946</Volume>\n");
    xml.push_str("    <Mute>False</Mute>\n");
    xml.push_str("    <Pan>0.500000</Pan>\n");
    xml.push_str("    <Pitch>0.000000</Pitch>\n");
    xml.push_str("    <TuneCoarse>0</TuneCoarse>\n");
    xml.push_str("    <TuneFine>0</TuneFine>\n");
    xml.push_str("    <Mono>False</Mono>\n");
    xml.push_str("    <Program_Polyphony>0</Program_Polyphony>\n");

    xml.push_str("    <Instruments>\n");

    for i in 0..128usize {
        xml.push_str(&format!("      <Instrument number=\"{}\">\n", i + 1));
        xml.push_str("        <AudioRoute>\n");
        xml.push_str("          <AudioRoute>0</AudioRoute>\n");
        xml.push_str("          <AudioRouteSubIndex>0</AudioRouteSubIndex>\n");
        xml.push_str("          <InsertsEnabled>True</InsertsEnabled>\n");
        xml.push_str("        </AudioRoute>\n");
        xml.push_str("        <Send1>0.000000</Send1>\n");
        xml.push_str("        <Send2>0.000000</Send2>\n");
        xml.push_str("        <Send3>0.000000</Send3>\n");
        xml.push_str("        <Send4>0.000000</Send4>\n");

        if let Some(pad) = pads.get(i) {
            let pan_val = pad.pan.map(|p| p as f32 / 64.0).unwrap_or(0.5);
            xml.push_str(&format!("        <Volume>{:.6}</Volume>\n", pad.volume as f32 / 4096.0));
            xml.push_str("        <Mute>False</Mute>\n");
            xml.push_str(&format!("        <Pan>{:.6}</Pan>\n", pan_val));
            xml.push_str(&format!("        <TuneCoarse>{}</TuneCoarse>\n", pad.tune_coarse));
            xml.push_str(&format!("        <TuneFine>{}</TuneFine>\n", pad.tune_fine));
            xml.push_str("        <Mono>False</Mono>\n");
            xml.push_str(&format!("        <Polyphony>{}</Polyphony>\n", pad.polyphony));
        } else {
            xml.push_str("        <Volume>1.000000</Volume>\n");
            xml.push_str("        <Mute>False</Mute>\n");
            xml.push_str("        <Pan>0.500000</Pan>\n");
            xml.push_str("        <TuneCoarse>0</TuneCoarse>\n");
            xml.push_str("        <TuneFine>0</TuneFine>\n");
            xml.push_str("        <Mono>False</Mono>\n");
            xml.push_str("        <Polyphony>0</Polyphony>\n");
        }

        xml.push_str("        <FilterKeytrack>0.000000</FilterKeytrack>\n");
        xml.push_str("        <LowNote>0</LowNote>\n");
        xml.push_str("        <HighNote>127</HighNote>\n");
        xml.push_str("        <IgnoreBaseNote>False</IgnoreBaseNote>\n");
        xml.push_str("        <ZonePlay>1</ZonePlay>\n");
        xml.push_str("        <MuteGroup>0</MuteGroup>\n");
        xml.push_str("        <MuteTarget1>0</MuteTarget1>\n");
        xml.push_str("        <MuteTarget2>0</MuteTarget2>\n");
        xml.push_str("        <MuteTarget3>0</MuteTarget3>\n");
        xml.push_str("        <MuteTarget4>0</MuteTarget4>\n");
        xml.push_str("        <SimultTarget1>0</SimultTarget1>\n");
        xml.push_str("        <SimultTarget2>0</SimultTarget2>\n");
        xml.push_str("        <SimultTarget3>0</SimultTarget3>\n");
        xml.push_str("        <SimultTarget4>0</SimultTarget4>\n");

        // TriggerMode: 2 = "Note" (sustain/loop); 0 = "Note Off" (one-shot).
        // This is what MPC's "Pad Loop" button in Program Edit reflects.
        if let Some(pad) = pads.get(i) {
            let trigger_mode = if pad.loop_active { 2 } else { 0 };
            xml.push_str(&format!("        <TriggerMode>{}</TriggerMode>\n", trigger_mode));
        } else {
            xml.push_str("        <TriggerMode>0</TriggerMode>\n");
        }

        xml.push_str("        <FilterType>0</FilterType>\n");
        xml.push_str("        <Cutoff>1.000000</Cutoff>\n");
        xml.push_str("        <Resonance>0.000000</Resonance>\n");
        xml.push_str("        <FilterEnvAmt>0.000000</FilterEnvAmt>\n");
        xml.push_str("        <AfterTouchToFilter>0.000000</AfterTouchToFilter>\n");
        xml.push_str("        <VelocityToStart>0.000000</VelocityToStart>\n");
        xml.push_str("        <VelocityToFilterAttack>0.000000</VelocityToFilterAttack>\n");
        xml.push_str("        <VelocityToFilter>0.000000</VelocityToFilter>\n");
        xml.push_str("        <VelocityToFilterEnvelope>0.000000</VelocityToFilterEnvelope>\n");
        xml.push_str("        <FilterAttack>0.000000</FilterAttack>\n");
        xml.push_str("        <FilterDecay>0.050000</FilterDecay>\n");
        xml.push_str("        <FilterSustain>1.000000</FilterSustain>\n");
        xml.push_str("        <FilterRelease>0.000000</FilterRelease>\n");
        xml.push_str("        <FilterHold>0.000000</FilterHold>\n");
        xml.push_str("        <FilterDecayType>True</FilterDecayType>\n");
        xml.push_str("        <FilterADEnvelope>True</FilterADEnvelope>\n");
        xml.push_str("        <VolumeHold>0.000000</VolumeHold>\n");
        xml.push_str("        <VolumeDecayType>True</VolumeDecayType>\n");
        xml.push_str("        <VolumeADEnvelope>True</VolumeADEnvelope>\n");
        xml.push_str("        <VolumeAttack>0.000000</VolumeAttack>\n");
        xml.push_str("        <VolumeDecay>0.050000</VolumeDecay>\n");
        xml.push_str("        <VolumeSustain>1.000000</VolumeSustain>\n");

        if let Some(pad) = pads.get(i) {
            let release = expected_release(pad.fadeout, pad.nna == "fade");
            xml.push_str(&format!("        <VolumeRelease>{:.6}</VolumeRelease>\n", release));
        } else {
            xml.push_str("        <VolumeRelease>0.000000</VolumeRelease>\n");
        }

        xml.push_str("        <VelocityToPitch>0.000000</VelocityToPitch>\n");
        xml.push_str("        <VelocityToVolumeAttack>0.000000</VelocityToVolumeAttack>\n");
        xml.push_str("        <VelocitySensitivity>1.000000</VelocitySensitivity>\n");
        xml.push_str("        <VelocityToPan>0.000000</VelocityToPan>\n");
        xml.push_str("        <LFO LfoNum=\"0\">\n");
        xml.push_str("          <Type>Sine</Type>\n");
        xml.push_str("          <Rate>0.500000</Rate>\n");
        xml.push_str("          <Sync>0</Sync>\n");
        xml.push_str("          <Reset>False</Reset>\n");
        xml.push_str("          <LfoPitch>0.000000</LfoPitch>\n");
        xml.push_str("          <LfoCutoff>0.000000</LfoCutoff>\n");
        xml.push_str("          <LfoVolume>0.000000</LfoVolume>\n");
        xml.push_str("          <LfoPan>0.000000</LfoPan>\n");
        xml.push_str("        </LFO>\n");
        xml.push_str("        <WarpTempo>120.000000</WarpTempo>\n");
        xml.push_str("        <BpmLock>True</BpmLock>\n");
        xml.push_str("        <WarpEnable>False</WarpEnable>\n");
        xml.push_str("        <StretchPercentage>100</StretchPercentage>\n");
        xml.push_str("        <EditAllLayers>False</EditAllLayers>\n");
        xml.push_str("        <Layers>\n");

        if let Some(pad) = pads.get(i) {
            let sample_name = std::path::Path::new(&pad.wav_filename)
                .file_stem()
                .and_then(|s| s.to_str())
                .unwrap_or(&pad.wav_filename);
            xml.push_str("          <Layer number=\"1\">\n");
            xml.push_str("            <Active>True</Active>\n");
            xml.push_str("            <Volume>1.000000</Volume>\n");
            xml.push_str("            <Pan>0.500000</Pan>\n");
            xml.push_str("            <Pitch>0.000000</Pitch>\n");
            xml.push_str("            <TuneCoarse>0</TuneCoarse>\n");
            xml.push_str("            <TuneFine>0</TuneFine>\n");
            xml.push_str("            <VelStart>0</VelStart>\n");
            xml.push_str("            <VelEnd>127</VelEnd>\n");
            xml.push_str("            <SampleStart>0</SampleStart>\n");
            xml.push_str("            <SampleEnd>0</SampleEnd>\n");
            xml.push_str(&format!("            <LoopStart>{}</LoopStart>\n", pad.loop_start));
            xml.push_str(&format!("            <LoopEnd>{}</LoopEnd>\n", pad.loop_end));
            xml.push_str("            <LoopCrossfadeLength>0</LoopCrossfadeLength>\n");
            xml.push_str("            <LoopTune>0</LoopTune>\n");
            xml.push_str("            <Mute>False</Mute>\n");
            xml.push_str(&format!("            <RootNote>{}</RootNote>\n", pad.root_note));
            xml.push_str("            <KeyTrack>False</KeyTrack>\n");
            xml.push_str(&format!(
                "            <SampleName>{}</SampleName>\n",
                expected_escape(sample_name)
            ));
            xml.push_str("            <SampleFile></SampleFile>\n");
            xml.push_str("            <SliceIndex>128</SliceIndex>\n");
            xml.push_str("            <Direction>0</Direction>\n"); // 0=forward; ping-pong is encoded in WAV atem chunk
            xml.push_str("            <Offset>0</Offset>\n");
            xml.push_str("            <SliceStart>0</SliceStart>\n");
            xml.push_str("            <SliceEnd>0</SliceEnd>\n");
            xml.push_str("            <SliceLoopStart>0</SliceLoopStart>\n");
            xml.push_str("            <SliceLoop>0</SliceLoop>\n");
            xml.push_str("          </Layer>\n");
        }

        xml.push_str("        </Layers>\n");
        xml.push_str("      </Instrument>\n");
    }

    xml.push_str("    </Instruments>\n");
    xml.push_str("  </Program>\n");
    xml.push_str("</MPCVObject>\n");
    xml
}

fn expected_xal() -> String {
    let mut xml = String::new();
    xml.push_str("<?xml version=\"1.0\" encoding=\"UTF-8\"?>\n\n");
    xml.push_str("<MPCVObject>\n");
    xml.push_str("  <Version>\n");
    xml.push_str("    <File_Version>1.7</File_Version>\n");
    xml.push_str("    <Application>MPC-V</Application>\n");
    xml.push_str("    <Application_Version>2.0</Application_Version>\n");
    xml.push_str("    <Platform>Windows</Platform>\n");
    xml.push_str("  </Version>\n");
    xml.push_str("  <AllSeqSamps>\n");
    xml.push_str("    <Sequences>\n");
    xml.push_str("      <Count>128</Count>\n");
    xml.push_str("      <Sequence number=\"1\">\n");
    xml.push_str("        <Active>True</Active>\n");
    xml.push_str("        <Name>Sequence 01</Name>\n");
    xml.push_str("      </Sequence>\n");
    xml.push_str("    </Sequences>\n");
    xml.push_str("    <Songs>\n");
    xml.push_str("      <Count>32</Count>\n");
    for i in 1..=32 {
        xml.push_str(&format!("      <Song number=\"{}\">\n", i));
        xml.push_str("        <Name>(unnamed)</Name>\n");
        xml.push_str("        <TempoIgnore>False</TempoIgnore>\n");
        xml.push_str("      </Song>\n");
    }
    xml.push_str("    </Songs>\n");
    xml.push_str("  </AllSeqSamps>\n");
    xml.push_str("</MPCVObject>\n");
    xml
}

fn expected_xpj(
    project_name: &str,
    project_data_dir_name: &str,
    wav_filenames: &[String],
) -> String {
    let mut xml = String::new();
    xml.push_str("<?xml version=\"1.0\" encoding=\"UTF-8\"?>\n\n");
    xml.push_str("<Project>\n");
    xml.push_str("  <Version>\n");
    xml.push_str("    <File_Version>1.7</File_Version>\n");
    xml.push_str("    <Application>MPC-V</Application>\n");
    xml.push_str("    <Application_Version>2.0</Application_Version>\n");
    xml.push_str("    <Platform>Windows</Platform>\n");
    xml.push_str("  </Version>\n");
    xml.push_str("  <ProductCode>1299211094</ProductCode>\n");
    xml.push_str("  <BPM>120.000000</BPM>\n");
    xml.push_str("  <MasterVolume>0.707946</MasterVolume>\n");
    xml.push_str("  <FileList>\n");

    xml.push_str(&format!(
        "    <File>.\\{}\\All Sequences &amp; Songs.xal</File>\n",
        expected_escape(project_data_dir_name)
    ));

    for wav in wav_filenames {
        xml.push_str(&format!(
            "    <File>.\\{}\\{}</File>\n",
            expected_escape(project_data_dir_name),
            expected_escape(wav)
        ));
    }

    xml.push_str(&format!(
        "    <File>.\\{}\\{}.xpm</File>\n",
        expected_escape(project_data_dir_name),
        expected_escape(project_name)
    ));

    xml.push_str("  </FileList>\n");
    xml.push_str("  <Mixer>\n");

    xml.push_str("    <Mixer.Input number=\"1\">\n");
    xml.push_str("      <Name>Input</Name>\n");
    xml.push_str("      <AudioRoute>\n");
    xml.push_str("        <AudioRoute>2</AudioRoute>\n");
    xml.push_str("        <AudioRouteSubIndex>0</AudioRouteSubIndex>\n");
    xml.push_str("        <InsertsEnabled>True</InsertsEnabled>\n");
    xml.push_str("      </AudioRoute>\n");
    xml.push_str("      <Send1>0.000000</Send1>\n");
    xml.push_str("      <Send2>0.000000</Send2>\n");
    xml.push_str("      <Send3>0.000000</Send3>\n");
    xml.push_str("      <Send4>0.000000</Send4>\n");
    xml.push_str("      <Volume>0.707946</Volume>\n");
    xml.push_str("      <Mute>False</Mute>\n");
    xml.push_str("      <Pan>0.500000</Pan>\n");
    xml.push_str("    </Mixer.Input>\n");

    for i in 1..=4 {
        xml.push_str(&format!("    <Mixer.Return number=\"{}\">\n", i));
        xml.push_str(&format!("      <Name>Return {}</Name>\n", i));
        xml.push_str("      <AudioRoute>\n");
        xml.push_str("        <AudioRoute>2</AudioRoute>\n");
        xml.push_str("        <AudioRouteSubIndex>0</AudioRouteSubIndex>\n");
        xml.push_str("        <InsertsEnabled>True</InsertsEnabled>\n");
        xml.push_str("      </AudioRoute>\n");
        xml.push_str("      <Send1>0.000000</Send1>\n");
        xml.push_str("      <Send2>0.000000</Send2>\n");
        xml.push_str("      <Send3>0.000000</Send3>\n");
        xml.push_str("      <Send4>0.000000</Send4>\n");
        xml.push_str("      <Volume>0.707946</Volume>\n");
        xml.push_str("      <Mute>False</Mute>\n");
        xml.push_str("      <Pan>0.500000</Pan>\n");
        xml.push_str("    </Mixer.Return>\n");
    }

    for i in 1..=8 {
        xml.push_str(&format!("    <Mixer.Submix number=\"{}\">\n", i));
        xml.push_str(&format!("      <Name>Submix {}</Name>\n", i));
        xml.push_str("      <AudioRoute>\n");
        xml.push_str("        <AudioRoute>2</AudioRoute>\n");
        xml.push_str("        <AudioRouteSubIndex>0</AudioRouteSubIndex>\n");
        xml.push_str("        <InsertsEnabled>True</InsertsEnabled>\n");
        xml.push_str("      </AudioRoute>\n");
        xml.push_str("      <Send1>0.000000</Send1>\n");
        xml.push_str("      <Send2>0.000000</Send2>\n");
        xml.push_str("      <Send3>0.000000</Send3>\n");
        xml.push_str("      <Send4>0.000000</Send4>\n");
        xml.push_str("      <Volume>0.707946</Volume>\n");
        xml.push_str("      <Mute>False</Mute>\n");
        xml.push_str("      <Pan>0.500000</Pan>\n");
        xml.push_str("    </Mixer.Submix>\n");
    }

    for i in 1..=16 {
        xml.push_str(&format!("    <Mixer.Output number=\"{}\">\n", i));
        xml.push_str(&format!("      <Name>Output {}</Name>\n", i));
        xml.push_str("      <AudioRoute>\n");
        xml.push_str("        <AudioRoute>2</AudioRoute>\n");
        xml.push_str("        <AudioRouteSubIndex>0</AudioRouteSubIndex>\n");
        xml.push_str("        <InsertsEnabled>True</InsertsEnabled>\n");
        xml.push_str("      </AudioRoute>\n");
        xml.push_str("      <Send1>0.000000</Send1>\n");
        xml.push_str("      <Send2>0.000000</Send2>\n");
        xml.push_str("      <Send3>0.000000</Send3>\n");
        xml.push_str("      <Send4>0.000000</Send4>\n");
        xml.push_str("      <Volume>0.707946</Volume>\n");
        xml.push_str("      <Mute>False</Mute>\n");
        xml.push_str("      <Pan>0.500000</Pan>\n");
        xml.push_str("    </Mixer.Output>\n");
    }

    xml.push_str("  </Mixer>\n");
    xml.push_str("</Project>\n");
    xml
}

fn expected_wav(
    writer: &mut Vec<u8>,
    samples: &[i16],
    num_channels: u16,
    sample_rate: u32,
    loop_info: Option<&LoopInfo>,
) -> std::io::Result<()> {
    let num_frames = (samples.len() / num_channels.max(1) as usize) as u32;
    let last_frame = num_frames.saturating_sub(1);

    // Build atem JSON -------------------------------------------------------
    let loop_start = loop_info.filter(|l| l.active).map(|l| l.start).unwrap_or(0);
    let loop_mode: u32 = match loop_info {
        Some(l) if l.active && l.pingpong => 2,
        Some(l) if l.active => 1,
        _ => 0,
    };

    let mut atem_json = format!(
        "{{\n\
        \x20   \"version\": 1,\n\
        \x20   \"value0\": {{\n\
        \x20       \"defaultSlice\": {{\n\
        \x20           \"Start\": 0,\n\
        \x20           \"End\": {},\n\
        \x20           \"LoopStart\": {},\n\
        \x20           \"LoopMode\": {},\n\
        \x20           \"PulsePosition\": 0,\n\
        \x20           \"LoopCrossfadeLength\": 0,\n\
        \x20           \"LoopCrossfadeType\": 0,\n\
        \x20           \"TailLength\": 0.0,\n\
        \x20           \"TailLoopPosition\": 0.5\n\
        \x20       }},\n\
        \x20       \"numBars\": 2,\n\
        \x20       \"Num slices\": 0\n\
        \x20   }},\n\
        \x20   \"value1\": {{\n\
        \x20       \"version\": 1,\n\
        \x20       \"note\": \"C#\",\n\
        \x20       \"scale\": \"Major\"\n\
        \x20   }}\n\
        }}",
        last_frame, loop_start, loop_mode
    );

    // MPC's RIFF parser doesn't skip the padding byte on odd-size chunks, so
    // it misreads all subsequent chunk offsets. Ensure the JSON is always an
    // even number of bytes so no padding byte is ever needed.
    if atem_json.len() % 2 != 0 {
        atem_json.push(' ');
    }
    let atem_bytes = atem_json.as_bytes();

    // Chunk sizes -----------------------------------------------------------
    let data_bytes = (samples.len() * 2) as u32;
    // RIFF payload = "WAVE"(4) + fmt(8+16) + atem(8+len) + meta(8+4) + data(8+data_bytes)
    // atem_bytes.len() is always even so no padding byte is written.
    let riff_size: u32 = 4
        + (8 + 16)
        + (8 + atem_bytes.len() as u32)
        + (8 + 4)
        + (8 + data_bytes);

    let block_align = num_channels * 2;
    let byte_rate = sample_rate * block_align as u32;

    // Write -----------------------------------------------------------------
    writer.write_all(b"RIFF")?;
    writer.write_all(&riff_size.to_le_bytes())?;
    writer.write_all(b"WAVE")?;

    // fmt chunk
    writer.write_all(b"fmt ")?;
    writer.write_all(&16u32.to_le_bytes())?;
    writer.write_all(&1u16.to_le_bytes())?;           // PCM
    writer.write_all(&num_channels.to_le_bytes())?;
    writer.write_all(&sample_rate.to_le_bytes())?;
    writer.write_all(&byte_rate.to_le_bytes())?;
    writer.write_all(&block_align.to_le_bytes())?;
    writer.write_all(&16u16.to_le_bytes())?;          // 16-bit

    // atem chunk (always even-length, no padding byte needed)
    writer.write_all(b"atem")?;
    writer.write_all(&(atem_bytes.len() as u32).to_le_bytes())?;
    writer.write_all(atem_bytes)?;

    // meta chunk
    writer.write_all(b"meta")?;
    writer.write_all(&4u32.to_le_bytes())?;
    writer.write_all(&[0u8; 4])?;

    // data chunk
    writer.write_all(b"data")?;
    writer.write_all(&data_bytes.to_le_bytes())?;
    for &s in samples {
        writer.write_all(&s.to_le_bytes())?;
    }

    Ok(())
}

fn wav_bytes(samples: &[i16], channels: u16, rate: u32, loop_info: Option<&LoopInfo>) -> Vec<u8> {
    let mut out = Vec::new();
    write_wav(&mut out, samples, channels, rate, loop_info);
    out
}

fn expected_wav_bytes(samples: &[i16], channels: u16, rate: u32, loop_info: Option<&LoopInfo>) -> Vec<u8> {
    let mut out = Vec::new();
    expected_wav(&mut out, samples, channels, rate, loop_info).unwrap();
    out
}

fn le32_at(b: &[u8], at: usize) -> u32 {
    u32::from_le_bytes([b[at], b[at + 1], b[at + 2], b[at + 3]])
}

#[test]
fn wav_matches_expected_bytes() {
    let loops = [
        None,
        Some(LoopInfo { active: false, start: 5, end: 9, pingpong: true }),
        Some(LoopInfo { active: true, start: 5, end: 9, pingpong: false }),
        Some(LoopInfo { active: true, start: 123456, end: 200000, pingpong: true }),
    ];
    let pcm: Vec<i16> = (0..37).map(|k: i32| (k * 1777 - 30000) as i16).collect();
    for l in loops.iter() {
        for channels in [1u16, 2] {
            for n in [0usize, 1, 2, 9, 37] {
                let got = wav_bytes(&pcm[..n], channels, 44100, l.as_ref());
                let want = expected_wav_bytes(&pcm[..n], channels, 44100, l.as_ref());
                assert_eq!(got, want);
            }
        }
    }
}

#[test]
fn wav_header_records_its_sizes() {
    let pcm = vec![1i16, -2, 3, -4, 5];
    let b = wav_bytes(&pcm, 1, 8363, None);
    assert_eq!(&b[0..4], b"RIFF");
    assert_eq!(le32_at(&b, 4) as usize, b.len() - 8);
    assert_eq!(&b[8..12], b"WAVE");
    assert_eq!(&b[12..16], b"fmt ");
    assert_eq!(le32_at(&b, 24), 8363);
    assert_eq!(le32_at(&b, 28), 8363 * 2);
    assert_eq!(&b[36..40], b"atem");
    let atem_len = le32_at(&b, 40) as usize;
    assert_eq!(atem_len % 2, 0);
    let json = std::str::from_utf8(&b[44..44 + atem_len]).unwrap();
    assert!(json.contains("\"End\": 4,"));
    assert!(json.contains("\"LoopMode\": 0,"));
    let meta = 44 + atem_len;
    assert_eq!(&b[meta..meta + 4], b"meta");
    let data = meta + 12;
    assert_eq!(&b[data..data + 4], b"data");
    assert_eq!(le32_at(&b, data + 4), 10);
    assert_eq!(&b[data + 8..], &[1, 0, 0xfe, 0xff, 3, 0, 0xfc, 0xff, 5, 0]);
}

#[test]
fn wav_atem_is_padded_to_even_length() {
    for end in 0..40u32 {
        let pcm = vec![0i16; end as usize];
        for start in [0u32, 7, 12345] {
            let l = LoopInfo { active: true, start, end, pingpong: false };
            let b = wav_bytes(&pcm, 1, 100, Some(&l));
            assert_eq!(le32_at(&b, 40) % 2, 0);
        }
    }
}

#[test]
fn wav_loop_modes() {
    let pcm = vec![0i16; 4];
    let ping = LoopInfo { active: true, start: 2, end: 4, pingpong: true };
    let b = wav_bytes(&pcm, 2, 100, Some(&ping));
    let json = String::from_utf8_lossy(&b[44..44 + le32_at(&b, 40) as usize]).to_string();
    assert!(json.contains("\"LoopMode\": 2,"));
    assert!(json.contains("\"LoopStart\": 2,"));
    assert!(json.contains("\"End\": 1,"));
}

#[test]
fn wav_sizes_that_overflow_the_header_do_not_fit() {
    assert!(wav_size_fits(10, 2, 44100, None));
    assert!(!wav_size_fits(10, 2, u32::MAX, None));
    assert!(!wav_size_fits(10, 40000, 1, None));
    assert!(!wav_size_fits(0x7fff_ffff, 1, 1, None));
}

#[test]
fn xml_escape_replaces_markup_characters() {
    assert_eq!(xml_escape("a&b<c>d\"e'f"), "a&amp;b&lt;c&gt;d&quot;e&apos;f");
    assert_eq!(xml_escape("plain"), "plain");
    assert_eq!(xml_escape("&amp;"), "&amp;amp;");
    assert_eq!(xml_escape(""), "");
}

#[test]
fn sample_name_is_the_file_stem() {
    assert_eq!(sample_name("Kick.wav"), "Kick");
    assert_eq!(sample_name("Snare (2).wav"), "Snare (2)");
    assert_eq!(sample_name("a.b.wav"), "a.b");
    assert_eq!(sample_name(""), "");
}

#[test]
fn xal_matches_expected() {
    assert_eq!(generate_xal(), expected_xal());
}

#[test]
fn xpj_matches_expected() {
    let wavs = vec![String::from("Kick.wav"), String::from("R&B <1>.wav")];
    assert_eq!(generate_xpj("My Kit", "My Kit_[ProjectData]", &wavs), expected_xpj("My Kit", "My Kit_[ProjectData]", &wavs));
    assert_eq!(generate_xpj("x'y", "d", &[]), expected_xpj("x'y", "d", &[]));
}

fn sample_pads() -> Vec<PadEntry> {
    let mut pads = Vec::new();
    for k in 0..130u32 {
        let flags = [0x01u8, 0x11, 0x51, 0x31][(k % 4) as usize];
        let s = sample(&format!("S{}", k), (k % 70) as u8, (k * 3 % 256) as u8, flags, 100 + k);
        pads.push(PadEntry::from_sample(&s, format!("S{}.wav", k)));
    }
    pads
}

fn instrument_pads() -> Vec<PadEntry> {
    let mut pads = Vec::new();
    let s = sample("loop", 64, 64, 0x51, 10);
    for k in 0..20u32 {
        let inst = instrument(&format!("I<{}>", k), (k % 5) as u8, (k * 23) as u16, (k * 13) as u8, (k * 7) as u8, 1);
        let primary = if k % 3 == 0 { None } else { Some(&s) };
        let wav = if k % 3 == 0 { String::new() } else { format!("I{}.wav", k) };
        pads.push(PadEntry::from_instrument(&inst, primary, wav));
    }
    pads
}

#[test]
fn xpm_matches_expected_for_sample_pads() {
    let pads = sample_pads();
    assert_eq!(generate_xpm("Kit & Co", &pads), expected_xpm("Kit & Co", &pads));
}

#[test]
fn xpm_matches_expected_for_instrument_pads() {
    let pads = instrument_pads();
    assert_eq!(generate_xpm("Inst", &pads), expected_xpm("Inst", &pads));
    assert_eq!(generate_xpm("Empty", &[]), expected_xpm("Empty", &[]));
}

#[test]
fn xpm_volume_formatting_matches_six_decimals() {
    let s = sample("v", 64, 64, 0x01, 1);
    for v in 0..=4096u32 {
        let mut pad = PadEntry::from_sample(&s, String::from("v.wav"));
        pad.volume = v;
        let xml = xpm_instrument(0, Some(&pad), "v");
        let want = format!("        <Volume>{:.6}</Volume>\n", v as f32 / 4096.0);
        assert!(xml.contains(&want), "volume {}", v);
    }
}

#[test]
fn sample_pad_volume_is_the_product_of_volumes() {
    for dv in 0..=255u32 {
        for gv in 0..=255u32 {
            let s = sample("v", dv as u8, gv as u8, 0x01, 1);
            let pad = PadEntry::from_sample(&s, String::new());
            let f = ((dv as f32 / 64.0) * (gv as f32 / 64.0)).clamp(0.0, 1.0);
            assert_eq!(pad.volume as f32 / 4096.0, f);
        }
    }
}

#[test]
fn instrument_pad_levels_and_polyphony() {
    for v in 0..=255u8 {
        let inst = instrument("i", (v % 4) as u8, v as u16, v, v, 0);
        let pad = PadEntry::from_instrument(&inst, None, String::new());
        assert_eq!(pad.volume as f32 / 4096.0, (v as f32 / 128.0).clamp(0.0, 1.0));
        let pan = if v < 64 { Some(v as f32 / 64.0) } else if v == 64 { Some(0.5) } else { None };
        assert_eq!(pad.pan.map(|p| p as f32 / 64.0), pan);
        assert_eq!(pad.polyphony, if v % 4 == 3 || (v % 4 != 0 && v > 0) { 4 } else { 0 });
        assert_eq!(pad.nna, inst.nna_name());
        assert!(!pad.loop_active && pad.one_shot);
        let xml = xpm_instrument(3, Some(&pad), "i");
        assert!(xml.contains(&format!("        <Volume>{:.6}</Volume>\n", pad.volume as f32 / 4096.0)));
    }
}

#[test]
fn release_time_follows_fadeout() {
    let s = sample("r", 64, 64, 0x01, 1);
    for fadeout in (0..=300u16).chain([1000, 32768, 65535]) {
        let mut pad = PadEntry::from_sample(&s, String::from("r.wav"));
        pad.fadeout = fadeout;
        let release = expected_release(fadeout, false);
        let xml = xpm_instrument(0, Some(&pad), "r");
        assert!(xml.contains(&format!("        <VolumeRelease>{:.6}</VolumeRelease>\n", release)), "fadeout {}", fadeout);
    }
}

#[test]
fn pad_from_instrument_takes_the_primary_sample_loop() {
    let s = sample("loop", 64, 64, 0x51, 10);
    let inst = instrument("Lead", 1, 10, 64, 32, 1);
    let pad = PadEntry::from_instrument(&inst, Some(&s), String::from("Lead.wav"));
    assert!(pad.loop_active && pad.pingpong && !pad.one_shot);
    assert_eq!((pad.loop_start, pad.loop_end), (3, 40));
    assert_eq!((pad.sustain_loop_start, pad.sustain_loop_end), (1, 2));
    assert_eq!(pad.name, "Lead");
    assert_eq!(pad.wav_filename, "Lead.wav");
    assert_eq!(pad.root_note, 60);
    assert_eq!(pad.fadeout, 10);
}

#[test]
fn sanitize_name_cases() {
    assert_eq!(sanitize_name("Kick", 1), "Kick");
    assert_eq!(sanitize_name("  Snare  ", 2), "Snare");
    assert_eq!(sanitize_name("a/b\\c:d*e?f\"g<h>i|j", 3), "a_b_c_d_e_f_g_h_i_j");
    assert_eq!(sanitize_name("a\0b", 3), "a_b");
    assert_eq!(sanitize_name("", 7), "sample_007");
    assert_eq!(sanitize_name("   ", 42), "sample_042");
    assert_eq!(sanitize_name("...", 5), "sample_005");
    assert_eq!(sanitize_name(". .", 5), "sample_005");
    assert_eq!(sanitize_name("..x..", 5), "x");
    assert_eq!(sanitize_name(". x .", 5), "x");
    assert_eq!(sanitize_name(".a. .", 5), "a.");
    assert_eq!(sanitize_name("", 1234), "sample_1234");
}

#[test]
fn unique_names_ignore_case() {
    let mut used = Vec::new();
    assert_eq!(make_unique_name("Kick", &mut used), "Kick");
    assert_eq!(make_unique_name("KICK", &mut used), "KICK (2)");
    assert_eq!(make_unique_name("kick", &mut used), "kick (3)");
    assert_eq!(make_unique_name("kick (2)", &mut used), "kick (2) (2)");
    assert_eq!(make_unique_name("Snare", &mut used), "Snare");
    assert_eq!(used, vec!["kick", "kick (2)", "kick (3)", "kick (2) (2)", "snare"]);
    let mut used2 = vec![String::from("hat")];
    assert_eq!(checked_make_unique_name("Hat", &mut used2), Some(String::from("Hat (2)")));
}

#[test]
fn primary_sample_is_the_first_valid_table_entry() {
    let mut inst = instrument("i", 0, 0, 64, 32, 0);
    assert_eq!(primary_sample_index(&inst, 3), None);
    inst.note_sample_table[40] = (40, 9);
    inst.note_sample_table[50] = (50, 2);
    inst.note_sample_table[60] = (60, 1);
    assert_eq!(primary_sample_index(&inst, 3), Some(1));
    assert_eq!(primary_sample_index(&inst, 9), Some(8));
    assert_eq!(primary_sample_index(&inst, 0), None);
}

#[test]
fn sample_mode_plan_names_every_sample() {
    let samples = vec![
        sample("Snare", 64, 64, 0x01, 1),
        sample("snare", 64, 64, 0x01, 1),
        sample("", 64, 64, 0x01, 1),
        sample("a/b", 64, 64, 0x01, 1),
    ];
    let s = song(0, Vec::new(), samples, Vec::new());
    let plan = build_pads_from_samples(&s).unwrap();
    assert_eq!(plan.wav_filenames, vec!["Snare.wav", "snare (2).wav", "DOS.SMP.wav", "a_b.wav"]);
    assert_eq!(plan.pads.len(), 4);
    assert_eq!(plan.sources, vec![Some(0), Some(1), Some(2), Some(3)]);
    assert_eq!(plan.pads[1].wav_filename, "snare (2).wav");
    assert_eq!(plan.pads[1].name, "snare");
}

#[test]
fn plans_stop_at_128_pads() {
    let samples: Vec<Sample> = (0..130).map(|k| sample(&format!("s{}", k), 64, 64, 0x01, 1)).collect();
    let s = song(0, Vec::new(), samples, Vec::new());
    let plan = build_pads_from_samples(&s).unwrap();
    assert_eq!(plan.pads.len(), 128);
    assert_eq!(plan.wav_filenames.len(), 128);
    let mut names = plan.wav_filenames.clone();
    names.sort();
    names.dedup();
    assert_eq!(names.len(), 128);
}

#[test]
fn blank_names_fall_back_to_numbers() {
    let mut a = sample("", 64, 64, 0x01, 1);
    a.dos_filename = String::new();
    let s = song(0, Vec::new(), vec![a.clone(), a], Vec::new());
    let plan = build_pads_from_samples(&s).unwrap();
    assert_eq!(plan.wav_filenames, vec!["sample_001.wav", "sample_002.wav"]);
}

#[test]
fn instrument_mode_plan_skips_instruments_without_samples() {
    let insts = vec![
        instrument("Bass", 0, 0, 64, 32, 2),
        instrument("Silent", 0, 0, 64, 32, 0),
        instrument("bass", 3, 5, 128, 200, 9),
        instrument("Lead", 1, 5, 100, 64, 1),
    ];
    let samples = vec![sample("one", 64, 64, 0x11, 5), sample("two", 64, 64, 0x01, 5)];
    let s = song(4, insts, samples, Vec::new());
    let plan = build_pads_from_instruments(&s).unwrap();
    assert_eq!(plan.pads.len(), 4);
    assert_eq!(plan.wav_filenames, vec!["Bass.wav", "Lead.wav"]);
    assert_eq!(plan.sources, vec![Some(1), None, None, Some(0)]);
    assert_eq!(plan.pads[0].wav_filename, "Bass.wav");
    assert_eq!(plan.pads[1].wav_filename, "");
    assert_eq!(plan.pads[2].wav_filename, "");
    assert!(plan.pads[3].loop_active);
    assert!(!plan.pads[0].loop_active);
}

#[test]
fn extracted_wav_is_the_sample_pcm() {
    let raw: Vec<u8> = vec![0, 0, 0, 0, 128, 129, 130, 255];
    let mut smp = sample("x", 64, 64, 0x51, 4);
    smp.sample_pointer = 4;
    smp.c5_speed = 0;
    let s = song(0, Vec::new(), vec![smp.clone()], raw);
    let bytes = extract_sample_wav(&s, &smp).unwrap().unwrap().unwrap();
    let l = LoopInfo { active: true, start: 3, end: 40, pingpong: true };
    assert_eq!(bytes, expected_wav_bytes(&[0, 256, 512, 32512], 1, 1, Some(&l)));
}

#[test]
fn empty_samples_give_no_wav() {
    let mut smp = sample("x", 64, 64, 0x01, 0);
    smp.sample_pointer = 4;
    let s = song(0, Vec::new(), vec![smp.clone()], vec![0; 8]);
    assert!(matches!(extract_sample_wav(&s, &smp), Some(Ok(None))));
    let mut unplaced = sample("y", 64, 64, 0x01, 3);
    unplaced.sample_pointer = 0;
    assert!(matches!(extract_sample_wav(&s, &unplaced), Some(Ok(None))));
}

#[test]
fn sample_data_past_the_end_is_an_error_for_its_wav() {
    let mut smp = sample("x", 64, 64, 0x01, 100);
    smp.sample_pointer = 4;
    let s = song(0, Vec::new(), vec![smp.clone()], vec![0; 8]);
    assert!(matches!(extract_sample_wav(&s, &smp), Some(Err(it2mpc::error::ItError::Raw8OutOfRange))));
}

#[test]
fn mode_and_default_name() {
    let s4 = song(4, vec![instrument("i", 0, 0, 64, 32, 1)], Vec::new(), Vec::new());
    let s0 = song(0, vec![instrument("i", 0, 0, 64, 32, 1)], Vec::new(), Vec::new());
    let no_headers = song(4, Vec::new(), vec![sample("s", 64, 64, 0x01, 1)], Vec::new());
    assert!(instrument_mode(&s4, false));
    assert!(!instrument_mode(&s4, true));
    assert!(!instrument_mode(&s0, false));
    assert!(!instrument_mode(&no_headers, false));
    assert_eq!(default_project_name("music/song.it"), "song");
    assert_eq!(default_project_name("song"), "song");
    assert_eq!(default_project_name(".hidden"), ".hidden");
    assert_eq!(default_project_name(""), "Untitled");
    assert_eq!(default_project_name("/"), "Untitled");
}

#[test]
fn info_matches_expected() {
    let insts = vec![
        instrument("Bass", 0, 0, 64, 32, 2),
        instrument("", 2, 77, 128, 200, 0),
        instrument("A very long instrument name!", 3, 5, 100, 64, 1),
    ];
    let samples = vec![
        sample("one", 64, 64, 0x11, 5),
        sample("two", 64, 64, 0x57, 1234567),
        sample("", 64, 64, 0x01, 12345678),
    ];
    let s = song(4, insts, samples, Vec::new());
    assert_eq!(info_text(&s, "Proj"), expected_info(&s, "Proj"));
    let empty = song(0, Vec::new(), Vec::new(), Vec::new());
    assert_eq!(info_text(&empty, "E"), expected_info(&empty, "E"));
    let many: Vec<Sample> = (0..1005).map(|k| sample(&format!("{}", k), 1, 1, 0x01, k)).collect();
    let big = song(0, Vec::new(), many, Vec::new());
    assert_eq!(info_text(&big, "B"), expected_info(&big, "B"));
}

#[test]
fn fade_instruments_always_release_with_several_voices() {
    for fadeout in [0u16, 1, 64, 128, 500] {
        let inst = instrument("f", 3, fadeout, 64, 32, 1);
        let pad = PadEntry::from_instrument(&inst, None, String::from("f.wav"));
        assert!(pad.polyphony > 0);
        let xml = generate_xpm("p", &[pad]);
        let start = xml.find("<VolumeRelease>").unwrap() + "<VolumeRelease>".len();
        let end = xml[start..].find("</VolumeRelease>").unwrap() + start;
        let release: f64 = xml[start..end].parse().unwrap();
        assert!(release > 0.0, "fadeout {}", fadeout);
        assert!(release <= 1.0);
    }
}

#[test]
fn release_stays_within_one_and_shortens_with_faster_fadeout() {
    let s = sample("r", 64, 64, 0x01, 1);
    let mut previous = f64::MAX;
    for fadeout in 0..=200u16 {
        let mut pad = PadEntry::from_sample(&s, String::from("r.wav"));
        pad.fadeout = fadeout;
        let xml = xpm_instrument(0, Some(&pad), "r");
        let start = xml.find("<VolumeRelease>").unwrap() + "<VolumeRelease>".len();
        let end = xml[start..].find("</VolumeRelease>").unwrap() + start;
        let release: f64 = xml[start..end].parse().unwrap();
        assert!((0.0..=1.0).contains(&release));
        assert_eq!(release == 0.0, fadeout == 0);
        if fadeout > 0 {
            assert!(release >= 0.01);
            assert!(release <= previous);
            previous = release;
        }
    }
    let mut pad = PadEntry::from_sample(&s, String::from("r.wav"));
    pad.fadeout = 1;
    assert!(xpm_instrument(0, Some(&pad), "r").contains("<VolumeRelease>1.000000</VolumeRelease>"));
    pad.fadeout = 64;
    assert!(xpm_instrument(0, Some(&pad), "r").contains("<VolumeRelease>1.000000</VolumeRelease>"));
    pad.fadeout = 96;
    assert!(xpm_instrument(0, Some(&pad), "r").contains("<VolumeRelease>0.500000</VolumeRelease>"));
    pad.fadeout = 127;
    assert!(xpm_instrument(0, Some(&pad), "r").contains("<VolumeRelease>0.015625</VolumeRelease>"));
}

#[test]
fn pad_limit_and_data_folder() {
    let few = song(0, Vec::new(), vec![sample("s", 64, 64, 0x01, 1); 128], Vec::new());
    let many = song(0, Vec::new(), vec![sample("s", 64, 64, 0x01, 1); 129], Vec::new());
    assert!(!exceeds_pad_limit(&few, false));
    assert!(exceeds_pad_limit(&many, false));
    assert!(!exceeds_pad_limit(&many, true));
    assert_eq!(project_data_dir_name("My Kit"), "My Kit_[ProjectData]");
}

fn unescape(t: &str) -> String {
    let mut out = String::new();
    let mut rest = t;
    while !rest.is_empty() {
        let mut matched = false;
        for (e, c) in [("&amp;", '&'), ("&lt;", '<'), ("&gt;", '>'), ("&quot;", '"'), ("&apos;", '\'')] {
            if rest.starts_with(e) {
                out.push(c);
                rest = &rest[e.len()..];
                matched = true;
                break;
            }
        }
        if !matched {
            let c = rest.chars().next().unwrap();
            out.push(c);
            rest = &rest[c.len_utf8()..];
        }
    }
    out
}

#[test]
fn xml_escape_round_trips_and_ampersands_open_entities() {
    for s in ["", "a&b", "&amp;", "<&>\"'", "plain text", "&lt;&&", "é&ü'\""] {
        let e = xml_escape(s);
        assert_eq!(unescape(&e), s);
        assert!(!e.contains(['<', '>', '"', '\'']));
        for (i, _) in e.match_indices('&') {
            let tail = &e[i..];
            assert!(["&amp;", "&lt;", "&gt;", "&quot;", "&apos;"].iter().any(|x| tail.starts_with(x)));
        }
    }
}

#[test]
fn xpj_lists_two_files_more_than_wavs() {
    for n in 0..5 {
        let wavs: Vec<String> = (0..n).map(|k| format!("w{}.wav", k)).collect();
        let x = generate_xpj("P", "D", &wavs);
        assert_eq!(x.matches("<File>").count(), n + 2);
        let list_start = x.find("<FileList>").unwrap();
        let list_end = x.find("</FileList>").unwrap();
        let y = generate_xpj("Q&", "E", &[]);
        assert_eq!(&x[..list_start], &y[..y.find("<FileList>").unwrap()]);
        assert_eq!(&x[list_end..], &y[y.find("</FileList>").unwrap()..]);
    }
}

#[test]
fn program_for_a_looped_pad_with_half_fadeout() {
    let mut pad = PadEntry::from_sample(&sample("k", 64, 64, 0x11, 300), String::from("kick.v2.wav"));
    pad.loop_start = 10;
    pad.loop_end = 200;
    pad.fadeout = 64;
    let r = generate_xpm("Kit", &[pad]);
    assert!(r.contains("<SampleName>kick.v2</SampleName>"));
    assert!(r.contains("<LoopStart>10</LoopStart>"));
    assert!(r.contains("<LoopEnd>200</LoopEnd>"));
    assert!(r.contains("<TriggerMode>2</TriggerMode>"));
    assert!(r.contains("<VolumeRelease>1.000000</VolumeRelease>"));
    assert_eq!(r.matches("<Instrument number=").count(), 128);
    assert_eq!(r.matches("<Layer number=").count(), 1);
}
