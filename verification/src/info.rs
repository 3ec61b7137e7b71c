//! The summary of a song that `--info` prints: header fields, then one line per instrument
//! and per sample.

use crate::it::{nna_text, Instrument, Sample, Song};
use crate::text::{decimal, push_char, push_decimal, push_str};
use vstd::prelude::*;
use vstd::string::*;

verus! {

/// `n` spaces.
pub open spec fn spaces(n: nat) -> Seq<char> {
    Seq::new(n, |i: int| ' ')
}

/// `s` right-aligned in a field of `width` characters.
pub open spec fn right_aligned(s: Seq<char>, width: nat) -> Seq<char> {
    if s.len() < width { spaces((width - s.len()) as nat) + s } else { s }
}

/// `s` left-aligned in a field of `width` characters.
pub open spec fn left_aligned(s: Seq<char>, width: nat) -> Seq<char> {
    if s.len() < width { s + spaces((width - s.len()) as nat) } else { s }
}

/// The default pan of an instrument as shown: the value up to 64, else "default".
pub open spec fn pan_text(pan: u8) -> Seq<char> {
    if pan <= 64 { decimal(pan as nat) } else { "default"@ }
}

/// The summary line of instrument `i` (0-based).
pub open spec fn instrument_line(i: nat, inst: Instrument) -> Seq<char> {
    "  "@ + right_aligned(decimal(i + 1), 3) + "  "@ + left_aligned(inst.shown_name(), 26)
        + "  NNA="@ + left_aligned(nna_text(inst.new_note_action), 10) + "  fadeout="@ + decimal(
        inst.fadeout as nat,
    ) + "  vol="@ + decimal(inst.global_vol as nat) + "  pan="@ + pan_text(inst.default_pan)
        + "\n"@
}

/// The summary line of sample `i` (0-based).
pub open spec fn sample_line(i: nat, samp: Sample) -> Seq<char> {
    "  "@ + right_aligned(decimal(i + 1), 3) + "  "@ + left_aligned(samp.shown_name(), 26)
        + "  len="@ + right_aligned(decimal(samp.length as nat), 7) + "  loop="@ + (if samp.loop_active {
        "on "@
    } else {
        "off"@
    }) + " ("@ + decimal(samp.loop_start as nat) + "-"@ + decimal(samp.loop_end as nat) + ")"@ + (
    if samp.pingpong {
        " pp"@
    } else {
        "   "@
    }) + "  "@ + decimal(samp.c5_speed as nat) + "Hz  "@ + (if samp.bits16 {
        "16"@
    } else {
        "8"@
    }) + "bit"@ + (if samp.stereo {
        " stereo"@
    } else {
        ""@
    }) + "\n"@
}

/// The lines of the first `n` instruments.
pub open spec fn instrument_lines(insts: Seq<Instrument>, n: nat) -> Seq<char>
    decreases n,
{
    if n == 0 {
        seq![]
    } else {
        instrument_lines(insts, (n - 1) as nat) + instrument_line((n - 1) as nat, insts[n - 1])
    }
}

/// The lines of the first `n` samples.
pub open spec fn sample_lines(samps: Seq<Sample>, n: nat) -> Seq<char>
    decreases n,
{
    if n == 0 {
        seq![]
    } else {
        sample_lines(samps, (n - 1) as nat) + sample_line((n - 1) as nat, samps[n - 1])
    }
}

/// The header of the summary: project name, title, counts, mode, speed, tempo, volume.
pub open spec fn info_header(song: Song, project_name: Seq<char>) -> Seq<char> {
    "Project name : "@ + project_name + "\n"@ + "Song title   : "@ + song.title@ + "\n"@
        + "Instruments  : "@ + decimal(song.num_instruments as nat) + "\n"@ + "Samples      : "@
        + decimal(song.num_samples as nat) + "\n"@ + "Mode         : "@ + (if song.flags & 0x04
        != 0 {
        "instrument"@
    } else {
        "sample"@
    }) + "\n"@ + "Speed        : "@ + decimal(song.speed as nat) + "\n"@ + "Tempo        : "@
        + decimal(song.tempo as nat) + "\n"@ + "Global vol   : "@ + decimal(song.global_vol as nat)
        + "\n"@
}

/// The whole summary: the header, then the instrument and sample sections where there are any.
pub open spec fn info(song: Song, project_name: Seq<char>) -> Seq<char> {
    let ni = song.instruments@.len();
    let ns = song.samples@.len();
    info_header(song, project_name) + (if ni > 0 {
        "\nInstruments:\n"@ + instrument_lines(song.instruments@, ni)
    } else {
        seq![]
    }) + (if ns > 0 {
        "\nSamples:\n"@ + sample_lines(song.samples@, ns)
    } else {
        seq![]
    })
}

fn push_spaces(s: &mut String, n: usize)
    ensures
        final(s)@ == old(s)@ + spaces(n as nat),
{
    let mut i: usize = 0;
    while i < n
        invariant
            i <= n,
            s@ == old(s)@ + spaces(i as nat),
        decreases n - i,
    {
        push_char(s, ' ');
        i = i + 1;
        assert(s@ =~= old(s)@ + spaces(i as nat));
    }
}

fn push_right_aligned(s: &mut String, text: &str, width: usize)
    ensures
        final(s)@ == old(s)@ + right_aligned(text@, width as nat),
{
    let len = text.unicode_len();
    if len < width {
        push_spaces(s, width - len);
    }
    push_str(s, text);
    assert(s@ =~= old(s)@ + right_aligned(text@, width as nat));
}

fn push_left_aligned(s: &mut String, text: &str, width: usize)
    ensures
        final(s)@ == old(s)@ + left_aligned(text@, width as nat),
{
    let len = text.unicode_len();
    push_str(s, text);
    if len < width {
        push_spaces(s, width - len);
    }
    assert(s@ =~= old(s)@ + left_aligned(text@, width as nat));
}

fn decimal_string(n: u64) -> (r: String)
    ensures
        r@ == decimal(n as nat),
{
    let mut s = String::new();
    push_decimal(&mut s, n);
    assert(s@ =~= decimal(n as nat));
    s
}

fn instrument_line_string(i: usize, inst: &Instrument) -> (line: String)
    requires
        i < usize::MAX,
    ensures
        line@ == instrument_line(i as nat, *inst),
{
    let mut line = String::new();
    push_str(&mut line, "  ");
    assert(line@ =~= "  "@);
    push_right_aligned(&mut line, decimal_string((i + 1) as u64).as_str(), 3);
    push_str(&mut line, "  ");
    push_left_aligned(&mut line, inst.display_name(), 26);
    push_str(&mut line, "  NNA=");
    push_left_aligned(&mut line, inst.nna_name(), 10);
    push_str(&mut line, "  fadeout=");
    push_decimal(&mut line, inst.fadeout as u64);
    push_str(&mut line, "  vol=");
    push_decimal(&mut line, inst.global_vol as u64);
    push_str(&mut line, "  pan=");
    let ghost before_pan = line@;
    if inst.default_pan <= 64 {
        push_decimal(&mut line, inst.default_pan as u64);
    } else {
        push_str(&mut line, "default");
    }
    assert(line@ == before_pan + pan_text(inst.default_pan));
    push_str(&mut line, "\n");
    line
}

fn sample_line_string(i: usize, samp: &Sample) -> (line: String)
    requires
        i < usize::MAX,
    ensures
        line@ == sample_line(i as nat, *samp),
{
    let mut line = String::new();
    push_str(&mut line, "  ");
    assert(line@ =~= "  "@);
    push_right_aligned(&mut line, decimal_string((i + 1) as u64).as_str(), 3);
    push_str(&mut line, "  ");
    push_left_aligned(&mut line, samp.display_name(), 26);
    push_str(&mut line, "  len=");
    push_right_aligned(&mut line, decimal_string(samp.length as u64).as_str(), 7);
    push_str(&mut line, "  loop=");
    let ghost p1 = line@;
    if samp.loop_active {
        push_str(&mut line, "on ");
    } else {
        push_str(&mut line, "off");
    }
    assert(line@ == p1 + (if samp.loop_active { "on "@ } else { "off"@ }));
    push_str(&mut line, " (");
    push_decimal(&mut line, samp.loop_start as u64);
    push_str(&mut line, "-");
    push_decimal(&mut line, samp.loop_end as u64);
    push_str(&mut line, ")");
    let ghost p2 = line@;
    if samp.pingpong {
        push_str(&mut line, " pp");
    } else {
        push_str(&mut line, "   ");
    }
    assert(line@ == p2 + (if samp.pingpong { " pp"@ } else { "   "@ }));
    push_str(&mut line, "  ");
    push_decimal(&mut line, samp.c5_speed as u64);
    push_str(&mut line, "Hz  ");
    let ghost p3 = line@;
    if samp.bits16 {
        push_str(&mut line, "16");
    } else {
        push_str(&mut line, "8");
    }
    assert(line@ == p3 + (if samp.bits16 { "16"@ } else { "8"@ }));
    push_str(&mut line, "bit");
    let ghost p4 = line@;
    if samp.stereo {
        push_str(&mut line, " stereo");
    } else {
        push_str(&mut line, "");
    }
    assert(line@ == p4 + (if samp.stereo { " stereo"@ } else { ""@ }));
    push_str(&mut line, "\n");
    line
}

/// The summary of the song printed in place of a conversion: header fields, then one
/// line per instrument and per sample.
pub fn info_text(song: &Song, project_name: &str) -> (r: String)
    ensures
        r@ == info(*song, project_name@),
{
    let mut s = String::new();
    push_str(&mut s, "Project name : ");
    push_str(&mut s, project_name);
    push_str(&mut s, "\n");
    push_str(&mut s, "Song title   : ");
    push_str(&mut s, song.title.as_str());
    push_str(&mut s, "\n");
    push_str(&mut s, "Instruments  : ");
    push_decimal(&mut s, song.num_instruments as u64);
    push_str(&mut s, "\n");
    push_str(&mut s, "Samples      : ");
    push_decimal(&mut s, song.num_samples as u64);
    push_str(&mut s, "\n");
    push_str(&mut s, "Mode         : ");
    if song.uses_instruments() {
        push_str(&mut s, "instrument");
    } else {
        push_str(&mut s, "sample");
    }
    push_str(&mut s, "\n");
    push_str(&mut s, "Speed        : ");
    push_decimal(&mut s, song.speed as u64);
    push_str(&mut s, "\n");
    push_str(&mut s, "Tempo        : ");
    push_decimal(&mut s, song.tempo as u64);
    push_str(&mut s, "\n");
    push_str(&mut s, "Global vol   : ");
    push_decimal(&mut s, song.global_vol as u64);
    push_str(&mut s, "\n");
    assert(s@ =~= info_header(*song, project_name@));
    let ghost header = s@;

    if song.instruments.len() > 0 {
        push_str(&mut s, "\nInstruments:\n");
        let ghost start = s@;
        let mut i: usize = 0;
        while i < song.instruments.len()
            invariant
                i <= song.instruments@.len(),
                s@ == start + instrument_lines(song.instruments@, i as nat),
            decreases song.instruments@.len() - i,
        {
            let line = instrument_line_string(i, &song.instruments[i]);
            push_str(&mut s, line.as_str());
            i = i + 1;
            assert(s@ =~= start + instrument_lines(song.instruments@, i as nat));
        }
    }
    let ghost after_insts = s@;
    assert(after_insts =~= header + (if song.instruments@.len() > 0 {
        "\nInstruments:\n"@ + instrument_lines(song.instruments@, song.instruments@.len())
    } else {
        seq![]
    }));

    if song.samples.len() > 0 {
        push_str(&mut s, "\nSamples:\n");
        let ghost start = s@;
        let mut i: usize = 0;
        while i < song.samples.len()
            invariant
                i <= song.samples@.len(),
                s@ == start + sample_lines(song.samples@, i as nat),
            decreases song.samples@.len() - i,
        {
            let line = sample_line_string(i, &song.samples[i]);
            push_str(&mut s, line.as_str());
            i = i + 1;
            assert(s@ =~= start + sample_lines(song.samples@, i as nat));
        }
    }
    assert(s@ =~= info(*song, project_name@));
    s
}

} // verus!
