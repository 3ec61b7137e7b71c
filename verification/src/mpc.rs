//! MPC project files: the drum program (.xpm), the sequence list (.xal) and the
//! project (.xpj), and the pad settings taken from IT instruments and samples.

use crate::it::{nna_text, Instrument, Sample};
use crate::text::{decimal, digit_char, fixed6, padded_decimal, push_char, push_decimal, push_fixed6, push_signed_decimal, push_str, signed_decimal};
use vstd::prelude::*;
use vstd::string::*;

verus! {

// ---------------------------------------------------------------------------
// XML helpers
// ---------------------------------------------------------------------------

/// XML form of one character: the five markup characters become entities.
pub open spec fn xml_escaped_char(c: char) -> Seq<char> {
    if c == '&' {
        "&amp;"@
    } else if c == '<' {
        "&lt;"@
    } else if c == '>' {
        "&gt;"@
    } else if c == '"' {
        "&quot;"@
    } else if c == '\'' {
        "&apos;"@
    } else {
        seq![c]
    }
}

/// XML form of a text: each character escaped in turn.
pub open spec fn xml_escaped(s: Seq<char>) -> Seq<char>
    decreases s.len(),
{
    if s.len() == 0 {
        seq![]
    } else {
        xml_escaped(s.drop_last()) + xml_escaped_char(s.last())
    }
}

/// The text holds none of the characters that end or open markup: `<`, `>`, `"`, `'`.
pub open spec fn markup_free(s: Seq<char>) -> bool {
    forall|i: int|
        0 <= i < s.len() ==> #[trigger] s[i] != '<' && s[i] != '>' && s[i] != '"' && s[i] != '\''
}

/// Escaped text can stand in XML text and attribute values: it holds no `<`, `>`, `"` or `'`.
pub proof fn lemma_xml_escaped_markup_free(s: Seq<char>)
    ensures
        markup_free(xml_escaped(s)),
    decreases s.len(),
{
    if s.len() > 0 {
        lemma_xml_escaped_markup_free(s.drop_last());
        reveal_strlit("&amp;");
        reveal_strlit("&lt;");
        reveal_strlit("&gt;");
        reveal_strlit("&quot;");
        reveal_strlit("&apos;");
        let p = xml_escaped(s.drop_last());
        let q = xml_escaped_char(s.last());
        assert(markup_free(q));
        let r = xml_escaped(s);
        assert forall|i: int| 0 <= i < r.len() implies #[trigger] r[i] != '<' && r[i] != '>' && r[i]
            != '"' && r[i] != '\'' by {
            if i < p.len() {
                assert(r[i] == p[i]);
            } else {
                assert(r[i] == q[i - p.len()]);
            }
        }
    }
}

/// `t` holds the text `e` from index `i` on.
pub open spec fn text_at(t: Seq<char>, i: int, e: Seq<char>) -> bool {
    0 <= i && i + e.len() <= t.len() && t.subrange(i, i + e.len()) == e
}

/// The five entities that escaping writes.
pub open spec fn amp_entity() -> Seq<char> {
    seq!['&', 'a', 'm', 'p', ';']
}

pub open spec fn lt_entity() -> Seq<char> {
    seq!['&', 'l', 't', ';']
}

pub open spec fn gt_entity() -> Seq<char> {
    seq!['&', 'g', 't', ';']
}

pub open spec fn quot_entity() -> Seq<char> {
    seq!['&', 'q', 'u', 'o', 't', ';']
}

pub open spec fn apos_entity() -> Seq<char> {
    seq!['&', 'a', 'p', 'o', 's', ';']
}

/// One of the five entities starts at index `i` of `t`.
pub open spec fn opens_entity(t: Seq<char>, i: int) -> bool {
    text_at(t, i, amp_entity()) || text_at(t, i, lt_entity()) || text_at(t, i, gt_entity())
        || text_at(t, i, quot_entity()) || text_at(t, i, apos_entity())
}

/// One left-to-right pass that replaces each of the five entities by its character.
pub open spec fn xml_unescaped(t: Seq<char>) -> Seq<char>
    decreases t.len(),
{
    if t.len() == 0 {
        seq![]
    } else if text_at(t, 0, amp_entity()) {
        seq!['&'] + xml_unescaped(t.skip(5))
    } else if text_at(t, 0, lt_entity()) {
        seq!['<'] + xml_unescaped(t.skip(4))
    } else if text_at(t, 0, gt_entity()) {
        seq!['>'] + xml_unescaped(t.skip(4))
    } else if text_at(t, 0, quot_entity()) {
        seq!['"'] + xml_unescaped(t.skip(6))
    } else if text_at(t, 0, apos_entity()) {
        seq!['\''] + xml_unescaped(t.skip(6))
    } else {
        seq![t[0]] + xml_unescaped(t.skip(1))
    }
}

proof fn lemma_entities_revealed()
    ensures
        "&amp;"@ == amp_entity(),
        "&lt;"@ == lt_entity(),
        "&gt;"@ == gt_entity(),
        "&quot;"@ == quot_entity(),
        "&apos;"@ == apos_entity(),
{
    reveal_strlit("&amp;");
    reveal_strlit("&lt;");
    reveal_strlit("&gt;");
    reveal_strlit("&quot;");
    reveal_strlit("&apos;");
    assert("&amp;"@ =~= amp_entity());
    assert("&lt;"@ =~= lt_entity());
    assert("&gt;"@ =~= gt_entity());
    assert("&quot;"@ =~= quot_entity());
    assert("&apos;"@ =~= apos_entity());
}

proof fn lemma_escaped_prepend(c: char, s: Seq<char>)
    ensures
        xml_escaped(seq![c] + s) == xml_escaped_char(c) + xml_escaped(s),
    decreases s.len(),
{
    let t = seq![c] + s;
    if s.len() == 0 {
        assert(t.drop_last() =~= seq![]);
        assert(xml_escaped(t.drop_last()) =~= seq![]);
        assert(t.last() == c);
        assert(xml_escaped(t) =~= xml_escaped_char(c));
    } else {
        assert(t.drop_last() =~= seq![c] + s.drop_last());
        assert(t.last() == s.last());
        lemma_escaped_prepend(c, s.drop_last());
        assert(xml_escaped(t) =~= xml_escaped_char(c) + xml_escaped(s));
    }
}

proof fn lemma_unescape_entity(e: Seq<char>, c: char, r: Seq<char>)
    requires
        e == amp_entity() && c == '&' || e == lt_entity() && c == '<' || e == gt_entity() && c == '>'
            || e == quot_entity() && c == '"' || e == apos_entity() && c == '\'',
    ensures
        xml_unescaped(e + r) == seq![c] + xml_unescaped(r),
{
    let t = e + r;
    assert(t.skip(e.len() as int) =~= r);
    assert(t.subrange(0, e.len() as int) =~= e);
    if e.len() >= 5 {
        assert(t.subrange(0, 5)[1] == t[1]);
        assert(t.subrange(0, 5)[2] == t[2]);
    }
    assert(t.subrange(0, 4)[1] == t[1]);
    if t.len() >= 5 {
        assert(t.subrange(0, 5)[1] == t[1]);
        assert(t.subrange(0, 5)[2] == t[2]);
    }
    if t.len() >= 6 {
        assert(t.subrange(0, 6)[1] == t[1]);
    }
}

proof fn lemma_unescape_plain(c: char, r: Seq<char>)
    requires
        c != '&',
    ensures
        xml_unescaped(seq![c] + r) == seq![c] + xml_unescaped(r),
{
    let t = seq![c] + r;
    assert(t[0] == c);
    if t.len() >= 4 {
        assert(t.subrange(0, 4)[0] == t[0]);
    }
    if t.len() >= 5 {
        assert(t.subrange(0, 5)[0] == t[0]);
    }
    if t.len() >= 6 {
        assert(t.subrange(0, 6)[0] == t[0]);
    }
    assert(t.skip(1) =~= r);
}

/// Unescaping gives back the text that was escaped.
pub proof fn lemma_xml_escape_round_trip(s: Seq<char>)
    ensures
        xml_unescaped(xml_escaped(s)) == s,
    decreases s.len(),
{
    if s.len() > 0 {
        let c = s[0];
        let rest = s.drop_first();
        assert(s =~= seq![c] + rest);
        lemma_escaped_prepend(c, rest);
        lemma_xml_escape_round_trip(rest);
        lemma_entities_revealed();
        let r = xml_escaped(rest);
        if c == '&' {
            lemma_unescape_entity(amp_entity(), c, r);
        } else if c == '<' {
            lemma_unescape_entity(lt_entity(), c, r);
        } else if c == '>' {
            lemma_unescape_entity(gt_entity(), c, r);
        } else if c == '"' {
            lemma_unescape_entity(quot_entity(), c, r);
        } else if c == '\'' {
            lemma_unescape_entity(apos_entity(), c, r);
        } else {
            lemma_unescape_plain(c, r);
        }
        assert(seq![c] + rest =~= s);
    }
}

/// Every `&` of escaped text opens one of the five entities.
pub proof fn lemma_xml_escaped_entities(s: Seq<char>)
    ensures
        forall|i: int|
            0 <= i < xml_escaped(s).len() && #[trigger] xml_escaped(s)[i] == '&' ==> opens_entity(
                xml_escaped(s),
                i,
            ),
    decreases s.len(),
{
    if s.len() > 0 {
        lemma_xml_escaped_entities(s.drop_last());
        lemma_entities_revealed();
        let p = xml_escaped(s.drop_last());
        let q = xml_escaped_char(s.last());
        let r = xml_escaped(s);
        assert(r == p + q);
        assert forall|i: int| 0 <= i < r.len() && #[trigger] r[i] == '&' implies opens_entity(r, i) by {
            if i < p.len() {
                assert(p[i] == '&');
                assert(opens_entity(p, i));
                assert forall|e: Seq<char>| text_at(p, i, e) implies text_at(r, i, e) by {
                    assert(r.subrange(i, i + e.len()) =~= p.subrange(i, i + e.len()));
                }
            } else {
                let k = i - p.len();
                assert(q[k] == '&');
                assert(k == 0);
                assert(r.subrange(i, i + q.len()) =~= q);
            }
        }
    }
}

/// Escapes the characters that XML text and attribute values cannot hold as they are.
pub fn xml_escape(s: &str) -> (r: String)
    ensures
        r@ == xml_escaped(s@),
{
    let n = s.unicode_len();
    let mut out = String::new();
    let mut i: usize = 0;
    while i < n
        invariant
            i <= n,
            n == s@.len(),
            out@ == xml_escaped(s@.subrange(0, i as int)),
        decreases n - i,
    {
        let c = s.get_char(i);
        if c == '&' {
            push_str(&mut out, "&amp;");
        } else if c == '<' {
            push_str(&mut out, "&lt;");
        } else if c == '>' {
            push_str(&mut out, "&gt;");
        } else if c == '"' {
            push_str(&mut out, "&quot;");
        } else if c == '\'' {
            push_str(&mut out, "&apos;");
        } else {
            push_char(&mut out, c);
        }
        proof {
            let t = s@.subrange(0, i + 1);
            assert(t.drop_last() =~= s@.subrange(0, i as int));
            assert(t.last() == c);
        }
        i = i + 1;
    }
    assert(s@.subrange(0, n as int) =~= s@);
    out
}

/// Appends the XML form of `s`.
pub fn push_escaped(xml: &mut String, s: &str)
    ensures
        final(xml)@ == old(xml)@ + xml_escaped(s@),
{
    let e = xml_escape(s);
    push_str(xml, e.as_str());
}

// ---------------------------------------------------------------------------
// Pads
// ---------------------------------------------------------------------------

/// Settings of one drum pad, taken from an IT instrument or sample.
pub struct PadEntry {
    /// Display name (from the IT instrument or sample).
    pub name: String,
    /// File name of the extracted WAV (its stem names the layer's sample).
    pub wav_filename: String,
    /// Loop active.
    pub loop_active: bool,
    /// Loop start in samples.
    pub loop_start: u32,
    /// Loop end in samples.
    pub loop_end: u32,
    /// Ping-pong loop.
    pub pingpong: bool,
    /// Sustain loop active (IT only; no direct MPC equivalent).
    pub sustain_loop_active: bool,
    /// Sustain loop start.
    pub sustain_loop_start: u32,
    /// Sustain loop end.
    pub sustain_loop_end: u32,
    /// Volume from 0 to 1, in 4096ths (from default volume × global volume).
    pub volume: u32,
    /// Pan from 0 to 1, in 64ths (32 = centre; None = the default).
    pub pan: Option<u32>,
    /// Coarse tune in semitones.
    pub tune_coarse: i32,
    /// Fine tune in cents (-100..100).
    pub tune_fine: i32,
    /// One-shot: false if looping, true if not.
    pub one_shot: bool,
    /// Polyphony (0 = the program's default).
    pub polyphony: u32,
    /// New note action: "cut", "continue", "note-off" or "fade".
    pub nna: String,
    /// IT fadeout, 0..=128 (higher = faster), mapped to a release time of 0..=1.
    pub fadeout: u16,
    /// Root note (MIDI note, 0–127); 60 = C5.
    pub root_note: u32,
}

/// Volume of a pad made from a sample: default volume × global volume, each out of 64,
/// at most 1; in 4096ths.
pub open spec fn sample_pad_volume(sample: Sample) -> u32 {
    let v = sample.default_vol * sample.global_vol;
    (if v < 4096 { v } else { 4096 }) as u32
}

/// Volume of a pad made from an instrument: global volume out of 128, at most 1; in 4096ths.
pub open spec fn instrument_pad_volume(inst: Instrument) -> u32 {
    ((if inst.global_vol < 128 { inst.global_vol as int } else { 128 }) * 32) as u32
}

/// Pan of a pad made from an instrument: its default pan out of 64 when below 64, the centre
/// at 64, none otherwise (bit 7 set: use the default); in 64ths.
pub open spec fn instrument_pad_pan(inst: Instrument) -> Option<u32> {
    if inst.default_pan < 64 {
        Some(inst.default_pan as u32)
    } else if inst.default_pan == 64 {
        Some(32u32)
    } else {
        None
    }
}

/// Polyphony of a pad made from an instrument: several voices when notes fade, or are not
/// cut and have a fadeout.
pub open spec fn instrument_pad_polyphony(inst: Instrument) -> u32 {
    if inst.new_note_action == 3 || (inst.new_note_action != 0 && inst.fadeout > 0) { 4 } else { 0 }
}

/// The volume of a sample's pad is at most 1 (4096 in 4096ths).
pub proof fn lemma_sample_pad_levels(pad: PadEntry, sample: Sample, wav: Seq<char>)
    requires
        pad.made_from_sample(sample, wav),
    ensures
        pad.volume <= 4096,
        pad.pan is None,
{
}

/// The volume of an instrument's pad is at most 1 (4096 in 4096ths), and its pan, where it
/// has one, at most 1 (64 in 64ths).
pub proof fn lemma_instrument_pad_levels(pad: PadEntry, inst: Instrument, primary: Option<Sample>, wav: Seq<char>)
    requires
        pad.made_from_instrument(inst, primary, wav),
    ensures
        pad.volume <= 4096,
        pad.pan matches Some(p) ==> p <= 64,
{
}

/// An instrument whose new note action is "fade" gives a pad with several voices and a
/// release time above 0, whatever its fadeout: in its program slot (`xpm_instrument_text`,
/// through `pad_params_text` and `release_text`) neither `<Polyphony>` nor
/// `<VolumeRelease>` reads zero.
pub proof fn lemma_fade_pad(pad: PadEntry, inst: Instrument, primary: Option<Sample>, wav: Seq<char>)
    requires
        pad.made_from_instrument(inst, primary, wav),
        inst.new_note_action == 3,
    ensures
        pad.polyphony > 0,
        decimal(pad.polyphony as nat) != decimal(0),
        is_fade(pad.nna@),
        release_level(pad.fadeout, is_fade(pad.nna@)) > 0,
        release_text(pad.fadeout, is_fade(pad.nna@)) != fixed6(0, 12800),
{
    lemma_release_text_zero(pad.fadeout, is_fade(pad.nna@));
    assert(decimal(pad.polyphony as nat) =~= seq![digit_char(4)]);
    assert(decimal(0) =~= seq![digit_char(0)]);
    lemma_digit_char_distinct(4, 0);
    assert(decimal(pad.polyphony as nat)[0] != decimal(0)[0]);
}

impl PadEntry {
    /// The pad of a raw sample whose WAV file is `wav`: the sample's name, loop and
    /// volume, centred, untuned, one voice, notes cut, no fade, root note C5.
    pub open spec fn made_from_sample(&self, sample: Sample, wav: Seq<char>) -> bool {
        &&& self.name@ == sample.shown_name()
        &&& self.wav_filename@ == wav
        &&& self.loop_active == sample.loop_active
        &&& self.loop_start == sample.loop_start
        &&& self.loop_end == sample.loop_end
        &&& self.pingpong == sample.pingpong
        &&& self.sustain_loop_active == sample.sustain_loop_active
        &&& self.sustain_loop_start == sample.susloop_start
        &&& self.sustain_loop_end == sample.susloop_end
        &&& self.volume == sample_pad_volume(sample)
        &&& self.pan is None
        &&& self.tune_coarse == 0
        &&& self.tune_fine == 0
        &&& self.one_shot == !sample.loop_active
        &&& self.polyphony == 0
        &&& self.nna@ == "cut"@
        &&& self.fadeout == 0
        &&& self.root_note == 60
    }

    /// The pad of an instrument whose WAV file is `wav`: the loop of its primary sample
    /// (none without one), its volume, pan, new note action and fadeout.
    pub open spec fn made_from_instrument(&self, inst: Instrument, primary: Option<Sample>, wav: Seq<char>) -> bool {
        &&& self.name@ == inst.shown_name()
        &&& self.wav_filename@ == wav
        &&& match primary {
            Some(s) => {
                &&& self.loop_active == s.loop_active
                &&& self.loop_start == s.loop_start
                &&& self.loop_end == s.loop_end
                &&& self.pingpong == s.pingpong
                &&& self.sustain_loop_active == s.sustain_loop_active
                &&& self.sustain_loop_start == s.susloop_start
                &&& self.sustain_loop_end == s.susloop_end
            },
            None => {
                &&& !self.loop_active
                &&& self.loop_start == 0
                &&& self.loop_end == 0
                &&& !self.pingpong
                &&& !self.sustain_loop_active
                &&& self.sustain_loop_start == 0
                &&& self.sustain_loop_end == 0
            },
        }
        &&& self.volume == instrument_pad_volume(inst)
        &&& self.pan == instrument_pad_pan(inst)
        &&& self.tune_coarse == 0
        &&& self.tune_fine == 0
        &&& self.one_shot == !self.loop_active
        &&& self.polyphony == instrument_pad_polyphony(inst)
        &&& self.nna@ == nna_text(inst.new_note_action)
        &&& self.fadeout == inst.fadeout
        &&& self.root_note == 60
    }

    /// Builds a pad from a raw sample (no instrument around it).
    pub fn from_sample(sample: &Sample, wav_filename: String) -> (pad: Self)
        ensures
            pad.made_from_sample(*sample, wav_filename@),
    {
        let dv = sample.default_vol as u32;
        let gv = sample.global_vol as u32;
        assert(dv * gv <= 65025) by (nonlinear_arith)
            requires
                dv <= 255,
                gv <= 255,
        ;
        let v: u32 = dv * gv;
        PadEntry {
            name: sample.display_name().to_owned(),
            wav_filename,
            loop_active: sample.loop_active,
            loop_start: sample.loop_start,
            loop_end: sample.loop_end,
            pingpong: sample.pingpong,
            sustain_loop_active: sample.sustain_loop_active,
            sustain_loop_start: sample.susloop_start,
            sustain_loop_end: sample.susloop_end,
            volume: if v < 4096 { v } else { 4096 },
            pan: None,
            tune_coarse: 0,
            tune_fine: 0,
            one_shot: !sample.loop_active,
            polyphony: 0,
            nna: "cut".to_owned(),
            fadeout: 0,
            root_note: 60,
        }
    }

    /// Builds a pad from an IT instrument, taking the loop from its primary sample.
    pub fn from_instrument(inst: &Instrument, primary_sample: Option<&Sample>, wav_filename: String) -> (pad: Self)
        ensures
            pad.made_from_instrument(
                *inst,
                match primary_sample {
                    Some(s) => Some(*s),
                    None => None,
                },
                wav_filename@,
            ),
    {
        let (loop_active, loop_start, loop_end, pingpong, sustain_loop_active, sustain_loop_start, sustain_loop_end, root_note) =
            match primary_sample {
                Some(s) => (s.loop_active, s.loop_start, s.loop_end, s.pingpong, s.sustain_loop_active, s.susloop_start, s.susloop_end, 60u32),
                None => (false, 0u32, 0u32, false, false, 0u32, 0u32, 60u32),
            };

        let gv: u32 = if inst.global_vol < 128 { inst.global_vol as u32 } else { 128 };

        let pan: Option<u32> = if inst.default_pan < 64 {
            Some(inst.default_pan as u32)
        } else if inst.default_pan == 64 {
            Some(32)
        } else {
            None  // 128 / > 64 with bit 7 = "no pan": use the default
        };

        // Notes that fade, or are not cut and fade out, get several voices.
        let poly: u32 = if inst.new_note_action == 3 || (inst.new_note_action != 0 && inst.fadeout > 0) { 4 } else { 0 };

        PadEntry {
            name: inst.display_name().to_owned(),
            wav_filename,
            loop_active,
            loop_start,
            loop_end,
            pingpong,
            sustain_loop_active,
            sustain_loop_start,
            sustain_loop_end,
            volume: gv * 32,
            pan,
            tune_coarse: 0,
            tune_fine: 0,
            one_shot: !loop_active,
            polyphony: poly,
            nna: inst.nna_name().to_owned(),
            fadeout: inst.fadeout,
            root_note,
        }
    }
}

/// Name for what std's `Path::file_stem` gives of a path, as text: the file name without
/// its last extension, or nothing where the path has no file name.
pub uninterp spec fn file_stem_text(path: Seq<char>) -> Option<Seq<char>>;

/// The file stem of `path` (std's `Path::file_stem`, as UTF-8 text). The contract only names
/// the result: it does not state how the stem is cut from the path.
#[verifier::external_body]
pub(crate) fn file_stem(path: &str) -> (r: Option<String>)
    ensures
        match r {
            Some(t) => file_stem_text(path@) == Some(t@),
            None => file_stem_text(path@) is None,
        },
{
    match std::path::Path::new(path).file_stem() {
        Some(stem) => match stem.to_str() {
            Some(t) => Some(t.to_string()),
            None => None,
        },
        None => None,
    }
}

/// Name of the sample of a WAV file: the file stem of its name, or the whole name where
/// there is no stem.
pub fn sample_name(wav_filename: &str) -> (r: String)
    ensures
        r@ == match file_stem_text(wav_filename@) {
            Some(t) => t,
            None => wav_filename@,
        },
{
    match file_stem(wav_filename) {
        Some(t) => t,
        None => wav_filename.to_owned(),
    }
}

// ---------------------------------------------------------------------------
// .xal generator
// ---------------------------------------------------------------------------

/// One song entry of the sequence list.
pub open spec fn xal_song(n: nat) -> Seq<char> {
    "      <Song number=\""@ + decimal(n) + "\">\n        <Name>(unnamed)</Name>\n        <TempoIgnore>False</TempoIgnore>\n      </Song>\n"@
}

/// Song entries 1 to `n`.
pub open spec fn xal_songs(n: nat) -> Seq<char>
    decreases n,
{
    if n == 0 {
        seq![]
    } else {
        xal_songs((n - 1) as nat) + xal_song(n)
    }
}

/// The sequence list: one active sequence and 32 unnamed songs.
pub open spec fn xal_text() -> Seq<char> {
    "<?xml version=\"1.0\" encoding=\"UTF-8\"?>\n\n<MPCVObject>\n  <Version>\n    <File_Version>1.7</File_Version>\n    <Application>MPC-V</Application>\n    <Application_Version>2.0</Application_Version>\n    <Platform>Windows</Platform>\n  </Version>\n  <AllSeqSamps>\n    <Sequences>\n      <Count>128</Count>\n      <Sequence number=\"1\">\n        <Active>True</Active>\n        <Name>Sequence 01</Name>\n      </Sequence>\n    </Sequences>\n    <Songs>\n      <Count>32</Count>\n"@ + xal_songs(32) + "    </Songs>\n  </AllSeqSamps>\n</MPCVObject>\n"@
}

/// Generates the "All Sequences & Songs" file (.xal).
pub fn generate_xal() -> (xml: String)
    ensures
        xml@ == xal_text(),
{
    let mut xml = String::new();
    push_str(&mut xml, "<?xml version=\"1.0\" encoding=\"UTF-8\"?>\n\n<MPCVObject>\n  <Version>\n    <File_Version>1.7</File_Version>\n    <Application>MPC-V</Application>\n    <Application_Version>2.0</Application_Version>\n    <Platform>Windows</Platform>\n  </Version>\n  <AllSeqSamps>\n    <Sequences>\n      <Count>128</Count>\n      <Sequence number=\"1\">\n        <Active>True</Active>\n        <Name>Sequence 01</Name>\n      </Sequence>\n    </Sequences>\n    <Songs>\n      <Count>32</Count>\n");
    let mut i: u64 = 1;
    while i <= 32
        invariant
            1 <= i <= 33,
            xml@ == "<?xml version=\"1.0\" encoding=\"UTF-8\"?>\n\n<MPCVObject>\n  <Version>\n    <File_Version>1.7</File_Version>\n    <Application>MPC-V</Application>\n    <Application_Version>2.0</Application_Version>\n    <Platform>Windows</Platform>\n  </Version>\n  <AllSeqSamps>\n    <Sequences>\n      <Count>128</Count>\n      <Sequence number=\"1\">\n        <Active>True</Active>\n        <Name>Sequence 01</Name>\n      </Sequence>\n    </Sequences>\n    <Songs>\n      <Count>32</Count>\n"@ + xal_songs((i - 1) as nat),
        decreases 33 - i,
    {
        push_str(&mut xml, "      <Song number=\"");
        push_decimal(&mut xml, i);
        push_str(&mut xml, "\">\n        <Name>(unnamed)</Name>\n        <TempoIgnore>False</TempoIgnore>\n      </Song>\n");
        assert(xml@ =~= "<?xml version=\"1.0\" encoding=\"UTF-8\"?>\n\n<MPCVObject>\n  <Version>\n    <File_Version>1.7</File_Version>\n    <Application>MPC-V</Application>\n    <Application_Version>2.0</Application_Version>\n    <Platform>Windows</Platform>\n  </Version>\n  <AllSeqSamps>\n    <Sequences>\n      <Count>128</Count>\n      <Sequence number=\"1\">\n        <Active>True</Active>\n        <Name>Sequence 01</Name>\n      </Sequence>\n    </Sequences>\n    <Songs>\n      <Count>32</Count>\n"@ + xal_songs(i as nat));
        i = i + 1;
    }
    push_str(&mut xml, "    </Songs>\n  </AllSeqSamps>\n</MPCVObject>\n");
    xml
}

// ---------------------------------------------------------------------------
// .xpj generator
// ---------------------------------------------------------------------------

/// One mixer strip, such as `<Mixer.Return number="2">` named "Return 2".
pub open spec fn mixer_strip(kind: Seq<char>, label: Seq<char>, n: nat) -> Seq<char> {
    "    <Mixer."@ + kind + " number=\""@ + decimal(n) + "\">\n      <Name>"@ + label + decimal(n) + "</Name>\n"@
        + "      <AudioRoute>\n        <AudioRoute>2</AudioRoute>\n        <AudioRouteSubIndex>0</AudioRouteSubIndex>\n        <InsertsEnabled>True</InsertsEnabled>\n      </AudioRoute>\n      <Send1>0.000000</Send1>\n      <Send2>0.000000</Send2>\n      <Send3>0.000000</Send3>\n      <Send4>0.000000</Send4>\n      <Volume>0.707946</Volume>\n      <Mute>False</Mute>\n      <Pan>0.500000</Pan>\n"@ + "    </Mixer."@ + kind + ">\n"@
}

/// Mixer strips 1 to `n` of one kind.
pub open spec fn mixer_strips(kind: Seq<char>, label: Seq<char>, n: nat) -> Seq<char>
    decreases n,
{
    if n == 0 {
        seq![]
    } else {
        mixer_strips(kind, label, (n - 1) as nat) + mixer_strip(kind, label, n)
    }
}

/// The file-list entry of one file of the project data folder.
pub open spec fn xpj_file(dir: Seq<char>, name: Seq<char>) -> Seq<char> {
    "    <File>.\\"@ + xml_escaped(dir) + "\\"@ + xml_escaped(name) + "</File>\n"@
}

/// File-list entries of the WAV files.
pub open spec fn xpj_wav_files(dir: Seq<char>, wavs: Seq<String>) -> Seq<char>
    decreases wavs.len(),
{
    if wavs.len() == 0 {
        seq![]
    } else {
        xpj_wav_files(dir, wavs.drop_last()) + xpj_file(dir, wavs.last()@)
    }
}

/// The project file: the file list (sequence list, WAV files, drum program) and the mixer.
pub open spec fn xpj_text(project_name: Seq<char>, dir: Seq<char>, wavs: Seq<String>) -> Seq<char> {
    "<?xml version=\"1.0\" encoding=\"UTF-8\"?>\n\n<Project>\n  <Version>\n    <File_Version>1.7</File_Version>\n    <Application>MPC-V</Application>\n    <Application_Version>2.0</Application_Version>\n    <Platform>Windows</Platform>\n  </Version>\n  <ProductCode>1299211094</ProductCode>\n  <BPM>120.000000</BPM>\n  <MasterVolume>0.707946</MasterVolume>\n  <FileList>\n"@ + "    <File>.\\"@ + xml_escaped(dir) + "\\All Sequences &amp; Songs.xal</File>\n"@
        + xpj_wav_files(dir, wavs) + "    <File>.\\"@ + xml_escaped(dir) + "\\"@ + xml_escaped(project_name)
        + ".xpm</File>\n"@ + "  </FileList>\n  <Mixer>\n"@ + "    <Mixer.Input number=\"1\">\n      <Name>Input</Name>\n      <AudioRoute>\n        <AudioRoute>2</AudioRoute>\n        <AudioRouteSubIndex>0</AudioRouteSubIndex>\n        <InsertsEnabled>True</InsertsEnabled>\n      </AudioRoute>\n      <Send1>0.000000</Send1>\n      <Send2>0.000000</Send2>\n      <Send3>0.000000</Send3>\n      <Send4>0.000000</Send4>\n      <Volume>0.707946</Volume>\n      <Mute>False</Mute>\n      <Pan>0.500000</Pan>\n    </Mixer.Input>\n"@
        + mixer_strips("Return"@, "Return "@, 4) + mixer_strips("Submix"@, "Submix "@, 8)
        + mixer_strips("Output"@, "Output "@, 16) + "  </Mixer>\n</Project>\n"@
}

/// The start of every project file, up to its file list.
pub open spec fn xpj_head() -> Seq<char> {
    "<?xml version=\"1.0\" encoding=\"UTF-8\"?>\n\n<Project>\n  <Version>\n    <File_Version>1.7</File_Version>\n    <Application>MPC-V</Application>\n    <Application_Version>2.0</Application_Version>\n    <Platform>Windows</Platform>\n  </Version>\n  <ProductCode>1299211094</ProductCode>\n  <BPM>120.000000</BPM>\n  <MasterVolume>0.707946</MasterVolume>\n  <FileList>\n"@
}

/// The end of every project file, from the end of its file list on: the mixer.
pub open spec fn xpj_tail() -> Seq<char> {
    "  </FileList>\n  <Mixer>\n"@ + "    <Mixer.Input number=\"1\">\n      <Name>Input</Name>\n      <AudioRoute>\n        <AudioRoute>2</AudioRoute>\n        <AudioRouteSubIndex>0</AudioRouteSubIndex>\n        <InsertsEnabled>True</InsertsEnabled>\n      </AudioRoute>\n      <Send1>0.000000</Send1>\n      <Send2>0.000000</Send2>\n      <Send3>0.000000</Send3>\n      <Send4>0.000000</Send4>\n      <Volume>0.707946</Volume>\n      <Mute>False</Mute>\n      <Pan>0.500000</Pan>\n    </Mixer.Input>\n"@
        + mixer_strips("Return"@, "Return "@, 4) + mixer_strips("Submix"@, "Submix "@, 8)
        + mixer_strips("Output"@, "Output "@, 16) + "  </Mixer>\n</Project>\n"@
}

/// One `<File>` line of the file list: `entry` (already escaped) in the escaped folder `dir`.
pub open spec fn xpj_file_line(dir: Seq<char>, entry: Seq<char>) -> Seq<char> {
    "    <File>.\\"@ + xml_escaped(dir) + "\\"@ + entry + "</File>\n"@
}

/// The escaped entries of the file list, in order: the sequence list, each WAV file, the
/// drum program.
pub open spec fn xpj_entries(project_name: Seq<char>, wavs: Seq<String>) -> Seq<Seq<char>> {
    seq!["All Sequences &amp; Songs.xal"@] + Seq::new(wavs.len(), |i: int| xml_escaped(wavs[i]@))
        + seq![xml_escaped(project_name) + ".xpm"@]
}

/// The lines, one after the other.
pub open spec fn joined(lines: Seq<Seq<char>>) -> Seq<char>
    decreases lines.len(),
{
    if lines.len() == 0 {
        seq![]
    } else {
        joined(lines.drop_last()) + lines.last()
    }
}

/// The file lines of the entries.
pub open spec fn xpj_file_lines(dir: Seq<char>, entries: Seq<Seq<char>>) -> Seq<Seq<char>> {
    Seq::new(entries.len(), |i: int| xpj_file_line(dir, entries[i]))
}

proof fn lemma_joined_prepend(a: Seq<char>, m: Seq<Seq<char>>)
    ensures
        joined(seq![a] + m) == a + joined(m),
    decreases m.len(),
{
    let t = seq![a] + m;
    if m.len() == 0 {
        assert(t.drop_last() =~= seq![]);
        assert(joined(t.drop_last()) =~= seq![]);
        assert(joined(t) =~= a);
    } else {
        assert(t.drop_last() =~= seq![a] + m.drop_last());
        lemma_joined_prepend(a, m.drop_last());
        assert(joined(t) =~= a + joined(m));
    }
}

proof fn lemma_wav_lines(dir: Seq<char>, wavs: Seq<String>)
    ensures
        xpj_wav_files(dir, wavs) == joined(
            Seq::new(wavs.len(), |i: int| xpj_file_line(dir, xml_escaped(wavs[i]@))),
        ),
    decreases wavs.len(),
{
    let lines = Seq::new(wavs.len(), |i: int| xpj_file_line(dir, xml_escaped(wavs[i]@)));
    if wavs.len() > 0 {
        lemma_wav_lines(dir, wavs.drop_last());
        let before = Seq::new(
            wavs.drop_last().len(),
            |i: int| xpj_file_line(dir, xml_escaped(wavs.drop_last()[i]@)),
        );
        assert(lines.drop_last() =~= before);
    } else {
        assert(lines =~= seq![]);
    }
}

/// The project file is the same for all inputs outside its file list. The list has one
/// `<File>` line per entry: the sequence list, each WAV file in order, then the drum
/// program; two more than there are WAV files.
pub proof fn lemma_xpj_layout(project_name: Seq<char>, dir: Seq<char>, wavs: Seq<String>)
    ensures
        xpj_entries(project_name, wavs).len() == wavs.len() + 2,
        xpj_text(project_name, dir, wavs) == xpj_head() + joined(
            xpj_file_lines(dir, xpj_entries(project_name, wavs)),
        ) + xpj_tail(),
{
    let entries = xpj_entries(project_name, wavs);
    let lines = xpj_file_lines(dir, entries);
    let first = xpj_file_line(dir, "All Sequences &amp; Songs.xal"@);
    let last = xpj_file_line(dir, xml_escaped(project_name) + ".xpm"@);
    let mid = Seq::new(wavs.len(), |i: int| xpj_file_line(dir, xml_escaped(wavs[i]@)));
    assert(lines =~= (seq![first] + mid).push(last));
    assert(lines.drop_last() =~= seq![first] + mid);
    lemma_joined_prepend(first, mid);
    lemma_wav_lines(dir, wavs);
    reveal_strlit("\\");
    reveal_strlit("\\All Sequences &amp; Songs.xal</File>\n");
    reveal_strlit("All Sequences &amp; Songs.xal");
    reveal_strlit("</File>\n");
    reveal_strlit(".xpm");
    reveal_strlit(".xpm</File>\n");
    let e = xml_escaped(dir);
    assert(first =~= "    <File>.\\"@ + e + "\\All Sequences &amp; Songs.xal</File>\n"@);
    assert(last =~= "    <File>.\\"@ + e + "\\"@ + xml_escaped(project_name) + ".xpm</File>\n"@);
    assert(xpj_text(project_name, dir, wavs) =~= xpj_head() + joined(lines) + xpj_tail());
}

/// Appends mixer strips 1 to `count` of one kind.
fn push_mixer_strips(xml: &mut String, kind: &str, label: &str, count: u64)
    requires
        count < u64::MAX,
    ensures
        final(xml)@ == old(xml)@ + mixer_strips(kind@, label@, count as nat),
{
    let mut i: u64 = 1;
    while i <= count
        invariant
            1 <= i <= count + 1,
            count < u64::MAX,
            xml@ == old(xml)@ + mixer_strips(kind@, label@, (i - 1) as nat),
        decreases count + 1 - i,
    {
        push_str(xml, "    <Mixer.");
        push_str(xml, kind);
        push_str(xml, " number=\"");
        push_decimal(xml, i);
        push_str(xml, "\">\n      <Name>");
        push_str(xml, label);
        push_decimal(xml, i);
        push_str(xml, "</Name>\n");
        push_str(xml, "      <AudioRoute>\n        <AudioRoute>2</AudioRoute>\n        <AudioRouteSubIndex>0</AudioRouteSubIndex>\n        <InsertsEnabled>True</InsertsEnabled>\n      </AudioRoute>\n      <Send1>0.000000</Send1>\n      <Send2>0.000000</Send2>\n      <Send3>0.000000</Send3>\n      <Send4>0.000000</Send4>\n      <Volume>0.707946</Volume>\n      <Mute>False</Mute>\n      <Pan>0.500000</Pan>\n");
        push_str(xml, "    </Mixer.");
        push_str(xml, kind);
        push_str(xml, ">\n");
        assert(xml@ =~= old(xml)@ + mixer_strips(kind@, label@, i as nat));
        i = i + 1;
    }
}

/// Generates the project file (.xpj) that lists the project's files.
pub fn generate_xpj(project_name: &str, project_data_dir_name: &str, wav_filenames: &[String]) -> (xml: String)
    ensures
        xml@ == xpj_text(project_name@, project_data_dir_name@, wav_filenames@),
{
    let dir = project_data_dir_name;
    let mut xml = String::new();
    push_str(&mut xml, "<?xml version=\"1.0\" encoding=\"UTF-8\"?>\n\n<Project>\n  <Version>\n    <File_Version>1.7</File_Version>\n    <Application>MPC-V</Application>\n    <Application_Version>2.0</Application_Version>\n    <Platform>Windows</Platform>\n  </Version>\n  <ProductCode>1299211094</ProductCode>\n  <BPM>120.000000</BPM>\n  <MasterVolume>0.707946</MasterVolume>\n  <FileList>\n");

    push_str(&mut xml, "    <File>.\\");
    push_escaped(&mut xml, dir);
    push_str(&mut xml, "\\All Sequences &amp; Songs.xal</File>\n");

    let ghost before = xml@;
    let mut i: usize = 0;
    while i < wav_filenames.len()
        invariant
            i <= wav_filenames@.len(),
            xml@ == before + xpj_wav_files(dir@, wav_filenames@.subrange(0, i as int)),
        decreases wav_filenames@.len() - i,
    {
        push_str(&mut xml, "    <File>.\\");
        push_escaped(&mut xml, dir);
        push_str(&mut xml, "\\");
        push_escaped(&mut xml, wav_filenames[i].as_str());
        push_str(&mut xml, "</File>\n");
        proof {
            let t = wav_filenames@.subrange(0, i + 1);
            assert(t.drop_last() =~= wav_filenames@.subrange(0, i as int));
        }
        i = i + 1;
        assert(xml@ =~= before + xpj_wav_files(dir@, wav_filenames@.subrange(0, i as int)));
    }
    assert(wav_filenames@.subrange(0, wav_filenames@.len() as int) =~= wav_filenames@);

    push_str(&mut xml, "    <File>.\\");
    push_escaped(&mut xml, dir);
    push_str(&mut xml, "\\");
    push_escaped(&mut xml, project_name);
    push_str(&mut xml, ".xpm</File>\n");

    push_str(&mut xml, "  </FileList>\n  <Mixer>\n");
    push_str(&mut xml, "    <Mixer.Input number=\"1\">\n      <Name>Input</Name>\n      <AudioRoute>\n        <AudioRoute>2</AudioRoute>\n        <AudioRouteSubIndex>0</AudioRouteSubIndex>\n        <InsertsEnabled>True</InsertsEnabled>\n      </AudioRoute>\n      <Send1>0.000000</Send1>\n      <Send2>0.000000</Send2>\n      <Send3>0.000000</Send3>\n      <Send4>0.000000</Send4>\n      <Volume>0.707946</Volume>\n      <Mute>False</Mute>\n      <Pan>0.500000</Pan>\n    </Mixer.Input>\n");
    push_mixer_strips(&mut xml, "Return", "Return ", 4);
    push_mixer_strips(&mut xml, "Submix", "Submix ", 8);
    push_mixer_strips(&mut xml, "Output", "Output ", 16);
    push_str(&mut xml, "  </Mixer>\n</Project>\n");
    assert(xml@ =~= xpj_text(project_name@, project_data_dir_name@, wav_filenames@));
    xml
}

// ---------------------------------------------------------------------------
// .xpm generator
// ---------------------------------------------------------------------------

/// Panning of a pad in 64ths, the centre where it has none.
pub open spec fn pan_or_centre(pan: Option<u32>) -> nat {
    match pan {
        Some(p) => p as nat,
        None => 32,
    }
}

/// Whether a pad's new note action is "fade".
pub open spec fn is_fade(nna: Seq<char>) -> bool {
    nna == "fade"@
}

/// Release time of a pad, in 12800ths of its range of 0 to 1: IT fadeout (higher = faster)
/// maps to 2 × (1 − fadeout / 128), kept to at most 1 and at least 0.01 (128); no release
/// without a fadeout, except that a "fade" pad then fades as slowly as it can (1).
pub open spec fn release_level(fadeout: u16, fade: bool) -> nat {
    if fadeout == 0 {
        if fade { 12800 } else { 0 }
    } else if fadeout < 64 {
        12800
    } else if fadeout < 128 {
        (200 * (128 - fadeout)) as nat
    } else {
        128
    }
}

/// The release time of a pad as written in the program, with six decimals.
pub open spec fn release_text(fadeout: u16, fade: bool) -> Seq<char> {
    fixed6(release_level(fadeout, fade), 12800)
}

/// The release time stays within 0..=1 and is at least 0.01 for any fadeout; it is 0 exactly
/// when there is no fadeout and the pad does not fade.
pub proof fn lemma_release_range(fadeout: u16, fade: bool)
    ensures
        release_level(fadeout, fade) <= 12800,
        fadeout > 0 ==> release_level(fadeout, fade) >= 128,
        fade ==> release_level(fadeout, fade) > 0,
        release_level(fadeout, fade) == 0 <==> (fadeout == 0 && !fade),
{
}

/// A faster fadeout gives a release time no longer than a slower one.
pub proof fn lemma_release_shortens(slower: u16, faster: u16, fade: bool)
    requires
        0 < slower <= faster,
    ensures
        release_level(faster, fade) <= release_level(slower, fade),
{
}

/// 10 to the power `w`.
pub open spec fn pow10(w: nat) -> nat
    decreases w,
{
    if w == 0 { 1 } else { 10 * pow10((w - 1) as nat) }
}

proof fn lemma_digit_char_distinct(a: int, b: int)
    requires
        0 <= a <= 9,
        0 <= b <= 9,
        a != b,
    ensures
        digit_char(a) != digit_char(b),
{
    assert(digit_char(a) as u32 == 48 + a);
    assert(digit_char(b) as u32 == 48 + b);
}

proof fn lemma_padded_decimal_len(n: nat, w: nat)
    ensures
        padded_decimal(n, w).len() == w,
    decreases w,
{
    if w > 0 {
        lemma_padded_decimal_len(n / 10, (w - 1) as nat);
    }
}

proof fn lemma_padded_decimal_nonzero(n: nat, w: nat)
    requires
        0 < n,
        padded_decimal(n, w) == padded_decimal(0, w),
    ensures
        n >= pow10(w),
    decreases w,
{
    if w > 0 {
        let a = padded_decimal(n, w);
        let b = padded_decimal(0, w);
        let pa = padded_decimal(n / 10, (w - 1) as nat);
        let pb = padded_decimal(0, (w - 1) as nat);
        assert(a[a.len() - 1] == digit_char((n % 10) as int));
        assert(b[b.len() - 1] == digit_char(0));
        if n % 10 != 0 {
            lemma_digit_char_distinct((n % 10) as int, 0);
        }
        assert(a.drop_last() =~= pa);
        assert(b.drop_last() =~= pb);
        lemma_padded_decimal_nonzero(n / 10, (w - 1) as nat);
    }
}

/// The written release time reads 0.000000 exactly when its level is 0.
pub proof fn lemma_release_text_zero(fadeout: u16, fade: bool)
    ensures
        release_text(fadeout, fade) == fixed6(0, 12800) <==> release_level(fadeout, fade) == 0,
{
    let l = release_level(fadeout, fade);
    if l > 0 && release_text(fadeout, fade) == fixed6(0, 12800) {
        assert(128 <= l <= 12800);
        let scaled = l * 1000000;
        let q = scaled / 12800;
        let r = scaled % 12800;
        assert(10000 <= q <= 1000000) by (nonlinear_arith)
            requires
                128 <= l <= 12800,
                q == (l * 1000000) / 12800,
        ;
        assert(q == 1000000 ==> r == 0) by (nonlinear_arith)
            requires
                128 <= l <= 12800,
                q == (l * 1000000) / 12800,
                r == (l * 1000000) % 12800,
        ;
        let m: nat = if 2 * r > 12800 || (2 * r == 12800 && q % 2 == 1) { q + 1 } else { q };
        let t = release_text(fadeout, fade);
        let z = fixed6(0, 12800);
        assert(z == decimal(0) + seq!['.'] + padded_decimal(0, 6));
        assert(t == decimal(m / 1000000) + seq!['.'] + padded_decimal(m % 1000000, 6));
        if m >= 1000000 {
            assert(m == 1000000);
            assert(decimal(1) == seq![digit_char(1)]);
            assert(t[0] == digit_char(1));
            assert(z[0] == digit_char(0));
            lemma_digit_char_distinct(1, 0);
        } else {
            assert(decimal(0).len() == 1);
            assert(m / 1000000 == 0 && m % 1000000 == m);
            lemma_padded_decimal_len(m, 6);
            lemma_padded_decimal_len(0, 6);
            assert(t.subrange(2, 8) =~= padded_decimal(m, 6));
            assert(z.subrange(2, 8) =~= padded_decimal(0, 6));
            lemma_padded_decimal_nonzero(m, 6);
            assert(pow10(6) == 1000000) by {
                reveal_with_fuel(pow10, 7);
            }
        }
    }
}

/// Volume, panning, tuning and polyphony of an instrument slot that holds a pad.
pub open spec fn pad_params_text(pad: PadEntry) -> Seq<char> {
    "        <Volume>"@ + fixed6(pad.volume as nat, 4096) + "</Volume>\n        <Mute>False</Mute>\n        <Pan>"@
        + fixed6(pan_or_centre(pad.pan), 64) + "</Pan>\n        <TuneCoarse>"@ + signed_decimal(pad.tune_coarse as int)
        + "</TuneCoarse>\n        <TuneFine>"@ + signed_decimal(pad.tune_fine as int)
        + "</TuneFine>\n        <Mono>False</Mono>\n        <Polyphony>"@ + decimal(pad.polyphony as nat)
        + "</Polyphony>\n"@
}

/// The sample layer of a pad, with the name of its sample.
pub open spec fn layer_text(pad: PadEntry, sample_name: Seq<char>) -> Seq<char> {
    "          <Layer number=\"1\">\n            <Active>True</Active>\n            <Volume>1.000000</Volume>\n            <Pan>0.500000</Pan>\n            <Pitch>0.000000</Pitch>\n            <TuneCoarse>0</TuneCoarse>\n            <TuneFine>0</TuneFine>\n            <VelStart>0</VelStart>\n            <VelEnd>127</VelEnd>\n            <SampleStart>0</SampleStart>\n            <SampleEnd>0</SampleEnd>\n"@ + "            <LoopStart>"@ + decimal(pad.loop_start as nat) + "</LoopStart>\n            <LoopEnd>"@
        + decimal(pad.loop_end as nat) + "</LoopEnd>\n"@ + "            <LoopCrossfadeLength>0</LoopCrossfadeLength>\n            <LoopTune>0</LoopTune>\n            <Mute>False</Mute>\n"@ + "            <RootNote>"@
        + decimal(pad.root_note as nat) + "</RootNote>\n"@ + "            <KeyTrack>False</KeyTrack>\n"@ + "            <SampleName>"@
        + xml_escaped(sample_name) + "</SampleName>\n"@ + "            <SampleFile></SampleFile>\n            <SliceIndex>128</SliceIndex>\n            <Direction>0</Direction>\n            <Offset>0</Offset>\n            <SliceStart>0</SliceStart>\n            <SliceEnd>0</SliceEnd>\n            <SliceLoopStart>0</SliceLoopStart>\n            <SliceLoop>0</SliceLoop>\n          </Layer>\n"@
}

/// The part of a layer before the text of its `<SampleName>` element.
pub open spec fn layer_head(pad: PadEntry) -> Seq<char> {
    "          <Layer number=\"1\">\n            <Active>True</Active>\n            <Volume>1.000000</Volume>\n            <Pan>0.500000</Pan>\n            <Pitch>0.000000</Pitch>\n            <TuneCoarse>0</TuneCoarse>\n            <TuneFine>0</TuneFine>\n            <VelStart>0</VelStart>\n            <VelEnd>127</VelEnd>\n            <SampleStart>0</SampleStart>\n            <SampleEnd>0</SampleEnd>\n"@ + "            <LoopStart>"@ + decimal(pad.loop_start as nat) + "</LoopStart>\n            <LoopEnd>"@
        + decimal(pad.loop_end as nat) + "</LoopEnd>\n"@ + "            <LoopCrossfadeLength>0</LoopCrossfadeLength>\n            <LoopTune>0</LoopTune>\n            <Mute>False</Mute>\n"@ + "            <RootNote>"@
        + decimal(pad.root_note as nat) + "</RootNote>\n"@ + "            <KeyTrack>False</KeyTrack>\n"@ + "            <SampleName>"@
}

/// The part of a layer after the text of its `<SampleName>` element.
pub open spec fn layer_tail() -> Seq<char> {
    "</SampleName>\n"@ + "            <SampleFile></SampleFile>\n            <SliceIndex>128</SliceIndex>\n            <Direction>0</Direction>\n            <Offset>0</Offset>\n            <SliceStart>0</SliceStart>\n            <SliceEnd>0</SliceEnd>\n            <SliceLoopStart>0</SliceLoopStart>\n            <SliceLoop>0</SliceLoop>\n          </Layer>\n"@
}

/// The text of a layer's `<SampleName>` element is the XML escape of the sample's name:
/// unescaping it gives back the name, it holds no `<`, `>`, `"` or `'`, and every `&` in it
/// opens one of the five entities.
pub proof fn lemma_layer_sample_name(pad: PadEntry, sample_name: Seq<char>)
    ensures
        ({
            let t = layer_text(pad, sample_name);
            let x = t.subrange(layer_head(pad).len() as int, t.len() - layer_tail().len());
            &&& layer_head(pad).len() + layer_tail().len() <= t.len()
            &&& t == layer_head(pad) + x + layer_tail()
            &&& xml_unescaped(x) == sample_name
            &&& markup_free(x)
            &&& forall|i: int| 0 <= i < x.len() && #[trigger] x[i] == '&' ==> opens_entity(x, i)
        }),
{
    let t = layer_text(pad, sample_name);
    let e = xml_escaped(sample_name);
    assert(t =~= layer_head(pad) + e + layer_tail());
    let x = t.subrange(layer_head(pad).len() as int, t.len() - layer_tail().len());
    assert(x =~= e);
    lemma_xml_escape_round_trip(sample_name);
    lemma_xml_escaped_markup_free(sample_name);
    lemma_xml_escaped_entities(sample_name);
}

/// Instrument slot `index` (numbered from 1 in the file), holding `pad` if there is one.
pub open spec fn xpm_instrument_text(index: nat, pad: Option<PadEntry>, sample_name: Seq<char>) -> Seq<char> {
    "      <Instrument number=\""@ + decimal(index + 1) + "\">\n"@ + "        <AudioRoute>\n          <AudioRoute>0</AudioRoute>\n          <AudioRouteSubIndex>0</AudioRouteSubIndex>\n          <InsertsEnabled>True</InsertsEnabled>\n        </AudioRoute>\n        <Send1>0.000000</Send1>\n        <Send2>0.000000</Send2>\n        <Send3>0.000000</Send3>\n        <Send4>0.000000</Send4>\n"@
        + (match pad { Some(p) => pad_params_text(p), None => "        <Volume>1.000000</Volume>\n        <Mute>False</Mute>\n        <Pan>0.500000</Pan>\n        <TuneCoarse>0</TuneCoarse>\n        <TuneFine>0</TuneFine>\n        <Mono>False</Mono>\n        <Polyphony>0</Polyphony>\n"@ }) + "        <FilterKeytrack>0.000000</FilterKeytrack>\n        <LowNote>0</LowNote>\n        <HighNote>127</HighNote>\n        <IgnoreBaseNote>False</IgnoreBaseNote>\n        <ZonePlay>1</ZonePlay>\n        <MuteGroup>0</MuteGroup>\n        <MuteTarget1>0</MuteTarget1>\n        <MuteTarget2>0</MuteTarget2>\n        <MuteTarget3>0</MuteTarget3>\n        <MuteTarget4>0</MuteTarget4>\n        <SimultTarget1>0</SimultTarget1>\n        <SimultTarget2>0</SimultTarget2>\n        <SimultTarget3>0</SimultTarget3>\n        <SimultTarget4>0</SimultTarget4>\n"@
        + (match pad {
            Some(p) => "        <TriggerMode>"@ + decimal(if p.loop_active { 2 } else { 0 }) + "</TriggerMode>\n"@,
            None => "        <TriggerMode>0</TriggerMode>\n"@,
        }) + "        <FilterType>0</FilterType>\n        <Cutoff>1.000000</Cutoff>\n        <Resonance>0.000000</Resonance>\n        <FilterEnvAmt>0.000000</FilterEnvAmt>\n        <AfterTouchToFilter>0.000000</AfterTouchToFilter>\n        <VelocityToStart>0.000000</VelocityToStart>\n        <VelocityToFilterAttack>0.000000</VelocityToFilterAttack>\n        <VelocityToFilter>0.000000</VelocityToFilter>\n        <VelocityToFilterEnvelope>0.000000</VelocityToFilterEnvelope>\n        <FilterAttack>0.000000</FilterAttack>\n        <FilterDecay>0.050000</FilterDecay>\n        <FilterSustain>1.000000</FilterSustain>\n        <FilterRelease>0.000000</FilterRelease>\n        <FilterHold>0.000000</FilterHold>\n        <FilterDecayType>True</FilterDecayType>\n        <FilterADEnvelope>True</FilterADEnvelope>\n        <VolumeHold>0.000000</VolumeHold>\n        <VolumeDecayType>True</VolumeDecayType>\n        <VolumeADEnvelope>True</VolumeADEnvelope>\n        <VolumeAttack>0.000000</VolumeAttack>\n        <VolumeDecay>0.050000</VolumeDecay>\n        <VolumeSustain>1.000000</VolumeSustain>\n"@
        + (match pad {
            Some(p) => "        <VolumeRelease>"@ + release_text(p.fadeout, is_fade(p.nna@)) + "</VolumeRelease>\n"@,
            None => "        <VolumeRelease>0.000000</VolumeRelease>\n"@,
        }) + "        <VelocityToPitch>0.000000</VelocityToPitch>\n        <VelocityToVolumeAttack>0.000000</VelocityToVolumeAttack>\n        <VelocitySensitivity>1.000000</VelocitySensitivity>\n        <VelocityToPan>0.000000</VelocityToPan>\n        <LFO LfoNum=\"0\">\n          <Type>Sine</Type>\n          <Rate>0.500000</Rate>\n          <Sync>0</Sync>\n          <Reset>False</Reset>\n          <LfoPitch>0.000000</LfoPitch>\n          <LfoCutoff>0.000000</LfoCutoff>\n          <LfoVolume>0.000000</LfoVolume>\n          <LfoPan>0.000000</LfoPan>\n        </LFO>\n        <WarpTempo>120.000000</WarpTempo>\n        <BpmLock>True</BpmLock>\n        <WarpEnable>False</WarpEnable>\n        <StretchPercentage>100</StretchPercentage>\n        <EditAllLayers>False</EditAllLayers>\n        <Layers>\n"@
        + (match pad { Some(p) => layer_text(p, sample_name), None => seq![] }) + "        </Layers>\n      </Instrument>\n"@
}

/// Appends the volume, panning, tuning and polyphony of a pad.
fn push_pad_params(xml: &mut String, pad: &PadEntry)
    ensures
        final(xml)@ == old(xml)@ + pad_params_text(*pad),
{
    push_str(xml, "        <Volume>");
    push_fixed6(xml, pad.volume, 4096);
    push_str(xml, "</Volume>\n        <Mute>False</Mute>\n        <Pan>");
    let pan: u32 = match pad.pan {
        Some(p) => p,
        None => 32,
    };
    push_fixed6(xml, pan, 64);
    push_str(xml, "</Pan>\n        <TuneCoarse>");
    push_signed_decimal(xml, pad.tune_coarse);
    push_str(xml, "</TuneCoarse>\n        <TuneFine>");
    push_signed_decimal(xml, pad.tune_fine);
    push_str(xml, "</TuneFine>\n        <Mono>False</Mono>\n        <Polyphony>");
    push_decimal(xml, pad.polyphony as u64);
    push_str(xml, "</Polyphony>\n");
    assert(xml@ =~= old(xml)@ + pad_params_text(*pad));
}

/// Whether a new note action's name is "fade".
fn is_fade_name(nna: &str) -> (r: bool)
    ensures
        r == is_fade(nna@),
{
    proof {
        reveal_strlit("fade");
    }
    if nna.unicode_len() != 4 {
        return false;
    }
    let r = nna.get_char(0) == 'f' && nna.get_char(1) == 'a' && nna.get_char(2) == 'd' && nna.get_char(3)
        == 'e';
    if r {
        assert(nna@ =~= "fade"@);
    }
    r
}

/// Appends the release time of a pad.
fn push_release(xml: &mut String, fadeout: u16, fade: bool)
    ensures
        final(xml)@ == old(xml)@ + release_text(fadeout, fade),
{
    let level: u32 = if fadeout == 0 {
        if fade { 12800 } else { 0 }
    } else if fadeout < 64 {
        12800
    } else if fadeout < 128 {
        200 * (128 - fadeout as u32)
    } else {
        128
    };
    push_fixed6(xml, level, 12800);
}

/// Appends the sample layer of a pad.
fn push_layer(xml: &mut String, pad: &PadEntry, sample_name: &str)
    ensures
        final(xml)@ == old(xml)@ + layer_text(*pad, sample_name@),
{
    push_str(xml, "          <Layer number=\"1\">\n            <Active>True</Active>\n            <Volume>1.000000</Volume>\n            <Pan>0.500000</Pan>\n            <Pitch>0.000000</Pitch>\n            <TuneCoarse>0</TuneCoarse>\n            <TuneFine>0</TuneFine>\n            <VelStart>0</VelStart>\n            <VelEnd>127</VelEnd>\n            <SampleStart>0</SampleStart>\n            <SampleEnd>0</SampleEnd>\n");
    push_str(xml, "            <LoopStart>");
    push_decimal(xml, pad.loop_start as u64);
    push_str(xml, "</LoopStart>\n            <LoopEnd>");
    push_decimal(xml, pad.loop_end as u64);
    push_str(xml, "</LoopEnd>\n");
    push_str(xml, "            <LoopCrossfadeLength>0</LoopCrossfadeLength>\n            <LoopTune>0</LoopTune>\n            <Mute>False</Mute>\n");
    push_str(xml, "            <RootNote>");
    push_decimal(xml, pad.root_note as u64);
    push_str(xml, "</RootNote>\n");
    push_str(xml, "            <KeyTrack>False</KeyTrack>\n");
    push_str(xml, "            <SampleName>");
    push_escaped(xml, sample_name);
    push_str(xml, "</SampleName>\n");
    push_str(xml, "            <SampleFile></SampleFile>\n            <SliceIndex>128</SliceIndex>\n            <Direction>0</Direction>\n            <Offset>0</Offset>\n            <SliceStart>0</SliceStart>\n            <SliceEnd>0</SliceEnd>\n            <SliceLoopStart>0</SliceLoopStart>\n            <SliceLoop>0</SliceLoop>\n          </Layer>\n");
    assert(xml@ =~= old(xml)@ + layer_text(*pad, sample_name@));
}

/// The XML of instrument slot `index` (numbered from 1 in the file): the pad's settings,
/// or the defaults of an empty slot; `sample_name` names the sample of the pad's layer.
pub fn xpm_instrument(index: usize, pad: Option<&PadEntry>, sample_name: &str) -> (xml: String)
    requires
        index < u64::MAX,
    ensures
        xml@ == xpm_instrument_text(
            index as nat,
            match pad {
                Some(p) => Some(*p),
                None => None,
            },
            sample_name@,
        ),
{
    let mut xml = String::new();
    push_str(&mut xml, "      <Instrument number=\"");
    push_decimal(&mut xml, index as u64 + 1);
    push_str(&mut xml, "\">\n");
    push_str(&mut xml, "        <AudioRoute>\n          <AudioRoute>0</AudioRoute>\n          <AudioRouteSubIndex>0</AudioRouteSubIndex>\n          <InsertsEnabled>True</InsertsEnabled>\n        </AudioRoute>\n        <Send1>0.000000</Send1>\n        <Send2>0.000000</Send2>\n        <Send3>0.000000</Send3>\n        <Send4>0.000000</Send4>\n");
    match pad {
        Some(p) => push_pad_params(&mut xml, p),
        None => push_str(&mut xml, "        <Volume>1.000000</Volume>\n        <Mute>False</Mute>\n        <Pan>0.500000</Pan>\n        <TuneCoarse>0</TuneCoarse>\n        <TuneFine>0</TuneFine>\n        <Mono>False</Mono>\n        <Polyphony>0</Polyphony>\n"),
    }
    push_str(&mut xml, "        <FilterKeytrack>0.000000</FilterKeytrack>\n        <LowNote>0</LowNote>\n        <HighNote>127</HighNote>\n        <IgnoreBaseNote>False</IgnoreBaseNote>\n        <ZonePlay>1</ZonePlay>\n        <MuteGroup>0</MuteGroup>\n        <MuteTarget1>0</MuteTarget1>\n        <MuteTarget2>0</MuteTarget2>\n        <MuteTarget3>0</MuteTarget3>\n        <MuteTarget4>0</MuteTarget4>\n        <SimultTarget1>0</SimultTarget1>\n        <SimultTarget2>0</SimultTarget2>\n        <SimultTarget3>0</SimultTarget3>\n        <SimultTarget4>0</SimultTarget4>\n");
    // TriggerMode: 2 = "Note" (sustain/loop); 0 = "Note Off" (one-shot).
    // This is what MPC's "Pad Loop" button in Program Edit reflects.
    match pad {
        Some(p) => {
            let trigger_mode: u64 = if p.loop_active { 2 } else { 0 };
            push_str(&mut xml, "        <TriggerMode>");
            push_decimal(&mut xml, trigger_mode);
            push_str(&mut xml, "</TriggerMode>\n");
        },
        None => push_str(&mut xml, "        <TriggerMode>0</TriggerMode>\n"),
    }
    push_str(&mut xml, "        <FilterType>0</FilterType>\n        <Cutoff>1.000000</Cutoff>\n        <Resonance>0.000000</Resonance>\n        <FilterEnvAmt>0.000000</FilterEnvAmt>\n        <AfterTouchToFilter>0.000000</AfterTouchToFilter>\n        <VelocityToStart>0.000000</VelocityToStart>\n        <VelocityToFilterAttack>0.000000</VelocityToFilterAttack>\n        <VelocityToFilter>0.000000</VelocityToFilter>\n        <VelocityToFilterEnvelope>0.000000</VelocityToFilterEnvelope>\n        <FilterAttack>0.000000</FilterAttack>\n        <FilterDecay>0.050000</FilterDecay>\n        <FilterSustain>1.000000</FilterSustain>\n        <FilterRelease>0.000000</FilterRelease>\n        <FilterHold>0.000000</FilterHold>\n        <FilterDecayType>True</FilterDecayType>\n        <FilterADEnvelope>True</FilterADEnvelope>\n        <VolumeHold>0.000000</VolumeHold>\n        <VolumeDecayType>True</VolumeDecayType>\n        <VolumeADEnvelope>True</VolumeADEnvelope>\n        <VolumeAttack>0.000000</VolumeAttack>\n        <VolumeDecay>0.050000</VolumeDecay>\n        <VolumeSustain>1.000000</VolumeSustain>\n");
    match pad {
        Some(p) => {
            push_str(&mut xml, "        <VolumeRelease>");
            push_release(&mut xml, p.fadeout, is_fade_name(p.nna.as_str()));
            push_str(&mut xml, "</VolumeRelease>\n");
        },
        None => push_str(&mut xml, "        <VolumeRelease>0.000000</VolumeRelease>\n"),
    }
    push_str(&mut xml, "        <VelocityToPitch>0.000000</VelocityToPitch>\n        <VelocityToVolumeAttack>0.000000</VelocityToVolumeAttack>\n        <VelocitySensitivity>1.000000</VelocitySensitivity>\n        <VelocityToPan>0.000000</VelocityToPan>\n        <LFO LfoNum=\"0\">\n          <Type>Sine</Type>\n          <Rate>0.500000</Rate>\n          <Sync>0</Sync>\n          <Reset>False</Reset>\n          <LfoPitch>0.000000</LfoPitch>\n          <LfoCutoff>0.000000</LfoCutoff>\n          <LfoVolume>0.000000</LfoVolume>\n          <LfoPan>0.000000</LfoPan>\n        </LFO>\n        <WarpTempo>120.000000</WarpTempo>\n        <BpmLock>True</BpmLock>\n        <WarpEnable>False</WarpEnable>\n        <StretchPercentage>100</StretchPercentage>\n        <EditAllLayers>False</EditAllLayers>\n        <Layers>\n");
    match pad {
        Some(p) => push_layer(&mut xml, p, sample_name),
        None => {},
    }
    push_str(&mut xml, "        </Layers>\n      </Instrument>\n");
    proof {
        let sp = match pad {
            Some(p) => Some(*p),
            None => None::<PadEntry>,
        };
        assert(xml@ =~= xpm_instrument_text(index as nat, sp, sample_name@));
    }
    xml
}

/// Entry `i` of the pad list of the program's pad JSON.
pub open spec fn pad_slot(i: nat) -> Seq<char> {
    "            &quot;value"@ + decimal(i) + "&quot;: 0"@ + (if i < 127 { ","@ } else { ""@ }) + "\n"@
}

/// Entries 0 to `n - 1` of the pad list.
pub open spec fn pad_slots(n: nat) -> Seq<char>
    decreases n,
{
    if n == 0 {
        seq![]
    } else {
        pad_slots((n - 1) as nat) + pad_slot((n - 1) as nat)
    }
}

/// The pad of slot `i`, if the list has one.
pub open spec fn pad_at(pads: Seq<PadEntry>, i: int) -> Option<PadEntry> {
    if 0 <= i < pads.len() { Some(pads[i]) } else { None }
}

/// Name of the sample of a pad: the file stem of its WAV file name, or the whole name
/// where it has no stem.
pub open spec fn sample_name_of(pad: Option<PadEntry>) -> Seq<char> {
    match pad {
        Some(p) => match file_stem_text(p.wav_filename@) {
            Some(t) => t,
            None => p.wav_filename@,
        },
        None => seq![],
    }
}

/// Instrument slots 0 to `n - 1`.
pub open spec fn xpm_instruments(pads: Seq<PadEntry>, n: nat) -> Seq<char>
    decreases n,
{
    if n == 0 {
        seq![]
    } else {
        xpm_instruments(pads, (n - 1) as nat) + xpm_instrument_text(
            (n - 1) as nat,
            pad_at(pads, n - 1),
            sample_name_of(pad_at(pads, n - 1)),
        )
    }
}

/// The drum program: 128 instrument slots, slot `i` holding pad `i` where there is one.
pub open spec fn xpm_text(program_name: Seq<char>, pads: Seq<PadEntry>) -> Seq<char> {
    "<?xml version=\"1.0\" encoding=\"UTF-8\"?>\n\n<MPCVObject>\n  <Version>\n    <File_Version>1.7</File_Version>\n    <Application>MPC-V</Application>\n    <Application_Version>2.0</Application_Version>\n    <Platform>Windows</Platform>\n  </Version>\n  <Program type=\"Drum\">\n"@ + "    <Name>"@ + xml_escaped(program_name) + "</Name>\n"@ + "    <ProgramPads>{\n    &quot;ProgramPads&quot;: {\n        &quot;Universal&quot;: {\n            &quot;value0&quot;: true\n        },\n        &quot;Type&quot;: {\n            &quot;value0&quot;: 1\n        },\n        &quot;universalPad&quot;: 32512,\n        &quot;pads&quot;: {\n"@
        + pad_slots(128) + "        },\n        &quot;UnusedPads&quot;: {\n            &quot;value0&quot;: 1\n        }\n    }\n}</ProgramPads>\n    <AudioRoute>\n      <AudioRoute>2</AudioRoute>\n      <AudioRouteSubIndex>0</AudioRouteSubIndex>\n      <InsertsEnabled>True</InsertsEnabled>\n    </AudioRoute>\n    <Send1>0.000000</Send1>\n    <Send2>0.000000</Send2>\n    <Send3>0.000000</Send3>\n    <Send4>0.000000</Send4>\n    <Volume>0.707946</Volume>\n    <Mute>False</Mute>\n    <Pan>0.500000</Pan>\n    <Pitch>0.000000</Pitch>\n    <TuneCoarse>0</TuneCoarse>\n    <TuneFine>0</TuneFine>\n    <Mono>False</Mono>\n    <Program_Polyphony>0</Program_Polyphony>\n    <Instruments>\n"@ + xpm_instruments(pads, 128) + "    </Instruments>\n  </Program>\n</MPCVObject>\n"@
}

/// Generates the MPC Drum Program XML (.xpm) from a list of pad entries.
///
/// IT loop points are mapped to the layer's loop fields; the fadeout is approximated by
/// the release time; a "fade" new note action gets a release time above 0 (and, from
/// `PadEntry::from_instrument`, a polyphony above 0); only the first 128 pads have a slot.
pub fn generate_xpm(program_name: &str, pads: &[PadEntry]) -> (xml: String)
    ensures
        xml@ == xpm_text(program_name@, pads@),
{
    let mut xml = String::new();
    push_str(&mut xml, "<?xml version=\"1.0\" encoding=\"UTF-8\"?>\n\n<MPCVObject>\n  <Version>\n    <File_Version>1.7</File_Version>\n    <Application>MPC-V</Application>\n    <Application_Version>2.0</Application_Version>\n    <Platform>Windows</Platform>\n  </Version>\n  <Program type=\"Drum\">\n");
    push_str(&mut xml, "    <Name>");
    push_escaped(&mut xml, program_name);
    push_str(&mut xml, "</Name>\n");
    // ProgramPads JSON blob
    push_str(&mut xml, "    <ProgramPads>{\n    &quot;ProgramPads&quot;: {\n        &quot;Universal&quot;: {\n            &quot;value0&quot;: true\n        },\n        &quot;Type&quot;: {\n            &quot;value0&quot;: 1\n        },\n        &quot;universalPad&quot;: 32512,\n        &quot;pads&quot;: {\n");
    let ghost before_slots = xml@;
    let mut i: u64 = 0;
    while i < 128
        invariant
            i <= 128,
            xml@ == before_slots + pad_slots(i as nat),
        decreases 128 - i,
    {
        let comma = if i < 127 { "," } else { "" };
        push_str(&mut xml, "            &quot;value");
        push_decimal(&mut xml, i);
        push_str(&mut xml, "&quot;: 0");
        push_str(&mut xml, comma);
        push_str(&mut xml, "\n");
        i = i + 1;
        assert(xml@ =~= before_slots + pad_slots(i as nat));
    }
    // Program-level defaults
    push_str(&mut xml, "        },\n        &quot;UnusedPads&quot;: {\n            &quot;value0&quot;: 1\n        }\n    }\n}</ProgramPads>\n    <AudioRoute>\n      <AudioRoute>2</AudioRoute>\n      <AudioRouteSubIndex>0</AudioRouteSubIndex>\n      <InsertsEnabled>True</InsertsEnabled>\n    </AudioRoute>\n    <Send1>0.000000</Send1>\n    <Send2>0.000000</Send2>\n    <Send3>0.000000</Send3>\n    <Send4>0.000000</Send4>\n    <Volume>0.707946</Volume>\n    <Mute>False</Mute>\n    <Pan>0.500000</Pan>\n    <Pitch>0.000000</Pitch>\n    <TuneCoarse>0</TuneCoarse>\n    <TuneFine>0</TuneFine>\n    <Mono>False</Mono>\n    <Program_Polyphony>0</Program_Polyphony>\n    <Instruments>\n");
    let ghost before_instruments = xml@;
    let mut i: usize = 0;
    while i < 128
        invariant
            i <= 128,
            xml@ == before_instruments + xpm_instruments(pads@, i as nat),
        decreases 128 - i,
    {
        let inst = if i < pads.len() {
            let pad = &pads[i];
            let name = sample_name(pad.wav_filename.as_str());
            xpm_instrument(i, Some(pad), name.as_str())
        } else {
            xpm_instrument(i, None, "")
        };
        proof {
            reveal_strlit("");
        }
        push_str(&mut xml, inst.as_str());
        i = i + 1;
        assert(xml@ =~= before_instruments + xpm_instruments(pads@, i as nat));
    }
    push_str(&mut xml, "    </Instruments>\n  </Program>\n</MPCVObject>\n");
    assert(xml@ =~= xpm_text(program_name@, pads@));
    xml
}

} // verus!
