//! Turning a song into an MPC project: one pad per instrument (or per sample), each
//! with the WAV file of its sample under a unique name.

use crate::error::ItError;
use crate::it::{Instrument, Sample, Song};
use crate::mpc::{file_stem, file_stem_text, PadEntry};
use crate::names::{
    all_distinct, checked_make_unique_name, is_taken, keys_of, lemma_unique_name_is_new,
    lowercase_text, sanitize_name, sanitized, unique_name, unique_name_fits,
};
use crate::text::push_str;
use crate::wav::{
    atem_text, le16_bytes, le32_bytes, lemma_wav_fmt, wav_file, wav_fits, wav_size_fits, write_wav,
    LoopInfo,
};
use vstd::utf8::encode_utf8;
use vstd::prelude::*;
use vstd::string::*;

verus! {

/// Most pads an MPC drum program has.
pub open spec fn max_pads() -> int {
    128
}

/// Index of the first sample that entries `k..` of a note-sample table map to (entries
/// hold 1-based sample indices; 0 and indices past the samples map to none).
pub open spec fn primary_from(table: Seq<(u8, u8)>, k: int, num_samples: int) -> Option<int>
    decreases table.len() - k,
{
    if k < 0 || k >= table.len() {
        None
    } else if 0 < table[k].1 <= num_samples {
        Some(table[k].1 - 1)
    } else {
        primary_from(table, k + 1, num_samples)
    }
}

/// The primary sample of an instrument: the first valid sample of its note-sample table.
pub open spec fn primary_sample(inst: Instrument, num_samples: int) -> Option<int> {
    primary_from(inst.note_sample_table@, 0, num_samples)
}

/// Finds the primary sample of an instrument: the first entry of its note-sample table
/// (notes C0 to B9) that maps to one of the `num_samples` samples.
pub fn primary_sample_index(inst: &Instrument, num_samples: usize) -> (r: Option<usize>)
    ensures
        match r {
            Some(k) => primary_sample(*inst, num_samples as int) == Some(k as int),
            None => primary_sample(*inst, num_samples as int) is None,
        },
        r matches Some(k) ==> k < num_samples,
{
    let mut i: usize = 0;
    while i < 120
        invariant
            i <= 120,
            inst.note_sample_table@.len() == 120,
            primary_sample(*inst, num_samples as int) == primary_from(
                inst.note_sample_table@,
                i as int,
                num_samples as int,
            ),
        decreases 120 - i,
    {
        let (_note, samp) = inst.note_sample_table[i];
        if samp > 0 && samp as usize <= num_samples {
            return Some(samp as usize - 1);
        }
        i = i + 1;
    }
    None
}

/// The WAV file names of pads whose raw names (`None`: no WAV) are `raws`, given the
/// lowercase names already used; `None` where a name cannot be made unique.
pub open spec fn wav_names(raws: Seq<Option<Seq<char>>>, used: Seq<Seq<char>>) -> Option<Seq<Seq<char>>>
    decreases raws.len(),
{
    if raws.len() == 0 {
        Some(seq![])
    } else {
        match raws[0] {
            None => match wav_names(raws.drop_first(), used) {
                Some(rest) => Some(seq![seq![]] + rest),
                None => None,
            },
            Some(raw) => if !unique_name_fits(raw, used) {
                None
            } else {
                let u = unique_name(raw, used);
                match wav_names(raws.drop_first(), used.push(lowercase_text(u))) {
                    Some(rest) => Some(seq![u + ".wav"@] + rest),
                    None => None,
                }
            },
        }
    }
}

/// The names that are not empty, in order.
pub open spec fn nonempty(names: Seq<Seq<char>>) -> Seq<Seq<char>>
    decreases names.len(),
{
    if names.len() == 0 {
        seq![]
    } else {
        nonempty(names.drop_last()) + if names.last().len() > 0 {
            seq![names.last()]
        } else {
            seq![]
        }
    }
}

/// Pads, the WAV files they use, and for each pad the index of the sample whose WAV it plays.
pub struct PadPlan {
    pub pads: Vec<PadEntry>,
    pub wav_filenames: Vec<String>,
    pub sources: Vec<Option<usize>>,
}

/// Number of pads made from `n` instruments or samples.
pub open spec fn pad_count(n: int) -> int {
    if n < max_pads() { n } else { max_pads() }
}

/// Raw names of the instrument pads: the instrument's name made safe, numbered from 1
/// where blank, for instruments that have a primary sample.
pub open spec fn instrument_raw_names(song: Song) -> Seq<Option<Seq<char>>> {
    Seq::new(
        pad_count(song.instruments@.len() as int) as nat,
        |i: int|
            if primary_sample(song.instruments@[i], song.samples@.len() as int) is Some {
                Some(sanitized(song.instruments@[i].shown_name(), (i + 1) as nat))
            } else {
                None
            },
    )
}

/// Raw names of the sample pads: the sample's name made safe, numbered from 1 where blank.
pub open spec fn sample_raw_names(song: Song) -> Seq<Option<Seq<char>>> {
    Seq::new(
        pad_count(song.samples@.len() as int) as nat,
        |i: int| Some(sanitized(song.samples@[i].shown_name(), (i + 1) as nat)),
    )
}

/// The sample at index `k`, if there is one.
pub open spec fn sample_at(song: Song, k: Option<int>) -> Option<Sample> {
    match k {
        Some(i) => if 0 <= i < song.samples@.len() { Some(song.samples@[i]) } else { None },
        None => None,
    }
}

/// `plan` gives one pad to each of the first 128 instruments, made from the instrument and
/// its primary sample, with WAV files named uniquely in order.
pub open spec fn is_instrument_plan(plan: PadPlan, song: Song) -> bool {
    let names = wav_names(instrument_raw_names(song), seq![]).unwrap();
    let n = pad_count(song.instruments@.len() as int);
    &&& plan.pads@.len() == n
    &&& plan.sources@.len() == n
    &&& forall|i: int|
        0 <= i < n ==> {
            let k = primary_sample(song.instruments@[i], song.samples@.len() as int);
            &&& match #[trigger] plan.sources@[i] {
                Some(s) => k == Some(s as int),
                None => k is None,
            }
            &&& plan.pads@[i].made_from_instrument(song.instruments@[i], sample_at(song, k), names[i])
        }
    &&& keys_of(plan.wav_filenames@) == nonempty(names)
}

/// `plan` gives one pad to each of the first 128 samples, with WAV files named uniquely in order.
pub open spec fn is_sample_plan(plan: PadPlan, song: Song) -> bool {
    let names = wav_names(sample_raw_names(song), seq![]).unwrap();
    let n = pad_count(song.samples@.len() as int);
    &&& plan.pads@.len() == n
    &&& plan.sources@.len() == n
    &&& forall|i: int|
        0 <= i < n ==> {
            &&& #[trigger] plan.sources@[i] == Some(i as usize)
            &&& plan.pads@[i].made_from_sample(song.samples@[i], names[i])
        }
    &&& keys_of(plan.wav_filenames@) == nonempty(names)
}

proof fn lemma_primary_in_range(table: Seq<(u8, u8)>, k: int, num_samples: int)
    ensures
        primary_from(table, k, num_samples) matches Some(i) ==> 0 <= i < num_samples,
    decreases table.len() - k,
{
    if 0 <= k < table.len() && !(0 < table[k].1 <= num_samples) {
        lemma_primary_in_range(table, k + 1, num_samples);
    }
}

proof fn lemma_wav_names_step(raws: Seq<Option<Seq<char>>>, i: int, used: Seq<Seq<char>>)
    requires
        0 <= i < raws.len(),
    ensures
        raws.skip(i).len() > 0,
        raws.skip(i)[0] == raws[i],
        raws.skip(i).drop_first() == raws.skip(i + 1),
{
    assert(raws.skip(i).drop_first() =~= raws.skip(i + 1));
}

/// The stem of a WAV file name: the name without its last four characters (".wav").
pub open spec fn wav_stem(name: Seq<char>) -> Seq<char> {
    name.subrange(0, name.len() - 4)
}

/// The WAV file names given to pads: each non-empty one is a stem and ".wav", its stem's
/// lowercase form is not among `used`, and no two stems share a lowercase form.
pub open spec fn fresh_wav_names(names: Seq<Seq<char>>, used: Seq<Seq<char>>) -> bool {
    &&& forall|k: int|
        0 <= k < names.len() && #[trigger] names[k].len() > 0 ==> {
            &&& names[k].len() >= 4
            &&& names[k] == wav_stem(names[k]) + ".wav"@
            &&& !is_taken(used, lowercase_text(wav_stem(names[k])))
        }
    &&& forall|i: int, j: int|
        0 <= i < j < names.len() && names[i].len() > 0 && names[j].len() > 0 ==> lowercase_text(
            wav_stem(#[trigger] names[i]),
        ) != lowercase_text(wav_stem(#[trigger] names[j]))
}

proof fn lemma_wav_names_fresh(raws: Seq<Option<Seq<char>>>, used: Seq<Seq<char>>)
    requires
        all_distinct(used),
    ensures
        wav_names(raws, used) matches Some(names) ==> names.len() == raws.len() && fresh_wav_names(names, used),
    decreases raws.len(),
{
    reveal_strlit(".wav");
    if raws.len() > 0 {
        match raws[0] {
            None => {
                lemma_wav_names_fresh(raws.drop_first(), used);
                if let Some(rest) = wav_names(raws.drop_first(), used) {
                    let names = seq![seq![]] + rest;
                    assert forall|k: int|
                        0 <= k < names.len() && #[trigger] names[k].len() > 0 implies {
                            &&& names[k].len() >= 4
                            &&& names[k] == wav_stem(names[k]) + ".wav"@
                            &&& !is_taken(used, lowercase_text(wav_stem(names[k])))
                        } by {
                        assert(names[k] == rest[k - 1]);
                    }
                    assert forall|i: int, j: int|
                        0 <= i < j < names.len() && names[i].len() > 0 && names[j].len() > 0 implies lowercase_text(
                            wav_stem(#[trigger] names[i]),
                        ) != lowercase_text(wav_stem(#[trigger] names[j])) by {
                        assert(names[i] == rest[i - 1]);
                        assert(names[j] == rest[j - 1]);
                    }
                }
            },
            Some(raw) => {
                if unique_name_fits(raw, used) {
                    let u = unique_name(raw, used);
                    let used2 = used.push(lowercase_text(u));
                    lemma_unique_name_is_new(raw, used);
                    lemma_wav_names_fresh(raws.drop_first(), used2);
                    if let Some(rest) = wav_names(raws.drop_first(), used2) {
                        let first = u + ".wav"@;
                        let names = seq![first] + rest;
                        assert(wav_stem(first) =~= u);
                        assert forall|k: int|
                            0 <= k < names.len() && #[trigger] names[k].len() > 0 implies {
                                &&& names[k].len() >= 4
                                &&& names[k] == wav_stem(names[k]) + ".wav"@
                                &&& !is_taken(used, lowercase_text(wav_stem(names[k])))
                            } by {
                            if k == 0 {
                                assert(names[k] == first);
                                assert(first =~= wav_stem(first) + ".wav"@);
                            } else {
                                assert(names[k] == rest[k - 1]);
                                let key = lowercase_text(wav_stem(names[k]));
                                if is_taken(used, key) {
                                    let w = choose|w: int| 0 <= w < used.len() && #[trigger] used[w] == key;
                                    assert(used2[w] == key);
                                }
                            }
                        }
                        assert forall|i: int, j: int|
                            0 <= i < j < names.len() && names[i].len() > 0 && names[j].len() > 0 implies lowercase_text(
                                wav_stem(#[trigger] names[i]),
                            ) != lowercase_text(wav_stem(#[trigger] names[j])) by {
                            assert(names[j] == rest[j - 1]);
                            if i == 0 {
                                assert(names[i] == first);
                                assert(used2[used.len() as int] == lowercase_text(u));
                            } else {
                                assert(names[i] == rest[i - 1]);
                            }
                        }
                    }
                }
            },
        }
    }
}

/// Every WAV file of an instrument-mode project has its own name: no two pads' non-empty
/// WAV file names are equal, nor their stems equal once lowercased.
pub proof fn lemma_instrument_wav_names_distinct(plan: PadPlan, song: Song)
    requires
        is_instrument_plan(plan, song),
        wav_names(instrument_raw_names(song), seq![]) is Some,
    ensures
        forall|i: int, j: int|
            0 <= i < j < plan.pads@.len() && plan.pads@[i].wav_filename@.len() > 0
                && plan.pads@[j].wav_filename@.len() > 0 ==> {
                &&& lowercase_text(wav_stem(#[trigger] plan.pads@[i].wav_filename@)) != lowercase_text(
                    wav_stem(#[trigger] plan.pads@[j].wav_filename@),
                )
                &&& plan.pads@[i].wav_filename@ != plan.pads@[j].wav_filename@
            },
{
    let names = wav_names(instrument_raw_names(song), seq![]).unwrap();
    lemma_wav_names_fresh(instrument_raw_names(song), seq![]);
    assert forall|i: int, j: int|
        0 <= i < j < plan.pads@.len() && plan.pads@[i].wav_filename@.len() > 0
            && plan.pads@[j].wav_filename@.len() > 0 implies {
            &&& lowercase_text(wav_stem(#[trigger] plan.pads@[i].wav_filename@)) != lowercase_text(
                wav_stem(#[trigger] plan.pads@[j].wav_filename@),
            )
            &&& plan.pads@[i].wav_filename@ != plan.pads@[j].wav_filename@
        } by {
        assert(plan.sources@[i] == plan.sources@[i]);
        assert(plan.sources@[j] == plan.sources@[j]);
        assert(names[i] == plan.pads@[i].wav_filename@);
        assert(names[j] == plan.pads@[j].wav_filename@);
    }
}

/// Every WAV file of a sample-mode project has its own name: no two pads' WAV file names
/// are equal, nor their stems equal once lowercased.
pub proof fn lemma_sample_wav_names_distinct(plan: PadPlan, song: Song)
    requires
        is_sample_plan(plan, song),
        wav_names(sample_raw_names(song), seq![]) is Some,
    ensures
        forall|i: int, j: int|
            0 <= i < j < plan.pads@.len() ==> {
                &&& lowercase_text(wav_stem(#[trigger] plan.pads@[i].wav_filename@)) != lowercase_text(
                    wav_stem(#[trigger] plan.pads@[j].wav_filename@),
                )
                &&& plan.pads@[i].wav_filename@ != plan.pads@[j].wav_filename@
            },
{
    reveal_strlit(".wav");
    let raws = sample_raw_names(song);
    let names = wav_names(raws, seq![]).unwrap();
    lemma_wav_names_fresh(raws, seq![]);
    lemma_sample_names_nonempty(raws, seq![]);
    assert forall|i: int, j: int|
        0 <= i < j < plan.pads@.len() implies {
            &&& lowercase_text(wav_stem(#[trigger] plan.pads@[i].wav_filename@)) != lowercase_text(
                wav_stem(#[trigger] plan.pads@[j].wav_filename@),
            )
            &&& plan.pads@[i].wav_filename@ != plan.pads@[j].wav_filename@
        } by {
        assert(plan.sources@[i] == Some(i as usize));
        assert(plan.sources@[j] == Some(j as usize));
        assert(names[i] == plan.pads@[i].wav_filename@);
        assert(names[j] == plan.pads@[j].wav_filename@);
        assert(raws[i] is Some);
        assert(raws[j] is Some);
    }
}

proof fn lemma_sample_names_nonempty(raws: Seq<Option<Seq<char>>>, used: Seq<Seq<char>>)
    ensures
        wav_names(raws, used) matches Some(names) ==> names.len() == raws.len() && forall|k: int|
            0 <= k < names.len() && (#[trigger] raws[k]) is Some ==> names[k].len() > 0,
    decreases raws.len(),
{
    reveal_strlit(".wav");
    if raws.len() > 0 {
        match raws[0] {
            None => {
                lemma_sample_names_nonempty(raws.drop_first(), used);
            },
            Some(raw) => {
                if unique_name_fits(raw, used) {
                    let u = unique_name(raw, used);
                    lemma_sample_names_nonempty(raws.drop_first(), used.push(lowercase_text(u)));
                }
            },
        }
        if let Some(names) = wav_names(raws, used) {
            assert forall|k: int| 0 <= k < names.len() && (#[trigger] raws[k]) is Some implies names[k].len() > 0 by {
                if k > 0 {
                    assert(raws[k] == raws.drop_first()[k - 1]);
                }
            }
        }
    }
}

/// Builds the pads in instrument mode, one per instrument (at most 128), or `None` where a
/// WAV file name cannot be made unique.
pub fn build_pads_from_instruments(song: &Song) -> (r: Option<PadPlan>)
    ensures
        r is Some <==> wav_names(instrument_raw_names(*song), seq![]) is Some,
        r matches Some(plan) ==> is_instrument_plan(plan, *song),
{
    let ghost raws = instrument_raw_names(*song);
    let ghost total = wav_names(raws, seq![]);
    let n: usize = if song.instruments.len() < 128 { song.instruments.len() } else { 128 };
    let mut pads: Vec<PadEntry> = Vec::new();
    let mut wav_filenames: Vec<String> = Vec::new();
    let mut sources: Vec<Option<usize>> = Vec::new();
    let mut used: Vec<String> = Vec::new();
    let ghost mut done: Seq<Seq<char>> = seq![];
    let mut i: usize = 0;
    assert(raws.skip(0) =~= raws);
    assert(keys_of(used@) =~= seq![]);
    proof {
        match wav_names(raws, seq![]) {
            Some(rest) => {
                assert(done + rest =~= rest);
            },
            None => {},
        }
    }
    while i < n
        invariant
            i <= n,
            n == pad_count(song.instruments@.len() as int),
            raws == instrument_raw_names(*song),
            total == wav_names(raws, seq![]),
            raws.len() == n,
            done.len() == i,
            total == match wav_names(raws.skip(i as int), keys_of(used@)) {
                Some(rest) => Some(done + rest),
                None => None::<Seq<Seq<char>>>,
            },
            pads@.len() == i,
            sources@.len() == i,
            forall|j: int|
                0 <= j < i ==> {
                    let k = primary_sample(song.instruments@[j], song.samples@.len() as int);
                    &&& match #[trigger] sources@[j] {
                        Some(s) => k == Some(s as int),
                        None => k is None,
                    }
                    &&& pads@[j].made_from_instrument(song.instruments@[j], sample_at(*song, k), done[j])
                },
            keys_of(wav_filenames@) == nonempty(done),
            all_distinct(keys_of(used@)),
        decreases n - i,
    {
        proof {
            lemma_wav_names_step(raws, i as int, keys_of(used@));
        }
        let inst = &song.instruments[i];
        let primary = primary_sample_index(inst, song.samples.len());
        let ghost used_before = keys_of(used@);
        let wav_filename = match primary {
            Some(_) => {
                let raw = sanitize_name(inst.display_name(), i + 1);
                let unique = match checked_make_unique_name(raw.as_str(), &mut used) {
                    Some(u) => u,
                    None => {
                        return None;
                    },
                };
                let mut f = unique;
                push_str(&mut f, ".wav");
                f
            },
            None => String::new(),
        };
        if !wav_filename.as_str().is_empty() {
            wav_filenames.push(wav_filename.clone());
        }
        proof {
            lemma_primary_in_range(inst.note_sample_table@, 0, song.samples@.len() as int);
        }
        let primary_smp = match primary {
            Some(k) => Some(&song.samples[k]),
            None => None,
        };
        let pad = PadEntry::from_instrument(inst, primary_smp, wav_filename);
        pads.push(pad);
        sources.push(primary);
        let ghost k = primary_sample(song.instruments@[i as int], song.samples@.len() as int);
        assert(pads@[i as int].made_from_instrument(song.instruments@[i as int], sample_at(*song, k), wav_filename@));
        proof {
            let x = wav_filename@;
            let ghost old_done = done;
            done = done.push(x);
            assert(done.drop_last() =~= old_done);
            assert(keys_of(wav_filenames@) =~= nonempty(done));
            assert(forall|j: int| 0 <= j < i ==> done[j] == old_done[j]);
            assert(total == match wav_names(raws.skip(i + 1), keys_of(used@)) {
                Some(rest) => Some(done + rest),
                None => None::<Seq<Seq<char>>>,
            }) by {
                match wav_names(raws.skip(i + 1), keys_of(used@)) {
                    Some(rest) => {
                        assert(old_done + (seq![x] + rest) =~= done + rest);
                    },
                    None => {},
                }
            }
        }
        i = i + 1;
    }
    proof {
        assert(raws.skip(n as int) =~= seq![]);
        assert(done + seq![] =~= done);
    }
    Some(PadPlan { pads, wav_filenames, sources })
}

/// Builds the pads in sample mode, one per sample (at most 128), or `None` where a WAV
/// file name cannot be made unique.
pub fn build_pads_from_samples(song: &Song) -> (r: Option<PadPlan>)
    ensures
        r is Some <==> wav_names(sample_raw_names(*song), seq![]) is Some,
        r matches Some(plan) ==> is_sample_plan(plan, *song),
{
    let ghost raws = sample_raw_names(*song);
    let ghost total = wav_names(raws, seq![]);
    let n: usize = if song.samples.len() < 128 { song.samples.len() } else { 128 };
    let mut pads: Vec<PadEntry> = Vec::new();
    let mut wav_filenames: Vec<String> = Vec::new();
    let mut sources: Vec<Option<usize>> = Vec::new();
    let mut used: Vec<String> = Vec::new();
    let ghost mut done: Seq<Seq<char>> = seq![];
    let mut i: usize = 0;
    assert(raws.skip(0) =~= raws);
    assert(keys_of(used@) =~= seq![]);
    proof {
        match wav_names(raws, seq![]) {
            Some(rest) => {
                assert(done + rest =~= rest);
            },
            None => {},
        }
    }
    while i < n
        invariant
            i <= n,
            n == pad_count(song.samples@.len() as int),
            raws == sample_raw_names(*song),
            total == wav_names(raws, seq![]),
            raws.len() == n,
            done.len() == i,
            total == match wav_names(raws.skip(i as int), keys_of(used@)) {
                Some(rest) => Some(done + rest),
                None => None::<Seq<Seq<char>>>,
            },
            pads@.len() == i,
            sources@.len() == i,
            forall|j: int|
                0 <= j < i ==> {
                    &&& #[trigger] sources@[j] == Some(j as usize)
                    &&& pads@[j].made_from_sample(song.samples@[j], done[j])
                },
            keys_of(wav_filenames@) == nonempty(done),
            all_distinct(keys_of(used@)),
        decreases n - i,
    {
        proof {
            lemma_wav_names_step(raws, i as int, keys_of(used@));
        }
        let samp = &song.samples[i];
        let raw = sanitize_name(samp.display_name(), i + 1);
        let unique = match checked_make_unique_name(raw.as_str(), &mut used) {
            Some(u) => u,
            None => {
                return None;
            },
        };
        let mut wav_filename = unique;
        push_str(&mut wav_filename, ".wav");
        wav_filenames.push(wav_filename.clone());
        let pad = PadEntry::from_sample(samp, wav_filename);
        pads.push(pad);
        sources.push(Some(i));
        assert(pads@[i as int].made_from_sample(song.samples@[i as int], wav_filename@));
        proof {
            let x = wav_filename@;
            let ghost old_done = done;
            done = done.push(x);
            assert(done.drop_last() =~= old_done);
            assert(x.len() > 0);
            assert(keys_of(wav_filenames@) =~= nonempty(done));
            assert forall|j: int| 0 <= j < i + 1 implies {
                &&& #[trigger] sources@[j] == Some(j as usize)
                &&& pads@[j].made_from_sample(song.samples@[j], done[j])
            } by {
                if j < i {
                    assert(done[j] == old_done[j]);
                }
            }
            assert(total == match wav_names(raws.skip(i + 1), keys_of(used@)) {
                Some(rest) => Some(done + rest),
                None => None::<Seq<Seq<char>>>,
            }) by {
                match wav_names(raws.skip(i + 1), keys_of(used@)) {
                    Some(rest) => {
                        assert(old_done + (seq![x] + rest) =~= done + rest);
                    },
                    None => {},
                }
            }
        }
        i = i + 1;
    }
    proof {
        assert(raws.skip(n as int) =~= seq![]);
        assert(done + seq![] =~= done);
    }
    Some(PadPlan { pads, wav_filenames, sources })
}

/// The loop of a sample, as its WAV file records it.
pub open spec fn sample_loop(samp: Sample) -> LoopInfo {
    LoopInfo {
        active: samp.loop_active,
        start: samp.loop_start,
        end: samp.loop_end,
        pingpong: samp.pingpong,
    }
}

/// Channels of a sample's WAV file: 2 for stereo, else 1.
pub open spec fn sample_channels(samp: Sample) -> u16 {
    if samp.stereo { 2 } else { 1 }
}

/// Sample rate of a sample's WAV file: its C5 speed, at least 1.
pub open spec fn sample_rate_of(samp: Sample) -> u32 {
    if samp.c5_speed > 1 { samp.c5_speed } else { 1 }
}

/// The WAV file of a sample of the song file `data`: `Ok(None)` where the sample is empty
/// (no file is written), the sample's decoding error, or `None` where its compressed data
/// cannot be decoded to the end or the sizes overflow the WAV header fields.
pub open spec fn sample_wav(data: Seq<u8>, samp: Sample) -> Option<Result<Option<Seq<u8>>, ItError>> {
    if samp.length == 0 {
        Some(Ok(None))
    } else {
        match samp.pcm(data) {
            None => None,
            Some(Err(e)) => Some(Err(e)),
            Some(Ok(v)) => {
                let lp = sample_loop(samp);
                if v.len() == 0 {
                    Some(Ok(None))
                } else if !wav_fits(v.len(), sample_channels(samp), sample_rate_of(samp), Some(&lp)) {
                    None
                } else {
                    Some(Ok(Some(wav_file(v, sample_channels(samp), sample_rate_of(samp), Some(&lp)))))
                }
            },
        }
    }
}

/// The WAV file of a sample has 2 channels exactly when the sample is stereo (flag bit 2)
/// and 1 otherwise, whatever its bit depth: its `fmt ` chunk records that channel count, the
/// sample's C5 speed (at least 1) as rate, and the byte rate and block alignment of 16-bit
/// PCM with that many channels; its `atem` chunk describes the decoded samples as frames of
/// that many channels, with the sample's loop.
pub proof fn lemma_sample_wav_format(data: Seq<u8>, samp: Sample)
    ensures
        match sample_wav(data, samp) {
            Some(Ok(Some(b))) => match samp.pcm(data) {
                Some(Ok(v)) => {
                    let ch: u16 = if samp.stereo { 2 } else { 1 };
                    let rate: u32 = if samp.c5_speed > 1 { samp.c5_speed } else { 1 };
                    let lp = LoopInfo {
                        active: samp.loop_active,
                        start: samp.loop_start,
                        end: samp.loop_end,
                        pingpong: samp.pingpong,
                    };
                    let atem = encode_utf8(atem_text(v.len(), ch, Some(&lp)));
                    &&& v.len() > 0
                    &&& b.subrange(22, 24) == le16_bytes(ch as int)
                    &&& b.subrange(24, 28) == le32_bytes(rate as int)
                    &&& b.subrange(28, 32) == le32_bytes(rate * (2 * ch))
                    &&& b.subrange(32, 34) == le16_bytes(2 * ch)
                    &&& b.subrange(40, 44) == le32_bytes(atem.len() as int)
                    &&& b.subrange(44, 44 + atem.len() as int) == atem
                },
                _ => false,
            },
            _ => true,
        },
{
    if let Some(Ok(Some(b))) = sample_wav(data, samp) {
        if let Some(Ok(v)) = samp.pcm(data) {
            let lp = sample_loop(samp);
            lemma_wav_fmt(v, sample_channels(samp), sample_rate_of(samp), Some(&lp));
        }
    }
}

/// Makes the WAV file of one sample of the song: its PCM with the sample's channels, rate
/// and loop; `Ok(None)` where the sample is empty.
pub fn extract_sample_wav(song: &Song, samp: &Sample) -> (r: Option<Result<Option<Vec<u8>>, ItError>>)
    requires
        song.raw@.len() + 0x10003 <= usize::MAX,
    ensures
        match r {
            None => sample_wav(song.raw@, *samp) is None,
            Some(Ok(None)) => sample_wav(song.raw@, *samp) == Some(Ok::<Option<Seq<u8>>, ItError>(None)),
            Some(Ok(Some(b))) => sample_wav(song.raw@, *samp) == Some(Ok::<Option<Seq<u8>>, ItError>(Some(b@))),
            Some(Err(e)) => sample_wav(song.raw@, *samp) == Some(Err::<Option<Seq<u8>>, ItError>(e)),
        },
{
    if samp.length == 0 {
        return Some(Ok(None));
    }
    let pcm = match samp.checked_extract_pcm(song.raw_data()) {
        None => {
            return None;
        },
        Some(Err(e)) => {
            return Some(Err(e));
        },
        Some(Ok(v)) => v,
    };
    if pcm.len() == 0 {
        return Some(Ok(None));
    }
    let channels: u16 = if samp.stereo { 2 } else { 1 };
    let sample_rate: u32 = if samp.c5_speed > 1 { samp.c5_speed } else { 1 };
    let loop_info = LoopInfo {
        active: samp.loop_active,
        start: samp.loop_start,
        end: samp.loop_end,
        pingpong: samp.pingpong,
    };
    if !wav_size_fits(pcm.len(), channels, sample_rate, Some(&loop_info)) {
        return None;
    }
    let mut bytes: Vec<u8> = Vec::new();
    write_wav(&mut bytes, pcm.as_slice(), channels, sample_rate, Some(&loop_info));
    assert(bytes@ =~= wav_file(pcm@, channels, sample_rate, Some(&loop_info)));
    Some(Ok(Some(bytes)))
}

/// Whether the conversion makes one pad per instrument: the song uses instruments, has
/// instrument headers, and sample mode was not asked for. Otherwise there is one pad per sample.
pub fn instrument_mode(song: &Song, samples_only: bool) -> (r: bool)
    ensures
        r == (song.flags & 0x04 != 0 && song.instruments@.len() > 0 && !samples_only),
{
    song.uses_instruments() && song.instruments.len() > 0 && !samples_only
}

/// Whether the song has more instruments (in instrument mode) or samples than an MPC program
/// has pads, so that only the first 128 get one.
pub fn exceeds_pad_limit(song: &Song, use_instruments: bool) -> (r: bool)
    ensures
        r == (if use_instruments { song.instruments@.len() } else { song.samples@.len() } > max_pads()),
{
    if use_instruments {
        song.instruments.len() > 128
    } else {
        song.samples.len() > 128
    }
}

/// Name of the folder that holds a project's program, sequence list and WAV files.
pub fn project_data_dir_name(project_name: &str) -> (r: String)
    ensures
        r@ == project_name@ + "_[ProjectData]"@,
{
    let mut s = project_name.to_string();
    push_str(&mut s, "_[ProjectData]");
    s
}

/// The project name used when none is given: the file stem of the input path, or
/// "Untitled" where it has none.
pub fn default_project_name(input_path: &str) -> (r: String)
    ensures
        r@ == match file_stem_text(input_path@) {
            Some(t) => t,
            None => "Untitled"@,
        },
{
    match file_stem(input_path) {
        Some(t) => t,
        None => "Untitled".to_string(),
    }
}

} // verus!
