//! From samples to detections: cutting the stream into blocks and windows,
//! smoothing the scores of a window and judging them.

use crate::config;
use crate::config::AppConfig;
use crate::config::CLASS_COUNT;
use crate::single::Single;
use crate::text;
use vstd::prelude::*;
use vstd::string::*;

verus! {

broadcast use vstd::std_specs::hash::group_hash_axioms;

/// How many resampled values make up a window.
pub const WINDOW: usize = 15600;

/// How many resampled values a window is ahead of the one before it.
pub const HOP: usize = 7800;

/// The nanoseconds of a second.
pub const NANOS_PER_SEC: u128 = 1_000_000_000;

/// How long before its start a listener counts as having last reported, in
/// nanoseconds.
pub const HEAD_START: u128 = 60_000_000_000;

/// -1.0
pub const MINUS_ONE: u32 = 0xbf80_0000;

/// The state of a listener.
pub struct Listener {
    /// How many samples are averaged into one resampled value.
    pub step: usize,
    /// The samples that do not fill a block yet.
    pub raw: Vec<Single>,
    /// The resampled values that a later window will hold.
    pub resampled: Vec<Single>,
    /// The smoothed scores; none after a window that was not classified.
    pub smoothed: Vec<Single>,
    /// The time of the last report, in nanoseconds.
    pub spoken_at: u128,
}

/// What is done with a window.
#[derive(Clone, Copy, Debug, PartialEq, Eq, Structural)]
pub enum Gate {
    /// The detection is paused: the window is dropped and the level is shown as
    /// zero.
    Paused,
    /// The window is not loud enough: it is dropped.
    Silent,
    /// The window is classified.
    Listening,
}

/// What comes of a message of samples.
pub enum Heard {
    /// No window is full yet.
    Waiting,
    /// A window is full and is dropped; the level is the one that is shown.
    Dropped { shown: Single },
    /// A window is full and is classified; the level is its own, and is shown.
    Classify { window: Vec<Single>, rms: Single },
}

/// The highest score and the class that it belongs to.
#[derive(Clone, Copy, Debug, PartialEq, Eq, Structural)]
pub struct Top {
    pub score: Single,
    pub class_id: usize,
}

/// Where an alert is sent.
pub struct AlertTarget {
    pub url: String,
    pub channel: String,
    pub recipient: String,
}

/// A sound that is reported.
pub struct Detection {
    pub class_id: usize,
    pub sound_name: String,
    pub score: Single,
    pub rms: Single,
    /// Where an alert is to be sent, if one is to be sent.
    pub alert: Option<AlertTarget>,
}

/// The full blocks at the beginning of a stream.
pub open spec fn blocks(stream: Seq<Single>, step: nat) -> Seq<Seq<Single>>
    decreases stream.len(),
{
    if step == 0 || stream.len() < step {
        Seq::empty()
    } else {
        seq![stream.take(step as int)] + blocks(stream.skip(step as int), step)
    }
}

/// What follows the full blocks of a stream.
pub open spec fn leftover(stream: Seq<Single>, step: nat) -> Seq<Single>
    decreases stream.len(),
{
    if step == 0 || stream.len() < step {
        stream
    } else {
        leftover(stream.skip(step as int), step)
    }
}

/// The contents of a list of blocks.
pub open spec fn block_values(list: Seq<Vec<Single>>) -> Seq<Seq<Single>> {
    list.map_values(|block: Vec<Single>| block@)
}

/// The window at the beginning of a buffer, if the buffer is long enough.
pub open spec fn window_of(buffer: Seq<Single>) -> Option<Seq<Single>> {
    if buffer.len() >= WINDOW {
        Some(buffer.take(WINDOW as int))
    } else {
        None
    }
}

/// What is left of a buffer once its window is taken.
pub open spec fn after_window(buffer: Seq<Single>) -> Seq<Single> {
    if buffer.len() >= WINDOW {
        buffer.skip(HOP as int)
    } else {
        buffer
    }
}

/// Whether a function of a list may give `outcome` for these values.
pub open spec fn is_outcome<F: Fn(&Vec<Single>) -> Single>(
    f: F,
    values: Seq<Single>,
    outcome: Single,
) -> bool {
    exists|list: Vec<Single>| list@ == values && #[trigger] f.ensures((&list,), outcome)
}

/// Whether a function of a list may give these averages for a list of blocks.
pub open spec fn are_averages<F: Fn(&Vec<Single>) -> Single>(
    average: F,
    full: Seq<Seq<Single>>,
    averages: Seq<Single>,
) -> bool {
    &&& averages.len() == full.len()
    &&& forall|i: int| 0 <= i < full.len() ==> is_outcome(average, full[i], #[trigger] averages[i])
}

/// What is done with a window of a given level.
pub open spec fn gate_of(config: AppConfig, rms: Single) -> Gate {
    if config.paused {
        Gate::Paused
    } else if rms.above(config.rms_threshold) {
        Gate::Listening
    } else {
        Gate::Silent
    }
}

/// What comes of a full window of a given level.
pub open spec fn is_heard(heard: Heard, config: AppConfig, values: Seq<Single>, rms: Single) -> bool {
    match gate_of(config, rms) {
        Gate::Listening => heard matches Heard::Classify { window, rms: own } && window@ == values
            && own == rms,
        gate => heard == (Heard::Dropped { shown: gate.shown_level(rms) }),
    }
}

/// What comes of the buffer of averages, of which `level` gives the level of a
/// window: once a window is full, what is done with it by its level.
pub open spec fn is_verdict<L: Fn(&Vec<Single>) -> Single>(
    heard: Heard,
    config: AppConfig,
    level: L,
    buffer: Seq<Single>,
) -> bool {
    if window_of(buffer) is None {
        heard == Heard::Waiting
    } else {
        exists|rms: Single|
            {
                &&& #[trigger] is_outcome(level, window_of(buffer)->0, rms)
                &&& is_heard(heard, config, window_of(buffer)->0, rms)
            }
    }
}

/// Whether `after` are the smoothed scores once `scores` are taken in. Where
/// there were none before they are the new ones; otherwise each new score is
/// mixed with the smoothed one in its place, as far as both lists go.
pub open spec fn is_smoothed<F: Fn(Single, Single) -> Single>(
    before: Seq<Single>,
    scores: Seq<Single>,
    mix: F,
    after: Seq<Single>,
) -> bool {
    if before.len() == 0 {
        after == scores
    } else {
        &&& after.len() == before.len()
        &&& forall|i: int|
            0 <= i < scores.len() && i < before.len() ==> mix.ensures(
                (scores[i], before[i]),
                #[trigger] after[i],
            )
        &&& forall|i: int|
            scores.len() <= i < before.len() ==> #[trigger] after[i] == before[i]
    }
}

/// Whether smoothed scores are judged right: the top class is reported if and
/// only if it is one to report and the last report is long enough ago.
pub open spec fn is_judged(
    detection: Option<Detection>,
    smoothed: Seq<Single>,
    config: AppConfig,
    labels: Seq<String>,
    rms: Single,
    spoken_at: u128,
    now: u128,
) -> bool {
    let top = top_of(smoothed);
    &&& detection is Some <==> is_reportable(config, top) && is_rested(
        spoken_at,
        now,
        config.cooldown_secs,
    )
    &&& detection matches Some(found) ==> is_report(found, config, labels, top, rms)
}

/// The highest score that is above -1.0, the earliest of equal ones, with its
/// class; -1.0 and the first class if there is none.
pub open spec fn top_of(scores: Seq<Single>) -> Top
    decreases scores.len(),
{
    if scores.len() == 0 {
        Top { score: Single { bits: MINUS_ONE }, class_id: 0 }
    } else {
        let before = top_of(scores.drop_last());
        if scores.last().above(before.score) {
            Top {
                score: scores.last(),
                class_id: ((scores.len() - 1) % CLASS_COUNT as int) as usize,
            }
        } else {
            before
        }
    }
}

/// Whether the top class is one to report, and sure enough.
pub open spec fn is_reportable(config: AppConfig, top: Top) -> bool {
    &&& top.score.reaches(config.score_threshold)
    &&& config.enabled_categories@.contains(top.class_id)
}

/// Whether enough time has passed since the last report.
pub open spec fn is_rested(spoken_at: u128, now: u128, cooldown_secs: u64) -> bool {
    (if now >= spoken_at {
        now - spoken_at
    } else {
        0
    }) >= cooldown_secs * NANOS_PER_SEC
}

/// Whether a report of the top class raises an alert.
pub open spec fn raises_alert(config: AppConfig, top: Top) -> bool {
    &&& config.alert_enabled
    &&& config.alert_categories@.contains(top.class_id)
    &&& top.score.reaches(config.alert_score_threshold)
    &&& text::trimmed(config.alert_webhook_url@).len() > 0
}

/// Whether a detection reports the top class under these settings.
pub open spec fn is_report(
    detection: Detection,
    config: AppConfig,
    labels: Seq<String>,
    top: Top,
    rms: Single,
) -> bool {
    &&& detection.class_id == top.class_id
    &&& detection.sound_name@ == config::sound_name_of(
        config.custom_names@,
        labels,
        top.class_id,
    )
    &&& detection.score == top.score
    &&& detection.rms == rms
    &&& detection.alert is Some <==> raises_alert(config, top)
    &&& detection.alert matches Some(target) ==> {
        &&& target.url@ == config.alert_webhook_url@
        &&& target.channel@ == config.alert_channel@
        &&& target.recipient@ == config.alert_recipient@
    }
}

/// A level that the window may have, and what is done with it, make a verdict.
proof fn lemma_verdict<L: Fn(&Vec<Single>) -> Single>(
    heard: Heard,
    config: AppConfig,
    level: L,
    buffer: Seq<Single>,
    rms: Single,
)
    requires
        window_of(buffer) is Some,
        is_outcome(level, window_of(buffer)->0, rms),
        is_heard(heard, config, window_of(buffer)->0, rms),
    ensures
        is_verdict(heard, config, level, buffer),
{
}

/// A part of a list.
fn copy_range(list: &Vec<Single>, lo: usize, hi: usize) -> (part: Vec<Single>)
    requires
        lo <= hi <= list@.len(),
    ensures
        part@ == list@.subrange(lo as int, hi as int),
{
    let mut part: Vec<Single> = Vec::new();
    let mut i: usize = lo;
    while i < hi
        invariant
            lo <= i <= hi <= list@.len(),
            part@ == list@.subrange(lo as int, i as int),
        decreases hi - i,
    {
        part.push(list[i]);
        assert(part@ =~= list@.subrange(lo as int, i + 1));
        i += 1;
    }
    part
}

/// Adds values at the end of a list.
fn add_all(list: &mut Vec<Single>, values: &Vec<Single>)
    ensures
        final(list)@ == old(list)@ + values@,
{
    let ghost before = list@;
    let mut i: usize = 0;
    while i < values.len()
        invariant
            i <= values@.len(),
            list@ == before + values@.take(i as int),
        decreases values@.len() - i,
    {
        list.push(values[i]);
        assert(list@ =~= before + values@.take(i + 1));
        i += 1;
    }
    assert(values@.take(values@.len() as int) =~= values@);
}

/// The highest score and its class.
pub fn top_class(scores: &Vec<Single>) -> (top: Top)
    ensures
        top == top_of(scores@),
{
    let mut top = Top { score: Single { bits: MINUS_ONE }, class_id: 0 };
    let mut i: usize = 0;
    while i < scores.len()
        invariant
            i <= scores@.len(),
            top == top_of(scores@.take(i as int)),
        decreases scores@.len() - i,
    {
        assert(scores@.take(i + 1).drop_last() =~= scores@.take(i as int));
        if scores[i].is_above(top.score) {
            top = Top { score: scores[i], class_id: i % CLASS_COUNT };
        }
        i += 1;
    }
    assert(scores@.take(scores@.len() as int) =~= scores@);
    top
}

impl Gate {
    /// The level that is shown for a window.
    pub open spec fn shown_level(self, rms: Single) -> Single {
        match self {
            Gate::Paused => Single { bits: 0 },
            _ => rms,
        }
    }

    /// The level that is shown for a window: zero while the detection is paused.
    pub fn shown_rms(self, rms: Single) -> (shown: Single)
        ensures
            shown == self.shown_level(rms),
    {
        match self {
            Gate::Paused => Single { bits: 0 },
            _ => rms,
        }
    }
}

impl Listener {
    /// A listener averages some samples, and keeps fewer than that back.
    pub open spec fn wf(self) -> bool {
        self.step > 0 && self.raw@.len() < self.step
    }

    /// A listener that averages `step` samples into one value. It counts as
    /// having last reported a minute before `now`.
    pub fn new(step: usize, now: u128) -> (listener: Listener)
        requires
            step > 0,
            now >= HEAD_START,
        ensures
            listener.wf(),
            listener.step == step,
            listener.raw@ == Seq::<Single>::empty(),
            listener.resampled@ == Seq::<Single>::empty(),
            listener.smoothed@ == Seq::<Single>::empty(),
            listener.spoken_at == now - HEAD_START,
    {
        Listener {
            step,
            raw: Vec::new(),
            resampled: Vec::new(),
            smoothed: Vec::new(),
            spoken_at: now - HEAD_START,
        }
    }

    /// Takes in samples and hands out the blocks that are full.
    pub fn take_blocks(&mut self, samples: &Vec<Single>) -> (full: Vec<Vec<Single>>)
        requires
            old(self).step > 0,
        ensures
            block_values(full@) == blocks(old(self).raw@ + samples@, old(self).step as nat),
            final(self).raw@ == leftover(old(self).raw@ + samples@, old(self).step as nat),
            *final(self) == (Listener { raw: final(self).raw, ..*old(self) }),
            final(self).wf(),
    {
        let ghost before = *self;
        let ghost stream = self.raw@ + samples@;
        let step = self.step;
        let mut full: Vec<Vec<Single>> = Vec::new();
        add_all(&mut self.raw, samples);
        let mut at: usize = 0;
        proof {
            assert(stream.skip(0) =~= stream);
            assert(block_values(full@) + blocks(stream, step as nat) =~= blocks(
                stream,
                step as nat,
            ));
        }
        while self.raw.len() - at >= step
            invariant
                step > 0,
                at <= stream.len(),
                self.raw@ == stream,
                *self == (Listener { raw: self.raw, ..before }),
                block_values(full@) + blocks(stream.skip(at as int), step as nat) == blocks(
                    stream,
                    step as nat,
                ),
                leftover(stream.skip(at as int), step as nat) == leftover(stream, step as nat),
            decreases stream.len() - at,
        {
            let ghost known = full@;
            let ghost rest = stream.skip(at as int);
            let block = copy_range(&self.raw, at, at + step);
            full.push(block);
            proof {
                assert(rest.take(step as int) =~= block@);
                assert(rest.skip(step as int) =~= stream.skip(at + step));
                assert(block_values(full@) =~= block_values(known).push(block@));
                assert(block_values(full@) + blocks(stream.skip(at + step), step as nat)
                    =~= block_values(known) + blocks(rest, step as nat));
            }
            at += step;
        }
        let rest = copy_range(&self.raw, at, self.raw.len());
        self.raw = rest;
        proof {
            assert(rest@ =~= stream.skip(at as int));
            law_blocks_are_full(stream, step as nat);
            assert(block_values(full@) =~= blocks(stream, step as nat));
        }
        full
    }

    /// Takes in resampled values and hands out the next window, if it is full.
    pub fn take_window(&mut self, averages: &Vec<Single>) -> (window: Option<Vec<Single>>)
        ensures
            match window {
                Some(values) => window_of(old(self).resampled@ + averages@) == Some(values@),
                None => window_of(old(self).resampled@ + averages@) is None,
            },
            final(self).resampled@ == after_window(old(self).resampled@ + averages@),
            *final(self) == (Listener { resampled: final(self).resampled, ..*old(self) }),
    {
        let ghost buffer = self.resampled@ + averages@;
        add_all(&mut self.resampled, averages);
        if self.resampled.len() >= WINDOW {
            let window = copy_range(&self.resampled, 0, WINDOW);
            let rest = copy_range(&self.resampled, HOP, self.resampled.len());
            self.resampled = rest;
            assert(window@ =~= buffer.take(WINDOW as int));
            assert(rest@ =~= buffer.skip(HOP as int));
            Some(window)
        } else {
            None
        }
    }

    /// Decides what is done with a window of a given level. The smoothed scores
    /// are forgotten unless the window is classified.
    pub fn gate(&mut self, config: &AppConfig, rms: Single) -> (gate: Gate)
        ensures
            gate == gate_of(*config, rms),
            gate == Gate::Listening ==> *final(self) == *old(self),
            gate != Gate::Listening ==> final(self).smoothed@ == Seq::<Single>::empty(),
            *final(self) == (Listener { smoothed: final(self).smoothed, ..*old(self) }),
    {
        if config.paused {
            self.smoothed.clear();
            Gate::Paused
        } else if rms.is_above(config.rms_threshold) {
            Gate::Listening
        } else {
            self.smoothed.clear();
            Gate::Silent
        }
    }

    /// Takes in the scores of a window. Where there are no smoothed scores yet
    /// they become the smoothed ones; otherwise each is mixed with the smoothed
    /// score in its place, as far as both lists go.
    pub fn smooth<F: Fn(Single, Single) -> Single>(&mut self, scores: &Vec<Single>, mix: F)
        requires
            forall|score: Single, smoothed: Single| #[trigger] mix.requires((score, smoothed)),
        ensures
            is_smoothed(old(self).smoothed@, scores@, mix, final(self).smoothed@),
            *final(self) == (Listener { smoothed: final(self).smoothed, ..*old(self) }),
    {
        if self.smoothed.len() == 0 {
            self.smoothed = copy_range(scores, 0, scores.len());
            assert(self.smoothed@ =~= scores@);
        } else {
            let ghost before = *self;
            let mut i: usize = 0;
            while i < self.smoothed.len() && i < scores.len()
                invariant
                    forall|score: Single, smoothed: Single| #[trigger]
                        mix.requires((score, smoothed)),
                    i <= scores@.len(),
                    i <= before.smoothed@.len(),
                    self.smoothed@.len() == before.smoothed@.len(),
                    forall|j: int|
                        0 <= j < i ==> mix.ensures(
                            (scores@[j], before.smoothed@[j]),
                            #[trigger] self.smoothed@[j],
                        ),
                    forall|j: int|
                        i <= j < before.smoothed@.len() ==> #[trigger] self.smoothed@[j]
                            == before.smoothed@[j],
                    *self == (Listener { smoothed: self.smoothed, ..before }),
                decreases scores@.len() - i,
            {
                let mixed = mix(scores[i], self.smoothed[i]);
                self.smoothed.set(i, mixed);
                i += 1;
            }
        }
    }

    /// Judges the smoothed scores: reports the class with the highest score if
    /// it is sure enough, is to be reported, and the last report is long enough
    /// ago.
    pub fn decide(
        &mut self,
        config: &AppConfig,
        labels: &Vec<String>,
        rms: Single,
        now: u128,
    ) -> (detection: Option<Detection>)
        ensures
            is_judged(
                detection,
                old(self).smoothed@,
                *config,
                labels@,
                rms,
                old(self).spoken_at,
                now,
            ),
            *final(self) == (Listener {
                spoken_at: if detection is Some {
                    now
                } else {
                    old(self).spoken_at
                },
                ..*old(self)
            }),
    {
        let top = top_class(&self.smoothed);
        if !(top.score.is_at_least(config.score_threshold) && config.enabled_categories.contains(
            &top.class_id,
        )) {
            return None;
        }
        let elapsed: u128 = if now >= self.spoken_at {
            now - self.spoken_at
        } else {
            0
        };
        if elapsed < config.cooldown_secs as u128 * NANOS_PER_SEC {
            return None;
        }
        let sound_name = config.sound_name(labels, top.class_id);
        let alert: Option<AlertTarget> = if config.alert_enabled
            && config.alert_categories.contains(&top.class_id) && top.score.is_at_least(
            config.alert_score_threshold,
        ) && !text::trim(&config.alert_webhook_url).as_str().is_empty() {
            Some(
                AlertTarget {
                    url: config.alert_webhook_url.clone(),
                    channel: config.alert_channel.clone(),
                    recipient: config.alert_recipient.clone(),
                },
            )
        } else {
            None
        };
        self.spoken_at = now;
        Some(Detection { class_id: top.class_id, sound_name, score: top.score, rms, alert })
    }

    /// Takes in a message of samples: averages the blocks that are full, and once
    /// a window of averages is full decides by its level what is done with it.
    /// `average` gives the average of a block and `level` the level of a window.
    pub fn hear<A: Fn(&Vec<Single>) -> Single, L: Fn(&Vec<Single>) -> Single>(
        &mut self,
        config: &AppConfig,
        samples: &Vec<Single>,
        average: A,
        level: L,
    ) -> (heard: Heard)
        requires
            old(self).step > 0,
            forall|block: Vec<Single>| #[trigger] average.requires((&block,)),
            forall|window: Vec<Single>| #[trigger] level.requires((&window,)),
        ensures
            exists|averages: Seq<Single>|
                {
                    &&& #[trigger] are_averages(
                        average,
                        blocks(old(self).raw@ + samples@, old(self).step as nat),
                        averages,
                    )
                    &&& final(self).resampled@ == after_window(old(self).resampled@ + averages)
                    &&& is_verdict(heard, *config, level, old(self).resampled@ + averages)
                },
            final(self).raw@ == leftover(old(self).raw@ + samples@, old(self).step as nat),
            final(self).smoothed@ == if heard is Dropped {
                Seq::empty()
            } else {
                old(self).smoothed@
            },
            *final(self) == (Listener {
                raw: final(self).raw,
                resampled: final(self).resampled,
                smoothed: final(self).smoothed,
                ..*old(self)
            }),
            final(self).wf(),
    {
        let ghost before = *self;
        let full = self.take_blocks(samples);
        let mut averages: Vec<Single> = Vec::new();
        let mut i: usize = 0;
        while i < full.len()
            invariant
                i <= full@.len(),
                averages@.len() == i,
                forall|block: Vec<Single>| #[trigger] average.requires((&block,)),
                forall|j: int|
                    0 <= j < i ==> is_outcome(average, full@[j]@, #[trigger] averages@[j]),
            decreases full@.len() - i,
        {
            averages.push(average(&full[i]));
            i += 1;
        }
        assert(are_averages(
            average,
            blocks(before.raw@ + samples@, before.step as nat),
            averages@,
        )) by {
            assert forall|j: int| 0 <= j < full@.len() implies is_outcome(
                average,
                block_values(full@)[j],
                #[trigger] averages@[j],
            ) by {
                assert(block_values(full@)[j] == full@[j]@);
            }
        }
        match self.take_window(&averages) {
            Some(window) => {
                let rms = level(&window);
                let gate = self.gate(config, rms);
                let heard = match gate {
                    Gate::Listening => Heard::Classify { window, rms },
                    _ => Heard::Dropped { shown: gate.shown_rms(rms) },
                };
                proof {
                    let buffer = before.resampled@ + averages@;
                    assert(is_outcome(level, window@, rms));
                    lemma_verdict(heard, *config, level, buffer, rms);
                }
                heard
            },
            None => Heard::Waiting,
        }
    }

    /// Takes in the scores of a window of the level `rms`: smooths them and
    /// judges the smoothed ones.
    pub fn judge<F: Fn(Single, Single) -> Single>(
        &mut self,
        config: &AppConfig,
        labels: &Vec<String>,
        scores: &Vec<Single>,
        mix: F,
        rms: Single,
        now: u128,
    ) -> (detection: Option<Detection>)
        requires
            forall|score: Single, smoothed: Single| #[trigger] mix.requires((score, smoothed)),
        ensures
            is_smoothed(old(self).smoothed@, scores@, mix, final(self).smoothed@),
            is_judged(
                detection,
                final(self).smoothed@,
                *config,
                labels@,
                rms,
                old(self).spoken_at,
                now,
            ),
            *final(self) == (Listener {
                smoothed: final(self).smoothed,
                spoken_at: if detection is Some {
                    now
                } else {
                    old(self).spoken_at
                },
                ..*old(self)
            }),
    {
        self.smooth(scores, mix);
        self.decide(config, labels, rms, now)
    }
}

/// Every block holds as many samples as a listener averages, and fewer than that
/// are left over.
pub proof fn law_blocks_are_full(stream: Seq<Single>, step: nat)
    requires
        step > 0,
    ensures
        forall|i: int|
            0 <= i < blocks(stream, step).len() ==> (#[trigger] blocks(stream, step)[i]).len()
                == step,
        leftover(stream, step).len() < step,
    decreases stream.len(),
{
    if stream.len() >= step {
        let rest = stream.skip(step as int);
        law_blocks_are_full(rest, step);
        assert forall|i: int| 0 <= i < blocks(stream, step).len() implies (#[trigger] blocks(
            stream,
            step,
        )[i]).len() == step by {
            if i > 0 {
                assert(blocks(stream, step)[i] == blocks(rest, step)[i - 1]);
            }
        }
    }
}

/// No sample is lost and none is counted twice: the blocks and what is left
/// over, one after the other, are the stream.
pub proof fn law_no_sample_is_lost(stream: Seq<Single>, step: nat)
    ensures
        blocks(stream, step).flatten() + leftover(stream, step) == stream,
    decreases stream.len(),
{
    let list = blocks(stream, step);
    if step == 0 || stream.len() < step {
        assert(list.flatten() =~= Seq::<Single>::empty());
        assert(list.flatten() + stream =~= stream);
    } else {
        let rest = stream.skip(step as int);
        law_no_sample_is_lost(rest, step);
        assert(list.drop_first() =~= blocks(rest, step));
        assert(list.first() == stream.take(step as int));
        assert(list.flatten() == list.first() + list.drop_first().flatten());
        assert(list.flatten() + leftover(stream, step) =~= stream.take(step as int) + (blocks(
            rest,
            step,
        ).flatten() + leftover(rest, step)));
        assert(stream.take(step as int) + rest =~= stream);
    }
}

/// How the stream is cut into messages does not matter: taking in `first` and
/// then `second` gives the blocks, and leaves over the samples, that taking in
/// both at once does.
pub proof fn law_message_size_does_not_matter(
    first: Seq<Single>,
    second: Seq<Single>,
    step: nat,
)
    ensures
        blocks(first + second, step) == blocks(first, step) + blocks(
            leftover(first, step) + second,
            step,
        ),
        leftover(first + second, step) == leftover(leftover(first, step) + second, step),
    decreases first.len(),
{
    let both = first + second;
    if step == 0 || first.len() < step {
        assert(blocks(first, step) + blocks(both, step) =~= blocks(both, step));
    } else {
        let rest = first.skip(step as int);
        law_message_size_does_not_matter(rest, second, step);
        assert(both.skip(step as int) =~= rest + second);
        assert(both.take(step as int) =~= first.take(step as int));
        assert(blocks(both, step) =~= blocks(first, step) + blocks(
            leftover(first, step) + second,
            step,
        ));
    }
}

/// The windows follow the stream of resampled values at a steady pace: if `n`
/// windows were taken so far, the next one begins `n` hops into the stream.
pub proof fn law_windows_follow_the_stream(
    stream: Seq<Single>,
    added: Seq<Single>,
    buffer: Seq<Single>,
    n: nat,
)
    requires
        n * HOP <= stream.len(),
        buffer == stream.skip((n * HOP) as int),
    ensures
        ({
            let longer = stream + added;
            match window_of(buffer + added) {
                Some(window) => {
                    &&& window == longer.subrange((n * HOP) as int, n * HOP + WINDOW)
                    &&& (n + 1) * HOP <= longer.len()
                    &&& after_window(buffer + added) == longer.skip(((n + 1) * HOP) as int)
                },
                None => after_window(buffer + added) == longer.skip((n * HOP) as int),
            }
        }),
{
    let longer = stream + added;
    let all = buffer + added;
    assert(all =~= longer.skip((n * HOP) as int));
    if all.len() >= WINDOW {
        assert(all.take(WINDOW as int) =~= longer.subrange((n * HOP) as int, n * HOP + WINDOW));
        assert(all.skip(HOP as int) =~= longer.skip(((n + 1) * HOP) as int));
    }
}

/// Each window begins with the second half of the one before it.
pub proof fn law_windows_overlap_by_half(buffer: Seq<Single>, added: Seq<Single>)
    requires
        window_of(buffer) is Some,
        window_of(after_window(buffer) + added) is Some,
    ensures
        window_of(after_window(buffer) + added)->0.take(WINDOW - HOP) == window_of(
            buffer,
        )->0.skip(HOP as int),
{
    let next = after_window(buffer) + added;
    assert(next.take(WINDOW as int).take(WINDOW - HOP) =~= buffer.take(WINDOW as int).skip(
        HOP as int,
    ));
}

/// The top is a score of the list that no score is above and that no earlier
/// score reaches, or there is no score above -1.0; its class is one of the
/// model's.
pub proof fn law_top_is_the_first_of_the_highest(scores: Seq<Single>)
    ensures
        top_of(scores).class_id < CLASS_COUNT,
        forall|i: int|
            0 <= i < scores.len() ==> !(#[trigger] scores[i]).above(top_of(scores).score),
        (exists|i: int|
            {
                &&& 0 <= i < scores.len()
                &&& #[trigger] scores[i] == top_of(scores).score
                &&& scores[i].above(Single { bits: MINUS_ONE })
                &&& top_of(scores).class_id == i % CLASS_COUNT as int
                &&& forall|j: int| 0 <= j < i ==> !(#[trigger] scores[j]).reaches(scores[i])
            }) || (top_of(scores) == (Top { score: Single { bits: MINUS_ONE }, class_id: 0 })),
    decreases scores.len(),
{
    if scores.len() > 0 {
        let head = scores.drop_last();
        let last = scores.len() - 1;
        law_top_is_the_first_of_the_highest(head);
        let before = top_of(head);
        assert forall|i: int| 0 <= i < scores.len() implies !(#[trigger] scores[i]).above(
            top_of(scores).score,
        ) by {
            if i < last {
                assert(scores[i] == head[i]);
            }
        }
        if scores.last().above(before.score) {
            assert forall|j: int| 0 <= j < last implies !(#[trigger] scores[j]).reaches(
                scores[last],
            ) by {
                assert(scores[j] == head[j]);
            }
            assert(scores[last] == top_of(scores).score);
            if before != (Top { score: Single { bits: MINUS_ONE }, class_id: 0 }) {
                let i = choose|i: int|
                    {
                        &&& 0 <= i < head.len()
                        &&& #[trigger] head[i] == before.score
                        &&& head[i].above(Single { bits: MINUS_ONE })
                        &&& before.class_id == i % CLASS_COUNT as int
                        &&& forall|j: int| 0 <= j < i ==> !(#[trigger] head[j]).reaches(head[i])
                    };
                assert(before.score.above(Single { bits: MINUS_ONE }));
            }
        } else if before != (Top { score: Single { bits: MINUS_ONE }, class_id: 0 }) {
            let i = choose|i: int|
                {
                    &&& 0 <= i < head.len()
                    &&& #[trigger] head[i] == before.score
                    &&& head[i].above(Single { bits: MINUS_ONE })
                    &&& before.class_id == i % CLASS_COUNT as int
                    &&& forall|j: int| 0 <= j < i ==> !(#[trigger] head[j]).reaches(head[i])
                };
            assert(scores[i] == top_of(scores).score);
            assert forall|j: int| 0 <= j < i implies !(#[trigger] scores[j]).reaches(
                scores[i],
            ) by {
                assert(scores[j] == head[j]);
            }
        }
    }
}

/// Without smoothed scores there is nothing to report, as long as the setting
/// asks for more than -1.0: a pause or a silence ends what was heard before it.
pub proof fn law_nothing_is_reported_without_scores(config: AppConfig)
    requires
        config.score_threshold.above(Single { bits: MINUS_ONE }),
    ensures
        !is_reportable(config, top_of(Seq::empty())),
{
}

/// What was heard before a pause or a silence does not weigh in afterwards: the
/// next scores are judged as they come. `kept` are the smoothed scores once the
/// window is heard.
pub proof fn law_silence_ends_the_smoothing<F: Fn(Single, Single) -> Single>(
    config: AppConfig,
    heard: Heard,
    values: Seq<Single>,
    rms: Single,
    earlier: Seq<Single>,
    kept: Seq<Single>,
    scores: Seq<Single>,
    mix: F,
    after: Seq<Single>,
)
    requires
        is_heard(heard, config, values, rms),
        kept == if heard is Dropped {
            Seq::empty()
        } else {
            earlier
        },
        is_smoothed(kept, scores, mix, after),
    ensures
        config.paused || !rms.above(config.rms_threshold) ==> after == scores,
{
}

/// Two reports, one at `first` and the next at `second`, are at least the set
/// time apart.
pub proof fn law_reports_keep_their_distance(first: u128, second: u128, cooldown_secs: u64)
    requires
        is_rested(first, second, cooldown_secs),
        cooldown_secs > 0,
    ensures
        second >= first + cooldown_secs * NANOS_PER_SEC,
{
    assert(cooldown_secs * NANOS_PER_SEC > 0) by (nonlinear_arith)
        requires
            cooldown_secs > 0,
            NANOS_PER_SEC > 0,
    ;
}

/// The first report does not wait if the set time is a minute at most.
pub proof fn law_first_report_does_not_wait(start: u128, now: u128, cooldown_secs: u64)
    requires
        HEAD_START <= start <= now,
        cooldown_secs <= 60,
    ensures
        is_rested((start - HEAD_START) as u128, now, cooldown_secs),
{
}

/// With the default settings every class can be reported and none raises an
/// alert.
pub proof fn law_default_reports_all_and_alerts_none(config: AppConfig, top: Top)
    requires
        config::is_default(config),
        top.class_id < CLASS_COUNT,
    ensures
        config.enabled_categories@.contains(top.class_id),
        !raises_alert(config, top),
{
}

/// Each new score is mixed into the smoothed one in its place, and smoothed scores
/// without a new one stay; there are as many as before. Only the first scores,
/// or the first after a silence, are taken as they come.
pub proof fn law_scores_are_mixed_in_their_places<F: Fn(Single, Single) -> Single>(
    before: Seq<Single>,
    scores: Seq<Single>,
    mix: F,
    after: Seq<Single>,
    i: int,
)
    requires
        is_smoothed(before, scores, mix, after),
    ensures
        before.len() == 0 ==> after == scores,
        before.len() > 0 ==> after.len() == before.len(),
        before.len() > 0 && 0 <= i < before.len() && i < scores.len() ==> mix.ensures(
            (scores[i], before[i]),
            after[i],
        ),
        before.len() > 0 && scores.len() <= i < before.len() ==> after[i] == before[i],
{
}

/// What the smoothed scores become rests on the mix alone: one that sticks to the
/// smoothed score changes nothing, and one that takes the new score puts every
/// new score in its place.
pub proof fn law_smoothing_rests_on_the_mix<F: Fn(Single, Single) -> Single>(
    before: Seq<Single>,
    scores: Seq<Single>,
    mix: F,
    after: Seq<Single>,
)
    requires
        is_smoothed(before, scores, mix, after),
        before.len() > 0,
    ensures
        (forall|score: Single, smoothed: Single, mixed: Single| #[trigger]
            mix.ensures((score, smoothed), mixed) ==> mixed == smoothed) ==> after == before,
        (forall|score: Single, smoothed: Single, mixed: Single| #[trigger]
            mix.ensures((score, smoothed), mixed) ==> mixed == score) && scores.len()
            == before.len() ==> after == scores,
{
    if forall|score: Single, smoothed: Single, mixed: Single| #[trigger]
        mix.ensures((score, smoothed), mixed) ==> mixed == smoothed {
        assert forall|i: int| 0 <= i < after.len() implies after[i] == before[i] by {
            law_scores_are_mixed_in_their_places(before, scores, mix, after, i);
        }
        assert(after =~= before);
    }
    if (forall|score: Single, smoothed: Single, mixed: Single| #[trigger]
        mix.ensures((score, smoothed), mixed) ==> mixed == score) && scores.len() == before.len() {
        assert forall|i: int| 0 <= i < after.len() implies after[i] == scores[i] by {
            law_scores_are_mixed_in_their_places(before, scores, mix, after, i);
        }
        assert(after =~= scores);
    }
}

/// A window is full as soon as the buffer holds 15600 values, and is the first of
/// them; then the first 7800 leave the buffer, and otherwise none.
pub proof fn law_window_is_the_beginning_of_the_buffer(buffer: Seq<Single>)
    ensures
        window_of(buffer) is Some <==> buffer.len() >= 15600,
        buffer.len() >= 15600 ==> window_of(buffer)->0 == buffer.subrange(0, 15600)
            && after_window(buffer) == buffer.subrange(7800, buffer.len() as int),
        buffer.len() < 15600 ==> after_window(buffer) == buffer,
{
    if buffer.len() >= 15600 {
        assert(window_of(buffer)->0 =~= buffer.subrange(0, 15600));
        assert(after_window(buffer) =~= buffer.subrange(7800, buffer.len() as int));
    }
}

/// Blocks stand in a list with what they hold.
pub proof fn law_blocks_keep_their_places(list: Seq<Vec<Single>>, i: int)
    ensures
        block_values(list).len() == list.len(),
        0 <= i < list.len() ==> block_values(list)[i] == list[i]@,
{
}

/// There is one average for each block, and it is one that the averaging function
/// may give for what the block holds.
pub proof fn law_each_block_has_its_average<F: Fn(&Vec<Single>) -> Single>(
    average: F,
    full: Seq<Seq<Single>>,
    averages: Seq<Single>,
    i: int,
)
    requires
        are_averages(average, full, averages),
    ensures
        averages.len() == full.len(),
        0 <= i < full.len() ==> exists|block: Vec<Single>|
            block@ == full[i] && #[trigger] average.ensures((&block,), averages[i]),
{
    if 0 <= i < full.len() {
        assert(is_outcome(average, full[i], averages[i]));
    }
}

/// A window is classified exactly if the detection is not paused and the level is
/// above the threshold; a paused detection is told from a silence, and shows the
/// level zero.
pub proof fn law_gate_opens_above_the_threshold(config: AppConfig, rms: Single)
    ensures
        gate_of(config, rms) == Gate::Listening <==> !config.paused && rms.above(
            config.rms_threshold,
        ),
        gate_of(config, rms) == Gate::Paused <==> config.paused,
        gate_of(config, rms).shown_level(rms) == if config.paused {
            Single { bits: 0 }
        } else {
            rms
        },
{
}

/// Nothing comes of a buffer without a full window. A full window is classified,
/// with all its values and a level that it may have, if that level is above the
/// threshold and the detection is not paused; otherwise it is dropped.
pub proof fn law_full_window_is_classified_or_dropped<L: Fn(&Vec<Single>) -> Single>(
    heard: Heard,
    config: AppConfig,
    level: L,
    buffer: Seq<Single>,
)
    requires
        is_verdict(heard, config, level, buffer),
    ensures
        heard is Waiting <==> buffer.len() < 15600,
        heard is Classify ==> {
            &&& heard->window@ == buffer.subrange(0, 15600)
            &&& !config.paused
            &&& heard->rms.above(config.rms_threshold)
            &&& exists|window: Vec<Single>|
                window@ == buffer.subrange(0, 15600) && #[trigger] level.ensures(
                    (&window,),
                    heard->rms,
                )
        },
        heard is Dropped && config.paused ==> heard->shown.bits == 0,
        heard is Dropped && !config.paused ==> !heard->shown.above(config.rms_threshold)
            && exists|window: Vec<Single>|
            window@ == buffer.subrange(0, 15600) && #[trigger] level.ensures(
                (&window,),
                heard->shown,
            ),
{
    law_window_is_the_beginning_of_the_buffer(buffer);
    if buffer.len() >= 15600 {
        let values = window_of(buffer)->0;
        let rms = choose|rms: Single|
            {
                &&& #[trigger] is_outcome(level, values, rms)
                &&& is_heard(heard, config, values, rms)
            };
        let list = choose|list: Vec<Single>|
            list@ == values && #[trigger] level.ensures((&list,), rms);
        if heard is Dropped && !config.paused {
            assert(gate_of(config, rms) == Gate::Silent);
            assert(level.ensures((&list,), heard->shown));
        }
    }
}

/// The top of no scores is -1.0; a score of a list counts for the class that its
/// place has among the 521 classes, frame after frame.
pub proof fn law_top_of_one_more_score(scores: Seq<Single>, score: Single)
    ensures
        top_of(Seq::empty()) == (Top { score: Single { bits: 0xbf80_0000 }, class_id: 0 }),
        score.above(top_of(scores).score) ==> top_of(scores.push(score)).score == score && top_of(
            scores.push(score),
        ).class_id == scores.len() % 521,
        !score.above(top_of(scores).score) ==> top_of(scores.push(score)) == top_of(scores),
{
    assert(scores.push(score).drop_last() =~= scores);
}

/// A class is one to report exactly if its score reaches the threshold and it is
/// among the reported classes; nothing else of the settings matters.
pub proof fn law_sure_and_wanted_class_is_reported(a: AppConfig, b: AppConfig, top: Top)
    ensures
        is_reportable(a, top) <==> top.score.reaches(a.score_threshold)
            && a.enabled_categories@.contains(top.class_id),
        a.score_threshold == b.score_threshold && a.enabled_categories@ == b.enabled_categories@
            ==> is_reportable(a, top) == is_reportable(b, top),
{
}

/// The time since the last report is long enough exactly if it is at least the set
/// number of seconds; a clock that stands still or runs back counts as no time.
pub proof fn law_rest_is_counted_in_seconds(spoken_at: u128, now: u128, cooldown_secs: u64)
    ensures
        now >= spoken_at ==> (is_rested(spoken_at, now, cooldown_secs) <==> now - spoken_at
            >= cooldown_secs * 1_000_000_000),
        now < spoken_at ==> (is_rested(spoken_at, now, cooldown_secs) <==> cooldown_secs == 0),
{
}

/// A reported class raises an alert exactly if alerts are on, the class is among
/// those that raise one, its score reaches the threshold of alerts, and there is
/// a place to send it to that is not blank. Recipient and channel do not matter:
/// settings that differ only in them raise the same alerts.
pub proof fn law_alert_takes_four_conditions(a: AppConfig, b: AppConfig, top: Top)
    ensures
        raises_alert(a, top) <==> {
            &&& a.alert_enabled
            &&& a.alert_categories@.contains(top.class_id)
            &&& top.score.reaches(a.alert_score_threshold)
            &&& exists|i: int|
                0 <= i < a.alert_webhook_url@.len() && !text::is_space(
                    #[trigger] a.alert_webhook_url@[i],
                )
        },
        a.alert_enabled == b.alert_enabled && a.alert_categories@ == b.alert_categories@
            && a.alert_score_threshold == b.alert_score_threshold && a.alert_webhook_url@
            == b.alert_webhook_url@ ==> raises_alert(a, top) == raises_alert(b, top),
{
    text::law_blank_text_is_trimmed_away(a.alert_webhook_url@);
}

/// A report carries the class, its name, its score and the level, and the alert
/// that it raises, if it raises one, with the settings of where it goes, as they
/// are.
pub proof fn law_report_carries_what_was_heard(
    detection: Detection,
    config: AppConfig,
    labels: Seq<String>,
    top: Top,
    rms: Single,
)
    requires
        is_report(detection, config, labels, top, rms),
    ensures
        detection.class_id == top.class_id,
        detection.score == top.score,
        detection.rms == rms,
        config.custom_names@.dom().contains(top.class_id) ==> detection.sound_name@
            == config.custom_names@[top.class_id]@,
        !config.custom_names@.dom().contains(top.class_id) && top.class_id < labels.len()
            ==> detection.sound_name@ == labels[top.class_id as int]@,
        config.alert_enabled && config.alert_categories@.contains(top.class_id)
            && top.score.reaches(config.alert_score_threshold) && (exists|i: int|
            0 <= i < config.alert_webhook_url@.len() && !text::is_space(
                #[trigger] config.alert_webhook_url@[i],
            )) <==> detection.alert is Some,
        detection.alert is Some ==> detection.alert->0.url@ == config.alert_webhook_url@
            && detection.alert->0.channel@ == config.alert_channel@
            && detection.alert->0.recipient@ == config.alert_recipient@,
{
    law_alert_takes_four_conditions(config, config, top);
}

/// The top class is reported exactly if its score reaches the threshold, it is
/// among the reported classes, and the set time has passed since the last report.
pub proof fn law_report_is_due(
    detection: Option<Detection>,
    smoothed: Seq<Single>,
    config: AppConfig,
    labels: Seq<String>,
    rms: Single,
    spoken_at: u128,
    now: u128,
)
    requires
        is_judged(detection, smoothed, config, labels, rms, spoken_at, now),
        now >= spoken_at,
    ensures
        detection is Some <==> {
            &&& top_of(smoothed).score.reaches(config.score_threshold)
            &&& config.enabled_categories@.contains(top_of(smoothed).class_id)
            &&& now - spoken_at >= config.cooldown_secs * 1_000_000_000
        },
        detection is Some ==> detection->0.class_id == top_of(smoothed).class_id
            && detection->0.score == top_of(smoothed).score && detection->0.rms == rms && is_report(
            detection->0,
            config,
            labels,
            top_of(smoothed),
            rms,
        ),
{
}

} // verus!
