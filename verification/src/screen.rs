//! What the screen says and shows of the state.

use crate::config;
use crate::config::AppConfig;
use crate::listener;
use crate::single::Single;
use crate::text;
use crate::theme::Tint;
use vstd::prelude::*;
use vstd::string::*;

verus! {

broadcast use vstd::std_specs::hash::group_hash_axioms;

/// 0.70
pub const HIGH_TIER: u32 = 0x3f33_3333;

/// 0.45
pub const MEDIUM_TIER: u32 = 0x3ee6_6666;

/// How many segments the level meter has.
pub const METER_SEGMENTS: usize = 40;

/// How sure a detection is.
#[derive(Clone, Copy, Debug, PartialEq, Eq, Structural)]
pub enum Tier {
    High,
    Medium,
    Low,
}

/// The tier of a score.
pub open spec fn tier_of(score: Single) -> Tier {
    if score.reaches(Single { bits: HIGH_TIER }) {
        Tier::High
    } else if score.reaches(Single { bits: MEDIUM_TIER }) {
        Tier::Medium
    } else {
        Tier::Low
    }
}

/// The name of a tier.
pub open spec fn tier_name(tier: Tier) -> Seq<char> {
    match tier {
        Tier::High => "ALTA"@,
        Tier::Medium => "MÉDIA"@,
        Tier::Low => "BAIXA"@,
    }
}

/// The colour of a tier.
pub open spec fn tier_tint(tier: Tier) -> Tint {
    match tier {
        Tier::High => Tint::NeonRed,
        Tier::Medium => Tint::NeonPurple,
        Tier::Low => Tint::NeonCyan,
    }
}

/// The tier of a score.
pub fn tier(score: Single) -> (tier: Tier)
    ensures
        tier == tier_of(score),
{
    if score.is_at_least(Single { bits: HIGH_TIER }) {
        Tier::High
    } else if score.is_at_least(Single { bits: MEDIUM_TIER }) {
        Tier::Medium
    } else {
        Tier::Low
    }
}

impl Tier {
    /// The colour of the tier.
    pub fn tint(self) -> (tint: Tint)
        ensures
            tint == tier_tint(self),
    {
        match self {
            Tier::High => Tint::NeonRed,
            Tier::Medium => Tint::NeonPurple,
            Tier::Low => Tint::NeonCyan,
        }
    }

    /// The tier with the confidence in percent.
    pub fn badge(self, percent: &str) -> (badge: String)
        ensures
            badge@ == tier_name(self) + " · "@ + percent@ + "%"@,
    {
        let mut badge = match self {
            Tier::High => "ALTA".to_owned(),
            Tier::Medium => "MÉDIA".to_owned(),
            Tier::Low => "BAIXA".to_owned(),
        };
        badge.append(" · ");
        badge.append(percent);
        badge.append("%");
        badge
    }
}

/// A higher score is never in a lower tier.
pub proof fn law_tiers_follow_the_score(a: Single, b: Single)
    requires
        a.reaches(b),
    ensures
        tier_of(b) == Tier::High ==> tier_of(a) == Tier::High,
        tier_of(b) == Tier::Medium ==> tier_of(a) != Tier::Low,
{
}

/// What the microphone is doing.
#[derive(Clone, Copy, Debug, PartialEq, Eq, Structural)]
pub enum MicStatus {
    Paused,
    Active,
    Silent,
}

/// What the microphone is doing at a level.
pub open spec fn mic_status_of(config: AppConfig, rms: Single) -> MicStatus {
    if config.paused {
        MicStatus::Paused
    } else if rms.above(config.rms_threshold) {
        MicStatus::Active
    } else {
        MicStatus::Silent
    }
}

/// What the microphone is doing at a level.
pub fn mic_status(config: &AppConfig, rms: Single) -> (status: MicStatus)
    ensures
        status == mic_status_of(*config, rms),
{
    if config.paused {
        MicStatus::Paused
    } else if rms.is_above(config.rms_threshold) {
        MicStatus::Active
    } else {
        MicStatus::Silent
    }
}

impl MicStatus {
    /// The text that shows what the microphone is doing.
    pub fn label(self) -> (label: &'static str)
        ensures
            label@ == match self {
                MicStatus::Paused => "Ⅱ PAUSADO"@,
                MicStatus::Active => "● ATIVO"@,
                MicStatus::Silent => "○ SILÊNCIO"@,
            },
    {
        match self {
            MicStatus::Paused => "Ⅱ PAUSADO",
            MicStatus::Active => "● ATIVO",
            MicStatus::Silent => "○ SILÊNCIO",
        }
    }

    /// The colour of that text; nothing for the colour of secondary text.
    pub fn tint(self) -> (tint: Option<Tint>)
        ensures
            tint == match self {
                MicStatus::Paused => Some(Tint::NeonPink),
                MicStatus::Active => Some(Tint::NeonGreen),
                MicStatus::Silent => None::<Tint>,
            },
    {
        match self {
            MicStatus::Paused => Some(Tint::NeonPink),
            MicStatus::Active => Some(Tint::NeonGreen),
            MicStatus::Silent => None,
        }
    }
}

/// The text of the button that pauses the detection.
pub fn pause_label(paused: bool) -> (label: &'static str)
    ensures
        label@ == if paused {
            "▶ RETOMAR DETECÇÃO"@
        } else {
            "Ⅱ PAUSAR DETECÇÃO"@
        },
{
    if paused {
        "▶ RETOMAR DETECÇÃO"
    } else {
        "Ⅱ PAUSAR DETECÇÃO"
    }
}

/// The colour of the button that pauses the detection.
pub fn pause_tint(paused: bool) -> (tint: Tint)
    ensures
        tint == if paused {
            Tint::NeonGreen
        } else {
            Tint::NeonPink
        },
{
    if paused {
        Tint::NeonGreen
    } else {
        Tint::NeonPink
    }
}

/// The text beside the button that pauses the detection.
pub fn pause_note(paused: bool) -> (note: &'static str)
    ensures
        note@ == if paused {
            "Microfone em espera"@
        } else {
            "Detecção ativa"@
        },
{
    if paused {
        "Microfone em espera"
    } else {
        "Detecção ativa"
    }
}

/// The name of the look.
pub fn look_label(dark: bool) -> (label: &'static str)
    ensures
        label@ == if dark {
            "◐ CYBERPUNK"@
        } else {
            "◌ HOLOGRÁFICO"@
        },
{
    if dark {
        "◐ CYBERPUNK"
    } else {
        "◌ HOLOGRÁFICO"
    }
}

/// The text of the button that changes the look.
pub fn look_button(dark: bool) -> (label: &'static str)
    ensures
        label@ == if dark {
            "Modo claro"@
        } else {
            "Modo escuro"@
        },
{
    if dark {
        "Modo claro"
    } else {
        "Modo escuro"
    }
}

/// The text of the switch for the alerts.
pub fn alerts_label(enabled: bool) -> (label: &'static str)
    ensures
        label@ == if enabled {
            "ATIVO"@
        } else {
            "DESATIVADO"@
        },
{
    if enabled {
        "ATIVO"
    } else {
        "DESATIVADO"
    }
}

/// How many classes raise an alert.
pub fn alert_count_text(config: &AppConfig) -> (count: String)
    ensures
        count@ == text::decimal(config.alert_categories@.len()) + " sons selecionados para alertas"@,
{
    let mut count = text::write_decimal(config.alert_categories.len() as u64);
    count.append(" sons selecionados para alertas");
    count
}

/// How many classes are reported, out of how many.
pub fn enabled_count_text(config: &AppConfig, labels: &Vec<String>) -> (count: String)
    ensures
        count@ == text::decimal(config.enabled_categories@.len()) + "/"@ + text::decimal(
            labels@.len(),
        ),
{
    let mut count = text::write_decimal(config.enabled_categories.len() as u64);
    count.append("/");
    count.append(&text::write_decimal(labels.len() as u64));
    count
}

/// How many detections the history holds.
pub fn event_count_text(events: usize) -> (count: String)
    ensures
        count@ == text::decimal(events as nat) + " eventos"@,
{
    let mut count = text::write_decimal(events as u64);
    count.append(" eventos");
    count
}

/// A class in the list.
pub struct CategoryRow {
    /// Its mark and its name.
    pub text: String,
    /// Whether it is reported.
    pub enabled: bool,
    /// Whether it raises an alert.
    pub alerting: bool,
}

/// The mark and the name of a class in the list.
pub open spec fn row_text_of(config: AppConfig, class_id: usize, label: Seq<char>) -> Seq<char> {
    (if config.enabled_categories@.contains(class_id) {
        "✓  "@
    } else {
        "○  "@
    }) + config::shown_name_of(config.custom_names@, class_id, label)
}

/// The row of a class in the list.
pub fn category_row(config: &AppConfig, class_id: usize, label: &str) -> (row: CategoryRow)
    ensures
        row.enabled == config.enabled_categories@.contains(class_id),
        row.alerting == config.alert_categories@.contains(class_id),
        row.text@ == (if row.enabled {
            "✓  "@
        } else {
            "○  "@
        }) + config::shown_name_of(config.custom_names@, class_id, label@),
        row.text@ == row_text_of(*config, class_id, label@),
{
    let enabled = config.enabled_categories.contains(&class_id);
    let alerting = config.alert_categories.contains(&class_id);
    let mut row_text = if enabled {
        "✓  ".to_owned()
    } else {
        "○  ".to_owned()
    };
    row_text.append(&config.shown_name(class_id, label));
    CategoryRow { text: row_text, enabled, alerting }
}

/// The text of the switch that has a class raise an alert.
pub fn alert_mark(alerting: bool) -> (mark: &'static str)
    ensures
        mark@ == if alerting {
            "🔔 ALERTA"@
        } else {
            "🔕"@
        },
{
    if alerting {
        "🔔 ALERTA"
    } else {
        "🔕"
    }
}

/// How a segment of the level meter is lit.
#[derive(Clone, Copy, Debug, PartialEq, Eq, Structural)]
pub enum Light {
    Off,
    On,
    /// The last lit segment, which pulses.
    Pulsing,
}

/// The colours between which the segments of a stretch of the meter change.
#[derive(Clone, Copy, Debug, PartialEq, Eq, Structural)]
pub struct Stretch {
    pub from: Tint,
    pub to: Tint,
    /// The first segment of the stretch.
    pub first: usize,
    /// How many segments it takes.
    pub length: usize,
}

/// How a segment is lit when the first `active` ones are.
pub open spec fn light_of(segment: int, active: int) -> Light {
    if segment >= active {
        Light::Off
    } else if segment + 1 == active {
        Light::Pulsing
    } else {
        Light::On
    }
}

/// How a segment is lit when the first `active` ones are.
pub fn segment_light(segment: usize, active: usize) -> (light: Light)
    ensures
        light == light_of(segment as int, active as int),
{
    if segment >= active {
        Light::Off
    } else if segment == active - 1 {
        Light::Pulsing
    } else {
        Light::On
    }
}

/// The stretch that a segment of the meter belongs to.
pub open spec fn stretch_of(segment: int) -> Stretch {
    if segment < 16 {
        Stretch { from: Tint::NeonGreen, to: Tint::NeonCyan, first: 0, length: 16 }
    } else if segment < 30 {
        Stretch { from: Tint::NeonCyan, to: Tint::NeonPurple, first: 16, length: 14 }
    } else {
        Stretch { from: Tint::NeonPurple, to: Tint::NeonPink, first: 30, length: 10 }
    }
}

/// The stretch that a segment of the meter belongs to.
pub fn segment_stretch(segment: usize) -> (stretch: Stretch)
    ensures
        stretch == stretch_of(segment as int),
{
    if segment < 16 {
        Stretch { from: Tint::NeonGreen, to: Tint::NeonCyan, first: 0, length: 16 }
    } else if segment < 30 {
        Stretch { from: Tint::NeonCyan, to: Tint::NeonPurple, first: 16, length: 14 }
    } else {
        Stretch { from: Tint::NeonPurple, to: Tint::NeonPink, first: 30, length: 10 }
    }
}

/// Of the lit segments exactly the last one pulses.
pub proof fn law_one_segment_pulses(segment: int, active: int)
    requires
        0 <= segment,
    ensures
        light_of(segment, active) == Light::Pulsing <==> segment == active - 1,
        light_of(segment, active) == Light::Off <==> segment >= active,
{
}

/// Each segment lies in its stretch, and a stretch begins with the colour with
/// which the one before it ends.
pub proof fn law_stretches_join(segment: int)
    requires
        0 <= segment < METER_SEGMENTS,
    ensures
        stretch_of(segment).first <= segment < stretch_of(segment).first + stretch_of(
            segment,
        ).length,
        segment > 0 && stretch_of(segment - 1) != stretch_of(segment) ==> stretch_of(
            segment - 1,
        ).to == stretch_of(segment).from,
{
}

/// A score of 0.70 or more is high, any other of 0.45 or more medium, and whatever
/// is left low.
pub proof fn law_tiers_begin_at_their_scores(score: Single)
    ensures
        tier_of(score) == Tier::High <==> score.reaches(Single { bits: 0x3f33_3333 }),
        tier_of(score) == Tier::Medium <==> score.reaches(Single { bits: 0x3ee6_6666 })
            && !score.reaches(Single { bits: 0x3f33_3333 }),
        tier_of(score) == Tier::Low <==> !score.reaches(Single { bits: 0x3ee6_6666 }),
{
}

/// The microphone shows as active exactly where a window of that level would be
/// classified, and as paused exactly while the detection is.
pub proof fn law_status_follows_the_gate(config: AppConfig, rms: Single)
    ensures
        mic_status_of(config, rms) == MicStatus::Active <==> !config.paused && rms.above(
            config.rms_threshold,
        ),
        mic_status_of(config, rms) == MicStatus::Paused <==> config.paused,
        mic_status_of(config, rms) == MicStatus::Active <==> listener::gate_of(config, rms)
            == listener::Gate::Listening,
{
}

/// Two fifths of the segments go from green to cyan, those up to three quarters
/// from cyan to purple, and the rest from purple to pink; each stretch begins
/// where the one before it ends.
pub proof fn law_stretches_of_the_scale(segment: int)
    requires
        0 <= segment < 40,
    ensures
        segment * 5 < 40 * 2 ==> stretch_of(segment).from == Tint::NeonGreen && stretch_of(
            segment,
        ).to == Tint::NeonCyan && stretch_of(segment).first == 0 && stretch_of(segment).length
            == 16,
        40 * 2 <= segment * 5 && segment * 4 < 40 * 3 ==> stretch_of(segment).from
            == Tint::NeonCyan && stretch_of(segment).to == Tint::NeonPurple && stretch_of(
            segment,
        ).first == 16 && stretch_of(segment).length == 14,
        40 * 3 <= segment * 4 ==> stretch_of(segment).from == Tint::NeonPurple && stretch_of(
            segment,
        ).to == Tint::NeonPink && stretch_of(segment).first == 30 && stretch_of(segment).length
            == 10,
{
}

/// The row of a class shows its mark and the name under which it is listed: the
/// one that the user gave it, or else its label.
pub proof fn law_row_shows_mark_and_name(config: AppConfig, class_id: usize, label: Seq<char>)
    ensures
        config.enabled_categories@.contains(class_id) && config.custom_names@.dom().contains(
            class_id,
        ) ==> row_text_of(config, class_id, label) == "✓  "@ + config.custom_names@[class_id]@,
        config.enabled_categories@.contains(class_id) && !config.custom_names@.dom().contains(
            class_id,
        ) ==> row_text_of(config, class_id, label) == "✓  "@ + label,
        !config.enabled_categories@.contains(class_id) && config.custom_names@.dom().contains(
            class_id,
        ) ==> row_text_of(config, class_id, label) == "○  "@ + config.custom_names@[class_id]@,
        !config.enabled_categories@.contains(class_id) && !config.custom_names@.dom().contains(
            class_id,
        ) ==> row_text_of(config, class_id, label) == "○  "@ + label,
{
}

} // verus!
