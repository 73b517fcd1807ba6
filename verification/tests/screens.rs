use earbuddy::screen::alert_count_text;
use earbuddy::screen::alert_mark;
use earbuddy::screen::alerts_label;
use earbuddy::screen::category_row;
use earbuddy::screen::enabled_count_text;
use earbuddy::screen::event_count_text;
use earbuddy::screen::look_button;
use earbuddy::screen::look_label;
use earbuddy::screen::mic_status;
use earbuddy::screen::pause_label;
use earbuddy::screen::pause_note;
use earbuddy::screen::pause_tint;
use earbuddy::screen::segment_light;
use earbuddy::screen::segment_stretch;
use earbuddy::screen::tier;
use earbuddy::screen::Light;
use earbuddy::screen::MicStatus;
use earbuddy::screen::Tier;
use earbuddy::screen::METER_SEGMENTS;
use earbuddy::single::Single;
use earbuddy::theme::backdrop;
use earbuddy::theme::muted_text;
use earbuddy::theme::primary_text;
use earbuddy::theme::Rgb;
use earbuddy::theme::Tint;
use earbuddy::AppConfig;

fn single(value: f32) -> Single {
    Single { bits: value.to_bits() }
}

#[test]
fn tiers_of_scores() {
    assert_eq!(tier(single(0.7)), Tier::High);
    assert_eq!(tier(single(0.69999)), Tier::Medium);
    assert_eq!(tier(single(0.45)), Tier::Medium);
    assert_eq!(tier(single(0.44999)), Tier::Low);
    assert_eq!(tier(single(f32::NAN)), Tier::Low);
    assert_eq!(Tier::High.badge("83"), "ALTA · 83%");
    assert_eq!(Tier::Medium.badge("50"), "MÉDIA · 50%");
    assert_eq!(Tier::Low.badge("5"), "BAIXA · 5%");
    assert_eq!(Tier::High.tint(), Tint::NeonRed);
    assert_eq!(Tier::Medium.tint(), Tint::NeonPurple);
    assert_eq!(Tier::Low.tint(), Tint::NeonCyan);
}

#[test]
fn status_of_the_microphone() {
    let mut config = AppConfig::default();
    assert_eq!(mic_status(&config, single(0.05)), MicStatus::Active);
    assert_eq!(mic_status(&config, single(0.04)), MicStatus::Silent);
    config.toggle_paused();
    assert_eq!(mic_status(&config, single(0.05)), MicStatus::Paused);
    assert_eq!(MicStatus::Paused.label(), "Ⅱ PAUSADO");
    assert_eq!(MicStatus::Active.label(), "● ATIVO");
    assert_eq!(MicStatus::Silent.label(), "○ SILÊNCIO");
    assert_eq!(MicStatus::Paused.tint(), Some(Tint::NeonPink));
    assert_eq!(MicStatus::Active.tint(), Some(Tint::NeonGreen));
    assert_eq!(MicStatus::Silent.tint(), None);
}

#[test]
fn labels_follow_the_switches() {
    assert_eq!(pause_label(true), "▶ RETOMAR DETECÇÃO");
    assert_eq!(pause_label(false), "Ⅱ PAUSAR DETECÇÃO");
    assert_eq!(pause_note(true), "Microfone em espera");
    assert_eq!(pause_note(false), "Detecção ativa");
    assert_eq!(pause_tint(true), Tint::NeonGreen);
    assert_eq!(pause_tint(false), Tint::NeonPink);
    assert_eq!(look_label(true), "◐ CYBERPUNK");
    assert_eq!(look_label(false), "◌ HOLOGRÁFICO");
    assert_eq!(look_button(true), "Modo claro");
    assert_eq!(look_button(false), "Modo escuro");
    assert_eq!(alerts_label(true), "ATIVO");
    assert_eq!(alerts_label(false), "DESATIVADO");
    assert_eq!(alert_mark(true), "🔔 ALERTA");
    assert_eq!(alert_mark(false), "🔕");
}

#[test]
fn counts_are_written_out() {
    let mut config = AppConfig::default();
    assert_eq!(alert_count_text(&config), "0 sons selecionados para alertas");
    config.toggle_alert_category(9);
    assert_eq!(alert_count_text(&config), "1 sons selecionados para alertas");
    assert_eq!(enabled_count_text(&config, &vec![String::new()]), "521/1");
    assert_eq!(event_count_text(100), "100 eventos");
}

#[test]
fn rows_show_the_marks() {
    let mut config = AppConfig::default();
    let row = category_row(&config, 3, "Dog");
    assert_eq!(row.text, "✓  Dog");
    assert!(row.enabled && !row.alerting);
    config.toggle_category(3);
    config.toggle_alert_category(3);
    config.name_class(3, "Rex");
    let row = category_row(&config, 3, "Dog");
    assert_eq!(row.text, "○  Rex");
    assert!(!row.enabled && row.alerting);
}

#[test]
fn last_lit_segment_pulses() {
    assert_eq!(segment_light(0, 0), Light::Off);
    assert_eq!(segment_light(0, 1), Light::Pulsing);
    assert_eq!(segment_light(1, 3), Light::On);
    assert_eq!(segment_light(2, 3), Light::Pulsing);
    assert_eq!(segment_light(3, 3), Light::Off);
}

#[test]
fn stretches_are_those_of_the_scale() {
    let mut segment: usize = 0;
    while segment < METER_SEGMENTS {
        let share = segment as f32 / METER_SEGMENTS as f32;
        let stretch = segment_stretch(segment);
        let expected = if share < 0.4 {
            (Tint::NeonGreen, Tint::NeonCyan)
        } else if share < 0.75 {
            (Tint::NeonCyan, Tint::NeonPurple)
        } else {
            (Tint::NeonPurple, Tint::NeonPink)
        };
        assert_eq!((stretch.from, stretch.to), expected);
        assert!(stretch.first <= segment && segment < stretch.first + stretch.length);
        segment += 1;
    }
}

#[test]
fn colours_of_the_theme() {
    let rgb = |r, g, b| Rgb { r, g, b };
    assert_eq!(Tint::BgDeep.colour(), rgb(9, 12, 29));
    assert_eq!(Tint::BgMid.colour(), rgb(20, 24, 48));
    assert_eq!(Tint::GlassLow.colour(), rgb(17, 24, 48));
    assert_eq!(Tint::GlassHigh.colour(), rgb(31, 42, 78));
    assert_eq!(Tint::BorderSoft.colour(), rgb(108, 126, 190));
    assert_eq!(Tint::YellowMain.colour(), rgb(255, 201, 92));
    assert_eq!(Tint::YellowAmber.colour(), rgb(255, 143, 106));
    assert_eq!(Tint::GrayDark.colour(), rgb(100, 116, 150));
    assert_eq!(Tint::NeonPurple.colour(), rgb(167, 139, 250));
    assert_eq!(Tint::NeonCyan.colour(), rgb(61, 214, 204));
    assert_eq!(Tint::NeonPink.colour(), rgb(244, 114, 182));
    assert_eq!(Tint::NeonGreen.colour(), rgb(52, 211, 153));
    assert_eq!(Tint::NeonRed.colour(), rgb(251, 113, 133));
    assert_eq!(Tint::TextPrimary.colour(), rgb(241, 245, 249));
    assert_eq!(Tint::TextMuted.colour(), rgb(166, 178, 204));
    assert_eq!(primary_text(true), rgb(226, 232, 240));
    assert_eq!(primary_text(false), rgb(241, 245, 249));
    assert_eq!(muted_text(true), rgb(148, 163, 184));
    assert_eq!(muted_text(false), rgb(166, 178, 204));
    assert_eq!(backdrop(true).top, rgb(8, 10, 27));
    assert_eq!(backdrop(true).grid_alpha, 14);
    assert_eq!(backdrop(false).bottom, rgb(225, 235, 255));
    assert_eq!(backdrop(false).purple_alpha, 22);
}
