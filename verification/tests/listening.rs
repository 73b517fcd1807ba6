use earbuddy::listener::top_class;
use earbuddy::listener::Gate;
use earbuddy::listener::Heard;
use earbuddy::listener::Listener;
use earbuddy::listener::Top;
use earbuddy::listener::HEAD_START;
use earbuddy::listener::HOP;
use earbuddy::listener::WINDOW;
use earbuddy::single::Single;
use earbuddy::AppConfig;

const SECOND: u128 = 1_000_000_000;

fn single(value: f32) -> Single {
    Single { bits: value.to_bits() }
}

fn singles(values: &[f32]) -> Vec<Single> {
    values.iter().map(|v| single(*v)).collect()
}

fn counting(from: u32, to: u32) -> Vec<Single> {
    (from..to).map(|bits| Single { bits }).collect()
}

fn listener() -> Listener {
    Listener::new(3, HEAD_START)
}

fn labels() -> Vec<String> {
    vec!["Speech".to_string(), "Dog".to_string(), "Siren".to_string()]
}

#[test]
fn blocks_are_cut_off_the_stream() {
    let mut listener = listener();
    assert_eq!(listener.take_blocks(&counting(0, 2)).len(), 0);
    assert_eq!(listener.take_blocks(&counting(2, 7)), vec![counting(0, 3), counting(3, 6)]);
    assert_eq!(listener.raw, counting(6, 7));
    assert_eq!(listener.take_blocks(&Vec::new()).len(), 0);
    assert_eq!(listener.take_blocks(&counting(7, 9)), vec![counting(6, 9)]);
    assert_eq!(listener.raw.len(), 0);
}

#[test]
fn message_size_does_not_matter() {
    let mut at_once = listener();
    let whole = at_once.take_blocks(&counting(0, 100));
    for cut in [1, 2, 3, 7, 50] {
        let mut piecewise = listener();
        let mut blocks: Vec<Vec<Single>> = Vec::new();
        let mut at: u32 = 0;
        while at < 100 {
            let next = (at + cut).min(100);
            blocks.extend(piecewise.take_blocks(&counting(at, next)));
            at = next;
        }
        assert_eq!(blocks, whole);
        assert_eq!(piecewise.raw, at_once.raw);
    }
}

#[test]
fn no_sample_is_lost() {
    let mut listener = listener();
    let mut joined: Vec<Single> = listener.take_blocks(&counting(0, 20)).concat();
    joined.extend(listener.raw.clone());
    assert_eq!(joined, counting(0, 20));
}

#[test]
fn windows_follow_the_stream_by_half() {
    let mut listener = listener();
    assert!(listener.take_window(&counting(0, WINDOW as u32 - 1)).is_none());
    let first = listener.take_window(&counting(WINDOW as u32 - 1, WINDOW as u32)).unwrap();
    assert_eq!(first, counting(0, 15600));
    assert_eq!(listener.resampled, counting(7800, 15600));
    let second = listener.take_window(&counting(15600, 40000)).unwrap();
    assert_eq!(second, counting(7800, 23400));
    assert_eq!(second[..WINDOW - HOP], first[HOP..]);
    let third = listener.take_window(&Vec::new()).unwrap();
    assert_eq!(third, counting(15600, 31200));
    assert_eq!(listener.resampled, counting(23400, 40000));
}

#[test]
fn pause_and_silence_forget_the_scores() {
    let mut config = AppConfig::default();
    let mut listener = listener();
    listener.smoothed = singles(&[0.5]);
    assert_eq!(listener.gate(&config, single(0.05)), Gate::Listening);
    assert_eq!(listener.smoothed, singles(&[0.5]));
    assert_eq!(listener.gate(&config, single(0.04)), Gate::Silent);
    assert_eq!(listener.smoothed.len(), 0);
    listener.smoothed = singles(&[0.5]);
    config.toggle_paused();
    assert_eq!(listener.gate(&config, single(0.9)), Gate::Paused);
    assert_eq!(listener.smoothed.len(), 0);
    assert_eq!(listener.gate(&config, single(f32::NAN)), Gate::Paused);
    config.toggle_paused();
    assert_eq!(listener.gate(&config, single(f32::NAN)), Gate::Silent);
}

#[test]
fn paused_level_is_shown_as_zero() {
    assert_eq!(Gate::Paused.shown_rms(single(0.5)), single(0.0));
    assert_eq!(Gate::Silent.shown_rms(single(0.5)), single(0.5));
    assert_eq!(Gate::Listening.shown_rms(single(0.5)), single(0.5));
}

#[test]
fn scores_are_smoothed_in_their_places() {
    let mix = |score: Single, smoothed: Single| {
        single(0.5 * f32::from_bits(score.bits) + 0.5 * f32::from_bits(smoothed.bits))
    };
    let mut listener = listener();
    listener.smooth(&singles(&[1.0, 0.0, 0.25]), mix);
    assert_eq!(listener.smoothed, singles(&[1.0, 0.0, 0.25]));
    listener.smooth(&singles(&[0.0, 1.0]), mix);
    assert_eq!(listener.smoothed, singles(&[0.5, 0.5, 0.25]));
    listener.smooth(&singles(&[0.5, 0.5, 0.25, 9.0]), mix);
    assert_eq!(listener.smoothed, singles(&[0.5, 0.5, 0.25]));
    let take_score = |score: Single, _smoothed: Single| score;
    listener.smooth(&singles(&[0.75]), take_score);
    assert_eq!(listener.smoothed, singles(&[0.75, 0.5, 0.25]));
}

#[test]
fn top_is_the_first_of_the_highest() {
    let top = |values: &[f32]| top_class(&singles(values));
    assert_eq!(top(&[]), Top { score: single(-1.0), class_id: 0 });
    assert_eq!(top(&[-1.0, -2.0]), Top { score: single(-1.0), class_id: 0 });
    assert_eq!(top(&[0.1, 0.9, 0.9]), Top { score: single(0.9), class_id: 1 });
    assert_eq!(top(&[f32::NAN, 0.2, f32::NAN]), Top { score: single(0.2), class_id: 1 });
    assert_eq!(top(&[f32::NAN]), Top { score: single(-1.0), class_id: 0 });
}

#[test]
fn classes_repeat_from_frame_to_frame() {
    let mut scores = singles(&[0.1; 1042]);
    scores[521 + 4] = single(0.8);
    assert_eq!(top_class(&scores), Top { score: single(0.8), class_id: 4 });
    scores[521] = single(0.9);
    assert_eq!(top_class(&scores), Top { score: single(0.9), class_id: 0 });
}

#[test]
fn sure_and_wanted_class_is_reported() {
    let config = AppConfig::default();
    let mut listener = listener();
    listener.smoothed = singles(&[0.1, 0.30, 0.2]);
    let found = listener.decide(&config, &labels(), single(0.07), HEAD_START).unwrap();
    assert_eq!(found.class_id, 1);
    assert_eq!(found.sound_name, "Dog");
    assert_eq!(found.score, single(0.30));
    assert_eq!(found.rms, single(0.07));
    assert!(found.alert.is_none());
    assert_eq!(listener.spoken_at, HEAD_START);
}

#[test]
fn unsure_or_unwanted_class_is_not_reported() {
    let mut config = AppConfig::default();
    let mut listener = listener();
    listener.smoothed = singles(&[0.1, 0.29, 0.2]);
    assert!(listener.decide(&config, &labels(), single(0.07), HEAD_START).is_none());
    listener.smoothed = singles(&[0.1, 0.9, 0.8]);
    config.toggle_category(1);
    assert!(listener.decide(&config, &labels(), single(0.07), HEAD_START).is_none());
    assert_eq!(listener.spoken_at, 0);
    listener.smoothed.clear();
    assert!(listener.decide(&config, &labels(), single(0.07), HEAD_START).is_none());
}

#[test]
fn reports_keep_their_distance() {
    let mut config = AppConfig::default();
    config.cooldown_secs = 2;
    let mut listener = listener();
    listener.smoothed = singles(&[0.9]);
    let start = HEAD_START;
    assert!(listener.decide(&config, &labels(), single(0.1), start).is_some());
    assert!(listener.decide(&config, &labels(), single(0.1), start + 2 * SECOND - 1).is_none());
    assert!(listener.decide(&config, &labels(), single(0.1), start - 1).is_none());
    assert!(listener.decide(&config, &labels(), single(0.1), start + 2 * SECOND).is_some());
    assert!(listener.decide(&config, &labels(), single(0.1), start + 3 * SECOND).is_none());
    config.cooldown_secs = 0;
    assert!(listener.decide(&config, &labels(), single(0.1), start).is_some());
}

#[test]
fn first_report_waits_only_for_more_than_a_minute() {
    let mut config = AppConfig::default();
    config.cooldown_secs = 60;
    let mut prompt = listener();
    prompt.smoothed = singles(&[0.9]);
    assert!(prompt.decide(&config, &labels(), single(0.1), HEAD_START).is_some());
    config.cooldown_secs = 61;
    let mut patient = listener();
    patient.smoothed = singles(&[0.9]);
    assert!(patient.decide(&config, &labels(), single(0.1), HEAD_START).is_none());
    config.cooldown_secs = u64::MAX;
    assert!(patient.decide(&config, &labels(), single(0.1), HEAD_START).is_none());
}

#[test]
fn alert_takes_all_four_conditions() {
    let mut config = AppConfig::default();
    config.cooldown_secs = 0;
    config.alert_enabled = true;
    config.alert_categories.insert(1);
    config.alert_webhook_url = " http://h/x ".to_string();
    config.alert_channel = "sms".to_string();
    config.alert_recipient = "+55".to_string();
    let alert = |config: &AppConfig, score: f32| {
        let mut listener = listener();
        listener.smoothed = singles(&[0.0, score]);
        listener.decide(config, &labels(), single(0.1), HEAD_START).unwrap().alert
    };
    let target = alert(&config, 0.70).unwrap();
    assert_eq!(target.url, " http://h/x ");
    assert_eq!(target.channel, "sms");
    assert_eq!(target.recipient, "+55");
    assert!(alert(&config, 0.69).is_none());
    config.alert_webhook_url = " \n".to_string();
    assert!(alert(&config, 0.9).is_none());
    config.alert_webhook_url = "u".to_string();
    config.toggle_alert_category(1);
    assert!(alert(&config, 0.9).is_none());
    config.toggle_alert_category(1);
    config.toggle_alerts();
    assert!(alert(&config, 0.9).is_none());
}

#[test]
fn given_name_is_the_one_reported() {
    let mut config = AppConfig::default();
    config.name_class(1, " Rex ");
    let mut listener = listener();
    listener.smoothed = singles(&[0.0, 0.9]);
    let found = listener.decide(&config, &labels(), single(0.1), HEAD_START).unwrap();
    assert_eq!(found.sound_name, "Rex");
    let mut unnamed = Listener::new(1, HEAD_START);
    unnamed.smoothed = singles(&[0.0, 0.0, 0.0, 0.0, 0.9]);
    let found = unnamed.decide(&config, &labels(), single(0.1), HEAD_START).unwrap();
    assert_eq!(found.sound_name, "Classe 4");
}

#[test]
fn default_settings_report_all_and_alert_none() {
    let mut config = AppConfig::default();
    config.cooldown_secs = 0;
    config.alert_webhook_url = "u".to_string();
    for class_id in [0, 1, 260, 520] {
        let mut listener = listener();
        listener.smoothed = singles(&[0.0; 521]);
        listener.smoothed[class_id] = single(1.0);
        let found = listener.decide(&config, &labels(), single(0.1), HEAD_START).unwrap();
        assert_eq!(found.class_id, class_id);
        assert!(found.alert.is_none());
    }
}

fn mean(values: &Vec<Single>) -> Single {
    let sum: f32 = values.iter().map(|v| f32::from_bits(v.bits)).sum();
    single(sum / values.len() as f32)
}

#[test]
fn message_is_averaged_into_a_window() {
    let mut listener = Listener::new(2, HEAD_START);
    let config = AppConfig::default();
    let mut samples: Vec<Single> = Vec::new();
    while samples.len() < 2 * WINDOW - 1 {
        samples.push(single(if samples.len() % 2 == 0 { 0.25 } else { 0.75 }));
    }
    assert!(matches!(listener.hear(&config, &samples, mean, mean), Heard::Waiting));
    assert_eq!(listener.raw.len(), 1);
    assert_eq!(listener.resampled.len(), WINDOW - 1);
    match listener.hear(&config, &singles(&[0.75, 9.0]), mean, mean) {
        Heard::Classify { window, rms } => {
            assert_eq!(window, vec![single(0.5); WINDOW]);
            assert_eq!(rms, single(0.5));
        }
        _ => panic!("the window is loud enough"),
    }
    assert_eq!(listener.raw, singles(&[9.0]));
    assert_eq!(listener.resampled.len(), WINDOW - HOP);
}

#[test]
fn dropped_window_ends_the_smoothing() {
    let mut config = AppConfig::default();
    let half = |score: Single, smoothed: Single| mean(&vec![score, smoothed]);
    let quiet: Vec<Single> = vec![single(0.01); WINDOW];
    let loud: Vec<Single> = vec![single(0.5); WINDOW];

    let mut listener = Listener::new(1, HEAD_START);
    listener.judge(&config, &labels(), &singles(&[1.0, 0.0]), half, single(0.5), HEAD_START);
    listener.judge(&config, &labels(), &singles(&[0.0, 0.5]), half, single(0.5), HEAD_START);
    assert_eq!(listener.smoothed, singles(&[0.5, 0.25]));
    assert!(matches!(listener.hear(&config, &loud, mean, mean), Heard::Classify { .. }));
    assert_eq!(listener.smoothed, singles(&[0.5, 0.25]));

    let mut listener = Listener::new(1, HEAD_START);
    listener.smoothed = singles(&[1.0, 0.0]);
    match listener.hear(&config, &quiet, mean, mean) {
        Heard::Dropped { shown } => assert_eq!(shown, mean(&quiet)),
        _ => panic!("the window is not loud enough"),
    }
    let found = listener
        .judge(&config, &labels(), &singles(&[0.0, 0.5]), half, single(0.5), HEAD_START)
        .unwrap();
    assert_eq!(found.class_id, 1);
    assert_eq!(found.score, single(0.5));
    assert_eq!(listener.spoken_at, HEAD_START);

    config.paused = true;
    let mut listener = Listener::new(1, HEAD_START);
    listener.smoothed = singles(&[1.0]);
    match listener.hear(&config, &loud, mean, mean) {
        Heard::Dropped { shown } => assert_eq!(shown, single(0.0)),
        _ => panic!("the detection is paused"),
    }
    assert_eq!(listener.smoothed.len(), 0);
}
