use earbuddy::single::Single;
use earbuddy::AppConfig;

fn single(value: f32) -> Single {
    Single { bits: value.to_bits() }
}

fn items(ids: &[usize]) -> Vec<(usize, String)> {
    ids.iter().map(|id| (*id, format!("classe {}", id))).collect()
}

#[test]
fn default_settings() {
    let config = AppConfig::default();
    assert_eq!(config.rms_threshold, single(0.04));
    assert_eq!(config.score_threshold, single(0.30));
    assert_eq!(config.alpha_smoothing, single(0.30));
    assert_eq!(config.cooldown_secs, 2);
    assert_eq!(config.enabled_categories, (0..521).collect());
    assert!(config.dark_mode);
    assert!(!config.paused);
    assert!(config.custom_names.is_empty());
    assert!(!config.alert_enabled);
    assert_eq!(config.alert_channel, "webhook");
    assert_eq!(config.alert_webhook_url, "");
    assert_eq!(config.alert_recipient, "");
    assert_eq!(config.alert_score_threshold, single(0.70));
    assert!(config.alert_categories.is_empty());
}

#[test]
fn stored_settings_are_taken_over() {
    let mut stored = AppConfig::default();
    stored.cooldown_secs = 17;
    assert_eq!(AppConfig::load(Some(stored)).cooldown_secs, 17);
    assert_eq!(AppConfig::load(None).cooldown_secs, 2);
}

#[test]
fn copy_holds_the_same_settings() {
    let mut config = AppConfig::default();
    config.toggle_category(3);
    config.toggle_alert_category(9);
    config.name_class(7, "Rex");
    config.alert_recipient = "+55".to_string();
    let copy = config.clone();
    assert_eq!(copy.enabled_categories, config.enabled_categories);
    assert_eq!(copy.alert_categories, config.alert_categories);
    assert_eq!(copy.custom_names, config.custom_names);
    assert_eq!(copy.alert_recipient, "+55");
    assert_eq!(copy.cooldown_secs, 2);
}

#[test]
fn toggling_twice_restores() {
    let mut config = AppConfig::default();
    config.toggle_category(5);
    assert!(!config.enabled_categories.contains(&5));
    assert!(config.enabled_categories.contains(&6));
    config.toggle_category(5);
    assert!(config.enabled_categories.contains(&5));
    config.toggle_alert_category(5);
    assert!(config.alert_categories.contains(&5));
    config.toggle_alert_category(5);
    assert!(!config.alert_categories.contains(&5));
    config.toggle_dark_mode();
    assert!(!config.dark_mode);
    config.toggle_dark_mode();
    assert!(config.dark_mode);
    config.toggle_paused();
    assert!(config.paused);
    config.toggle_alerts();
    assert!(config.alert_enabled);
}

#[test]
fn group_is_marked_as_a_whole() {
    let mut config = AppConfig::default();
    config.unmark_group(&items(&[1, 3, 600]));
    assert_eq!(config.enabled_categories.len(), 519);
    assert!(!config.enabled_categories.contains(&3));
    assert!(config.enabled_categories.contains(&2));
    config.mark_group(&items(&[3, 700]));
    assert!(config.enabled_categories.contains(&3));
    assert!(config.enabled_categories.contains(&700));
    assert!(!config.enabled_categories.contains(&1));
}

#[test]
fn name_is_trimmed_and_a_blank_one_refused() {
    let mut config = AppConfig::default();
    assert!(!config.name_class(4, " \t\u{3000}"));
    assert!(config.custom_names.is_empty());
    assert!(config.name_class(4, "  Campainha da porta "));
    assert_eq!(config.custom_names[&4], "Campainha da porta");
    assert_eq!(config.custom_name(4), "Campainha da porta");
    assert_eq!(config.custom_name(5), "");
}

#[test]
fn given_name_is_reported() {
    let labels = vec!["Speech".to_string(), "Bell".to_string()];
    let mut config = AppConfig::default();
    assert_eq!(config.sound_name(&labels, 1), "Bell");
    assert_eq!(config.sound_name(&labels, 30), "Classe 30");
    config.name_class(1, "Campainha");
    config.name_class(30, "Outro");
    assert_eq!(config.sound_name(&labels, 1), "Campainha");
    assert_eq!(config.sound_name(&labels, 30), "Outro");
    assert_eq!(config.sound_name(&labels, 0), "Speech");
    assert_eq!(config.shown_name(0, "Speech"), "Speech");
    assert_eq!(config.shown_name(1, "Bell"), "Campainha");
}
