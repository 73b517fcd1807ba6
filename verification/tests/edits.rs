use earbuddy::session::Edit;
use earbuddy::session::ToastMessage;
use earbuddy::single::Single;
use earbuddy::theme::Tint;
use earbuddy::AppConfig;
use earbuddy::EarbuddyApp;

fn single(value: f32) -> Single {
    Single { bits: value.to_bits() }
}

fn app() -> EarbuddyApp {
    let labels: Vec<String> = vec!["Speech".to_string(), "Dog".to_string()];
    let mut app = EarbuddyApp::new(labels, 0);
    app.toast = Some(ToastMessage {
        title: "t".to_string(),
        body: "b".to_string(),
        accent: Tint::NeonCyan,
        created_at: 0,
    });
    app
}

#[test]
fn numbers_are_set_and_stored() {
    let mut app = app();
    let mut config = AppConfig::default();
    assert!(app.edit(&mut config, Edit::SetRmsThreshold(single(0.05))));
    assert!(app.edit(&mut config, Edit::SetScoreThreshold(single(0.5))));
    assert!(app.edit(&mut config, Edit::SetAlphaSmoothing(single(0.9))));
    assert!(app.edit(&mut config, Edit::SetCooldown(30)));
    assert!(app.edit(&mut config, Edit::SetAlertThreshold(single(0.99))));
    assert_eq!(config.rms_threshold, single(0.05));
    assert_eq!(config.score_threshold, single(0.5));
    assert_eq!(config.alpha_smoothing, single(0.9));
    assert_eq!(config.cooldown_secs, 30);
    assert_eq!(config.alert_score_threshold, single(0.99));
    assert_eq!(config.alert_channel, "webhook");
    assert!(app.toast.is_some());
}

#[test]
fn texts_are_set_and_stored() {
    let mut app = app();
    let mut config = AppConfig::default();
    assert!(app.edit(&mut config, Edit::SetWebhookUrl("http://a".to_string())));
    assert!(app.edit(&mut config, Edit::SetRecipient("+55".to_string())));
    assert!(app.edit(&mut config, Edit::SetChannel("sms".to_string())));
    assert_eq!(config.alert_webhook_url, "http://a");
    assert_eq!(config.alert_recipient, "+55");
    assert_eq!(config.alert_channel, "sms");
}

#[test]
fn switches_move_there_and_back() {
    let mut app = app();
    let mut config = AppConfig::default();
    assert!(app.edit(&mut config, Edit::ToggleDarkMode));
    assert!(app.edit(&mut config, Edit::ToggleAlerts));
    assert!(app.edit(&mut config, Edit::ToggleCategory(3)));
    assert!(app.edit(&mut config, Edit::ToggleAlertCategory(3)));
    assert!(!config.dark_mode);
    assert!(config.alert_enabled);
    assert!(!config.enabled_categories.contains(&3));
    assert_eq!(config.enabled_categories.len(), 520);
    assert!(config.alert_categories.contains(&3));
    assert!(app.toast.is_some());
    app.edit(&mut config, Edit::ToggleDarkMode);
    app.edit(&mut config, Edit::ToggleAlerts);
    app.edit(&mut config, Edit::ToggleCategory(3));
    app.edit(&mut config, Edit::ToggleAlertCategory(3));
    assert!(config.dark_mode);
    assert!(!config.alert_enabled);
    assert_eq!(config.enabled_categories, AppConfig::default().enabled_categories);
    assert!(config.alert_categories.is_empty());
}

#[test]
fn only_pausing_takes_the_message_away() {
    let mut app = app();
    let mut config = AppConfig::default();
    config.paused = true;
    assert!(app.edit(&mut config, Edit::TogglePause));
    assert!(!config.paused);
    assert!(app.toast.is_some());
    assert!(app.edit(&mut config, Edit::TogglePause));
    assert!(config.paused);
    assert!(app.toast.is_none());
}

#[test]
fn groups_are_marked_as_a_whole() {
    let mut app = app();
    let mut config = AppConfig::default();
    let items: Vec<(usize, String)> = vec![(0, "Speech".to_string()), (600, "x".to_string())];
    assert!(app.edit(&mut config, Edit::UnmarkGroup(items.clone())));
    assert_eq!(config.enabled_categories.len(), 520);
    assert!(!config.enabled_categories.contains(&0));
    assert!(app.edit(&mut config, Edit::MarkGroup(items)));
    assert_eq!(config.enabled_categories.len(), 522);
    assert!(config.enabled_categories.contains(&600));
}

#[test]
fn only_a_saved_name_is_stored() {
    let mut app = app();
    let mut config = AppConfig::default();
    app.training_name = "Rex".to_string();
    assert!(!app.edit(&mut config, Edit::SaveName));
    app.selected_training_class = Some(1);
    app.training_name = " \u{3000}\t".to_string();
    assert!(!app.edit(&mut config, Edit::SaveName));
    assert!(config.custom_names.is_empty());
    app.training_name = "  Rex ".to_string();
    assert!(app.edit(&mut config, Edit::SaveName));
    assert_eq!(config.custom_names.get(&1), Some(&"Rex".to_string()));
    assert_eq!(app.training_name, "  Rex ");
}

#[test]
fn only_what_was_asked_for_is_stored() {
    let mut app = app();
    let mut config = AppConfig::default();
    let settled: Vec<Edit> = vec![Edit::SetAlertThreshold(single(0.30)), Edit::SetCooldown(1)];
    assert!(!app.edit_all(&mut config, settled, Vec::new()));
    assert_eq!(config.alert_score_threshold, single(0.30));
    assert_eq!(config.cooldown_secs, 1);

    assert!(!app.edit_all(&mut config, Vec::new(), Vec::new()));
    assert!(!app.edit_all(&mut config, Vec::new(), vec![Edit::SaveName]));
    assert!(config.custom_names.is_empty());

    let asked: Vec<Edit> = vec![Edit::SaveName, Edit::ToggleAlerts, Edit::SaveName];
    assert!(app.edit_all(&mut config, Vec::new(), asked));
    assert!(config.alert_enabled);
    assert!(app.toast.is_some());
}

#[test]
fn edits_are_made_one_after_the_other() {
    let mut app = app();
    let mut config = AppConfig::default();
    let settled: Vec<Edit> = vec![Edit::SetCooldown(1), Edit::SetCooldown(30)];
    let asked: Vec<Edit> = vec![Edit::SetCooldown(7), Edit::TogglePause, Edit::TogglePause];
    assert!(app.edit_all(&mut config, settled, asked));
    assert_eq!(config.cooldown_secs, 7);
    assert!(!config.paused);
    assert!(app.toast.is_none());
}
