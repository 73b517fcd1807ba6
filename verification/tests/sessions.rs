use earbuddy::listener::Detection;
use earbuddy::session::HISTORY;
use earbuddy::session::PEAK_HOLD;
use earbuddy::session::TOAST_LIFE;
use earbuddy::single::Single;
use earbuddy::theme::Tint;
use earbuddy::AppConfig;
use earbuddy::DetectionLog;
use earbuddy::EarbuddyApp;

fn single(value: f32) -> Single {
    Single { bits: value.to_bits() }
}

fn log(class_id: usize, score: f32) -> DetectionLog {
    DetectionLog {
        class_id,
        sound_name: format!("som {}", class_id),
        score: single(score),
        rms: single(0.1),
        timestamp: "10:00:00".to_string(),
        created_at: 5,
    }
}

fn app() -> EarbuddyApp {
    EarbuddyApp::new(vec!["Speech".to_string(), "Dog".to_string()], 7)
}

#[test]
fn screen_comes_up_empty() {
    let app = app();
    assert_eq!(app.class_labels.len(), 2);
    assert_eq!(app.logs.len(), 0);
    assert_eq!(app.search_query, "");
    assert_eq!(app.started_at, 7);
    assert_eq!(app.peak_rms, single(0.0));
    assert_eq!(app.peak_hold_until, 7);
    assert_eq!(app.training_name, "");
    assert_eq!(app.selected_training_class, None);
    assert!(app.toast.is_none());
}

#[test]
fn detection_is_announced_and_selected() {
    let mut app = app();
    let mut config = AppConfig::default();
    app.receive(log(1, 0.70), "70", &config, 99);
    let toast = app.toast.as_ref().unwrap();
    assert_eq!(toast.title, "🔊 SOM DETECTADO");
    assert_eq!(toast.body, "som 1 · 70% de confiança");
    assert_eq!(toast.accent, Tint::NeonPink);
    assert_eq!(toast.created_at, 99);
    assert_eq!(app.selected_training_class, Some(1));
    assert_eq!(app.training_name, "");
    config.name_class(4, "Rex");
    app.receive(log(4, 0.69), "69", &config, 100);
    assert_eq!(app.toast.as_ref().unwrap().accent, Tint::NeonCyan);
    assert_eq!(app.training_name, "Rex");
    assert_eq!(app.logs[0].class_id, 4);
    assert_eq!(app.logs[1].class_id, 1);
}

#[test]
fn history_holds_the_newest() {
    let mut app = app();
    let config = AppConfig::default();
    let mut n: usize = 0;
    while n < HISTORY + 30 {
        app.receive(log(n, 0.5), "50", &config, 0);
        n += 1;
        assert_eq!(app.logs.len(), n.min(HISTORY));
        assert_eq!(app.logs[0].class_id, n - 1);
        assert_eq!(app.logs[app.logs.len() - 1].class_id, n - app.logs.len());
    }
}

#[test]
fn detection_becomes_an_entry() {
    let detection = Detection {
        class_id: 3,
        sound_name: "Dog".to_string(),
        score: single(0.5),
        rms: single(0.25),
        alert: None,
    };
    let entry = detection.into_log("01:02:03".to_string(), 8);
    assert_eq!(entry.class_id, 3);
    assert_eq!(entry.sound_name, "Dog");
    assert_eq!(entry.score, single(0.5));
    assert_eq!(entry.rms, single(0.25));
    assert_eq!(entry.timestamp, "01:02:03");
    assert_eq!(entry.created_at, 8);
}

#[test]
fn pause_takes_the_message_away() {
    let mut app = app();
    let mut config = AppConfig::default();
    app.receive(log(1, 0.5), "50", &config, 0);
    app.toggle_pause(&mut config);
    assert!(config.paused);
    assert!(app.toast.is_none());
    app.receive(log(1, 0.5), "50", &config, 0);
    app.toggle_pause(&mut config);
    assert!(!config.paused);
    assert!(app.toast.is_some());
}

#[test]
fn message_is_shown_for_its_time() {
    let mut app = app();
    let config = AppConfig::default();
    assert!(!app.refresh_toast(0));
    app.receive(log(1, 0.5), "50", &config, 1000);
    assert!(app.refresh_toast(1000));
    assert!(app.refresh_toast(500));
    assert!(app.refresh_toast(1000 + TOAST_LIFE - 1));
    assert!(app.toast.is_some());
    assert!(!app.refresh_toast(1000 + TOAST_LIFE));
    assert!(app.toast.is_none());
}

#[test]
fn peak_follows_the_level() {
    let mut app = app();
    app.track_peak(single(0.5), single(0.0), 10);
    assert_eq!(app.peak_rms, single(0.5));
    assert_eq!(app.peak_hold_until, 10 + PEAK_HOLD);
    app.track_peak(single(0.25), single(0.4), 11);
    assert_eq!(app.peak_rms, single(0.4));
    assert_eq!(app.peak_hold_until, 10 + PEAK_HOLD);
    app.track_peak(single(0.39), single(0.3), 10 + PEAK_HOLD);
    assert_eq!(app.peak_rms, single(0.3));
    app.track_peak(single(0.25), single(0.2), 11 + PEAK_HOLD);
    assert_eq!(app.peak_rms, single(0.25));
    assert_eq!(app.peak_hold_until, 10 + PEAK_HOLD);
    app.track_peak(single(0.1), single(0.2), 11 + PEAK_HOLD);
    assert_eq!(app.peak_rms, single(0.2));
}

#[test]
fn typed_name_is_saved_for_the_selected_sound() {
    let mut app = app();
    let mut config = AppConfig::default();
    app.training_name = "Rex".to_string();
    assert!(!app.save_training_name(&mut config));
    app.selected_training_class = Some(1);
    app.training_name = "  ".to_string();
    assert!(!app.save_training_name(&mut config));
    assert!(config.custom_names.is_empty());
    app.training_name = " Rex ".to_string();
    assert!(app.save_training_name(&mut config));
    assert_eq!(config.custom_names[&1], "Rex");
}

#[test]
fn prompt_names_the_selected_sound() {
    let mut app = app();
    assert_eq!(
        app.training_prompt(),
        "Quando um som aparecer, ele ficará disponível aqui para receber um nome humano."
    );
    app.selected_training_class = Some(1);
    assert_eq!(
        app.training_prompt(),
        "Rotule ‘Dog’ para melhorar o contexto das próximas leituras."
    );
    app.selected_training_class = Some(2);
    assert_eq!(
        app.training_prompt(),
        "Rotule ‘som detectado’ para melhorar o contexto das próximas leituras."
    );
}

#[test]
fn search_leaves_groups_in_sight() {
    let mut app = app();
    let mut config = AppConfig::default();
    assert_eq!(app.visible_groups(&config).len(), 2);
    app.search_query = "DOG".to_string();
    let visible = app.visible_groups(&config);
    assert_eq!(visible.len(), 1);
    assert_eq!(visible[0].name, "🐾 Animais");
    assert_eq!(visible[0].items, vec![(1, "Dog".to_string())]);
    config.name_class(0, "Hot dog seller");
    assert_eq!(app.visible_groups(&config).len(), 2);
    app.search_query = "nada".to_string();
    assert_eq!(app.visible_groups(&config).len(), 0);
}
