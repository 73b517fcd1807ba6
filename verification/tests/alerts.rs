use earbuddy::alert::alert_message;
use earbuddy::alert::alert_payload;
use earbuddy::alert::pick_voice;
use earbuddy::alert::speaks_brazilian;
use earbuddy::alert::spoken_text;
use earbuddy::listener::AlertTarget;

fn target(channel: &str, recipient: &str) -> AlertTarget {
    AlertTarget {
        url: "http://h".to_string(),
        channel: channel.to_string(),
        recipient: recipient.to_string(),
    }
}

#[test]
fn message_names_the_sound() {
    assert_eq!(alert_message("Sirene", "87"), "EarBuddy: Sirene detectado com 87% de confiança");
    assert_eq!(spoken_text("Sirene"), "Som detectado. Sirene.");
}

#[test]
fn payload_is_a_json_object() {
    let json = alert_payload(&target("sms", "+55 11"), "olá \"mundo\"\n\\");
    let value: serde_json::Value = serde_json::from_str(&json).unwrap();
    assert_eq!(value["channel"], "sms");
    assert_eq!(value["to"], "+55 11");
    assert_eq!(value["message"], "olá \"mundo\"\n\\");
    assert_eq!(value.as_object().unwrap().len(), 3);
    assert_eq!(json, value.to_string());
}

#[test]
fn payload_is_compact() {
    let json = alert_payload(&target("webhook", ""), "x");
    assert_eq!(json.len(), "{\"channel\":\"webhook\",\"to\":\"\",\"message\":\"x\"}".len());
    assert!(json.starts_with("{\"channel\":\"webhook\","));
}

#[test]
fn brazilian_voice_is_picked() {
    let voices = |list: &[&str]| list.iter().map(|s| s.to_string()).collect::<Vec<String>>();
    assert_eq!(pick_voice(&voices(&["en-US", "PT-br-x-female", "pt-BR"])), Some(1));
    assert_eq!(pick_voice(&voices(&["pt-PT", "pt_BR"])), Some(1));
    assert_eq!(pick_voice(&voices(&["pt", "pt_br_x", "xpt-br"])), None);
    assert_eq!(pick_voice(&voices(&[])), None);
    assert!(speaks_brazilian("pt-br"));
    assert!(!speaks_brazilian("PT-BR"));
}
