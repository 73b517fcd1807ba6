use earbuddy::categorize_label;
use earbuddy::category::categorize_lowered;
use earbuddy::category::title;
use earbuddy::category::Category;
use earbuddy::load_class_labels;

fn by_std(csv: &str) -> Vec<String> {
    csv.lines()
        .skip(1)
        .filter_map(|line| {
            let parts: Vec<&str> = line.splitn(3, ',').collect();
            if parts.len() == 3 {
                Some(parts[2].trim().trim_matches('"').to_string())
            } else {
                None
            }
        })
        .collect()
}

#[test]
fn table_gives_the_third_fields() {
    let csv = "index,mid,display_name\n0,/m/09x0r,Speech\n1,/m/0ytgt,\"Child speech, kid speaking\"\n";
    assert_eq!(load_class_labels(csv), vec!["Speech", "Child speech, kid speaking"]);
}

#[test]
fn empty_table_and_titles_alone_give_nothing() {
    assert_eq!(load_class_labels(""), Vec::<String>::new());
    assert_eq!(load_class_labels("a,b,c"), Vec::<String>::new());
    assert_eq!(load_class_labels("a,b,c\n"), Vec::<String>::new());
}

#[test]
fn short_lines_are_passed_over() {
    assert_eq!(load_class_labels("t\n0,x\n\n1,y,Dog\nnothing\n2,,\n"), vec!["Dog", ""]);
}

#[test]
fn space_goes_before_quotes() {
    assert_eq!(load_class_labels("t\n0,x,  \" Owl \"\t\r\n"), vec![" Owl "]);
    assert_eq!(load_class_labels("t\n0,x,\"\"\"\""), vec![""]);
    assert_eq!(load_class_labels("t\n0,x,\u{3000}\u{a0}Sino\u{2029}"), vec!["Sino"]);
}

#[test]
fn table_agrees_with_the_standard_library() {
    let pieces = ["\n", "\r\n", "\r", ",", "\"", " ", "a", "é", "\u{85}", "x,y,", "0,m,\"N, o\""];
    let mut state: u64 = 7;
    let mut round: usize = 0;
    while round < 3000 {
        let mut csv = String::new();
        let mut n: usize = 0;
        while n < 12 {
            state = state.wrapping_mul(6364136223846793005).wrapping_add(1442695040888963407);
            csv.push_str(pieces[(state >> 33) as usize % pieces.len()]);
            n += 1;
        }
        assert_eq!(load_class_labels(&csv), by_std(&csv), "{:?}", csv);
        round += 1;
    }
}

#[test]
fn titles_do_not_matter() {
    let body = "0,m,Dog\n1,n,Cat";
    assert_eq!(
        load_class_labels(&format!("index,mid,name\n{}", body)),
        load_class_labels(&format!("\n{}", body))
    );
}

#[test]
fn appended_line_appends_its_label() {
    let table = "t\n0,m,Dog\n";
    let mut expected = load_class_labels(table);
    expected.push("Cat".to_string());
    assert_eq!(load_class_labels(&format!("{}1,n,Cat\n", table)), expected);
    assert_eq!(load_class_labels(&format!("{}1,n\n", table)), load_class_labels(table));
}

#[test]
fn final_line_feed_may_be_left_out() {
    for table in ["", "t", "t\n0,m,Dog", "t\n0,m,Dog\r", "t\n0,m,Dog\n", "\n"] {
        assert_eq!(load_class_labels(table), load_class_labels(&format!("{}\n", table)));
    }
}

#[test]
fn labels_have_no_quotes_at_their_ends() {
    for label in load_class_labels("t\n0,m,\"\"Dog\"\"\n1,m, \"a\"b\" ") {
        assert!(!label.starts_with('"') && !label.ends_with('"'));
    }
}

#[test]
fn words_decide_the_category() {
    assert_eq!(categorize_label("Dog"), "🐾 Animais");
    assert_eq!(categorize_label("SMOKE DETECTOR, SMOKE ALARM"), "🚨 Alertas e Perigo");
    assert_eq!(categorize_label("Speech"), "🗣️ Voz e Pessoas");
    assert_eq!(categorize_label("Piano"), "🎵 Música e Instrumentos");
    assert_eq!(categorize_label("Motorcycle"), "🚗 Veículos e Trânsito");
    assert_eq!(categorize_label("Rain"), "📦 Outros e Ambiente");
    assert_eq!(categorize_label(""), "📦 Outros e Ambiente");
}

#[test]
fn every_word_is_known() {
    let lists: [(&str, Category); 50] = [
        ("dog", Category::Animals),
        ("cat", Category::Animals),
        ("bird", Category::Animals),
        ("animal", Category::Animals),
        ("bark", Category::Animals),
        ("meow", Category::Animals),
        ("roar", Category::Animals),
        ("frog", Category::Animals),
        ("duck", Category::Animals),
        ("chicken", Category::Animals),
        ("owl", Category::Animals),
        ("livestock", Category::Animals),
        ("siren", Category::Alerts),
        ("alarm", Category::Alerts),
        ("fire", Category::Alerts),
        ("glass", Category::Alerts),
        ("explosion", Category::Alerts),
        ("gunshot", Category::Alerts),
        ("scream", Category::Alerts),
        ("shout", Category::Alerts),
        ("danger", Category::Alerts),
        ("warning", Category::Alerts),
        ("emergency", Category::Alerts),
        ("bell", Category::Alerts),
        ("speech", Category::People),
        ("voice", Category::People),
        ("whisper", Category::People),
        ("laugh", Category::People),
        ("cry", Category::People),
        ("clap", Category::People),
        ("footstep", Category::People),
        ("cough", Category::People),
        ("sneeze", Category::People),
        ("human", Category::People),
        ("singing", Category::People),
        ("music", Category::Music),
        ("piano", Category::Music),
        ("guitar", Category::Music),
        ("drum", Category::Music),
        ("violin", Category::Music),
        ("trumpet", Category::Music),
        ("instrument", Category::Music),
        ("car", Category::Vehicles),
        ("vehicle", Category::Vehicles),
        ("engine", Category::Vehicles),
        ("train", Category::Vehicles),
        ("aircraft", Category::Vehicles),
        ("horn", Category::Vehicles),
        ("traffic", Category::Vehicles),
        ("motorcycle", Category::Vehicles),
    ];
    for (word, category) in lists {
        assert_eq!(categorize_lowered(word), category, "{}", word);
        assert_eq!(categorize_label(&word.to_uppercase()), title(category), "{}", word);
    }
}

#[test]
fn earlier_list_decides() {
    assert_eq!(categorize_label("Car alarm"), "🚨 Alertas e Perigo");
    assert_eq!(categorize_label("Cattle, bovinae"), "🐾 Animais");
    assert_eq!(categorize_label("Train horn"), "🚗 Veículos e Trânsito");
}

#[test]
fn case_folding_reaches_beyond_ascii() {
    assert_eq!(categorize_label("CA\u{212a}"), "📦 Outros e Ambiente");
    assert_eq!(categorize_label("BAR\u{212a}"), "🐾 Animais");
}

#[test]
fn longer_name_stays_an_animal() {
    assert_eq!(categorize_label("Wild dog alarm"), "🐾 Animais");
}

#[test]
fn longer_name_comes_no_later() {
    let order = [
        Category::Animals,
        Category::Alerts,
        Category::People,
        Category::Music,
        Category::Vehicles,
        Category::Other,
    ];
    let place = |name: &str| order.iter().position(|c| *c == categorize_lowered(name)).unwrap();
    assert_eq!(place("train"), 4);
    assert_eq!(place("train horn alarm"), 1);
    for name in ["dog", "siren", "speech", "piano", "train", "wind"] {
        for (before, after) in [("", " music"), ("owl ", ""), ("x", "y"), ("car ", " bell")] {
            assert!(place(&format!("{}{}{}", before, name, after)) <= place(name));
        }
    }
}
