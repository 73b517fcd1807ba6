use earbuddy::build_grouped_labels;
use earbuddy::groups::group_heading;
use earbuddy::groups::group_labels;
use earbuddy::groups::matches_query;
use earbuddy::groups::search_groups;
use earbuddy::groups::search_items;
use earbuddy::groups::LabelGroup;
use std::collections::BTreeMap;

fn strings(list: &[&str]) -> Vec<String> {
    list.iter().map(|s| s.to_string()).collect()
}

fn shape(groups: &[LabelGroup]) -> Vec<(String, Vec<(usize, String)>)> {
    groups.iter().map(|g| (g.name.clone(), g.items.clone())).collect()
}

#[test]
fn groups_come_in_the_order_of_their_titles() {
    let labels = strings(&["Siren", "Truck", "Speech", "Rain", "Dog", "Piano", "Engine"]);
    let groups = build_grouped_labels(&labels);
    let names: Vec<&str> = groups.iter().map(|g| g.name.as_str()).collect();
    assert_eq!(
        names,
        vec![
            "🎵 Música e Instrumentos",
            "🐾 Animais",
            "📦 Outros e Ambiente",
            "🗣️ Voz e Pessoas",
            "🚗 Veículos e Trânsito",
            "🚨 Alertas e Perigo",
        ]
    );
    let mut sorted = names.clone();
    sorted.sort();
    assert_eq!(names, sorted);
    assert_eq!(groups[2].items, vec![(3, "Rain".to_string()), (1, "Truck".to_string())]);
}

#[test]
fn items_come_in_the_order_of_their_lower_case_names() {
    let labels = strings(&["Owl", "dog", "Bird", "DOG", "bark", "Dog"]);
    let groups = build_grouped_labels(&labels);
    assert_eq!(
        shape(&groups),
        vec![(
            "🐾 Animais".to_string(),
            vec![
                (4, "bark".to_string()),
                (2, "Bird".to_string()),
                (1, "dog".to_string()),
                (3, "DOG".to_string()),
                (5, "Dog".to_string()),
                (0, "Owl".to_string()),
            ]
        )]
    );
}

#[test]
fn no_labels_no_groups() {
    assert_eq!(build_grouped_labels(&Vec::new()).len(), 0);
}

#[test]
fn every_class_stands_in_one_place() {
    let labels = strings(&["Dog", "Cat", "Siren", "Car", "Rain", "Dog", "Piano", "Voice", "Train", ""]);
    let mut seen: Vec<usize> = Vec::new();
    for group in build_grouped_labels(&labels) {
        for (class_id, label) in group.items {
            assert_eq!(label, labels[class_id]);
            seen.push(class_id);
        }
    }
    seen.sort();
    assert_eq!(seen, (0..labels.len()).collect::<Vec<usize>>());
}

#[test]
fn given_lower_case_forms_decide() {
    let labels = strings(&["X", "Y"]);
    let groups = group_labels(&labels, &strings(&["dog", "a dog"]));
    assert_eq!(
        shape(&groups),
        vec![("🐾 Animais".to_string(), vec![(1, "Y".to_string()), (0, "X".to_string())])]
    );
}

#[test]
fn grouping_agrees_with_a_sorted_map() {
    let labels = strings(&["Dog", "dog b", "Âncora", "âncora", "Bell", "bell", "ZEBRA", "zebra", "Cat", "Speech"]);
    let mut expected: BTreeMap<String, Vec<(usize, String)>> = BTreeMap::new();
    for (i, label) in labels.iter().enumerate() {
        expected
            .entry(earbuddy::categorize_label(label).to_string())
            .or_default()
            .push((i, label.clone()));
    }
    for items in expected.values_mut() {
        items.sort_by(|a, b| a.1.to_lowercase().cmp(&b.1.to_lowercase()));
    }
    let expected: Vec<(String, Vec<(usize, String)>)> = expected.into_iter().collect();
    assert_eq!(shape(&build_grouped_labels(&labels)), expected);
}

#[test]
fn query_is_looked_for_in_both_names() {
    assert!(matches_query("", "dog", &None));
    assert!(matches_query("og", "dog", &None));
    assert!(!matches_query("cat", "dog", &None));
    assert!(matches_query("rex", "dog", &Some("meu rex".to_string())));
    assert!(!matches_query("cat", "dog", &Some("rex".to_string())));
}

#[test]
fn search_ignores_the_case_of_letters() {
    let items = vec![(0, "Dog".to_string()), (1, "Siren".to_string()), (2, "Bell".to_string())];
    let mut names: BTreeMap<usize, String> = BTreeMap::new();
    names.insert(2, "Campainha da PORTA".to_string());
    assert_eq!(search_items(&items, "DOG", &names), vec![(0, "Dog".to_string())]);
    assert_eq!(search_items(&items, "porta", &names), vec![(2, "Bell".to_string())]);
    assert_eq!(search_items(&items, "", &names), items);
    assert_eq!(search_items(&items, "nada", &names), Vec::new());
}

#[test]
fn groups_without_a_find_are_left_out() {
    let labels = strings(&["Dog", "Hot dog alarm", "Siren", "Rain"]);
    let groups = build_grouped_labels(&labels);
    let found = search_groups(&groups, "DOG", &BTreeMap::new());
    assert_eq!(
        shape(&found),
        vec![(
            "🐾 Animais".to_string(),
            vec![(0, "Dog".to_string()), (1, "Hot dog alarm".to_string())]
        )]
    );
    assert_eq!(shape(&search_groups(&groups, "", &BTreeMap::new())), shape(&groups));
    assert_eq!(search_groups(&groups, "zzz", &BTreeMap::new()).len(), 0);
}

#[test]
fn longer_query_finds_less() {
    let items = vec![(0, "Dog bark".to_string()), (1, "Dog".to_string())];
    let names = BTreeMap::new();
    let wide = search_items(&items, "dog", &names);
    for item in search_items(&items, "dog b", &names) {
        assert!(wide.contains(&item));
    }
}

#[test]
fn class_is_found_by_its_names() {
    let items = vec![(3, "Doorbell".to_string())];
    let mut names: BTreeMap<usize, String> = BTreeMap::new();
    names.insert(3, "Campainha".to_string());
    assert_eq!(search_items(&items, "dOORBELL", &names), items);
    assert_eq!(search_items(&items, "CAMPAINHA", &names), items);
}

#[test]
fn heading_counts_the_items() {
    let group = LabelGroup {
        name: "🐾 Animais".to_string(),
        items: vec![(0, "Dog".to_string()), (1, "Cat".to_string())],
    };
    assert_eq!(group_heading(&group), "🐾 Animais (2)");
}

#[test]
fn matching_items_are_found_under_their_title() {
    let labels = vec!["Dog".to_string(), "Siren".to_string(), "Wind".to_string()];
    let groups = build_grouped_labels(&labels);
    let mut names: BTreeMap<usize, String> = BTreeMap::new();
    names.insert(2, "Vento do sirenal".to_string());
    let found = search_groups(&groups, "siren", &names);
    assert_eq!(
        shape(&found),
        vec![
            ("📦 Outros e Ambiente".to_string(), vec![(2, "Wind".to_string())]),
            ("🚨 Alertas e Perigo".to_string(), vec![(1, "Siren".to_string())]),
        ]
    );
}
