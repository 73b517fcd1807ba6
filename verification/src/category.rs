//! Sorting sound classes into categories by the words in their names.

use crate::text;
use vstd::prelude::*;
use vstd::string::*;

verus! {

/// The categories of sounds.
#[derive(Clone, Copy, Debug, PartialEq, Eq, Structural)]
pub enum Category {
    /// An animal.
    Animals,
    /// A warning or a danger.
    Alerts,
    /// A voice or a person.
    People,
    /// Music or an instrument.
    Music,
    /// A vehicle or traffic.
    Vehicles,
    /// Anything else.
    Other,
}

/// Whether a lower-case name holds a word of [`Category::Animals`].
pub open spec fn names_animal(lowered: Seq<char>) -> bool {
    ||| text::has(lowered, "dog"@)
    ||| text::has(lowered, "cat"@)
    ||| text::has(lowered, "bird"@)
    ||| text::has(lowered, "animal"@)
    ||| text::has(lowered, "bark"@)
    ||| text::has(lowered, "meow"@)
    ||| text::has(lowered, "roar"@)
    ||| text::has(lowered, "frog"@)
    ||| text::has(lowered, "duck"@)
    ||| text::has(lowered, "chicken"@)
    ||| text::has(lowered, "owl"@)
    ||| text::has(lowered, "livestock"@)
}

/// Whether a lower-case name holds a word of [`Category::Alerts`].
pub open spec fn names_alert(lowered: Seq<char>) -> bool {
    ||| text::has(lowered, "siren"@)
    ||| text::has(lowered, "alarm"@)
    ||| text::has(lowered, "fire"@)
    ||| text::has(lowered, "glass"@)
    ||| text::has(lowered, "explosion"@)
    ||| text::has(lowered, "gunshot"@)
    ||| text::has(lowered, "scream"@)
    ||| text::has(lowered, "shout"@)
    ||| text::has(lowered, "danger"@)
    ||| text::has(lowered, "warning"@)
    ||| text::has(lowered, "emergency"@)
    ||| text::has(lowered, "bell"@)
}

/// Whether a lower-case name holds a word of [`Category::People`].
pub open spec fn names_people(lowered: Seq<char>) -> bool {
    ||| text::has(lowered, "speech"@)
    ||| text::has(lowered, "voice"@)
    ||| text::has(lowered, "whisper"@)
    ||| text::has(lowered, "laugh"@)
    ||| text::has(lowered, "cry"@)
    ||| text::has(lowered, "clap"@)
    ||| text::has(lowered, "footstep"@)
    ||| text::has(lowered, "cough"@)
    ||| text::has(lowered, "sneeze"@)
    ||| text::has(lowered, "human"@)
    ||| text::has(lowered, "singing"@)
}

/// Whether a lower-case name holds a word of [`Category::Music`].
pub open spec fn names_music(lowered: Seq<char>) -> bool {
    ||| text::has(lowered, "music"@)
    ||| text::has(lowered, "piano"@)
    ||| text::has(lowered, "guitar"@)
    ||| text::has(lowered, "drum"@)
    ||| text::has(lowered, "violin"@)
    ||| text::has(lowered, "trumpet"@)
    ||| text::has(lowered, "instrument"@)
}

/// Whether a lower-case name holds a word of [`Category::Vehicles`].
pub open spec fn names_vehicle(lowered: Seq<char>) -> bool {
    ||| text::has(lowered, "car"@)
    ||| text::has(lowered, "vehicle"@)
    ||| text::has(lowered, "engine"@)
    ||| text::has(lowered, "train"@)
    ||| text::has(lowered, "aircraft"@)
    ||| text::has(lowered, "horn"@)
    ||| text::has(lowered, "traffic"@)
    ||| text::has(lowered, "motorcycle"@)
}

/// The category of a lower-case name: the first, in the order of the words'
/// lists, of which it holds a word.
pub open spec fn category_of(lowered: Seq<char>) -> Category {
    if names_animal(lowered) {
        Category::Animals
    } else if names_alert(lowered) {
        Category::Alerts
    } else if names_people(lowered) {
        Category::People
    } else if names_music(lowered) {
        Category::Music
    } else if names_vehicle(lowered) {
        Category::Vehicles
    } else {
        Category::Other
    }
}

/// Where a category stands in the order in which the lists of words are tried.
pub open spec fn precedence(category: Category) -> int {
    match category {
        Category::Animals => 0,
        Category::Alerts => 1,
        Category::People => 2,
        Category::Music => 3,
        Category::Vehicles => 4,
        Category::Other => 5,
    }
}

/// The title under which a category is shown.
pub open spec fn title_of(category: Category) -> Seq<char> {
    match category {
        Category::Animals => "🐾 Animais"@,
        Category::Alerts => "🚨 Alertas e Perigo"@,
        Category::People => "🗣️ Voz e Pessoas"@,
        Category::Music => "🎵 Música e Instrumentos"@,
        Category::Vehicles => "🚗 Veículos e Trânsito"@,
        Category::Other => "📦 Outros e Ambiente"@,
    }
}

/// Whether a word occurs in a name.
fn holds(name: &Vec<char>, word: &str) -> (found: bool)
    ensures
        found == text::has(name@, word@),
{
    text::chars_contain(name, &text::chars_of(word))
}

/// The category of a name that is in lower case.
pub fn categorize_lowered(lowered: &str) -> (category: Category)
    ensures
        category == category_of(lowered@),
{
    let name = text::chars_of(lowered);
    if holds(&name, "dog")
        || holds(&name, "cat")
        || holds(&name, "bird")
        || holds(&name, "animal")
        || holds(&name, "bark")
        || holds(&name, "meow")
        || holds(&name, "roar")
        || holds(&name, "frog")
        || holds(&name, "duck")
        || holds(&name, "chicken")
        || holds(&name, "owl")
        || holds(&name, "livestock") {
        Category::Animals
    } else if holds(&name, "siren")
        || holds(&name, "alarm")
        || holds(&name, "fire")
        || holds(&name, "glass")
        || holds(&name, "explosion")
        || holds(&name, "gunshot")
        || holds(&name, "scream")
        || holds(&name, "shout")
        || holds(&name, "danger")
        || holds(&name, "warning")
        || holds(&name, "emergency")
        || holds(&name, "bell") {
        Category::Alerts
    } else if holds(&name, "speech")
        || holds(&name, "voice")
        || holds(&name, "whisper")
        || holds(&name, "laugh")
        || holds(&name, "cry")
        || holds(&name, "clap")
        || holds(&name, "footstep")
        || holds(&name, "cough")
        || holds(&name, "sneeze")
        || holds(&name, "human")
        || holds(&name, "singing") {
        Category::People
    } else if holds(&name, "music")
        || holds(&name, "piano")
        || holds(&name, "guitar")
        || holds(&name, "drum")
        || holds(&name, "violin")
        || holds(&name, "trumpet")
        || holds(&name, "instrument") {
        Category::Music
    } else if holds(&name, "car")
        || holds(&name, "vehicle")
        || holds(&name, "engine")
        || holds(&name, "train")
        || holds(&name, "aircraft")
        || holds(&name, "horn")
        || holds(&name, "traffic")
        || holds(&name, "motorcycle") {
        Category::Vehicles
    } else {
        Category::Other
    }
}

/// The title of a category.
pub fn title(category: Category) -> (title: &'static str)
    ensures
        title@ == title_of(category),
{
    match category {
        Category::Animals => "🐾 Animais",
        Category::Alerts => "🚨 Alertas e Perigo",
        Category::People => "🗣️ Voz e Pessoas",
        Category::Music => "🎵 Música e Instrumentos",
        Category::Vehicles => "🚗 Veículos e Trânsito",
        Category::Other => "📦 Outros e Ambiente",
    }
}

/// The title of the category that a class name belongs to, whatever the case
/// of its letters.
pub fn categorize_label(label: &str) -> (group: &'static str)
    ensures
        group@ == title_of(category_of(text::lowercase(label@))),
        text::all_ascii(label@) ==> group@ == title_of(category_of(text::ascii_lower(label@))),
{
    let lowered = label.to_lowercase();
    title(categorize_lowered(&lowered))
}

/// Text around a name never takes a category's word out of it: the category of
/// an extended name comes no later, in the order in which the lists of words are
/// tried, than that of the name.
pub proof fn law_longer_name_comes_no_later(before: Seq<char>, name: Seq<char>, after: Seq<char>)
    ensures
        precedence(category_of(before + name + after)) <= precedence(category_of(name)),
{
    let whole = before + name + after;
    assert forall|word: Seq<char>| #[trigger] text::has(name, word) implies text::has(whole, word) by {
        text::law_longer_text_keeps_words(before, name, after, word);
    }
}

/// A name that holds an animal stays with the animals, however it is extended.
pub proof fn law_longer_name_stays_an_animal(before: Seq<char>, name: Seq<char>, after: Seq<char>)
    requires
        category_of(name) == Category::Animals,
    ensures
        category_of(before + name + after) == Category::Animals,
{
    law_longer_name_comes_no_later(before, name, after);
}

/// A name is in a category exactly if one of the category's own words occurs in
/// it and no word of a category that is tried earlier; a name in which none of
/// the words occurs is in no particular category.
pub proof fn law_words_make_the_category(name: Seq<char>)
    ensures
        ({
            let animal = text::has(name, "dog"@)
                || text::has(name, "cat"@)
                || text::has(name, "bird"@)
                || text::has(name, "animal"@)
                || text::has(name, "bark"@)
                || text::has(name, "meow"@)
                || text::has(name, "roar"@)
                || text::has(name, "frog"@)
                || text::has(name, "duck"@)
                || text::has(name, "chicken"@)
                || text::has(name, "owl"@)
                || text::has(name, "livestock"@);
            let alert = text::has(name, "siren"@)
                || text::has(name, "alarm"@)
                || text::has(name, "fire"@)
                || text::has(name, "glass"@)
                || text::has(name, "explosion"@)
                || text::has(name, "gunshot"@)
                || text::has(name, "scream"@)
                || text::has(name, "shout"@)
                || text::has(name, "danger"@)
                || text::has(name, "warning"@)
                || text::has(name, "emergency"@)
                || text::has(name, "bell"@);
            let people = text::has(name, "speech"@)
                || text::has(name, "voice"@)
                || text::has(name, "whisper"@)
                || text::has(name, "laugh"@)
                || text::has(name, "cry"@)
                || text::has(name, "clap"@)
                || text::has(name, "footstep"@)
                || text::has(name, "cough"@)
                || text::has(name, "sneeze"@)
                || text::has(name, "human"@)
                || text::has(name, "singing"@);
            let music = text::has(name, "music"@)
                || text::has(name, "piano"@)
                || text::has(name, "guitar"@)
                || text::has(name, "drum"@)
                || text::has(name, "violin"@)
                || text::has(name, "trumpet"@)
                || text::has(name, "instrument"@);
            let vehicle = text::has(name, "car"@)
                || text::has(name, "vehicle"@)
                || text::has(name, "engine"@)
                || text::has(name, "train"@)
                || text::has(name, "aircraft"@)
                || text::has(name, "horn"@)
                || text::has(name, "traffic"@)
                || text::has(name, "motorcycle"@);
            &&& category_of(name) == Category::Animals <==> animal
            &&& category_of(name) == Category::Alerts <==> alert && !animal
            &&& category_of(name) == Category::People <==> people && !alert && !animal
            &&& category_of(name) == Category::Music <==> music && !people && !alert && !animal
            &&& category_of(name) == Category::Vehicles <==> vehicle && !music && !people && !alert
                && !animal
            &&& category_of(name) == Category::Other <==> !vehicle && !music && !people && !alert
                && !animal
        }),
{
}

/// A name of fewer than three characters holds none of the words, and is in no
/// particular category.
pub proof fn law_short_name_has_no_category(name: Seq<char>)
    requires
        name.len() < 3,
    ensures
        category_of(name) == Category::Other,
{
    reveal_strlit("dog");
    reveal_strlit("cat");
    reveal_strlit("bird");
    reveal_strlit("animal");
    reveal_strlit("bark");
    reveal_strlit("meow");
    reveal_strlit("roar");
    reveal_strlit("frog");
    reveal_strlit("duck");
    reveal_strlit("chicken");
    reveal_strlit("owl");
    reveal_strlit("livestock");
    reveal_strlit("siren");
    reveal_strlit("alarm");
    reveal_strlit("fire");
    reveal_strlit("glass");
    reveal_strlit("explosion");
    reveal_strlit("gunshot");
    reveal_strlit("scream");
    reveal_strlit("shout");
    reveal_strlit("danger");
    reveal_strlit("warning");
    reveal_strlit("emergency");
    reveal_strlit("bell");
    reveal_strlit("speech");
    reveal_strlit("voice");
    reveal_strlit("whisper");
    reveal_strlit("laugh");
    reveal_strlit("cry");
    reveal_strlit("clap");
    reveal_strlit("footstep");
    reveal_strlit("cough");
    reveal_strlit("sneeze");
    reveal_strlit("human");
    reveal_strlit("singing");
    reveal_strlit("music");
    reveal_strlit("piano");
    reveal_strlit("guitar");
    reveal_strlit("drum");
    reveal_strlit("violin");
    reveal_strlit("trumpet");
    reveal_strlit("instrument");
    reveal_strlit("car");
    reveal_strlit("vehicle");
    reveal_strlit("engine");
    reveal_strlit("train");
    reveal_strlit("aircraft");
    reveal_strlit("horn");
    reveal_strlit("traffic");
    reveal_strlit("motorcycle");
}

} // verus!
