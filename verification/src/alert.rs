//! What is said, sent and shown of a detection, and which voice says it.

use crate::listener::AlertTarget;
use crate::text;
use vstd::prelude::*;
use vstd::string::*;

verus! {

/// The JSON text of an object with these members, each a string.
pub uninterp spec fn json_object(members: Seq<(Seq<char>, Seq<char>)>) -> Seq<char>;

/// What a list of pairs says.
pub open spec fn pair_texts(pairs: Seq<(String, String)>) -> Seq<(Seq<char>, Seq<char>)> {
    pairs.map_values(|pair: (String, String)| (pair.0@, pair.1@))
}

/// Collects pairs into a `serde_json::Map` of strings and writes it with the
/// `Display` of `serde_json::Value`, which gives compact JSON. Only that the
/// text depends on the pairs alone is claimed; how JSON writes them is left to
/// the name [`json_object`].
#[verifier::external_body]
fn write_json_object(members: Vec<(String, String)>) -> (json: String)
    ensures
        json@ == json_object(pair_texts(members@)),
{
    let object: serde_json::Map<String, serde_json::Value> = members
        .into_iter()
        .map(|(name, value)| (name, serde_json::Value::String(value)))
        .collect();
    serde_json::Value::Object(object).to_string()
}

/// The message of an alert.
pub open spec fn alert_message_of(sound_name: Seq<char>, percent: Seq<char>) -> Seq<char> {
    "EarBuddy: "@ + sound_name + " detectado com "@ + percent + "% de confiança"@
}

/// The message of an alert. `percent` is the confidence in percent, written
/// without decimals.
pub fn alert_message(sound_name: &str, percent: &str) -> (message: String)
    ensures
        message@ == alert_message_of(sound_name@, percent@),
{
    let mut message = "EarBuddy: ".to_owned();
    message.append(sound_name);
    message.append(" detectado com ");
    message.append(percent);
    message.append("% de confiança");
    message
}

/// The body of the request that sends an alert.
pub open spec fn payload_of(
    channel: Seq<char>,
    recipient: Seq<char>,
    message: Seq<char>,
) -> Seq<char> {
    json_object(seq![("channel"@, channel), ("to"@, recipient), ("message"@, message)])
}

/// The body of the request that sends an alert: a JSON object with the channel,
/// the recipient and the message.
pub fn alert_payload(target: &AlertTarget, message: &str) -> (json: String)
    ensures
        json@ == json_object(
            seq![
                ("channel"@, target.channel@),
                ("to"@, target.recipient@),
                ("message"@, message@),
            ],
        ),
        json@ == payload_of(target.channel@, target.recipient@, message@),
{
    let mut members: Vec<(String, String)> = Vec::new();
    members.push(("channel".to_owned(), target.channel.clone()));
    members.push(("to".to_owned(), target.recipient.clone()));
    members.push(("message".to_owned(), message.to_owned()));
    assert(pair_texts(members@) =~= seq![
        ("channel"@, target.channel@),
        ("to"@, target.recipient@),
        ("message"@, message@),
    ]);
    write_json_object(members)
}

/// What is said aloud of a sound.
pub open spec fn spoken_of(sound_name: Seq<char>) -> Seq<char> {
    "Som detectado. "@ + sound_name + "."@
}

/// What is said aloud of a detection.
pub fn spoken_text(sound_name: &str) -> (spoken: String)
    ensures
        spoken@ == "Som detectado. "@ + sound_name@ + "."@,
        spoken@ == spoken_of(sound_name@),
{
    let mut spoken = "Som detectado. ".to_owned();
    spoken.append(sound_name);
    spoken.append(".");
    spoken
}

/// Whether a language, in lower case, is Brazilian Portuguese.
pub open spec fn is_brazilian(lowered: Seq<char>) -> bool {
    ||| text::occurs_at(lowered, "pt-br"@, 0)
    ||| lowered == "pt_br"@
}

/// Whether a language, in lower case, is Brazilian Portuguese.
pub fn speaks_brazilian(lowered: &str) -> (speaks: bool)
    ensures
        speaks == is_brazilian(lowered@),
{
    text::starts_with(lowered, "pt-br") || text::same(lowered, "pt_br")
}

/// The first voice whose language is Brazilian Portuguese, whatever the case of
/// its letters.
pub fn pick_voice(languages: &Vec<String>) -> (voice: Option<usize>)
    ensures
        match voice {
            Some(at) => {
                &&& at < languages@.len()
                &&& is_brazilian(text::lowercase(languages@[at as int]@))
                &&& forall|i: int|
                    0 <= i < at ==> !is_brazilian(text::lowercase((#[trigger] languages@[i])@))
            },
            None => forall|i: int|
                0 <= i < languages@.len() ==> !is_brazilian(
                    text::lowercase((#[trigger] languages@[i])@),
                ),
        },
{
    let mut at: usize = 0;
    while at < languages.len()
        invariant
            at <= languages@.len(),
            forall|i: int|
                0 <= i < at ==> !is_brazilian(text::lowercase((#[trigger] languages@[i])@)),
        decreases languages@.len() - at,
    {
        if speaks_brazilian(&languages[at].to_lowercase()) {
            return Some(at);
        }
        at += 1;
    }
    None
}

/// Pairs stand in a list with what they say.
pub proof fn law_pairs_keep_their_places(pairs: Seq<(String, String)>, i: int)
    ensures
        pair_texts(pairs).len() == pairs.len(),
        0 <= i < pairs.len() ==> pair_texts(pairs)[i] == (pairs[i].0@, pairs[i].1@),
{
}

/// The message of an alert holds the whole name of the sound and the whole
/// confidence, each in its place.
pub proof fn law_alert_names_sound_and_confidence(sound_name: Seq<char>, percent: Seq<char>)
    ensures
        alert_message_of(sound_name, percent) == "EarBuddy: "@ + (sound_name + (" detectado com "@
            + (percent + "% de confiança"@))),
        text::has(alert_message_of(sound_name, percent), sound_name),
        text::has(alert_message_of(sound_name, percent), percent),
{
    let message = alert_message_of(sound_name, percent);
    let tail = " detectado com "@ + percent + "% de confiança"@;
    assert(message =~= "EarBuddy: "@ + (sound_name + (" detectado com "@ + (percent
        + "% de confiança"@))));
    assert(message =~= "EarBuddy: "@ + sound_name + tail);
    text::law_text_with_a_word(message, sound_name);
    text::law_text_with_a_word(message, percent);
}

/// The request of an alert carries the channel, the recipient and the message, and
/// nothing else.
pub proof fn law_payload_carries_three_members(
    channel: Seq<char>,
    recipient: Seq<char>,
    message: Seq<char>,
)
    ensures
        payload_of(channel, recipient, message) == json_object(
            Seq::<(Seq<char>, Seq<char>)>::empty().push(("channel"@, channel)).push(
                ("to"@, recipient),
            ).push(("message"@, message)),
        ),
{
    assert(seq![("channel"@, channel), ("to"@, recipient), ("message"@, message)] =~= Seq::<
        (Seq<char>, Seq<char>),
    >::empty().push(("channel"@, channel)).push(("to"@, recipient)).push(("message"@, message)));
}

/// The whole name of the sound is said.
pub proof fn law_whole_name_is_said(sound_name: Seq<char>)
    ensures
        spoken_of(sound_name) == "Som detectado. "@ + (sound_name + "."@),
        text::has(spoken_of(sound_name), sound_name),
{
    let spoken = spoken_of(sound_name);
    assert(spoken =~= "Som detectado. "@ + (sound_name + "."@));
    assert(spoken =~= "Som detectado. "@ + sound_name + "."@);
    text::law_text_with_a_word(spoken, sound_name);
}

/// A language is Brazilian Portuguese exactly if it is `pt-br` with whatever
/// follows, or `pt_br` alone.
pub proof fn law_brazilian_languages(lowered: Seq<char>)
    ensures
        is_brazilian(lowered) <==> (exists|rest: Seq<char>| lowered == #[trigger] ("pt-br"@ + rest))
            || lowered == "pt_br"@,
{
    let word = "pt-br"@;
    if text::occurs_at(lowered, word, 0) {
        assert(lowered =~= word + lowered.skip(word.len() as int));
    }
    if exists|rest: Seq<char>| lowered == #[trigger] (word + rest) {
        assert(lowered.subrange(0, word.len() as int) =~= word);
    }
}

} // verus!
