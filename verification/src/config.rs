//! The settings of the monitor and the ways in which they change.

use crate::single::Single;
use crate::text;
use std::collections::BTreeMap;
use std::collections::HashSet;
use vstd::prelude::*;
use vstd::string::*;

verus! {

broadcast use {
    vstd::std_specs::hash::group_hash_axioms,
    vstd::std_specs::btree::group_btree_axioms,
};

/// How many sound classes the model tells apart.
pub const CLASS_COUNT: usize = 521;

/// 0.04
pub const DEFAULT_RMS_THRESHOLD: u32 = 0x3d23_d70a;

/// 0.30
pub const DEFAULT_SCORE_THRESHOLD: u32 = 0x3e99_999a;

/// 0.30
pub const DEFAULT_ALPHA_SMOOTHING: u32 = 0x3e99_999a;

/// 0.70
pub const DEFAULT_ALERT_SCORE_THRESHOLD: u32 = 0x3f33_3333;

/// The settings.
pub struct AppConfig {
    /// The sound level above which a window is classified.
    pub rms_threshold: Single,
    /// The confidence that a detection takes.
    pub score_threshold: Single,
    /// The share of the newest scores in the smoothed ones.
    pub alpha_smoothing: Single,
    /// The seconds that pass at least between two detections.
    pub cooldown_secs: u64,
    /// The classes that are reported.
    pub enabled_categories: HashSet<usize>,
    pub dark_mode: bool,
    pub paused: bool,
    /// The names that the user gave to classes.
    pub custom_names: BTreeMap<usize, String>,
    pub alert_enabled: bool,
    pub alert_channel: String,
    pub alert_webhook_url: String,
    pub alert_recipient: String,
    /// The confidence that an alert takes.
    pub alert_score_threshold: Single,
    /// The classes that raise an alert.
    pub alert_categories: HashSet<usize>,
}

/// The numbers below `n`.
pub open spec fn classes_below(n: int) -> Set<usize> {
    Set::new(|class_id: usize| class_id < n)
}

/// Whether a configuration has the values that a fresh one has.
pub open spec fn is_default(config: AppConfig) -> bool {
    &&& config.rms_threshold.bits == DEFAULT_RMS_THRESHOLD
    &&& config.score_threshold.bits == DEFAULT_SCORE_THRESHOLD
    &&& config.alpha_smoothing.bits == DEFAULT_ALPHA_SMOOTHING
    &&& config.cooldown_secs == 2
    &&& config.enabled_categories@ == classes_below(CLASS_COUNT as int)
    &&& config.dark_mode
    &&& !config.paused
    &&& config.custom_names@ == Map::<usize, String>::empty()
    &&& !config.alert_enabled
    &&& config.alert_channel@ == "webhook"@
    &&& config.alert_webhook_url@ == Seq::<char>::empty()
    &&& config.alert_recipient@ == Seq::<char>::empty()
    &&& config.alert_score_threshold.bits == DEFAULT_ALERT_SCORE_THRESHOLD
    &&& config.alert_categories@ == Set::<usize>::empty()
}

/// The set of all numbers below `n`.
fn all_classes(n: usize) -> (classes: HashSet<usize>)
    ensures
        classes@ == classes_below(n as int),
{
    let mut classes: HashSet<usize> = HashSet::new();
    let mut class_id: usize = 0;
    assert(classes@ =~= classes_below(0));
    while class_id < n
        invariant
            class_id <= n,
            classes@ == classes_below(class_id as int),
        decreases n - class_id,
    {
        classes.insert(class_id);
        assert(classes@ =~= classes_below(class_id + 1));
        class_id += 1;
    }
    classes
}

impl Default for AppConfig {
    fn default() -> (config: Self)
        ensures
            is_default(config),
    {
        AppConfig {
            rms_threshold: Single { bits: DEFAULT_RMS_THRESHOLD },
            score_threshold: Single { bits: DEFAULT_SCORE_THRESHOLD },
            alpha_smoothing: Single { bits: DEFAULT_ALPHA_SMOOTHING },
            cooldown_secs: 2,
            enabled_categories: all_classes(CLASS_COUNT),
            dark_mode: true,
            paused: false,
            custom_names: BTreeMap::new(),
            alert_enabled: false,
            alert_channel: "webhook".to_owned(),
            alert_webhook_url: String::new(),
            alert_recipient: String::new(),
            alert_score_threshold: Single { bits: DEFAULT_ALERT_SCORE_THRESHOLD },
            alert_categories: HashSet::new(),
        }
    }
}

/// Whether two configurations hold the same settings.
pub open spec fn same_settings(a: AppConfig, b: AppConfig) -> bool {
    &&& a.rms_threshold == b.rms_threshold
    &&& a.score_threshold == b.score_threshold
    &&& a.alpha_smoothing == b.alpha_smoothing
    &&& a.cooldown_secs == b.cooldown_secs
    &&& a.enabled_categories@ == b.enabled_categories@
    &&& a.dark_mode == b.dark_mode
    &&& a.paused == b.paused
    &&& a.custom_names@ == b.custom_names@
    &&& a.alert_enabled == b.alert_enabled
    &&& a.alert_channel@ == b.alert_channel@
    &&& a.alert_webhook_url@ == b.alert_webhook_url@
    &&& a.alert_recipient@ == b.alert_recipient@
    &&& a.alert_score_threshold == b.alert_score_threshold
    &&& a.alert_categories@ == b.alert_categories@
}

proof fn lemma_members_step(all: Seq<usize>, n: int)
    requires
        0 <= n < all.len(),
    ensures
        all.take(n + 1).to_set() == all.take(n).to_set().insert(all[n]),
        n + 1 == all.len() ==> all.take(n + 1) == all,
{
    assert(all.take(n + 1) =~= all.take(n).push(all[n]));
    all.take(n).lemma_push_to_set_commute(all[n]);
    if n + 1 == all.len() {
        assert(all.take(n + 1) =~= all);
    }
}

/// A second set with the same members.
fn copy_set(set: &HashSet<usize>) -> (copy: HashSet<usize>)
    ensures
        copy@ == set@,
{
    let mut copy: HashSet<usize> = HashSet::new();
    for member in it: set.iter()
        invariant
            it.seq().unref().to_set() == set@,
            copy@ == it.seq().unref().take(it.index() as int).to_set(),
            it.index() == it.seq().len() ==> copy@ == set@,
    {
        proof {
            lemma_members_step(it.seq().unref(), it.index() as int);
        }
        copy.insert(*member);
    }
    copy
}

impl Clone for AppConfig {
    fn clone(&self) -> (copy: Self)
        ensures
            same_settings(copy, *self),
    {
        AppConfig {
            rms_threshold: self.rms_threshold,
            score_threshold: self.score_threshold,
            alpha_smoothing: self.alpha_smoothing,
            cooldown_secs: self.cooldown_secs,
            enabled_categories: copy_set(&self.enabled_categories),
            dark_mode: self.dark_mode,
            paused: self.paused,
            custom_names: self.custom_names.clone(),
            alert_enabled: self.alert_enabled,
            alert_channel: self.alert_channel.clone(),
            alert_webhook_url: self.alert_webhook_url.clone(),
            alert_recipient: self.alert_recipient.clone(),
            alert_score_threshold: self.alert_score_threshold,
            alert_categories: copy_set(&self.alert_categories),
        }
    }
}

/// The classes of a list of numbered names.
pub open spec fn class_ids(items: Seq<(usize, String)>) -> Set<usize> {
    Set::new(|class_id: usize|
        exists|k: int| 0 <= k < items.len() && (#[trigger] items[k]).0 == class_id)
}

/// A set with one member put in, or taken out if it is there.
pub open spec fn toggled(set: Set<usize>, member: usize) -> Set<usize> {
    if set.contains(member) {
        set.remove(member)
    } else {
        set.insert(member)
    }
}

/// The name of a class: the one that the user gave it, or else `label`.
pub open spec fn shown_name_of(
    names: Map<usize, String>,
    class_id: usize,
    label: Seq<char>,
) -> Seq<char> {
    if names.dom().contains(class_id) {
        names[class_id]@
    } else {
        label
    }
}

/// Whether one class takes a name and the others keep theirs.
pub open spec fn takes_name(
    before: Map<usize, String>,
    after: Map<usize, String>,
    class_id: usize,
    name: Seq<char>,
) -> bool {
    &&& after.dom() == before.dom().insert(class_id)
    &&& after[class_id]@ == name
    &&& after.remove(class_id) == before.remove(class_id)
}

/// The name under which a class is reported: the one that the user gave it, or
/// else that of the model, or else its number.
pub open spec fn sound_name_of(
    names: Map<usize, String>,
    labels: Seq<String>,
    class_id: usize,
) -> Seq<char> {
    shown_name_of(
        names,
        class_id,
        if class_id < labels.len() {
            labels[class_id as int]@
        } else {
            "Classe "@ + text::decimal(class_id as nat)
        },
    )
}

/// Puts a member into a set, or takes it out if it is there.
fn toggle(set: &mut HashSet<usize>, member: usize)
    ensures
        final(set)@ == toggled(old(set)@, member),
{
    if set.contains(&member) {
        set.remove(&member);
    } else {
        set.insert(member);
    }
}

impl AppConfig {
    /// The settings to start with: those that were stored, or else the default
    /// ones.
    pub fn load(stored: Option<AppConfig>) -> (config: AppConfig)
        ensures
            match stored {
                Some(found) => config == found,
                None => is_default(config),
            },
    {
        match stored {
            Some(found) => found,
            None => AppConfig::default(),
        }
    }

    /// Switches between dark and light.
    pub fn toggle_dark_mode(&mut self)
        ensures
            *final(self) == (AppConfig { dark_mode: !old(self).dark_mode, ..*old(self) }),
    {
        self.dark_mode = !self.dark_mode;
    }

    /// Pauses the detection or takes it up again.
    pub fn toggle_paused(&mut self)
        ensures
            *final(self) == (AppConfig { paused: !old(self).paused, ..*old(self) }),
    {
        self.paused = !self.paused;
    }

    /// Switches the alerts on or off.
    pub fn toggle_alerts(&mut self)
        ensures
            *final(self) == (AppConfig { alert_enabled: !old(self).alert_enabled, ..*old(self) }),
    {
        self.alert_enabled = !self.alert_enabled;
    }

    /// Has a class reported, or no longer.
    pub fn toggle_category(&mut self, class_id: usize)
        ensures
            final(self).enabled_categories@ == toggled(old(self).enabled_categories@, class_id),
            *final(self) == (AppConfig {
                enabled_categories: final(self).enabled_categories,
                ..*old(self)
            }),
    {
        toggle(&mut self.enabled_categories, class_id);
    }

    /// Has a class raise an alert, or no longer.
    pub fn toggle_alert_category(&mut self, class_id: usize)
        ensures
            final(self).alert_categories@ == toggled(old(self).alert_categories@, class_id),
            *final(self) == (AppConfig {
                alert_categories: final(self).alert_categories,
                ..*old(self)
            }),
    {
        toggle(&mut self.alert_categories, class_id);
    }

    /// Has every class of a list reported.
    pub fn mark_group(&mut self, items: &Vec<(usize, String)>)
        ensures
            final(self).enabled_categories@ == old(self).enabled_categories@.union(
                class_ids(items@),
            ),
            *final(self) == (AppConfig {
                enabled_categories: final(self).enabled_categories,
                ..*old(self)
            }),
    {
        let ghost before = *self;
        let mut i: usize = 0;
        assert(self.enabled_categories@ =~= before.enabled_categories@.union(
            class_ids(items@.take(0)),
        ));
        while i < items.len()
            invariant
                i <= items@.len(),
                before == *old(self),
                self.enabled_categories@ == before.enabled_categories@.union(
                    class_ids(items@.take(i as int)),
                ),
                *self == (AppConfig { enabled_categories: self.enabled_categories, ..before }),
            decreases items@.len() - i,
        {
            self.enabled_categories.insert(items[i].0);
            proof {
                lemma_class_ids_step(items@, i as int);
                assert(self.enabled_categories@ =~= before.enabled_categories@.union(
                    class_ids(items@.take(i + 1)),
                ));
            }
            i += 1;
        }
        assert(items@.take(items@.len() as int) =~= items@);
    }

    /// Has no class of a list reported.
    pub fn unmark_group(&mut self, items: &Vec<(usize, String)>)
        ensures
            final(self).enabled_categories@ == old(self).enabled_categories@.difference(
                class_ids(items@),
            ),
            *final(self) == (AppConfig {
                enabled_categories: final(self).enabled_categories,
                ..*old(self)
            }),
    {
        let ghost before = *self;
        let mut i: usize = 0;
        assert(self.enabled_categories@ =~= before.enabled_categories@.difference(
            class_ids(items@.take(0)),
        ));
        while i < items.len()
            invariant
                i <= items@.len(),
                before == *old(self),
                self.enabled_categories@ == before.enabled_categories@.difference(
                    class_ids(items@.take(i as int)),
                ),
                *self == (AppConfig { enabled_categories: self.enabled_categories, ..before }),
            decreases items@.len() - i,
        {
            self.enabled_categories.remove(&items[i].0);
            proof {
                lemma_class_ids_step(items@, i as int);
                assert(self.enabled_categories@ =~= before.enabled_categories@.difference(
                    class_ids(items@.take(i + 1)),
                ));
            }
            i += 1;
        }
        assert(items@.take(items@.len() as int) =~= items@);
    }

    /// Gives a class a name, without the white space around it. A blank name is
    /// not taken.
    pub fn name_class(&mut self, class_id: usize, name: &str) -> (taken: bool)
        ensures
            taken == (text::trimmed(name@).len() > 0),
            taken ==> takes_name(
                old(self).custom_names@,
                final(self).custom_names@,
                class_id,
                text::trimmed(name@),
            ),
            !taken ==> *final(self) == *old(self),
            *final(self) == (AppConfig { custom_names: final(self).custom_names, ..*old(self) }),
    {
        let trimmed = text::trim(name);
        if trimmed.as_str().is_empty() {
            false
        } else {
            self.custom_names.insert(class_id, trimmed);
            assert(self.custom_names@.remove(class_id) =~= old(self).custom_names@.remove(
                class_id,
            ));
            true
        }
    }

    /// The name that the user gave to a class, or nothing.
    pub fn custom_name(&self, class_id: usize) -> (name: String)
        ensures
            name@ == shown_name_of(self.custom_names@, class_id, Seq::empty()),
    {
        proof {
            reveal_strlit("");
            assert(""@ =~= Seq::<char>::empty());
        }
        self.shown_name(class_id, "")
    }

    /// The name under which a class is listed.
    pub fn shown_name(&self, class_id: usize, label: &str) -> (name: String)
        ensures
            name@ == shown_name_of(self.custom_names@, class_id, label@),
    {
        match self.custom_names.get(&class_id) {
            Some(name) => name.clone(),
            None => label.to_owned(),
        }
    }

    /// The name under which a class is reported.
    pub fn sound_name(&self, labels: &Vec<String>, class_id: usize) -> (name: String)
        ensures
            name@ == sound_name_of(self.custom_names@, labels@, class_id),
    {
        if class_id < labels.len() {
            self.shown_name(class_id, &labels[class_id])
        } else {
            let mut numbered = "Classe ".to_owned();
            numbered.append(&text::write_decimal(class_id as u64));
            self.shown_name(class_id, &numbered)
        }
    }
}

proof fn lemma_class_ids_step(items: Seq<(usize, String)>, i: int)
    requires
        0 <= i < items.len(),
    ensures
        class_ids(items.take(i + 1)) == class_ids(items.take(i)).insert(items[i].0),
{
    let longer = items.take(i + 1);
    let shorter = items.take(i);
    assert forall|class_id: usize| #[trigger]
        class_ids(longer).contains(class_id) <==> class_ids(shorter).insert(
            items[i].0,
        ).contains(class_id) by {
        if class_ids(shorter).contains(class_id) {
            let k = choose|k: int| 0 <= k < shorter.len() && (#[trigger] shorter[k]).0 == class_id;
            assert(longer[k].0 == class_id);
        }
        if class_id == items[i].0 {
            assert(longer[i].0 == class_id);
        }
        if class_ids(longer).contains(class_id) && class_id != items[i].0 {
            let k = choose|k: int| 0 <= k < longer.len() && (#[trigger] longer[k]).0 == class_id;
            assert(shorter[k].0 == class_id);
        }
    }
    assert(class_ids(longer) =~= class_ids(shorter).insert(items[i].0));
}

/// Toggling twice changes nothing, and toggling once changes one member only.
pub proof fn law_toggling_twice_restores(set: Set<usize>, member: usize, other: usize)
    ensures
        toggled(toggled(set, member), member) == set,
        toggled(set, member).contains(member) != set.contains(member),
        other != member ==> toggled(set, member).contains(other) == set.contains(other),
{
    assert(toggled(toggled(set, member), member) =~= set);
}

/// After a list is marked all its classes are reported, after it is unmarked
/// none; the other classes keep what they had. What was done before to the list
/// does not matter.
pub proof fn law_marking_a_group_settles_it(
    enabled: Set<usize>,
    items: Seq<(usize, String)>,
    class_id: usize,
)
    ensures
        class_ids(items).contains(class_id) ==> enabled.union(class_ids(items)).contains(class_id)
            && !enabled.difference(class_ids(items)).contains(class_id),
        !class_ids(items).contains(class_id) ==> enabled.union(class_ids(items)).contains(class_id)
            == enabled.contains(class_id) && enabled.difference(class_ids(items)).contains(class_id)
            == enabled.contains(class_id),
        enabled.difference(class_ids(items)).union(class_ids(items)) == enabled.union(
            class_ids(items),
        ),
        enabled.union(class_ids(items)).difference(class_ids(items)) == enabled.difference(
            class_ids(items),
        ),
{
    assert(enabled.difference(class_ids(items)).union(class_ids(items)) =~= enabled.union(
        class_ids(items),
    ));
    assert(enabled.union(class_ids(items)).difference(class_ids(items)) =~= enabled.difference(
        class_ids(items),
    ));
}

/// A name that was given to a class is the one under which it is reported from
/// then on, whatever the model calls it; other classes keep their names.
pub proof fn law_given_name_is_reported(
    before: Map<usize, String>,
    after: Map<usize, String>,
    labels: Seq<String>,
    class_id: usize,
    other: usize,
    name: Seq<char>,
)
    requires
        takes_name(before, after, class_id, name),
        other != class_id,
    ensures
        sound_name_of(after, labels, class_id) == name,
        sound_name_of(after, labels, other) == sound_name_of(before, labels, other),
{
    let a = after;
    let b = before;
    assert(a.remove(class_id).dom().contains(other) == a.dom().contains(other));
    assert(b.remove(class_id).dom().contains(other) == b.dom().contains(other));
    if a.dom().contains(other) {
        assert(a.remove(class_id)[other] == a[other]);
        assert(b.remove(class_id)[other] == b[other]);
    }
}

/// A class is reported under the name that the user gave it; without one, under
/// the model's label for its number; and by its number only where the model has
/// no label for it.
pub proof fn law_label_is_reported(names: Map<usize, String>, labels: Seq<String>, class_id: usize)
    ensures
        names.dom().contains(class_id) ==> sound_name_of(names, labels, class_id)
            == names[class_id]@,
        !names.dom().contains(class_id) && class_id < labels.len() ==> sound_name_of(
            names,
            labels,
            class_id,
        ) == labels[class_id as int]@,
        !names.dom().contains(class_id) && class_id >= labels.len() ==> sound_name_of(
            names,
            labels,
            class_id,
        ) == "Classe "@ + text::decimal(class_id as nat),
{
}

/// A class is listed under the name that the user gave it, and else under its
/// label.
pub proof fn law_listed_name(names: Map<usize, String>, class_id: usize, label: Seq<char>)
    ensures
        names.dom().contains(class_id) ==> shown_name_of(names, class_id, label)
            == names[class_id]@,
        !names.dom().contains(class_id) ==> shown_name_of(names, class_id, label) == label,
{
}

/// Naming a class gives it that name, and leaves every other class with the name
/// that it has, or without one.
pub proof fn law_naming_changes_one_name(
    before: Map<usize, String>,
    after: Map<usize, String>,
    class_id: usize,
    name: Seq<char>,
    other: usize,
)
    requires
        takes_name(before, after, class_id, name),
    ensures
        after.dom().contains(class_id) && after[class_id]@ == name,
        other != class_id ==> (after.dom().contains(other) <==> before.dom().contains(other)),
        other != class_id && before.dom().contains(other) ==> after[other] == before[other],
{
    if other != class_id {
        assert(after.remove(class_id).dom().contains(other) == after.dom().contains(other));
        assert(before.remove(class_id).dom().contains(other) == before.dom().contains(other));
        if before.dom().contains(other) {
            assert(after.remove(class_id)[other] == after[other]);
            assert(before.remove(class_id)[other] == before[other]);
        }
    }
}

/// The classes of a list are those that stand in it.
pub proof fn law_classes_of_a_list(items: Seq<(usize, String)>, class_id: usize)
    ensures
        class_ids(items).contains(class_id) <==> exists|k: int|
            0 <= k < items.len() && (#[trigger] items[k]).0 == class_id,
{
}

/// Settings that are the same agree in every setting.
pub proof fn law_same_settings_agree(a: AppConfig, b: AppConfig, class_id: usize)
    ensures
        same_settings(a, b) ==> {
            &&& a.rms_threshold.bits == b.rms_threshold.bits
            &&& a.score_threshold.bits == b.score_threshold.bits
            &&& a.alpha_smoothing.bits == b.alpha_smoothing.bits
            &&& a.cooldown_secs == b.cooldown_secs
            &&& a.enabled_categories@.contains(class_id) == b.enabled_categories@.contains(class_id)
            &&& a.dark_mode == b.dark_mode
            &&& a.paused == b.paused
            &&& a.custom_names@.dom().contains(class_id) == b.custom_names@.dom().contains(class_id)
            &&& a.custom_names@.dom().contains(class_id) ==> a.custom_names@[class_id]
                == b.custom_names@[class_id]
            &&& a.alert_enabled == b.alert_enabled
            &&& a.alert_channel@ == b.alert_channel@
            &&& a.alert_webhook_url@ == b.alert_webhook_url@
            &&& a.alert_recipient@ == b.alert_recipient@
            &&& a.alert_score_threshold.bits == b.alert_score_threshold.bits
            &&& a.alert_categories@.contains(class_id) == b.alert_categories@.contains(class_id)
        },
        same_settings(a, a),
{
}

/// The default settings report exactly the classes of the model and name none.
pub proof fn law_default_classes(config: AppConfig, class_id: usize)
    requires
        is_default(config),
    ensures
        config.enabled_categories@.contains(class_id) <==> class_id < 521,
        !config.alert_categories@.contains(class_id),
        !config.custom_names@.dom().contains(class_id),
        !config.alert_enabled && !config.paused && config.dark_mode,
        config.cooldown_secs == 2,
{
}

} // verus!
