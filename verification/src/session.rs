//! The state of the screen: the history, the pop-up message, the level meter's
//! peak and the naming of sounds.

use crate::config;
use crate::config::AppConfig;
use crate::groups;
use crate::groups::LabelGroup;
use crate::listener::Detection;
use crate::single::Single;
use crate::text;
use crate::theme::Tint;
use vstd::prelude::*;
use vstd::string::*;

verus! {

/// How many detections the history holds at most.
pub const HISTORY: usize = 100;

/// How long the peak is held, in nanoseconds.
pub const PEAK_HOLD: u128 = 900_000_000;

/// How long a pop-up message is shown, in nanoseconds.
pub const TOAST_LIFE: u128 = 5_000_000_000;

/// 0.70
pub const HIGH_SCORE: u32 = 0x3f33_3333;

/// A message that pops up.
pub struct ToastMessage {
    pub title: String,
    pub body: String,
    pub accent: Tint,
    /// When it came up, in nanoseconds.
    pub created_at: u128,
}

/// An entry of the history.
pub struct DetectionLog {
    pub class_id: usize,
    pub sound_name: String,
    pub score: Single,
    pub rms: Single,
    /// The time of day of the detection.
    pub timestamp: String,
    /// When it was made, in nanoseconds.
    pub created_at: u128,
}

/// The state of the screen.
pub struct EarbuddyApp {
    pub class_labels: Vec<String>,
    /// The history, newest first.
    pub logs: Vec<DetectionLog>,
    pub search_query: String,
    /// When the screen came up, in nanoseconds.
    pub started_at: u128,
    pub peak_rms: Single,
    /// Until when the peak is held, in nanoseconds.
    pub peak_hold_until: u128,
    /// The name that is being typed for a sound.
    pub training_name: String,
    /// The sound that the name is for.
    pub selected_training_class: Option<usize>,
    pub toast: Option<ToastMessage>,
}

/// What the user can do to the settings.
pub enum Edit {
    SetRmsThreshold(Single),
    SetScoreThreshold(Single),
    SetAlphaSmoothing(Single),
    SetCooldown(u64),
    SetWebhookUrl(String),
    SetRecipient(String),
    SetChannel(String),
    SetAlertThreshold(Single),
    TogglePause,
    ToggleDarkMode,
    ToggleAlerts,
    /// Have a class reported, or no longer.
    ToggleCategory(usize),
    /// Have a class raise an alert, or no longer.
    ToggleAlertCategory(usize),
    /// Have all classes of a list reported.
    MarkGroup(Vec<(usize, String)>),
    /// Have no class of a list reported.
    UnmarkGroup(Vec<(usize, String)>),
    /// Give the selected sound the typed name.
    SaveName,
}

impl Detection {
    /// The entry of the history for this detection.
    pub fn into_log(self, timestamp: String, created_at: u128) -> (log: DetectionLog)
        ensures
            log == (DetectionLog {
                class_id: self.class_id,
                sound_name: self.sound_name,
                score: self.score,
                rms: self.rms,
                timestamp,
                created_at,
            }),
    {
        DetectionLog {
            class_id: self.class_id,
            sound_name: self.sound_name,
            score: self.score,
            rms: self.rms,
            timestamp,
            created_at,
        }
    }
}

/// The body of the message that announces a detection.
pub open spec fn announcement(sound_name: Seq<char>, percent: Seq<char>) -> Seq<char> {
    sound_name + " · "@ + percent + "% de confiança"@
}

/// The colour of the message that announces a detection.
pub open spec fn accent_of(score: Single) -> Tint {
    if score.reaches(Single { bits: HIGH_SCORE }) {
        Tint::NeonPink
    } else {
        Tint::NeonCyan
    }
}

/// A history with a new entry in front, and without the oldest one where it
/// would be too long.
pub open spec fn recorded(logs: Seq<DetectionLog>, log: DetectionLog) -> Seq<DetectionLog> {
    let all = seq![log] + logs;
    if all.len() > HISTORY {
        all.drop_last()
    } else {
        all
    }
}

/// The time since `from`, or nothing if it lies ahead.
pub open spec fn elapsed(from: u128, now: u128) -> int {
    if now >= from {
        now - from
    } else {
        0
    }
}

/// Whether a message is still to be shown.
pub open spec fn is_fresh(toast: ToastMessage, now: u128) -> bool {
    elapsed(toast.created_at, now) < TOAST_LIFE
}

/// Whether the peak moves up to the level, or is let go.
pub open spec fn lets_go(peak: Single, live: Single, hold_until: u128, now: u128) -> bool {
    live.reaches(peak) || now > hold_until
}

/// The peak after a level is taken in; `decayed` is the peak after it has sunk.
pub open spec fn next_peak(
    peak: Single,
    live: Single,
    decayed: Single,
    hold_until: u128,
    now: u128,
) -> Single {
    if lets_go(peak, live, hold_until, now) {
        live.larger(decayed)
    } else {
        decayed
    }
}

/// Until when the peak is held after a level is taken in.
pub open spec fn next_hold(peak: Single, live: Single, hold_until: u128, now: u128) -> int {
    if live.reaches(peak) {
        now + PEAK_HOLD
    } else {
        hold_until as int
    }
}

/// What the user is asked to do about the name of a sound.
pub open spec fn prompt_of(selected: Option<usize>, labels: Seq<String>) -> Seq<char> {
    match selected {
        Some(class_id) => "Rotule ‘"@ + (if class_id < labels.len() {
            labels[class_id as int]@
        } else {
            "som detectado"@
        }) + "’ para melhorar o contexto das próximas leituras."@,
        None =>
            "Quando um som aparecer, ele ficará disponível aqui para receber um nome humano."@,
    }
}

/// Whether `after` is `before` with an edit made to it, given the selected sound
/// and the typed name.
pub open spec fn is_edited(
    before: AppConfig,
    after: AppConfig,
    edit: Edit,
    selected: Option<usize>,
    name: Seq<char>,
) -> bool {
    match edit {
        Edit::SetRmsThreshold(value) => after == (AppConfig { rms_threshold: value, ..before }),
        Edit::SetScoreThreshold(value) => after == (AppConfig { score_threshold: value, ..before }),
        Edit::SetAlphaSmoothing(value) => after == (AppConfig { alpha_smoothing: value, ..before }),
        Edit::SetCooldown(secs) => after == (AppConfig { cooldown_secs: secs, ..before }),
        Edit::SetWebhookUrl(url) => after == (AppConfig { alert_webhook_url: url, ..before }),
        Edit::SetRecipient(recipient) => after == (AppConfig {
            alert_recipient: recipient,
            ..before
        }),
        Edit::SetChannel(channel) => after == (AppConfig { alert_channel: channel, ..before }),
        Edit::SetAlertThreshold(value) => after == (AppConfig {
            alert_score_threshold: value,
            ..before
        }),
        Edit::TogglePause => after == (AppConfig { paused: !before.paused, ..before }),
        Edit::ToggleDarkMode => after == (AppConfig { dark_mode: !before.dark_mode, ..before }),
        Edit::ToggleAlerts => after == (AppConfig {
            alert_enabled: !before.alert_enabled,
            ..before
        }),
        Edit::ToggleCategory(class_id) => {
            &&& after.enabled_categories@ == config::toggled(before.enabled_categories@, class_id)
            &&& after == (AppConfig { enabled_categories: after.enabled_categories, ..before })
        },
        Edit::ToggleAlertCategory(class_id) => {
            &&& after.alert_categories@ == config::toggled(before.alert_categories@, class_id)
            &&& after == (AppConfig { alert_categories: after.alert_categories, ..before })
        },
        Edit::MarkGroup(items) => {
            &&& after.enabled_categories@ == before.enabled_categories@.union(
                config::class_ids(items@),
            )
            &&& after == (AppConfig { enabled_categories: after.enabled_categories, ..before })
        },
        Edit::UnmarkGroup(items) => {
            &&& after.enabled_categories@ == before.enabled_categories@.difference(
                config::class_ids(items@),
            )
            &&& after == (AppConfig { enabled_categories: after.enabled_categories, ..before })
        },
        Edit::SaveName => if selected is Some && text::trimmed(name).len() > 0 {
            &&& config::takes_name(
                before.custom_names@,
                after.custom_names@,
                selected->0,
                text::trimmed(name),
            )
            &&& after == (AppConfig { custom_names: after.custom_names, ..before })
        } else {
            after == before
        },
    }
}

/// Whether the settings are to be stored after an edit: always, except after a
/// name that was not taken.
pub open spec fn is_to_be_stored(edit: Edit, selected: Option<usize>, name: Seq<char>) -> bool {
    edit is SaveName ==> selected is Some && text::trimmed(name).len() > 0
}

/// Whether one of the edits asks for the settings to be stored.
pub open spec fn any_to_be_stored(
    edits: Seq<Edit>,
    selected: Option<usize>,
    name: Seq<char>,
) -> bool {
    exists|i: int| 0 <= i < edits.len() && is_to_be_stored(#[trigger] edits[i], selected, name)
}

/// Whether `chain` are the settings before the edits and after each of them.
pub open spec fn is_chain(
    chain: Seq<AppConfig>,
    edits: Seq<Edit>,
    selected: Option<usize>,
    name: Seq<char>,
) -> bool {
    &&& chain.len() == edits.len() + 1
    &&& forall|i: int|
        0 <= i < edits.len() ==> is_edited(
            chain[i],
            chain[i + 1],
            #[trigger] edits[i],
            selected,
            name,
        )
}

/// Whether one of the edits pauses the detection.
pub open spec fn any_pauses(chain: Seq<AppConfig>, edits: Seq<Edit>) -> bool {
    exists|i: int| 0 <= i < edits.len() && (#[trigger] edits[i]) is TogglePause && !chain[i].paused
}

/// One more edit.
proof fn lemma_chain_step(
    chain: Seq<AppConfig>,
    edits: Seq<Edit>,
    after: AppConfig,
    edit: Edit,
    selected: Option<usize>,
    name: Seq<char>,
)
    requires
        is_chain(chain, edits, selected, name),
        is_edited(chain.last(), after, edit, selected, name),
    ensures
        is_chain(chain.push(after), edits.push(edit), selected, name),
        any_pauses(chain.push(after), edits.push(edit)) <==> any_pauses(chain, edits)
            || edit is TogglePause && !chain.last().paused,
        any_to_be_stored(edits.push(edit), selected, name) <==> any_to_be_stored(
            edits,
            selected,
            name,
        ) || is_to_be_stored(edit, selected, name),
{
    let all = edits.push(edit);
    let last = edits.len() as int;
    assert(all[last] == edit);
    assert forall|i: int| 0 <= i < last implies #[trigger] all[i] == edits[i] by {}
    if any_pauses(chain, edits) {
        let i = choose|i: int|
            0 <= i < edits.len() && (#[trigger] edits[i]) is TogglePause && !chain[i].paused;
        assert(all[i] == edits[i]);
    }
    if any_to_be_stored(edits, selected, name) {
        let i = choose|i: int|
            0 <= i < edits.len() && is_to_be_stored(#[trigger] edits[i], selected, name);
        assert(all[i] == edits[i]);
    }
}

/// Some edits and then some more.
proof fn lemma_chains_join(
    a: Seq<AppConfig>,
    first: Seq<Edit>,
    b: Seq<AppConfig>,
    second: Seq<Edit>,
    selected: Option<usize>,
    name: Seq<char>,
)
    requires
        is_chain(a, first, selected, name),
        is_chain(b, second, selected, name),
        a.last() == b.first(),
    ensures
        is_chain(a + b.drop_first(), first + second, selected, name),
        (a + b.drop_first()).first() == a.first(),
        (a + b.drop_first()).last() == b.last(),
        any_pauses(a + b.drop_first(), first + second) <==> any_pauses(a, first) || any_pauses(
            b,
            second,
        ),
{
    let chain = a + b.drop_first();
    let all = first + second;
    let n = first.len() as int;
    assert forall|i: int| n <= i < chain.len() implies #[trigger] chain[i] == b[i - n] by {}
    assert forall|i: int| 0 <= i < all.len() implies is_edited(
        chain[i],
        chain[i + 1],
        #[trigger] all[i],
        selected,
        name,
    ) by {
        if i < n {
            assert(all[i] == first[i]);
        } else {
            assert(all[i] == second[i - n]);
        }
    }
    if any_pauses(a, first) {
        let i = choose|i: int|
            0 <= i < first.len() && (#[trigger] first[i]) is TogglePause && !a[i].paused;
        assert(all[i] == first[i]);
    }
    if any_pauses(b, second) {
        let i = choose|i: int|
            0 <= i < second.len() && (#[trigger] second[i]) is TogglePause && !b[i].paused;
        assert(all[n + i] == second[i]);
    }
    if any_pauses(chain, all) {
        let i = choose|i: int|
            0 <= i < all.len() && (#[trigger] all[i]) is TogglePause && !chain[i].paused;
        if i < n {
            assert(all[i] == first[i]);
        } else {
            assert(all[i] == second[i - n]);
        }
    }
}

impl EarbuddyApp {
    /// The history never holds more than its limit.
    pub open spec fn wf(self) -> bool {
        self.logs@.len() <= HISTORY
    }

    /// The screen as it comes up at `now`.
    pub fn new(class_labels: Vec<String>, now: u128) -> (app: EarbuddyApp)
        ensures
            app.wf(),
            app.class_labels == class_labels,
            app.logs@ == Seq::<DetectionLog>::empty(),
            app.search_query@ == Seq::<char>::empty(),
            app.started_at == now,
            app.peak_rms.bits == 0,
            app.peak_hold_until == now,
            app.training_name@ == Seq::<char>::empty(),
            app.selected_training_class is None,
            app.toast is None,
    {
        EarbuddyApp {
            class_labels,
            logs: Vec::new(),
            search_query: String::new(),
            started_at: now,
            peak_rms: Single { bits: 0 },
            peak_hold_until: now,
            training_name: String::new(),
            selected_training_class: None,
            toast: None,
        }
    }

    /// Takes in a detection: announces it, selects its class for naming, with
    /// the name it has, and puts it in front of the history. `percent` is its
    /// confidence in percent, written without decimals.
    pub fn receive(&mut self, log: DetectionLog, percent: &str, config: &AppConfig, now: u128)
        ensures
            final(self).logs@ == recorded(old(self).logs@, log),
            old(self).wf() ==> final(self).wf(),
            final(self).toast matches Some(toast) && toast.title@ == "🔊 SOM DETECTADO"@
                && toast.body@ == announcement(log.sound_name@, percent@) && toast.accent
                == accent_of(log.score) && toast.created_at == now,
            final(self).selected_training_class == Some(log.class_id),
            final(self).training_name@ == config::shown_name_of(
                config.custom_names@,
                log.class_id,
                Seq::empty(),
            ),
            *final(self) == (EarbuddyApp {
                logs: final(self).logs,
                toast: final(self).toast,
                selected_training_class: final(self).selected_training_class,
                training_name: final(self).training_name,
                ..*old(self)
            }),
    {
        let mut body = log.sound_name.clone();
        body.append(" · ");
        body.append(percent);
        body.append("% de confiança");
        self.toast = Some(
            ToastMessage {
                title: "🔊 SOM DETECTADO".to_owned(),
                body,
                accent: if log.score.is_at_least(Single { bits: HIGH_SCORE }) {
                    Tint::NeonPink
                } else {
                    Tint::NeonCyan
                },
                created_at: now,
            },
        );
        self.selected_training_class = Some(log.class_id);
        self.training_name = config.custom_name(log.class_id);
        let ghost before = self.logs@;
        self.logs.insert(0, log);
        assert(self.logs@ =~= seq![log] + before);
        if self.logs.len() > HISTORY {
            self.logs.pop();
            assert(self.logs@ =~= (seq![log] + before).drop_last());
        }
    }

    /// Pauses the detection or takes it up again. A pause takes the message
    /// away.
    pub fn toggle_pause(&mut self, config: &mut AppConfig)
        ensures
            *final(config) == (AppConfig { paused: !old(config).paused, ..*old(config) }),
            *final(self) == (EarbuddyApp {
                toast: if old(config).paused {
                    old(self).toast
                } else {
                    None
                },
                ..*old(self)
            }),
    {
        config.toggle_paused();
        if config.paused {
            self.toast = None;
        }
    }

    /// Takes the message away once its time is over, and tells whether there is
    /// one to show.
    pub fn refresh_toast(&mut self, now: u128) -> (shown: bool)
        ensures
            shown == (old(self).toast is Some && is_fresh(old(self).toast->0, now)),
            *final(self) == (EarbuddyApp {
                toast: if shown {
                    old(self).toast
                } else {
                    None
                },
                ..*old(self)
            }),
    {
        let fresh: bool = match &self.toast {
            Some(toast) => now < toast.created_at || now - toast.created_at < TOAST_LIFE,
            None => false,
        };
        if !fresh {
            self.toast = None;
        }
        fresh
    }

    /// Follows the level with the peak. A level that reaches the peak becomes
    /// the peak and is held for a while; otherwise the peak sinks, and once it
    /// is no longer held not below the level. `decayed` is the peak after it has
    /// sunk.
    pub fn track_peak(&mut self, live: Single, decayed: Single, now: u128)
        requires
            now + PEAK_HOLD <= u128::MAX,
        ensures
            *final(self) == (EarbuddyApp {
                peak_rms: if lets_go(
                    old(self).peak_rms,
                    live,
                    old(self).peak_hold_until,
                    now,
                ) {
                    live.larger(decayed)
                } else {
                    decayed
                },
                peak_hold_until: if live.reaches(old(self).peak_rms) {
                    (now + PEAK_HOLD) as u128
                } else {
                    old(self).peak_hold_until
                },
                ..*old(self)
            }),
            final(self).peak_rms == next_peak(
                old(self).peak_rms,
                live,
                decayed,
                old(self).peak_hold_until,
                now,
            ),
            final(self).peak_hold_until == next_hold(
                old(self).peak_rms,
                live,
                old(self).peak_hold_until,
                now,
            ),
    {
        let reached = live.is_at_least(self.peak_rms);
        if reached || now > self.peak_hold_until {
            if reached {
                self.peak_hold_until = now + PEAK_HOLD;
            }
            self.peak_rms = live.max(decayed);
        } else {
            self.peak_rms = decayed;
        }
    }

    /// Gives the selected sound the typed name. Nothing is done, and `false`
    /// returned, if no sound is selected or the name is blank.
    pub fn save_training_name(&self, config: &mut AppConfig) -> (saved: bool)
        ensures
            saved == (self.selected_training_class is Some && text::trimmed(
                self.training_name@,
            ).len() > 0),
            saved ==> config::takes_name(
                old(config).custom_names@,
                final(config).custom_names@,
                self.selected_training_class->0,
                text::trimmed(self.training_name@),
            ),
            !saved ==> *final(config) == *old(config),
            *final(config) == (AppConfig {
                custom_names: final(config).custom_names,
                ..*old(config)
            }),
    {
        match self.selected_training_class {
            Some(class_id) => config.name_class(class_id, &self.training_name),
            None => false,
        }
    }

    /// Makes an edit to the settings, and tells whether they are to be stored.
    pub fn edit(&mut self, config: &mut AppConfig, edit: Edit) -> (store: bool)
        ensures
            is_edited(
                *old(config),
                *final(config),
                edit,
                old(self).selected_training_class,
                old(self).training_name@,
            ),
            store == is_to_be_stored(
                edit,
                old(self).selected_training_class,
                old(self).training_name@,
            ),
            *final(self) == (EarbuddyApp {
                toast: if edit is TogglePause && !old(config).paused {
                    None
                } else {
                    old(self).toast
                },
                ..*old(self)
            }),
    {
        match edit {
            Edit::SetRmsThreshold(value) => {
                config.rms_threshold = value;
            },
            Edit::SetScoreThreshold(value) => {
                config.score_threshold = value;
            },
            Edit::SetAlphaSmoothing(value) => {
                config.alpha_smoothing = value;
            },
            Edit::SetCooldown(secs) => {
                config.cooldown_secs = secs;
            },
            Edit::SetWebhookUrl(url) => {
                config.alert_webhook_url = url;
            },
            Edit::SetRecipient(recipient) => {
                config.alert_recipient = recipient;
            },
            Edit::SetChannel(channel) => {
                config.alert_channel = channel;
            },
            Edit::SetAlertThreshold(value) => {
                config.alert_score_threshold = value;
            },
            Edit::TogglePause => {
                self.toggle_pause(config);
            },
            Edit::ToggleDarkMode => {
                config.toggle_dark_mode();
            },
            Edit::ToggleAlerts => {
                config.toggle_alerts();
            },
            Edit::ToggleCategory(class_id) => {
                config.toggle_category(class_id);
            },
            Edit::ToggleAlertCategory(class_id) => {
                config.toggle_alert_category(class_id);
            },
            Edit::MarkGroup(items) => {
                config.mark_group(&items);
            },
            Edit::UnmarkGroup(items) => {
                config.unmark_group(&items);
            },
            Edit::SaveName => {
                return self.save_training_name(config);
            },
        }
        true
    }

    /// Makes edits to the settings, one after the other, and tells whether one of
    /// them asks for the settings to be stored.
    fn edit_each(&mut self, config: &mut AppConfig, edits: Vec<Edit>) -> (store: bool)
        ensures
            store == any_to_be_stored(
                edits@,
                old(self).selected_training_class,
                old(self).training_name@,
            ),
            exists|chain: Seq<AppConfig>|
                {
                    &&& #[trigger] is_chain(
                        chain,
                        edits@,
                        old(self).selected_training_class,
                        old(self).training_name@,
                    )
                    &&& chain.first() == *old(config)
                    &&& chain.last() == *final(config)
                    &&& final(self).toast == if any_pauses(chain, edits@) {
                        None
                    } else {
                        old(self).toast
                    }
                },
            *final(self) == (EarbuddyApp { toast: final(self).toast, ..*old(self) }),
    {
        let ghost before = *self;
        let ghost first = *config;
        let ghost all = edits@;
        let ghost mut chain = seq![*config];
        let mut store: bool = false;
        for edit in it: edits
            invariant
                it.seq() == all,
                is_chain(
                    chain,
                    all.take(it.index() as int),
                    before.selected_training_class,
                    before.training_name@,
                ),
                chain.first() == first,
                chain.last() == *config,
                *self == (EarbuddyApp {
                    toast: if any_pauses(chain, all.take(it.index() as int)) {
                        None
                    } else {
                        before.toast
                    },
                    ..before
                }),
                store == any_to_be_stored(
                    all.take(it.index() as int),
                    before.selected_training_class,
                    before.training_name@,
                ),
        {
            let ghost done = all.take(it.index() as int);
            let stores = self.edit(config, edit);
            store = store || stores;
            proof {
                lemma_chain_step(
                    chain,
                    done,
                    *config,
                    edit,
                    before.selected_training_class,
                    before.training_name@,
                );
                assert(all.take(it.index() + 1) =~= done.push(edit));
                chain = chain.push(*config);
            }
        }
        assert(all.take(all.len() as int) =~= all);
        store
    }

    /// Makes the edits of one frame: those that `settled` by themselves, and then
    /// those that the user `asked` for. Tells whether the settings are to be
    /// stored, for which only the latter count.
    pub fn edit_all(
        &mut self,
        config: &mut AppConfig,
        settled: Vec<Edit>,
        asked: Vec<Edit>,
    ) -> (store: bool)
        ensures
            store == any_to_be_stored(
                asked@,
                old(self).selected_training_class,
                old(self).training_name@,
            ),
            exists|chain: Seq<AppConfig>|
                {
                    &&& #[trigger] is_chain(
                        chain,
                        settled@ + asked@,
                        old(self).selected_training_class,
                        old(self).training_name@,
                    )
                    &&& chain.first() == *old(config)
                    &&& chain.last() == *final(config)
                    &&& final(self).toast == if any_pauses(chain, settled@ + asked@) {
                        None
                    } else {
                        old(self).toast
                    }
                },
            *final(self) == (EarbuddyApp { toast: final(self).toast, ..*old(self) }),
    {
        let ghost selected = self.selected_training_class;
        let ghost name = self.training_name@;
        let ghost start = *config;
        let ghost shown = self.toast;
        self.edit_each(config, settled);
        let ghost a = choose|chain: Seq<AppConfig>|
            {
                &&& #[trigger] is_chain(chain, settled@, selected, name)
                &&& chain.first() == start
                &&& chain.last() == *config
                &&& self.toast == if any_pauses(chain, settled@) {
                    None
                } else {
                    shown
                }
            };
        let ghost middle = *config;
        let ghost kept = self.toast;
        let store = self.edit_each(config, asked);
        proof {
            let b = choose|chain: Seq<AppConfig>|
                {
                    &&& #[trigger] is_chain(chain, asked@, selected, name)
                    &&& chain.first() == middle
                    &&& chain.last() == *config
                    &&& self.toast == if any_pauses(chain, asked@) {
                        None
                    } else {
                        kept
                    }
                };
            lemma_chains_join(a, settled@, b, asked@, selected, name);
        }
        store
    }

    /// The name that the model has for the selected sound.
    pub open spec fn selected_label(self) -> Seq<char> {
        if self.selected_training_class is Some && self.selected_training_class->0
            < self.class_labels@.len() {
            self.class_labels@[self.selected_training_class->0 as int]@
        } else {
            "som detectado"@
        }
    }

    /// What the user is asked to do about the name of a sound.
    pub fn training_prompt(&self) -> (prompt: String)
        ensures
            prompt@ == if self.selected_training_class is Some {
                "Rotule ‘"@ + self.selected_label()
                    + "’ para melhorar o contexto das próximas leituras."@
            } else {
                "Quando um som aparecer, ele ficará disponível aqui para receber um nome humano."@
            },
            prompt@ == prompt_of(self.selected_training_class, self.class_labels@),
    {
        match self.selected_training_class {
            Some(class_id) => {
                let mut prompt = "Rotule ‘".to_owned();
                if class_id < self.class_labels.len() {
                    prompt.append(&self.class_labels[class_id]);
                } else {
                    prompt.append("som detectado");
                }
                prompt.append("’ para melhorar o contexto das próximas leituras.");
                prompt
            },
            None =>
                "Quando um som aparecer, ele ficará disponível aqui para receber um nome humano.".to_owned(),
        }
    }

    /// The groups of class names that the search leaves in sight.
    pub fn visible_groups(&self, config: &AppConfig) -> (visible: Vec<LabelGroup>)
        ensures
            exists|all: Seq<(Seq<char>, Seq<groups::ItemText>)>|
                {
                    &&& #[trigger] groups::is_grouped(
                        text::texts(self.class_labels@),
                        groups::lowercase_all(text::texts(self.class_labels@)),
                        all,
                    )
                    &&& groups::group_texts(visible@) == groups::found_groups(
                        self.search_query@,
                        groups::name_texts(config.custom_names@),
                        all,
                    )
                },
    {
        let all = groups::build_grouped_labels(&self.class_labels);
        groups::search_groups(&all, &self.search_query, &config.custom_names)
    }
}

/// Every change of the settings is stored: an edit after which they are not
/// stored has left them as they were.
pub proof fn law_every_change_is_stored(
    before: AppConfig,
    after: AppConfig,
    edit: Edit,
    selected: Option<usize>,
    name: Seq<char>,
)
    requires
        is_edited(before, after, edit, selected, name),
        !is_to_be_stored(edit, selected, name),
    ensures
        after == before,
{
}

/// Edits of which none asks for the settings to be stored have left them as they
/// were.
pub proof fn law_unstored_edits_change_nothing(
    chain: Seq<AppConfig>,
    edits: Seq<Edit>,
    selected: Option<usize>,
    name: Seq<char>,
)
    requires
        is_chain(chain, edits, selected, name),
        !any_to_be_stored(edits, selected, name),
    ensures
        chain.last() == chain.first(),
    decreases edits.len(),
{
    if edits.len() > 0 {
        let last = edits.len() - 1;
        let earlier = edits.drop_last();
        let head = chain.drop_last();
        assert forall|i: int| 0 <= i < earlier.len() implies is_edited(
            head[i],
            head[i + 1],
            #[trigger] earlier[i],
            selected,
            name,
        ) && !is_to_be_stored(earlier[i], selected, name) by {
            assert(edits[i] == earlier[i]);
        }
        law_unstored_edits_change_nothing(head, earlier, selected, name);
        law_every_change_is_stored(chain[last], chain[last + 1], edits[last], selected, name);
    }
}

/// A switch that is moved twice is where it was.
pub proof fn law_switches_move_back(
    first: AppConfig,
    second: AppConfig,
    third: AppConfig,
    edit: Edit,
    selected: Option<usize>,
    name: Seq<char>,
)
    requires
        is_edited(first, second, edit, selected, name),
        is_edited(second, third, edit, selected, name),
        edit is TogglePause || edit is ToggleDarkMode || edit is ToggleAlerts
            || edit is ToggleCategory || edit is ToggleAlertCategory,
    ensures
        config::same_settings(third, first),
{
    match edit {
        Edit::ToggleCategory(class_id) => {
            config::law_toggling_twice_restores(first.enabled_categories@, class_id, class_id);
        },
        Edit::ToggleAlertCategory(class_id) => {
            config::law_toggling_twice_restores(first.alert_categories@, class_id, class_id);
        },
        _ => {},
    }
}

/// The newest entries of a sequence of detections, newest first, as many as the
/// history holds.
pub open spec fn newest(events: Seq<DetectionLog>) -> Seq<DetectionLog> {
    Seq::new(
        if events.len() > HISTORY {
            HISTORY as nat
        } else {
            events.len()
        },
        |i: int| events[events.len() - 1 - i],
    )
}

/// The history is at any time the newest entries of all that were taken in,
/// newest first.
pub proof fn law_history_holds_the_newest(events: Seq<DetectionLog>, log: DetectionLog)
    ensures
        recorded(newest(events), log) == newest(events.push(log)),
        newest(Seq::empty()) == Seq::<DetectionLog>::empty(),
        newest(events).len() <= HISTORY,
{
    assert(recorded(newest(events), log) =~= newest(events.push(log)));
    assert(newest(Seq::empty()) =~= Seq::<DetectionLog>::empty());
}

/// A message is shown when it comes up, and once its time is over it is not
/// shown again.
pub proof fn law_message_is_shown_for_its_time(toast: ToastMessage, now: u128, later: u128)
    ensures
        is_fresh(toast, toast.created_at),
        now <= later && !is_fresh(toast, now) ==> !is_fresh(toast, later),
        now >= toast.created_at + TOAST_LIFE <==> !is_fresh(toast, now),
{
}

/// A level that reaches the peak becomes the peak, unless the sunk peak is above
/// it.
pub proof fn law_level_becomes_the_peak(peak: Single, live: Single, decayed: Single)
    requires
        live.reaches(peak),
        !decayed.above(live),
    ensures
        live.larger(decayed) == live,
{
}

/// The peak does not sink below the level once it is let go.
pub proof fn law_peak_stays_above_the_level(live: Single, decayed: Single)
    requires
        !live.nan(),
    ensures
        live.larger(decayed).reaches(live),
{
}

/// What comes into the settings by an edit is in the setting that the edit is of,
/// and every other setting stays: numbers, texts and switches.
pub proof fn law_edit_changes_its_own_setting(
    before: AppConfig,
    after: AppConfig,
    edit: Edit,
    selected: Option<usize>,
    name: Seq<char>,
)
    requires
        is_edited(before, after, edit, selected, name),
    ensures
        after.rms_threshold == match edit {
            Edit::SetRmsThreshold(value) => value,
            _ => before.rms_threshold,
        },
        after.score_threshold == match edit {
            Edit::SetScoreThreshold(value) => value,
            _ => before.score_threshold,
        },
        after.alpha_smoothing == match edit {
            Edit::SetAlphaSmoothing(value) => value,
            _ => before.alpha_smoothing,
        },
        after.cooldown_secs == match edit {
            Edit::SetCooldown(secs) => secs,
            _ => before.cooldown_secs,
        },
        after.alert_webhook_url@ == match edit {
            Edit::SetWebhookUrl(url) => url@,
            _ => before.alert_webhook_url@,
        },
        after.alert_recipient@ == match edit {
            Edit::SetRecipient(recipient) => recipient@,
            _ => before.alert_recipient@,
        },
        after.alert_channel@ == match edit {
            Edit::SetChannel(channel) => channel@,
            _ => before.alert_channel@,
        },
        after.alert_score_threshold == match edit {
            Edit::SetAlertThreshold(value) => value,
            _ => before.alert_score_threshold,
        },
        after.paused == (before.paused != (edit is TogglePause)),
        after.dark_mode == (before.dark_mode != (edit is ToggleDarkMode)),
        after.alert_enabled == (before.alert_enabled != (edit is ToggleAlerts)),
{
}

/// What an edit does to a class: a switch changes it for that class only, marking
/// has every class of the list reported and unmarking none of them, and no other
/// edit changes what is reported or raises an alert.
pub proof fn law_edit_changes_its_own_classes(
    before: AppConfig,
    after: AppConfig,
    edit: Edit,
    selected: Option<usize>,
    name: Seq<char>,
    class_id: usize,
)
    requires
        is_edited(before, after, edit, selected, name),
    ensures
        after.enabled_categories@.contains(class_id) == match edit {
            Edit::ToggleCategory(toggled) => before.enabled_categories@.contains(class_id) != (
            toggled == class_id),
            Edit::MarkGroup(items) => before.enabled_categories@.contains(class_id) || exists|
                k: int,
            |
                0 <= k < items@.len() && (#[trigger] items@[k]).0 == class_id,
            Edit::UnmarkGroup(items) => before.enabled_categories@.contains(class_id) && !exists|
                k: int,
            |
                0 <= k < items@.len() && (#[trigger] items@[k]).0 == class_id,
            _ => before.enabled_categories@.contains(class_id),
        },
        after.alert_categories@.contains(class_id) == match edit {
            Edit::ToggleAlertCategory(toggled) => before.alert_categories@.contains(class_id) != (
            toggled == class_id),
            _ => before.alert_categories@.contains(class_id),
        },
{
    match edit {
        Edit::ToggleCategory(toggled) => {
            config::law_toggling_twice_restores(before.enabled_categories@, toggled, class_id);
        },
        Edit::ToggleAlertCategory(toggled) => {
            config::law_toggling_twice_restores(before.alert_categories@, toggled, class_id);
        },
        Edit::MarkGroup(items) => {
            config::law_classes_of_a_list(items@, class_id);
        },
        Edit::UnmarkGroup(items) => {
            config::law_classes_of_a_list(items@, class_id);
        },
        _ => {},
    }
}

/// Saving a name gives it, without the white space around it, to the selected
/// class, if there is one and the name is not blank; the names of other classes
/// stay, and no other edit changes a name.
pub proof fn law_saving_names_the_selected_class(
    before: AppConfig,
    after: AppConfig,
    edit: Edit,
    selected: Option<usize>,
    name: Seq<char>,
    class_id: usize,
)
    requires
        is_edited(before, after, edit, selected, name),
    ensures
        ({
            let given = edit is SaveName && selected == Some(class_id) && exists|i: int|
                0 <= i < name.len() && !text::is_space(#[trigger] name[i]);
            &&& given ==> after.custom_names@.dom().contains(class_id)
                && after.custom_names@[class_id]@ == text::trimmed(name)
            &&& !given ==> (after.custom_names@.dom().contains(class_id)
                <==> before.custom_names@.dom().contains(class_id))
            &&& !given && before.custom_names@.dom().contains(class_id)
                ==> after.custom_names@[class_id] == before.custom_names@[class_id]
        }),
{
    text::law_blank_text_is_trimmed_away(name);
    if edit is SaveName && selected is Some && text::trimmed(name).len() > 0 {
        config::law_naming_changes_one_name(
            before.custom_names@,
            after.custom_names@,
            selected->0,
            text::trimmed(name),
            class_id,
        );
    }
}

/// The settings are stored after every edit, except after a name that is blank or
/// for which no sound is selected.
pub proof fn law_only_a_refused_name_is_not_stored(
    edit: Edit,
    selected: Option<usize>,
    name: Seq<char>,
)
    ensures
        !is_to_be_stored(edit, selected, name) <==> edit is SaveName && (selected is None
            || forall|i: int| 0 <= i < name.len() ==> text::is_space(#[trigger] name[i])),
{
    text::law_blank_text_is_trimmed_away(name);
}

/// Several edits ask for the settings to be stored exactly if one of them does, and
/// take the message away exactly if one of them pauses a detection that is
/// running; each is made to what the one before it has left.
pub proof fn law_edits_follow_each_other(
    chain: Seq<AppConfig>,
    edits: Seq<Edit>,
    selected: Option<usize>,
    name: Seq<char>,
    i: int,
)
    requires
        is_chain(chain, edits, selected, name),
    ensures
        chain.len() == edits.len() + 1,
        0 <= i < edits.len() ==> is_edited(chain[i], chain[i + 1], edits[i], selected, name),
        any_to_be_stored(edits, selected, name) <==> exists|j: int|
            0 <= j < edits.len() && is_to_be_stored(#[trigger] edits[j], selected, name),
        any_pauses(chain, edits) <==> exists|j: int|
            0 <= j < edits.len() && (#[trigger] edits[j]) is TogglePause && !chain[j].paused,
{
    if 0 <= i < edits.len() {
        assert(is_edited(chain[i], chain[i + 1], edits[i], selected, name));
    }
}

/// A detection is put in front of the history, and the entries behind it keep their
/// order; none is lost as long as there are no more than a hundred, and otherwise
/// the oldest alone.
pub proof fn law_detection_goes_in_front(logs: Seq<DetectionLog>, log: DetectionLog, i: int)
    ensures
        recorded(logs, log)[0] == log,
        logs.len() < 100 ==> recorded(logs, log).len() == logs.len() + 1,
        logs.len() >= 100 ==> recorded(logs, log).len() == logs.len(),
        0 < i < recorded(logs, log).len() ==> recorded(logs, log)[i] == logs[i - 1],
{
}

/// A message is shown for five seconds.
pub proof fn law_message_lasts_five_seconds(toast: ToastMessage, now: u128)
    ensures
        is_fresh(toast, now) <==> now < toast.created_at + 5_000_000_000,
{
}

/// A detection is announced with its whole name and confidence, in pink from a score
/// of 0.70 on and in cyan below.
pub proof fn law_announcement_of_a_detection(
    sound_name: Seq<char>,
    percent: Seq<char>,
    score: Single,
)
    ensures
        announcement(sound_name, percent) == sound_name + (" · "@ + (percent
            + "% de confiança"@)),
        accent_of(score) == Tint::NeonPink <==> score.reaches(Single { bits: 0x3f33_3333 }),
        accent_of(score) == Tint::NeonPink || accent_of(score) == Tint::NeonCyan,
{
    assert(announcement(sound_name, percent) =~= sound_name + (" · "@ + (percent
        + "% de confiança"@)));
}

/// A level that reaches the peak is held for 0.9 seconds. The peak is the sunk one
/// while it is held above the level, and otherwise the larger of that and the
/// level.
pub proof fn law_peak_is_held_and_sinks(
    peak: Single,
    live: Single,
    decayed: Single,
    hold_until: u128,
    now: u128,
)
    ensures
        live.reaches(peak) ==> next_peak(peak, live, decayed, hold_until, now) == live.larger(
            decayed,
        ) && next_hold(peak, live, hold_until, now) == now + 900_000_000,
        !live.reaches(peak) ==> next_hold(peak, live, hold_until, now) == hold_until,
        !live.reaches(peak) && now > hold_until ==> next_peak(peak, live, decayed, hold_until, now)
            == live.larger(decayed),
        !live.reaches(peak) && now <= hold_until ==> next_peak(peak, live, decayed, hold_until, now)
            == decayed,
{
}

/// The user is asked to name the selected sound by the model's label for it, or
/// told that there will be one where none is selected.
pub proof fn law_prompt_names_the_selected_sound(selected: Option<usize>, labels: Seq<String>)
    ensures
        selected is Some && selected->0 < labels.len() ==> prompt_of(selected, labels)
            == "Rotule ‘"@ + (labels[selected->0 as int]@
            + "’ para melhorar o contexto das próximas leituras."@),
        selected is Some && selected->0 >= labels.len() ==> prompt_of(selected, labels)
            == "Rotule ‘"@ + ("som detectado"@
            + "’ para melhorar o contexto das próximas leituras."@),
        selected is None ==> prompt_of(selected, labels)
            == "Quando um som aparecer, ele ficará disponível aqui para receber um nome humano."@,
{
    let tail = "’ para melhorar o contexto das próximas leituras."@;
    if selected is Some && selected->0 < labels.len() {
        assert(prompt_of(selected, labels) =~= "Rotule ‘"@ + (labels[selected->0 as int]@ + tail));
    } else if selected is Some {
        assert(prompt_of(selected, labels) =~= "Rotule ‘"@ + ("som detectado"@ + tail));
    }
}

} // verus!
