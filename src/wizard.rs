//! The session wizard: players, then pack, then settings, then play. Each
//! user action is a method from the current state to the next one.

use vstd::prelude::*;
use crate::item::{Pack, SplitItem};
use crate::storyline::{build_storyline, has_root, storyline_ok, StoryEntry, StoryError};

verus! {

/// The screen the wizard stands on.
#[derive(Clone, Copy, Debug, PartialEq, Eq)]
pub enum AppState {
    SelectPlayers,
    SelectPack,
    SelectSettings,
    /// Playing, with the position of the current prompt.
    Play(usize),
}

/// Default number of prompts asked for.
pub const DEFAULT_PARTY_DURATION: usize = 30;

/// Default window of a standing rule.
pub const DEFAULT_MAX_RULE_DURATION: usize = 12;

/// Whether `c` has the Unicode White_Space property.
pub open spec fn white_space(c: char) -> bool {
    let u = c as u32;
    (0x9 <= u <= 0xD) || u == 0x20 || u == 0x85 || u == 0xA0 || u == 0x1680 || (0x2000 <= u
        <= 0x200A) || u == 0x2028 || u == 0x2029 || u == 0x202F || u == 0x205F || u == 0x3000
}

/// `s` without its leading whitespace.
pub open spec fn trim_start(s: Seq<char>) -> Seq<char>
    decreases s.len(),
{
    if s.len() > 0 && white_space(s[0]) {
        trim_start(s.drop_first())
    } else {
        s
    }
}

/// `s` without its trailing whitespace.
pub open spec fn trim_end(s: Seq<char>) -> Seq<char>
    decreases s.len(),
{
    if s.len() > 0 && white_space(s.last()) {
        trim_end(s.drop_last())
    } else {
        s
    }
}

/// The text without leading and trailing whitespace.
pub open spec fn trimmed(s: Seq<char>) -> Seq<char> {
    trim_end(trim_start(s))
}

/// Relies on str::trim: the text without the leading and trailing
/// characters that have the Unicode White_Space property.
#[verifier::external_body]
fn trim_text(s: &str) -> (r: String)
    ensures
        r@ == trimmed(s@),
{
    s.trim().to_string()
}

/// The texts of `s` that are not empty, in order.
pub open spec fn kept_names(s: Seq<Seq<char>>) -> Seq<Seq<char>>
    decreases s.len(),
{
    if s.len() == 0 {
        s
    } else {
        let k = kept_names(s.drop_last());
        if s.last().len() > 0 {
            k.push(s.last())
        } else {
            k
        }
    }
}

/// The texts of a sequence of strings.
pub open spec fn texts(v: Seq<String>) -> Seq<Seq<char>> {
    v.map_values(|s: String| s@)
}

/// The names of `names` that are not empty, in order.
pub fn non_empty_names(names: Vec<String>) -> (r: Vec<String>)
    ensures
        texts(r@) == kept_names(texts(names@)),
{
    let mut r: Vec<String> = Vec::new();
    let mut i: usize = 0;
    let n = names.len();
    while i < n
        invariant
            n == names@.len(),
            i <= n,
            texts(r@) == kept_names(texts(names@.subrange(0, i as int))),
        decreases n - i,
    {
        let ghost before = r@;
        proof {
            assert(texts(names@.subrange(0, i + 1)).drop_last() =~= texts(names@.subrange(0, i as int)));
        }
        if names[i].unicode_len() > 0 {
            r.push(names[i].clone());
            assert(texts(r@) =~= texts(before).push(names@[i as int]@));
        }
        i = i + 1;
    }
    assert(names@.subrange(0, n as int) =~= names@);
    r
}

/// The names of `names` with their surrounding whitespace trimmed.
fn trim_all(names: &Vec<String>) -> (r: Vec<String>)
    ensures
        r@.len() == names@.len(),
        forall|i: int| 0 <= i < r@.len() ==> (#[trigger] r@[i])@ == trimmed(names@[i]@),
{
    let mut r: Vec<String> = Vec::new();
    let mut i: usize = 0;
    while i < names.len()
        invariant
            i <= names@.len(),
            r@.len() == i,
            forall|k: int| 0 <= k < i ==> (#[trigger] r@[k])@ == trimmed(names@[k]@),
        decreases names@.len() - i,
    {
        r.push(trim_text(names[i].as_str()));
        i = i + 1;
    }
    r
}

/// `p` holds the (category, text) pairs of the storyline `s`, in order.
pub open spec fn prompts_match(p: Seq<(usize, String)>, s: Seq<StoryEntry>) -> bool {
    &&& p.len() == s.len()
    &&& forall|i: int| 0 <= i < p.len() ==> (#[trigger] p[i]).0 == s[i].ty && p[i].1@ == s[i].text@
}

/// `p` holds the prompts of a storyline that a successful build from the
/// catalog `items` for the players `pool` with these settings returns.
pub open spec fn built_prompts(
    p: Seq<(usize, String)>,
    items: Seq<SplitItem>,
    pool: Seq<String>,
    party_duration: nat,
    max_rule_duration: nat,
) -> bool {
    exists|s: Seq<StoryEntry>|
        #[trigger] storyline_ok(s, items, pool, party_duration, max_rule_duration)
            && prompts_match(p, s)
}

/// The (category, text) pairs of a storyline, in order.
pub fn prompts_of(s: &Vec<StoryEntry>) -> (r: Vec<(usize, String)>)
    ensures
        prompts_match(r@, s@),
{
    let mut r: Vec<(usize, String)> = Vec::new();
    let mut i: usize = 0;
    while i < s.len()
        invariant
            i <= s@.len(),
            r@.len() == i,
            forall|k: int|
                0 <= k < i ==> (#[trigger] r@[k]).0 == s@[k].ty && r@[k].1@ == s@[k].text@,
        decreases s@.len() - i,
    {
        r.push((s[i].ty, s[i].text.clone()));
        i = i + 1;
    }
    r
}

/// A change made on one of the settings.
#[derive(Clone, Copy, Debug, PartialEq, Eq)]
pub enum Setting {
    PartyDuration,
    MaxRuleDuration,
}

/// A user action on the wizard.
pub enum AppMsg {
    Back,
    Next,
    AddPlayer,
    /// Player slot and its new name.
    OnPlayerChanged(usize, String),
    /// Player slot to remove.
    OnPlayerRemoved(usize),
    OnPackSelected(Pack),
    /// Setting and its new value.
    OnSettingChanged(Setting, usize),
}

/// The screen one step back from `s`, or the previous prompt while playing.
pub open spec fn back_state(s: AppState) -> AppState {
    match s {
        AppState::SelectPlayers => AppState::SelectPlayers,
        AppState::SelectPack => AppState::SelectPlayers,
        AppState::SelectSettings => AppState::SelectPack,
        AppState::Play(p) => if p > 0 {
            AppState::Play((p - 1) as usize)
        } else {
            AppState::SelectSettings
        },
    }
}

/// The next play position from `p` in a storyline of length `len`: one
/// further, up to the closing message just past the end.
pub open spec fn forward_play_state(p: usize, len: nat) -> AppState {
    if p < len {
        AppState::Play((p + 1) as usize)
    } else {
        AppState::Play(p)
    }
}

/// The wizard's whole state.
pub struct App {
    pub state: AppState,
    pub players: Vec<String>,
    pub pack: Pack,
    /// The (category, text) pairs of the storyline being played.
    pub storyline: Vec<(usize, String)>,
    pub party_duration: usize,
    pub max_rule_duration: usize,
}

impl App {
    /// The settings admit a storyline to be built.
    pub open spec fn wf(&self) -> bool {
        &&& self.max_rule_duration >= 1
        &&& 1 <= self.party_duration < usize::MAX
        &&& self.state is Play ==> self.state->Play_0 <= self.storyline@.len()
    }

    /// The wizard as it opens: two empty player slots, the default pack and
    /// the default settings.
    pub fn create() -> (r: App)
        ensures
            r.wf(),
            r.state == AppState::SelectPlayers,
            r.players@.len() == 2,
            r.players@[0]@.len() == 0 && r.players@[1]@.len() == 0,
            r.pack == Pack::Default,
            r.storyline@.len() == 0,
            r.party_duration == DEFAULT_PARTY_DURATION,
            r.max_rule_duration == DEFAULT_MAX_RULE_DURATION,
    {
        App {
            state: AppState::SelectPlayers,
            players: vec![String::new(), String::new()],
            pack: Pack::Default,
            storyline: Vec::new(),
            party_duration: DEFAULT_PARTY_DURATION,
            max_rule_duration: DEFAULT_MAX_RULE_DURATION,
        }
    }

    /// Goes one screen back, or one prompt back while playing.
    pub fn back(&mut self)
        ensures
            final(self).players == old(self).players,
            final(self).pack == old(self).pack,
            final(self).storyline == old(self).storyline,
            final(self).party_duration == old(self).party_duration,
            final(self).max_rule_duration == old(self).max_rule_duration,
            final(self).state == back_state(old(self).state),
    {
        match self.state {
            AppState::SelectPack => self.state = AppState::SelectPlayers,
            AppState::SelectSettings => self.state = AppState::SelectPack,
            AppState::Play(p) => {
                if p > 0 {
                    self.state = AppState::Play(p - 1);
                } else {
                    self.state = AppState::SelectSettings;
                }
            },
            AppState::SelectPlayers => {},
        }
    }

    /// Leaves the player screen with the given trimmed names: the empty ones
    /// are dropped, and the wizard moves on when any name is left.
    pub fn accept_players(&mut self, trimmed_names: Vec<String>)
        requires
            old(self).state == AppState::SelectPlayers,
        ensures
            texts(final(self).players@) == kept_names(texts(trimmed_names@)),
            final(self).state == if final(self).players@.len() > 0 {
                AppState::SelectPack
            } else {
                AppState::SelectPlayers
            },
            final(self).pack == old(self).pack,
            final(self).storyline == old(self).storyline,
            final(self).party_duration == old(self).party_duration,
            final(self).max_rule_duration == old(self).max_rule_duration,
    {
        self.players = non_empty_names(trimmed_names);
        if self.players.len() > 0 {
            self.state = AppState::SelectPack;
        }
    }

    /// Starts play with a storyline built from `items`, the catalog of the
    /// chosen pack. On failure the wizard stays on the settings screen.
    pub fn start_play(&mut self, items: &[SplitItem]) -> (r: Result<(), StoryError>)
        requires
            old(self).wf(),
            old(self).state == AppState::SelectSettings,
        ensures
            final(self).wf(),
            final(self).players == old(self).players,
            final(self).pack == old(self).pack,
            final(self).party_duration == old(self).party_duration,
            final(self).max_rule_duration == old(self).max_rule_duration,
            old(self).players@.len() == 0 ==> r == Err::<(), StoryError>(
                StoryError::ContentConfiguration,
            ),
            old(self).players@.len() > 0 ==> ((r == Err::<(), StoryError>(
                StoryError::ContentConfiguration)) <==> !has_root(
                items@,
                old(self).players@.len(),
            )),
            r is Ok ==> final(self).state == AppState::Play(0) && built_prompts(
                final(self).storyline@,
                items@,
                old(self).players@,
                old(self).party_duration as nat,
                old(self).max_rule_duration as nat,
            ),
            r is Err ==> final(self).state == AppState::SelectSettings && final(self).storyline
                == old(self).storyline,
    {
        if self.players.len() == 0 {
            return Err(StoryError::ContentConfiguration);
        }
        match build_storyline(items, self.party_duration, self.max_rule_duration, self.players.as_slice()) {
            Ok(s) => {
                self.storyline = prompts_of(&s);
                self.state = AppState::Play(0);
                assert(storyline_ok(
                    s@,
                    items@,
                    self.players@,
                    self.party_duration as nat,
                    self.max_rule_duration as nat,
                ) && prompts_match(self.storyline@, s@));
                Ok(())
            },
            Err(e) => Err(e),
        }
    }

    /// Goes one screen forward, or one prompt forward while playing. On the
    /// player screen the names are trimmed and the empty ones dropped; on
    /// the settings screen the storyline is built from `items`.
    pub fn next(&mut self, items: &[SplitItem]) -> (r: Result<(), StoryError>)
        requires
            old(self).wf(),
        ensures
            final(self).wf(),
            final(self).pack == old(self).pack,
            final(self).party_duration == old(self).party_duration,
            final(self).max_rule_duration == old(self).max_rule_duration,
            old(self).state != AppState::SelectSettings ==> r is Ok,
            old(self).state != AppState::SelectPlayers ==> final(self).players == old(self).players,
            old(self).state != AppState::SelectSettings ==> final(self).storyline
                == old(self).storyline,
            old(self).state == AppState::SelectPlayers ==> texts(final(self).players@) == kept_names(
                Seq::new(old(self).players@.len(), |i: int| trimmed(old(self).players@[i]@)),
            ) && final(self).state == if final(self).players@.len() > 0 {
                AppState::SelectPack
            } else {
                AppState::SelectPlayers
            },
            old(self).state == AppState::SelectPack ==> final(self).state == AppState::SelectSettings,
            old(self).state == AppState::SelectSettings ==> {
                &&& r is Ok ==> final(self).state == AppState::Play(0) && built_prompts(
                    final(self).storyline@,
                    items@,
                    old(self).players@,
                    old(self).party_duration as nat,
                    old(self).max_rule_duration as nat,
                )
                &&& r is Err ==> final(self).state == AppState::SelectSettings
                    && final(self).storyline == old(self).storyline
                &&& (r == Err::<(), StoryError>(StoryError::ContentConfiguration)) <==> (old(
                    self,
                ).players@.len() == 0 || !has_root(items@, old(self).players@.len()))
            },
            old(self).state is Play ==> final(self).state == forward_play_state(
                old(self).state->Play_0,
                old(self).storyline@.len(),
            ),
    {
        match self.state {
            AppState::SelectPlayers => {
                let t = trim_all(&self.players);
                proof {
                    assert(texts(t@) =~= Seq::new(
                        self.players@.len(),
                        |i: int| trimmed(self.players@[i]@),
                    ));
                }
                self.accept_players(t);
                Ok(())
            },
            AppState::SelectPack => {
                self.state = AppState::SelectSettings;
                Ok(())
            },
            AppState::SelectSettings => self.start_play(items),
            AppState::Play(p) => {
                if p < self.storyline.len() {
                    self.state = AppState::Play(p + 1);
                }
                Ok(())
            },
        }
    }

    /// Applies one user action. Returns whether the screen must be drawn
    /// again: edits of a text field or a setting need no redraw.
    pub fn update(&mut self, msg: AppMsg, items: &[SplitItem]) -> (r: Result<bool, StoryError>)
        requires
            old(self).wf(),
            msg is OnPlayerChanged ==> msg->OnPlayerChanged_0 < old(self).players@.len(),
            msg is OnPlayerRemoved ==> msg->OnPlayerRemoved_0 < old(self).players@.len(),
        ensures
            final(self).wf(),
            r is Ok ==> r->Ok_0 == !(msg is OnPlayerChanged || msg is OnSettingChanged),
            r is Err ==> msg is Next && old(self).state == AppState::SelectSettings,
            // what each message leaves alone
            !(msg is OnPackSelected) ==> final(self).pack == old(self).pack,
            !(msg is OnSettingChanged) ==> final(self).party_duration == old(self).party_duration
                && final(self).max_rule_duration == old(self).max_rule_duration,
            !(msg is Next && old(self).state == AppState::SelectSettings) || r is Err
                ==> final(self).storyline == old(self).storyline,
            !(msg is AddPlayer || msg is OnPlayerChanged || msg is OnPlayerRemoved || (msg is Next
                && old(self).state == AppState::SelectPlayers)) ==> final(self).players == old(
            self).players,
            msg is AddPlayer || msg is OnPlayerChanged || msg is OnPlayerRemoved
                || msg is OnSettingChanged ==> final(self).state == old(self).state,
            // what each message changes
            msg is Back ==> final(self).state == back_state(old(self).state),
            msg is Next && old(self).state == AppState::SelectPlayers ==> texts(final(self).players@)
                == kept_names(
                Seq::new(old(self).players@.len(), |i: int| trimmed(old(self).players@[i]@)),
            ) && final(self).state == if final(self).players@.len() > 0 {
                AppState::SelectPack
            } else {
                AppState::SelectPlayers
            },
            msg is Next && old(self).state == AppState::SelectPack ==> final(self).state
                == AppState::SelectSettings,
            msg is Next && old(self).state == AppState::SelectSettings ==> {
                &&& r is Ok ==> final(self).state == AppState::Play(0) && built_prompts(
                    final(self).storyline@,
                    items@,
                    old(self).players@,
                    old(self).party_duration as nat,
                    old(self).max_rule_duration as nat,
                )
                &&& r is Err ==> final(self).state == AppState::SelectSettings
                &&& (r == Err::<bool, StoryError>(StoryError::ContentConfiguration)) <==> (old(
                    self,
                ).players@.len() == 0 || !has_root(items@, old(self).players@.len()))
            },
            msg is Next && old(self).state is Play ==> final(self).state == forward_play_state(
                old(self).state->Play_0,
                old(self).storyline@.len(),
            ),
            msg is AddPlayer ==> final(self).players@.len() == old(self).players@.len() + 1
                && final(self).players@.subrange(0, old(self).players@.len() as int) == old(
                self,
            ).players@ && final(self).players@.last()@.len() == 0,
            msg is OnPlayerChanged ==> final(self).players@ == old(self).players@.update(
                msg->OnPlayerChanged_0 as int,
                msg->OnPlayerChanged_1,
            ),
            msg is OnPlayerRemoved ==> final(self).players@ == old(self).players@.remove(
                msg->OnPlayerRemoved_0 as int,
            ),
            msg is OnPackSelected ==> final(self).pack == msg->OnPackSelected_0 && final(self).state
                == AppState::SelectSettings,
            msg is OnSettingChanged ==> {
                let v = msg->OnSettingChanged_1;
                &&& msg->OnSettingChanged_0 == Setting::PartyDuration ==> final(self).party_duration
                    == (if 1 <= v < usize::MAX {
                    v
                } else {
                    old(self).party_duration
                }) && final(self).max_rule_duration == old(self).max_rule_duration
                &&& msg->OnSettingChanged_0 == Setting::MaxRuleDuration
                    ==> final(self).max_rule_duration == (if v >= 1 {
                    v
                } else {
                    old(self).max_rule_duration
                }) && final(self).party_duration == old(self).party_duration
            },
    {
        match msg {
            AppMsg::Back => {
                self.back();
                Ok(true)
            },
            AppMsg::Next => {
                match self.next(items) {
                    Ok(()) => Ok(true),
                    Err(e) => Err(e),
                }
            },
            AppMsg::AddPlayer => {
                self.add_player();
                Ok(true)
            },
            AppMsg::OnPlayerChanged(i, name) => {
                self.set_player(i, name);
                Ok(false)
            },
            AppMsg::OnPlayerRemoved(i) => {
                self.remove_player(i);
                Ok(true)
            },
            AppMsg::OnPackSelected(pack) => {
                self.select_pack(pack);
                Ok(true)
            },
            AppMsg::OnSettingChanged(setting, v) => {
                match setting {
                    Setting::PartyDuration => {
                        self.set_party_duration(v);
                    },
                    Setting::MaxRuleDuration => {
                        self.set_max_rule_duration(v);
                    },
                }
                Ok(false)
            },
        }
    }

    /// Adds an empty player slot.
    pub fn add_player(&mut self)
        ensures
            final(self).players@.len() == old(self).players@.len() + 1,
            final(self).players@.subrange(0, old(self).players@.len() as int) == old(self).players@,
            final(self).players@.last()@.len() == 0,
            final(self).state == old(self).state,
            final(self).pack == old(self).pack,
            final(self).storyline == old(self).storyline,
            final(self).party_duration == old(self).party_duration,
            final(self).max_rule_duration == old(self).max_rule_duration,
    {
        self.players.push(String::new());
    }

    /// Replaces the name in player slot `i`.
    pub fn set_player(&mut self, i: usize, name: String)
        requires
            i < old(self).players@.len(),
        ensures
            final(self).players@ == old(self).players@.update(i as int, name),
            final(self).state == old(self).state,
            final(self).pack == old(self).pack,
            final(self).storyline == old(self).storyline,
            final(self).party_duration == old(self).party_duration,
            final(self).max_rule_duration == old(self).max_rule_duration,
    {
        self.players.set(i, name);
    }

    /// Removes player slot `i`.
    pub fn remove_player(&mut self, i: usize)
        requires
            i < old(self).players@.len(),
        ensures
            final(self).players@ == old(self).players@.remove(i as int),
            final(self).state == old(self).state,
            final(self).pack == old(self).pack,
            final(self).storyline == old(self).storyline,
            final(self).party_duration == old(self).party_duration,
            final(self).max_rule_duration == old(self).max_rule_duration,
    {
        self.players.remove(i);
    }

    /// Chooses the pack and moves on to the settings screen.
    pub fn select_pack(&mut self, pack: Pack)
        ensures
            final(self).pack == pack,
            final(self).state == AppState::SelectSettings,
            final(self).players == old(self).players,
            final(self).storyline == old(self).storyline,
            final(self).party_duration == old(self).party_duration,
            final(self).max_rule_duration == old(self).max_rule_duration,
    {
        self.pack = pack;
        self.state = AppState::SelectSettings;
    }

    /// Sets the number of prompts asked for; a value that is zero or the
    /// largest `usize` is refused and leaves the setting as it was.
    pub fn set_party_duration(&mut self, v: usize) -> (accepted: bool)
        requires
            old(self).wf(),
        ensures
            final(self).wf(),
            accepted == (1 <= v < usize::MAX),
            final(self).party_duration == if accepted {
                v
            } else {
                old(self).party_duration
            },
            final(self).max_rule_duration == old(self).max_rule_duration,
            final(self).state == old(self).state,
            final(self).players == old(self).players,
            final(self).pack == old(self).pack,
            final(self).storyline == old(self).storyline,
    {
        if 1 <= v && v < usize::MAX {
            self.party_duration = v;
            true
        } else {
            false
        }
    }

    /// Sets the window of standing rules; zero is refused and leaves the
    /// setting as it was.
    pub fn set_max_rule_duration(&mut self, v: usize) -> (accepted: bool)
        requires
            old(self).wf(),
        ensures
            final(self).wf(),
            accepted == (v >= 1),
            final(self).max_rule_duration == if accepted {
                v
            } else {
                old(self).max_rule_duration
            },
            final(self).party_duration == old(self).party_duration,
            final(self).state == old(self).state,
            final(self).players == old(self).players,
            final(self).pack == old(self).pack,
            final(self).storyline == old(self).storyline,
    {
        if v >= 1 {
            self.max_rule_duration = v;
            true
        } else {
            false
        }
    }

    /// The prompt shown at play position `progress`: its category and text,
    /// or category 0 and the closing message past the end of the storyline.
    pub fn prompt_at(&self, progress: usize) -> (r: (usize, String))
        ensures
            progress < self.storyline@.len() ==> r.0 == self.storyline@[progress as int].0 && r.1@
                == self.storyline@[progress as int].1@,
            progress >= self.storyline@.len() ==> r.0 == 0 && r.1@ == "Game over!"@,
    {
        if progress < self.storyline.len() {
            (self.storyline[progress].0, self.storyline[progress].1.clone())
        } else {
            (0, String::from_str("Game over!"))
        }
    }
}

/// How a prompt of category `ty` is presented: an optional title and a
/// background colour.
pub fn prompt_style(ty: usize) -> (r: (Option<&'static str>, &'static str))
    ensures
        ty == 2 ==> r.0 == Some("Virus") && r.1@ == "#E6BB01"@,
        ty == 5 ==> r.0 == Some("Pénalité Ultime") && r.1@ == "#E41100"@,
        ty == 14 ==> r.0 == Some("Jeu") && r.1@ == "#00B506"@,
        ty != 2 && ty != 5 && ty != 14 ==> r.0 is None && r.1@ == "#1C566B"@,
{
    if ty == 2 {
        (Some("Virus"), "#E6BB01")
    } else if ty == 5 {
        (Some("Pénalité Ultime"), "#E41100")
    } else if ty == 14 {
        (Some("Jeu"), "#00B506")
    } else {
        (None, "#1C566B")
    }
}

} // verus!
