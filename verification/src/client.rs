//! A session as whoever drives it sees it.

use crate::clock::Moment;
use crate::config::Growth;
use crate::grow::autoplay_drives_town_runs;
use crate::hand::{town_run_driver, town_run_step_by_hand};
use crate::hunting::{hunting_ground, on_its_way};
use crate::items::{lacking, queued, to_ask, unappraised_count, Appraising};
use crate::single::Single;
use crate::state::{spec_driver, spec_road_under_way, Driver, Ground, State};
use std::collections::HashSet;
use vstd::prelude::*;
use vstd::string::*;

verus! {

/// A character of the account.
#[derive(Clone, Debug)]
pub struct CharacterEntry {
    pub id: u32,
    pub name: String,
    /// Above nothing for one that is pending deletion.
    pub seconds_until_deleted: u32,
}

/// Things the session reports to whoever drives it.
#[derive(Clone, Debug)]
pub enum Event {
    /// A line for the chat log, with the server's kind of message.
    Chat { text: String, kind: u32 },
    /// Copy the chat to this file from now on, or stop with `None`.
    ChatToFile(Option<String>),
    /// Empty the chat window, or every one.
    ChatClear { all: bool },
    /// A sound to play, by the number of its wave, at a volume.
    Sound { wave: u32, volume: Single },
    /// An object plays a particle script.
    Effect { guid: u32, script: u32, speed: Single },
    Connected,
    Terminated(String),
    /// The server refused the session, with the opcode.
    Refused(u32),
    /// The character stands in the world; a scene can be built around it.
    Placed { cell: u32 },
    /// A spell entered the spellbook.
    SpellLearned(u32),
    /// A spell left the spellbook.
    SpellForgotten(u32),
    /// The account's characters, when the client is not entering the world by
    /// itself.
    Characters(Vec<CharacterEntry>),
    /// The server accepted a new character.
    CharacterCreated { id: u32, name: String },
    /// The server refused one, with its code.
    CharacterCreateFailed(u32),
    /// Autoplay changed what it is doing. Given once per change, not once per
    /// tick.
    Autoplay { doing: String, text: String },
    /// A line autoplay logged beside its status.
    Noted(String),
}

/// How to reach the server and who to be.
#[derive(Clone, Debug)]
pub struct Config {
    /// `host` or `host:port` of the login port.
    pub host: String,
    pub account: String,
    pub password: String,
    /// Character to enter with; the first on the account when `None`.
    pub character: Option<String>,
    /// Enter the world as soon as the character list arrives. Off, and with no
    /// character named, the client reports the characters instead and waits. A
    /// named character always enters.
    pub auto_enter: bool,
}

/// A headless game session, as far as its own decisions go.
pub struct Client {
    pub config: Config,
    /// Landblock the scene is built around, once the player is placed.
    pub scene_block: Option<u32>,
    /// Playing on its own.
    pub autoplay: bool,
    pub growth: Growth,
    /// The running state of the growth rules.
    pub state: State,
    /// What is waiting to be appraised.
    pub appraising: Appraising,
    /// Pending events for the driver.
    pub events: Vec<Event>,
    /// What autoplay has announced since the last drain.
    pub announced: Vec<Event>,
}

impl Client {
    /// The character is in the world and has a body there.
    pub fn placed(&self) -> (r: bool)
        ensures
            r == (self.scene_block is Some),
    {
        self.scene_block.is_some()
    }

    /// Events produced since the last drain, autoplay's status changes behind
    /// the rest.
    pub fn drain_events(&mut self) -> (r: Vec<Event>)
        ensures
            r@ == old(self).events@ + old(self).announced@,
            final(self).events@.len() == 0,
            final(self).announced@.len() == 0,
            *final(self) == (Client {
                events: final(self).events,
                announced: final(self).announced,
                ..*old(self)
            }),
    {
        self.events.append(&mut self.announced);
        let mut drained: Vec<Event> = Vec::new();
        drained.append(&mut self.events);
        assert(drained@ =~= old(self).events@ + old(self).announced@);
        drained
    }

    /// Whether autoplay's tick is the thing that steps runs to town.
    pub fn autoplay_drives_town_runs(&self) -> (r: bool)
        ensures
            r == (self.autoplay && self.growth.town_runs),
    {
        autoplay_drives_town_runs(self.autoplay, &self.growth)
    }

    /// Who steps the run to town in progress, if there is one.
    pub fn town_run_driver(&self) -> (r: Option<Driver>)
        ensures
            r == if self.state.run is Some {
                Some(spec_driver(self.state.by_hand, self.autoplay && self.growth.town_runs))
            } else {
                None
            },
    {
        town_run_driver(&self.state, self.autoplay_drives_town_runs())
    }

    /// Whether the character is on its way somewhere: walking to what it is bound
    /// for, on a road of somebody else's planning, or keeping up with a leader
    /// who is.
    pub fn on_its_way(
        &self,
        broken_off: bool,
        trip: Option<bool>,
        resumed: Option<bool>,
        leader_is: bool,
    ) -> (r: bool)
        ensures
            r == (((self.state.bound is Some || self.state.run is Some) && (trip is Some
                || broken_off || self.state.after_out is Some)) || spec_road_under_way(
                trip,
                resumed,
            ) || leader_is),
    {
        on_its_way(&self.state, broken_off, trip, resumed, leader_is)
    }

    /// The hunting ground this character is on or heading for. `here` is the
    /// ground of the landblock it hunts on.
    pub fn hunting_ground(&self, here: Option<&Ground>) -> (r: Option<Ground>)
        ensures
            r == match self.state.bound {
                Some(g) => Some(g),
                None => match (self.state.hunting_at, here) {
                    (Some(_), Some(g)) => Some(*g),
                    _ => None,
                },
            },
    {
        hunting_ground(&self.state, here)
    }

    /// Queue every carried and worn thing that is not appraised, queued or asked
    /// for. Returns how many were queued.
    pub fn appraise_all(&mut self, carried: &[u32], appraised: &HashSet<u32>) -> (r: usize)
        ensures
            ({
                let before = old(self).appraising;
                let todo = to_ask(
                    carried@,
                    carried@.len(),
                    appraised@,
                    before.queue@,
                    before.inflight@,
                );
                &&& final(self).appraising.queue@ == before.queue@ + todo
                &&& final(self).appraising.inflight@ == before.inflight@
                &&& r == todo.len()
            }),
            *final(self) == (Client { appraising: final(self).appraising, ..*old(self) }),
    {
        self.appraising.appraise_all(carried, appraised)
    }

    /// Queue the given things that the world holds and that are not appraised,
    /// queued or asked for. Returns how many were queued.
    pub fn appraise_many(
        &mut self,
        guids: &[u32],
        known: &HashSet<u32>,
        appraised: &HashSet<u32>,
    ) -> (r: usize)
        ensures
            final(self).appraising.queue@ == queued(
                guids@,
                guids@.len(),
                known@,
                appraised@,
                old(self).appraising.queue@,
                old(self).appraising.inflight@,
            ),
            final(self).appraising.inflight@ == old(self).appraising.inflight@,
            r == final(self).appraising.queue@.len() - old(self).appraising.queue@.len(),
            *final(self) == (Client { appraising: final(self).appraising, ..*old(self) }),
    {
        self.appraising.appraise_many(guids, known, appraised)
    }

    /// How many carried and worn things still lack an appraisal.
    pub fn unappraised_count(&self, carried: &[u32], appraised: &HashSet<u32>) -> (r: usize)
        ensures
            r == lacking(carried@, carried@.len(), appraised@),
    {
        unappraised_count(carried, appraised)
    }

    /// Take the run to town in hand for one turn; false where there is none.
    pub fn town_run_step_by_hand(&mut self, now: Moment) -> (r: bool)
        ensures
            r == (old(self).state.run is Some),
            *final(self) == (Client {
                state: if r {
                    (State { by_hand: true, hand_stepped: Some(now), ..old(self).state })
                } else {
                    old(self).state
                },
                ..*old(self)
            }),
    {
        town_run_step_by_hand(&mut self.state, now)
    }
}

} // verus!
