//! Replay viewer: a list of events and a cursor that scrubs through it.

use vstd::prelude::*;

use super::snapshot;
use super::snapshot::{SnapSight, Snapshot};
use crate::game::event::EngineEvent;
use crate::game::model;
use crate::text;

verus! {

/// Holds the full event list and a cursor. What is drawn are the events up to the
/// cursor.
pub struct ReplayApp {
    source: Option<String>,
    events: Vec<EngineEvent>,
    cursor: usize,
    error: Option<String>,
}

/// What the viewer holds.
#[verifier::ext_equal]
pub struct ReplaySight {
    pub source: Option<Seq<char>>,
    pub events: Seq<model::Event>,
    pub cursor: int,
    pub error: Option<Seq<char>>,
}

impl ReplaySight {
    /// The cursor stands on an event, if there is one.
    pub open spec fn on_track(self) -> bool {
        if self.events.len() == 0 {
            self.cursor == 0
        } else {
            0 <= self.cursor < self.events.len()
        }
    }

    /// The events that are drawn: those up to the cursor.
    pub open spec fn shown(self) -> Seq<model::Event> {
        if self.events.len() == 0 {
            self.events
        } else {
            self.events.take(self.cursor + 1)
        }
    }
}

/// What the viewer shows.
pub enum Screen<'a> {
    /// Something went wrong; this is the message.
    Error(&'a str),
    /// There is nothing to scrub.
    NoEvents,
    /// The scrubber and the table.
    Table,
}

impl View for ReplayApp {
    type V = ReplaySight;

    closed spec fn view(&self) -> ReplaySight {
        ReplaySight {
            source: super::page::text_seen(self.source),
            events: snapshot::told(self.events@),
            cursor: self.cursor as int,
            error: super::page::text_seen(self.error),
        }
    }
}

impl ReplayApp {
    #[verifier::type_invariant]
    spec fn cursor_in_range(self) -> bool {
        if self.events@.len() == 0 {
            self.cursor == 0
        } else {
            self.cursor < self.events@.len()
        }
    }

    /// No log is loaded.
    pub fn empty() -> (app: ReplayApp)
        ensures
            app@ == (ReplaySight { source: None, events: Seq::empty(), cursor: 0, error: None }),
    {
        let app = ReplayApp { source: None, events: Vec::new(), cursor: 0, error: None };
        assert(app@.events =~= Seq::<model::Event>::empty());
        app
    }

    /// The log could not be loaded.
    pub fn error(msg: String) -> (app: ReplayApp)
        ensures
            app@ == (ReplaySight {
                source: None,
                events: Seq::empty(),
                cursor: 0,
                error: Some(msg@),
            }),
    {
        let app = ReplayApp { source: None, events: Vec::new(), cursor: 0, error: Some(msg) };
        assert(app@.events =~= Seq::<model::Event>::empty());
        app
    }

    /// The log at `path` holds `events`; the cursor starts on the last one.
    pub fn open(path: &str, events: Vec<EngineEvent>) -> (app: ReplayApp)
        ensures
            app@ == (ReplaySight {
                source: Some(path@),
                events: snapshot::told(events@),
                cursor: if events@.len() == 0 {
                    0
                } else {
                    events@.len() - 1
                },
                error: None,
            }),
    {
        let cursor: usize = if events.len() == 0 {
            0
        } else {
            events.len() - 1
        };
        ReplayApp { source: Some(path.to_owned()), events, cursor, error: None }
    }

    /// The cursor always stands on an event, if there is one.
    pub fn cursor(&self) -> (cursor: usize)
        ensures
            cursor == self@.cursor,
            self@.on_track(),
    {
        proof {
            use_type_invariant(self);
        }
        self.cursor
    }

    /// How many events there are.
    pub fn len(&self) -> (n: usize)
        ensures
            n == self@.events.len(),
    {
        self.events.len()
    }

    /// The path of the log, if one is loaded.
    pub fn source(&self) -> (path: Option<&str>)
        ensures
            match self@.source {
                Some(p) => path matches Some(s) && s@ == p,
                None => path is None,
            },
    {
        match &self.source {
            Some(p) => Some(p.as_str()),
            None => None,
        }
    }

    /// What is shown.
    pub fn screen(&self) -> (screen: Screen<'_>)
        ensures
            match self@.error {
                Some(e) => screen matches Screen::Error(msg) && msg@ == e,
                None => if self@.events.len() == 0 {
                    screen is NoEvents
                } else {
                    screen is Table
                },
            },
    {
        match &self.error {
            Some(msg) => Screen::Error(msg.as_str()),
            None => if self.events.len() == 0 {
                Screen::NoEvents
            } else {
                Screen::Table
            },
        }
    }

    /// What is known at the cursor.
    pub fn snapshot(&self) -> (s: Snapshot)
        requires
            forall|i: int| 0 <= i < self@.events.len() ==> snapshot::seat_fits(
                #[trigger] self@.events[i],
            ),
        ensures
            s@ == snapshot::after_events(SnapSight::blank(), self@.shown()),
    {
        proof {
            use_type_invariant(self);
        }
        let n: usize = if self.events.len() == 0 {
            0
        } else {
            self.cursor + 1
        };
        let upto = vstd::slice::slice_subrange(self.events.as_slice(), 0, n);
        proof {
            assert(snapshot::told(upto@) =~= self@.shown());
            assert forall|i: int| 0 <= i < upto@.len() implies snapshot::seat_fits(
                (#[trigger] upto@[i])@,
            ) by {
                assert(self@.events[i] == upto@[i]@);
            }
        }
        Snapshot::derive(upto)
    }

    /// Puts the cursor on the first event.
    pub fn to_first(&mut self)
        ensures
            final(self)@ == (ReplaySight { cursor: 0, ..old(self)@ }),
    {
        self.cursor = 0;
    }

    /// Moves the cursor one event back, if it can.
    pub fn back(&mut self)
        ensures
            final(self)@ == (ReplaySight {
                cursor: if old(self)@.cursor > 0 {
                    old(self)@.cursor - 1
                } else {
                    0
                },
                ..old(self)@
            }),
    {
        proof {
            use_type_invariant(&*self);
        }
        if self.cursor > 0 {
            self.cursor = self.cursor - 1;
        }
    }

    /// Moves the cursor one event forward, if it can.
    pub fn forward(&mut self)
        ensures
            final(self)@ == (ReplaySight {
                cursor: if old(self)@.cursor + 1 < old(self)@.events.len() {
                    old(self)@.cursor + 1
                } else {
                    old(self)@.cursor
                },
                ..old(self)@
            }),
    {
        proof {
            use_type_invariant(&*self);
        }
        if self.events.len() > 0 && self.cursor < self.events.len() - 1 {
            self.cursor = self.cursor + 1;
        }
    }

    /// Puts the cursor on the last event.
    pub fn to_last(&mut self)
        ensures
            final(self)@ == (ReplaySight {
                cursor: if old(self)@.events.len() == 0 {
                    0
                } else {
                    old(self)@.events.len() - 1
                },
                ..old(self)@
            }),
    {
        proof {
            use_type_invariant(&*self);
        }
        if self.events.len() > 0 {
            self.cursor = self.events.len() - 1;
        }
    }

    /// Puts the cursor on event `i`, if there is one.
    pub fn jump(&mut self, i: usize)
        ensures
            final(self)@ == (ReplaySight {
                cursor: if i < old(self)@.events.len() {
                    i as int
                } else {
                    old(self)@.cursor
                },
                ..old(self)@
            }),
    {
        if i < self.events.len() {
            self.cursor = i;
        }
    }

    /// Where the cursor stands, in words.
    pub fn position(&self) -> (s: String)
        ensures
            s@ == "event "@ + text::decimal((self@.cursor + 1) as nat) + "/"@ + text::decimal(
                self@.events.len(),
            ),
    {
        proof {
            use_type_invariant(self);
        }
        let n: usize = self.events.len();
        let mut s = String::new();
        s.append("event ");
        text::push_decimal(&mut s, self.cursor as u64 + 1);
        s.append("/");
        text::push_decimal(&mut s, n as u64);
        assert(s@ =~= "event "@ + text::decimal((self@.cursor + 1) as nat) + "/"@ + text::decimal(
            self@.events.len(),
        ));
        s
    }

    /// The line of event `i` in the list.
    pub fn event_line(&self, i: usize) -> (s: String)
        requires
            i < self@.events.len(),
        ensures
            s@ == text::right(text::decimal(i as nat), 4) + "  "@ + snapshot::description(
                self@.events[i as int],
            ),
    {
        let mut s = String::new();
        text::push_right(&mut s, text::number(i as u64).as_str(), 4);
        s.append("  ");
        s.append(snapshot::describe_event(&self.events[i]).as_str());
        assert(s@ =~= text::right(text::decimal(i as nat), 4) + "  "@ + snapshot::description(
            self@.events[i as int],
        ));
        s
    }
}

/// What is drawn is always the part of the log that ends at the cursor; with the
/// cursor on the last event it is the whole log.
pub proof fn scrubbing_shows_prefixes(app: ReplaySight)
    requires
        app.on_track(),
    ensures
        app.events.len() > 0 && app.cursor == app.events.len() - 1 ==> app.shown() == app.events,
        app.events.len() > 0 ==> app.shown().last() == app.events[app.cursor],
        app.events.len() > 0 ==> app.shown().len() == app.cursor + 1,
        app.shown().is_prefix_of(app.events),
{
    if app.events.len() > 0 && app.cursor == app.events.len() - 1 {
        assert(app.shown() =~= app.events);
    }
    assert(app.shown() =~= app.events.subrange(0, app.shown().len() as int));
}

} // verus!
