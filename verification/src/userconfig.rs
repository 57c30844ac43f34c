//! Per-subscriber configuration: identity, artifact naming, the removal
//! policy, and per event-group subscriptions with timed overrides.

use vstd::prelude::*;

use crate::time::{DateTime, TimeOfDay};

verus! {

#[derive(Clone, PartialEq, Eq, Debug)]
pub struct Chat {
    pub id: i64,
    pub first_name: String,
}

/// How a removed occurrence is presented in the artifact.
#[derive(Clone, Copy, PartialEq, Eq, Structural, Debug)]
pub enum RemovedEvents {
    Cancelled,
    Removed,
    Emoji,
}

/// One timed override, keyed by the original start timestamp of the
/// occurrence it modifies.
#[derive(Clone, PartialEq, Eq, Debug)]
pub struct Change {
    pub remove: bool,
    pub starttime: Option<TimeOfDay>,
    pub endtime: Option<TimeOfDay>,
    pub namesuffix: Option<String>,
    pub room: Option<String>,
}

#[verifier::ext_equal]
pub ghost struct ChangeView {
    pub remove: bool,
    pub starttime: Option<TimeOfDay>,
    pub endtime: Option<TimeOfDay>,
    pub namesuffix: Option<Seq<char>>,
    pub room: Option<Seq<char>>,
}

impl View for Change {
    type V = ChangeView;

    open spec fn view(&self) -> ChangeView {
        ChangeView {
            remove: self.remove,
            starttime: self.starttime,
            endtime: self.endtime,
            namesuffix: match self.namesuffix {
                Some(ref s) => Some(s@),
                None => None,
            },
            room: match self.room {
                Some(ref s) => Some(s@),
                None => None,
            },
        }
    }
}

impl ChangeView {
    /// Any replacement times are valid times of day.
    pub open spec fn wf(self) -> bool {
        &&& (self.starttime is Some ==> self.starttime->0.wf())
        &&& (self.endtime is Some ==> self.endtime->0.wf())
    }
}

impl Change {
    pub open spec fn wf(self) -> bool {
        self@.wf()
    }

    /// An equal copy.
    pub fn duplicate(&self) -> (r: Change)
        ensures
            r == *self,
    {
        Change {
            remove: self.remove,
            starttime: self.starttime,
            endtime: self.endtime,
            namesuffix: match &self.namesuffix {
                Some(s) => Some(s.clone()),
                None => None,
            },
            room: match &self.room {
                Some(s) => Some(s.clone()),
                None => None,
            },
        }
    }
}

/// Per event-group, per-subscriber details: reminder lead time, free-text
/// notes, and the overrides in the order they are to be applied.
#[derive(Clone, PartialEq, Eq, Debug)]
pub struct EventDetails {
    pub alert_minutes_before: Option<u16>,
    pub changes: Vec<(DateTime, Change)>,
    pub notes: Option<String>,
}

#[verifier::ext_equal]
pub ghost struct EventDetailsView {
    pub alert_minutes_before: Option<u16>,
    pub changes: Seq<(DateTime, ChangeView)>,
    pub notes: Option<Seq<char>>,
}

impl View for EventDetails {
    type V = EventDetailsView;

    open spec fn view(&self) -> EventDetailsView {
        EventDetailsView {
            alert_minutes_before: self.alert_minutes_before,
            changes: self.changes@.map_values(|c: (DateTime, Change)| (c.0, c.1@)),
            notes: match self.notes {
                Some(ref s) => Some(s@),
                None => None,
            },
        }
    }
}

impl EventDetailsView {
    /// Every override carries a valid timestamp key and valid times.
    pub open spec fn wf(self) -> bool {
        forall|i: int|
            0 <= i < self.changes.len() ==> (#[trigger] self.changes[i]).0.wf()
                && self.changes[i].1.wf()
    }
}

impl EventDetails {
    pub open spec fn wf(self) -> bool {
        self@.wf()
    }
}

#[derive(Clone, PartialEq, Eq, Debug)]
pub struct Userconfig {
    pub calendarfile_suffix: String,
    pub events: Vec<(String, EventDetails)>,
    pub removed_events: RemovedEvents,
}

impl Userconfig {
    pub open spec fn wf(self) -> bool {
        self@.wf()
    }
}

#[derive(Clone, PartialEq, Eq, Debug)]
pub struct UserconfigFile {
    pub chat: Chat,
    pub config: Userconfig,
}

impl UserconfigFile {
    pub open spec fn wf(self) -> bool {
        self.config.wf()
    }
}

#[verifier::ext_equal]
pub ghost struct ChatView {
    pub id: i64,
    pub first_name: Seq<char>,
}

impl View for Chat {
    type V = ChatView;

    open spec fn view(&self) -> ChatView {
        ChatView { id: self.id, first_name: self.first_name@ }
    }
}

#[verifier::ext_equal]
pub ghost struct UserconfigView {
    pub calendarfile_suffix: Seq<char>,
    pub events: Seq<(Seq<char>, EventDetailsView)>,
    pub removed_events: RemovedEvents,
}

impl View for Userconfig {
    type V = UserconfigView;

    open spec fn view(&self) -> UserconfigView {
        UserconfigView {
            calendarfile_suffix: self.calendarfile_suffix@,
            events: self.events@.map_values(|e: (String, EventDetails)| (e.0@, e.1@)),
            removed_events: self.removed_events,
        }
    }
}

impl UserconfigView {
    /// Every subscription's details are well-formed.
    pub open spec fn wf(self) -> bool {
        forall|i: int| 0 <= i < self.events.len() ==> (#[trigger] self.events[i]).1.wf()
    }
}

#[verifier::ext_equal]
pub ghost struct UserconfigFileView {
    pub chat: ChatView,
    pub config: UserconfigView,
}

impl View for UserconfigFile {
    type V = UserconfigFileView;

    open spec fn view(&self) -> UserconfigFileView {
        UserconfigFileView { chat: self.chat@, config: self.config@ }
    }
}

} // verus!
