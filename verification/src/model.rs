//! The entity model: a parsed group, its location, and its ordered meetings.
//!
//! [`SGroup`] and [`SMeeting`] are the mathematical images the contracts
//! speak of; [`Group`] and [`Meeting`] are their executable carriers.

use vstd::prelude::*;

verus! {

/// The mathematical image of one meeting: its kind name, its attendees, and
/// its (possibly empty) topics, all in declaration order.
pub struct SMeeting {
    pub description: Seq<char>,
    pub attendees: Seq<Seq<char>>,
    pub topics: Seq<Seq<char>>,
}

impl SMeeting {
    /// The invariant the parser establishes: at least one attendee.
    pub open spec fn wf(self) -> bool {
        self.attendees.len() > 0
    }
}

/// The mathematical image of one group: its name, its location, and its
/// ordered meetings.
pub struct SGroup {
    pub name: Seq<char>,
    pub location: Seq<char>,
    pub meetings: Seq<SMeeting>,
}

/// No two meetings share a kind name: the generated concrete type names, one
/// per kind, would otherwise collide.
pub open spec fn distinct_kinds(ms: Seq<SMeeting>) -> bool {
    forall|a: int, b: int|
        0 <= a < b < ms.len() ==> ms[a].description != ms[b].description
}

impl SGroup {
    /// The invariant the parser establishes: at least one meeting, each of
    /// them well formed, and no two of the same kind name.
    pub open spec fn wf(self) -> bool {
        &&& self.meetings.len() > 0
        &&& forall|i: int| 0 <= i < self.meetings.len() ==> self.meetings[i].wf()
        &&& distinct_kinds(self.meetings)
    }
}

/// The views of a sequence of strings, element by element.
pub open spec fn str_views(v: Seq<String>) -> Seq<Seq<char>> {
    v.map_values(|s: String| s@)
}

/// The views of a sequence of meetings, element by element.
pub open spec fn meeting_views(v: Seq<Meeting>) -> Seq<SMeeting> {
    v.map_values(|m: Meeting| m@)
}

/// One meeting kind of a group: a description identifier, the attendee list
/// (never empty once parsed), and the topic list (may be empty).
pub struct Meeting {
    pub description: String,
    pub attendees: Vec<String>,
    pub topics: Vec<String>,
}

impl View for Meeting {
    type V = SMeeting;

    open spec fn view(&self) -> SMeeting {
        SMeeting {
            description: self.description@,
            attendees: str_views(self.attendees@),
            topics: str_views(self.topics@),
        }
    }
}

impl Meeting {
    /// The meeting's kind name, used as the emitted concrete type name and as
    /// the variant tag.
    pub fn description(&self) -> (r: &String)
        ensures
            r@ == self@.description,
    {
        &self.description
    }

    /// The fixed attendee list, in declaration order.
    pub fn attendees(&self) -> (r: &Vec<String>)
        ensures
            str_views(r@) == self@.attendees,
    {
        &self.attendees
    }

    /// The fixed topic list, in declaration order: `Some` exactly when the
    /// declaration had a non-empty `topics` list, just as the emitted
    /// concrete type has a `topics()` accessor exactly then.
    pub fn topics(&self) -> (r: Option<&Vec<String>>)
        ensures
            r is Some <==> self@.topics.len() > 0,
            r is Some ==> str_views(r->0@) == self@.topics,
    {
        if self.topics.len() == 0 {
            None
        } else {
            Some(&self.topics)
        }
    }
}

/// One parsed group: its name, its location text, and its ordered meetings.
pub struct Group {
    pub name: String,
    pub location: String,
    pub meetings: Vec<Meeting>,
}

impl View for Group {
    type V = SGroup;

    open spec fn view(&self) -> SGroup {
        SGroup {
            name: self.name@,
            location: self.location@,
            meetings: meeting_views(self.meetings@),
        }
    }
}

impl Group {
    /// The group's name, used as the emitted group type name and as the
    /// prefix of the emitted variant type name.
    pub fn name(&self) -> (r: &String)
        ensures
            r@ == self@.name,
    {
        &self.name
    }

    /// The group's location text.
    pub fn location(&self) -> (r: &String)
        ensures
            r@ == self@.location,
    {
        &self.location
    }

    /// The group's meetings, in declaration order.
    pub fn meetings(&self) -> (r: &Vec<Meeting>)
        ensures
            meeting_views(r@) == self@.meetings,
    {
        &self.meetings
    }
}

} // verus!
