//! The recognized body keys, as named symbols a parsed identifier can be
//! compared against.

use vstd::prelude::*;

verus! {

/// A key word of the grammar: one of `location`, `meetings`, `attendees`,
/// `topics`.
pub struct Symbol(&'static str);

impl View for Symbol {
    type V = Seq<char>;

    closed spec fn view(&self) -> Seq<char> {
        self.0@
    }
}

impl Symbol {
    /// The group-body key introducing the location string.
    pub fn location() -> (s: Symbol)
        ensures
            s@ == "location"@,
    {
        Symbol("location")
    }

    /// The group-body key introducing the meeting list.
    pub fn meetings() -> (s: Symbol)
        ensures
            s@ == "meetings"@,
    {
        Symbol("meetings")
    }

    /// The meeting-body key introducing the attendee list.
    pub fn attendees() -> (s: Symbol)
        ensures
            s@ == "attendees"@,
    {
        Symbol("attendees")
    }

    /// The meeting-body key introducing the topic list.
    pub fn topics() -> (s: Symbol)
        ensures
            s@ == "topics"@,
    {
        Symbol("topics")
    }

    /// Whether a parsed identifier is this key word.
    pub fn matches(&self, id: &String) -> (r: bool)
        ensures
            r == (self@ == id@),
    {
        let own: String = self.0.to_owned();
        own == *id
    }
}

} // verus!
