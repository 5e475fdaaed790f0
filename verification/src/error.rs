use vstd::prelude::*;

verus! {

/// Why a generation run failed.
///
/// `Lexical` stands for a literal of the wrong kind where a string literal is
/// required. The two grammar variants stand for structural violations; each
/// carries the grammatical shape expected at its nesting level in its
/// [`GenError::message`].
#[derive(Clone, Copy, Debug, PartialEq, Eq, Structural)]
pub enum GenError {
    /// A literal that should have been a string literal was some other kind.
    Lexical,
    /// A structural violation at the group level: an unrecognized key, a
    /// missing `location`, an empty or missing `meetings` list, malformed
    /// grouping, or text the tokenizer cannot split into tokens.
    GroupGrammar,
    /// A structural violation at the meeting level: an unrecognized key, an
    /// empty or missing `attendees` list, or malformed grouping.
    MeetingGrammar,
}

impl GenError {
    /// The diagnostic text for this error, naming the grammatical shape that
    /// was expected.
    pub fn message(&self) -> (m: String)
        ensures
            *self is Lexical ==> m@ == "Not a string literal"@,
            *self is GroupGrammar ==> m@
                == "Meeting should be of the form `Name { location = \"\", meetings = [] }` where meetings is not empty."@,
            *self is MeetingGrammar ==> m@
                == "Meeting should be of the form `Type { attendees = [], topics = [] }` where topics is optional."@,
    {
        match self {
            GenError::Lexical => "Not a string literal".to_owned(),
            GenError::GroupGrammar => "Meeting should be of the form `Name { location = \"\", meetings = [] }` where meetings is not empty.".to_owned(),
            GenError::MeetingGrammar => "Meeting should be of the form `Type { attendees = [], topics = [] }` where topics is optional.".to_owned(),
        }
    }
}

} // verus!
