//! The code projector: the deterministic mapping from a parsed group to the
//! generated declaration text.
//!
//! For a group `G` with meetings `M1..Mn` the output holds, in this order:
//! one variant type `<G.name>Meetings` with one arm per meeting and an
//! exhaustive-match `attendees()` accessor; one zero-field concrete type per
//! meeting with a `Default` constructor, an `attendees()` accessor, and a
//! `topics()` accessor exactly when the meeting's topic list is non-empty;
//! and the group type itself with `location()` / `meetings()` accessors and
//! one canonical default instance. Each `spec_emit_*` function pins the text
//! of one part, character for character, so the projector is deterministic by
//! construction.

use vstd::prelude::*;

use crate::model::meeting_views;
use crate::model::str_views;
use crate::model::Group;
use crate::model::Meeting;
use crate::model::SGroup;
use crate::model::SMeeting;

verus! {

/// The elements of a fixed string-slice expression: `"s1", "s2", ...`.
pub open spec fn spec_emit_strlist(ss: Seq<Seq<char>>, i: int) -> Seq<char>
    decreases ss.len() - i,
{
    if i < 0 || i >= ss.len() {
        Seq::empty()
    } else if i == ss.len() - 1 {
        "\""@ + ss[i] + "\""@
    } else {
        "\""@ + ss[i] + "\", "@ + spec_emit_strlist(ss, i + 1)
    }
}

/// The arms of the variant type, one per meeting kind.
pub open spec fn spec_emit_arms(ms: Seq<SMeeting>, i: int) -> Seq<char>
    decreases ms.len() - i,
{
    if i < 0 || i >= ms.len() {
        Seq::empty()
    } else {
        "    "@ + ms[i].description + "("@ + ms[i].description + "),\n"@ + spec_emit_arms(
            ms,
            i + 1,
        )
    }
}

/// The match arms of the variant type's `attendees()` accessor, one per
/// meeting kind, each delegating to the wrapped value.
pub open spec fn spec_emit_match_arms(ms: Seq<SMeeting>, i: int) -> Seq<char>
    decreases ms.len() - i,
{
    if i < 0 || i >= ms.len() {
        Seq::empty()
    } else {
        "            Self::"@ + ms[i].description + "(v) => v.attendees(),\n"@
            + spec_emit_match_arms(ms, i + 1)
    }
}

/// The variant type declaration and its exhaustive-match `attendees()`.
pub open spec fn spec_emit_variant(name: Seq<char>, ms: Seq<SMeeting>) -> Seq<char> {
    "pub enum "@ + name + "Meetings {\n"@ + spec_emit_arms(ms, 0)
        + "}\n\nimpl "@ + name
        + "Meetings {\n    pub fn attendees(&self) -> &'static [&'static str] {\n        match self {\n"@
        + spec_emit_match_arms(ms, 0) + "        }\n    }\n}\n\n"@
}

/// The `topics()` accessor of one concrete meeting type: present exactly
/// when the meeting's topic list is non-empty.
pub open spec fn spec_emit_topics(m: SMeeting) -> Seq<char> {
    if m.topics.len() == 0 {
        Seq::empty()
    } else {
        "\n    pub fn topics(&self) -> &'static [&'static str] {\n        &["@
            + spec_emit_strlist(m.topics, 0) + "]\n    }\n"@
    }
}

/// One concrete meeting type: a zero-field struct, its `Default`
/// constructor, and its accessors.
pub open spec fn spec_emit_meeting(m: SMeeting) -> Seq<char> {
    "struct "@ + m.description + " {}\n\nimpl Default for "@ + m.description
        + " {\n    fn default() -> Self {\n        Self {}\n    }\n}\n\nimpl "@ + m.description
        + " {\n    pub fn attendees(&self) -> &'static [&'static str] {\n        &["@
        + spec_emit_strlist(m.attendees, 0) + "]\n    }\n"@ + spec_emit_topics(m) + "}\n\n"@
}

/// All concrete meeting types, in declaration order.
pub open spec fn spec_emit_meetings(ms: Seq<SMeeting>, i: int) -> Seq<char>
    decreases ms.len() - i,
{
    if i < 0 || i >= ms.len() {
        Seq::empty()
    } else {
        spec_emit_meeting(ms[i]) + spec_emit_meetings(ms, i + 1)
    }
}

/// The entries of the default instance's `meetings` array, one
/// variant-wrapped default instance per meeting, in declaration order.
pub open spec fn spec_emit_instances(name: Seq<char>, ms: Seq<SMeeting>, i: int) -> Seq<char>
    decreases ms.len() - i,
{
    if i < 0 || i >= ms.len() {
        Seq::empty()
    } else {
        "                &"@ + name + "Meetings::"@ + ms[i].description + "("@ + ms[i].description
            + "::default()),\n"@ + spec_emit_instances(name, ms, i + 1)
    }
}

/// The group type declaration and its read accessors.
pub open spec fn spec_emit_group_decl(name: Seq<char>) -> Seq<char> {
    "pub struct "@ + name + " {\n    location: &'static str,\n    meetings: &'static [&'static "@
        + name + "Meetings],\n}\n\nimpl "@ + name
        + " {\n    pub fn location(&self) -> &'static str {\n        self.location\n    }\n    pub fn meetings(&self) -> &'static [&'static "@
        + name + "Meetings] {\n        self.meetings\n    }\n}\n\n"@
}

/// The canonical default instance, populated with the group's location and
/// one variant-wrapped default instance per meeting in declaration order.
pub open spec fn spec_emit_default(g: SGroup) -> Seq<char> {
    "impl Default for "@ + g.name
        + " {\n    fn default() -> Self {\n        Self {\n            location: \""@ + g.location
        + "\",\n            meetings: &[\n"@ + spec_emit_instances(g.name, g.meetings, 0)
        + "            ],\n        }\n    }\n}\n"@
}

/// Twin of [`emit_group`]: the whole generated text for one group.
pub open spec fn spec_emit_group(g: SGroup) -> Seq<char> {
    spec_emit_variant(g.name, g.meetings) + spec_emit_meetings(g.meetings, 0)
        + spec_emit_group_decl(g.name) + spec_emit_default(g)
}

fn emit_strlist(ss: &Vec<String>, i: usize) -> (out: String)
    requires
        i <= ss@.len(),
    ensures
        out@ == spec_emit_strlist(str_views(ss@), i as int),
    decreases ss@.len() - i,
{
    let n = ss.len();
    if i >= n {
        let out = String::new();
        proof {
            assert(out@ =~= spec_emit_strlist(str_views(ss@), i as int));
        }
        return out;
    }
    let mut out = String::new();
    out.append("\"");
    out.append(ss[i].as_str());
    if i + 1 == n {
        out.append("\"");
    } else {
        out.append("\", ");
        let rest = emit_strlist(ss, i + 1);
        out.append(rest.as_str());
    }
    proof {
        assert(out@ =~= spec_emit_strlist(str_views(ss@), i as int));
    }
    out
}

fn emit_arms(ms: &Vec<Meeting>, i: usize) -> (out: String)
    requires
        i <= ms@.len(),
    ensures
        out@ == spec_emit_arms(meeting_views(ms@), i as int),
    decreases ms@.len() - i,
{
    let n = ms.len();
    if i >= n {
        let out = String::new();
        proof {
            assert(out@ =~= spec_emit_arms(meeting_views(ms@), i as int));
        }
        return out;
    }
    let mut out = String::new();
    out.append("    ");
    out.append(ms[i].description.as_str());
    out.append("(");
    out.append(ms[i].description.as_str());
    out.append("),\n");
    let rest = emit_arms(ms, i + 1);
    out.append(rest.as_str());
    proof {
        assert(out@ =~= spec_emit_arms(meeting_views(ms@), i as int));
    }
    out
}

fn emit_match_arms(ms: &Vec<Meeting>, i: usize) -> (out: String)
    requires
        i <= ms@.len(),
    ensures
        out@ == spec_emit_match_arms(meeting_views(ms@), i as int),
    decreases ms@.len() - i,
{
    let n = ms.len();
    if i >= n {
        let out = String::new();
        proof {
            assert(out@ =~= spec_emit_match_arms(meeting_views(ms@), i as int));
        }
        return out;
    }
    let mut out = String::new();
    out.append("            Self::");
    out.append(ms[i].description.as_str());
    out.append("(v) => v.attendees(),\n");
    let rest = emit_match_arms(ms, i + 1);
    out.append(rest.as_str());
    proof {
        assert(out@ =~= spec_emit_match_arms(meeting_views(ms@), i as int));
    }
    out
}

fn emit_variant(name: &String, ms: &Vec<Meeting>) -> (out: String)
    ensures
        out@ == spec_emit_variant(name@, meeting_views(ms@)),
{
    let mut out = String::new();
    out.append("pub enum ");
    out.append(name.as_str());
    out.append("Meetings {\n");
    let arms = emit_arms(ms, 0);
    out.append(arms.as_str());
    out.append("}\n\nimpl ");
    out.append(name.as_str());
    out.append(
        "Meetings {\n    pub fn attendees(&self) -> &'static [&'static str] {\n        match self {\n",
    );
    let match_arms = emit_match_arms(ms, 0);
    out.append(match_arms.as_str());
    out.append("        }\n    }\n}\n\n");
    proof {
        assert(out@ =~= spec_emit_variant(name@, meeting_views(ms@)));
    }
    out
}

fn emit_meeting(m: &Meeting) -> (out: String)
    ensures
        out@ == spec_emit_meeting(m@),
{
    let mut out = String::new();
    out.append("struct ");
    out.append(m.description.as_str());
    out.append(" {}\n\nimpl Default for ");
    out.append(m.description.as_str());
    out.append(" {\n    fn default() -> Self {\n        Self {}\n    }\n}\n\nimpl ");
    out.append(m.description.as_str());
    out.append(" {\n    pub fn attendees(&self) -> &'static [&'static str] {\n        &[");
    let att = emit_strlist(&m.attendees, 0);
    out.append(att.as_str());
    out.append("]\n    }\n");
    if m.topics.len() > 0 {
        out.append("\n    pub fn topics(&self) -> &'static [&'static str] {\n        &[");
        let top = emit_strlist(&m.topics, 0);
        out.append(top.as_str());
        out.append("]\n    }\n");
    }
    out.append("}\n\n");
    proof {
        assert(out@ =~= spec_emit_meeting(m@));
    }
    out
}

fn emit_meetings(ms: &Vec<Meeting>, i: usize) -> (out: String)
    requires
        i <= ms@.len(),
    ensures
        out@ == spec_emit_meetings(meeting_views(ms@), i as int),
    decreases ms@.len() - i,
{
    let n = ms.len();
    if i >= n {
        let out = String::new();
        proof {
            assert(out@ =~= spec_emit_meetings(meeting_views(ms@), i as int));
        }
        return out;
    }
    let mut out = emit_meeting(&ms[i]);
    let rest = emit_meetings(ms, i + 1);
    out.append(rest.as_str());
    proof {
        assert(out@ =~= spec_emit_meetings(meeting_views(ms@), i as int));
    }
    out
}

fn emit_instances(name: &String, ms: &Vec<Meeting>, i: usize) -> (out: String)
    requires
        i <= ms@.len(),
    ensures
        out@ == spec_emit_instances(name@, meeting_views(ms@), i as int),
    decreases ms@.len() - i,
{
    let n = ms.len();
    if i >= n {
        let out = String::new();
        proof {
            assert(out@ =~= spec_emit_instances(name@, meeting_views(ms@), i as int));
        }
        return out;
    }
    let mut out = String::new();
    out.append("                &");
    out.append(name.as_str());
    out.append("Meetings::");
    out.append(ms[i].description.as_str());
    out.append("(");
    out.append(ms[i].description.as_str());
    out.append("::default()),\n");
    let rest = emit_instances(name, ms, i + 1);
    out.append(rest.as_str());
    proof {
        assert(out@ =~= spec_emit_instances(name@, meeting_views(ms@), i as int));
    }
    out
}

fn emit_group_decl(name: &String) -> (out: String)
    ensures
        out@ == spec_emit_group_decl(name@),
{
    let mut out = String::new();
    out.append("pub struct ");
    out.append(name.as_str());
    out.append(" {\n    location: &'static str,\n    meetings: &'static [&'static ");
    out.append(name.as_str());
    out.append("Meetings],\n}\n\nimpl ");
    out.append(name.as_str());
    out.append(
        " {\n    pub fn location(&self) -> &'static str {\n        self.location\n    }\n    pub fn meetings(&self) -> &'static [&'static ",
    );
    out.append(name.as_str());
    out.append("Meetings] {\n        self.meetings\n    }\n}\n\n");
    proof {
        assert(out@ =~= spec_emit_group_decl(name@));
    }
    out
}

fn emit_default(g: &Group) -> (out: String)
    ensures
        out@ == spec_emit_default(g@),
{
    let mut out = String::new();
    out.append("impl Default for ");
    out.append(g.name.as_str());
    out.append(" {\n    fn default() -> Self {\n        Self {\n            location: \"");
    out.append(g.location.as_str());
    out.append("\",\n            meetings: &[\n");
    let insts = emit_instances(&g.name, &g.meetings, 0);
    out.append(insts.as_str());
    out.append("            ],\n        }\n    }\n}\n");
    proof {
        assert(out@ =~= spec_emit_default(g@));
    }
    out
}

/// Project one parsed group into the generated declaration text.
///
/// The output is pinned, character for character, by the group's view: equal
/// groups yield byte-identical output on every invocation.
pub fn emit_group(g: &Group) -> (out: String)
    ensures
        out@ == spec_emit_group(g@),
{
    let mut out = emit_variant(&g.name, &g.meetings);
    let meetings = emit_meetings(&g.meetings, 0);
    out.append(meetings.as_str());
    let decl = emit_group_decl(&g.name);
    out.append(decl.as_str());
    let dflt = emit_default(g);
    out.append(dflt.as_str());
    proof {
        assert(out@ =~= spec_emit_group(g@));
    }
    out
}

} // verus!
