//! The grammar parser: recursive descent over the token stream, one
//! procedure per nesting level of the grammar
//!
//! ```text
//! group       ::= IDENT '{' group_body '}'
//! group_body  ::= (pair (',' pair)* ','?)?
//! pair        ::= 'location' '=' STRING | 'meetings' '=' '[' meeting_list ']'
//! meeting_list::= (meeting (',' meeting)* ','?)?
//! meeting     ::= IDENT '{' meeting_body '}'
//! meeting_body::= (mpair (',' mpair)* ','?)?
//! mpair       ::= 'attendees' '=' '[' str_list ']' | 'topics' '=' '[' str_list ']'
//! str_list    ::= (STRING (',' STRING)* ','?)?
//! ```
//!
//! Each `sp_*` function is the specification twin of the matching `parse_*`
//! function. The body twins return, besides the parsed value, the number of
//! tokens consumed; a body or list parser stops at (and does not consume) the
//! closing delimiter of its level. Keys in a body may come in any order, but
//! each key may be given at most once: a duplicate key is malformed input and
//! is rejected with that level's grammar error, as are two meetings of the
//! same kind name, whose generated type names would collide. The
//! required-key and non-emptiness invariants are checked once the whole body
//! is consumed, so the error reflects the final accumulated state.

use vstd::prelude::*;

use crate::error::GenError;
use crate::model::distinct_kinds;
use crate::model::meeting_views;
use crate::model::str_views;
use crate::model::Group;
use crate::model::Meeting;
use crate::model::SGroup;
use crate::model::SMeeting;
use crate::symbol::Symbol;
use crate::token::views_of;
use crate::token::Token;
use crate::token::TokenView;

verus! {

/// Twin of [`parse_str_list`]: the contents of a bracket list of string
/// literals, from `i` up to the `]` at `i + consumed`.
pub open spec fn sp_str_list(ts: Seq<TokenView>, i: int) -> Result<(Seq<Seq<char>>, nat), GenError>
    decreases ts.len() - i, 0int,
{
    if i < 0 || i >= ts.len() {
        Err(GenError::MeetingGrammar)
    } else {
        match ts[i] {
            TokenView::CloseBracket => Ok((Seq::empty(), 0)),
            TokenView::StrLit(s) => {
                if i + 1 >= ts.len() {
                    Err(GenError::MeetingGrammar)
                } else if ts[i + 1] is CloseBracket {
                    Ok((seq![s], 1))
                } else if ts[i + 1] is Comma {
                    match sp_str_list(ts, i + 2) {
                        Ok((rest, c)) => Ok((seq![s] + rest, (2 + c) as nat)),
                        Err(e) => Err(e),
                    }
                } else {
                    Err(GenError::MeetingGrammar)
                }
            },
            TokenView::OtherLit => Err(GenError::Lexical),
            _ => Err(GenError::MeetingGrammar),
        }
    }
}

/// Twin of [`parse_meeting_body`]: `key = [...]` pairs from `i` up to the `}`
/// at `i + consumed`. The accumulators hold the lists seen so far; a key
/// already seen is a duplicate and is rejected, and an absent `topics` key
/// resolves to the empty list.
pub open spec fn sp_meeting_body(
    ts: Seq<TokenView>,
    i: int,
    att: Option<Seq<Seq<char>>>,
    top: Option<Seq<Seq<char>>>,
) -> Result<((Seq<Seq<char>>, Seq<Seq<char>>), nat), GenError>
    decreases ts.len() - i, 1int,
{
    if i < 0 || i >= ts.len() {
        Err(GenError::MeetingGrammar)
    } else {
        match ts[i] {
            TokenView::CloseBrace => {
                match att {
                    Some(a) => if a.len() > 0 {
                        Ok(
                            (
                                (
                                    a,
                                    match top {
                                        Some(t) => t,
                                        None => Seq::empty(),
                                    },
                                ),
                                0,
                            ),
                        )
                    } else {
                        Err(GenError::MeetingGrammar)
                    },
                    None => Err(GenError::MeetingGrammar),
                }
            },
            TokenView::Ident(k) => {
                if i + 2 >= ts.len() {
                    Err(GenError::MeetingGrammar)
                } else if !(ts[i + 1] is Equals) {
                    Err(GenError::MeetingGrammar)
                } else if k != "attendees"@ && k != "topics"@ {
                    Err(GenError::MeetingGrammar)
                } else if k == "attendees"@ && att is Some {
                    Err(GenError::MeetingGrammar)
                } else if k != "attendees"@ && top is Some {
                    Err(GenError::MeetingGrammar)
                } else if !(ts[i + 2] is OpenBracket) {
                    Err(GenError::MeetingGrammar)
                } else {
                    match sp_str_list(ts, i + 3) {
                        Err(e) => Err(e),
                        Ok((ss, c1)) => {
                            let att2 = if k == "attendees"@ {
                                Some(ss)
                            } else {
                                att
                            };
                            let top2 = if k == "attendees"@ {
                                top
                            } else {
                                Some(ss)
                            };
                            let p = i + 4 + c1;
                            if p >= ts.len() {
                                Err(GenError::MeetingGrammar)
                            } else if ts[p] is CloseBrace {
                                match sp_meeting_body(ts, p, att2, top2) {
                                    Ok((v, c2)) => Ok((v, (4 + c1 + c2) as nat)),
                                    Err(e) => Err(e),
                                }
                            } else if ts[p] is Comma {
                                match sp_meeting_body(ts, p + 1, att2, top2) {
                                    Ok((v, c2)) => Ok((v, (5 + c1 + c2) as nat)),
                                    Err(e) => Err(e),
                                }
                            } else {
                                Err(GenError::MeetingGrammar)
                            }
                        },
                    }
                }
            },
            _ => Err(GenError::MeetingGrammar),
        }
    }
}

/// Twin of [`parse_meeting`]: one meeting declaration starting at `i`; its
/// consumed count includes the closing `}`.
pub open spec fn sp_meeting(ts: Seq<TokenView>, i: int) -> Result<(SMeeting, nat), GenError>
    decreases ts.len() - i, 2int,
{
    if i < 0 || i + 1 >= ts.len() {
        Err(GenError::MeetingGrammar)
    } else {
        match ts[i] {
            TokenView::Ident(d) => {
                if !(ts[i + 1] is OpenBrace) {
                    Err(GenError::MeetingGrammar)
                } else {
                    match sp_meeting_body(ts, i + 2, None, None) {
                        Ok(((att, top), c)) => Ok(
                            (SMeeting { description: d, attendees: att, topics: top }, (3 + c) as nat),
                        ),
                        Err(e) => Err(e),
                    }
                }
            },
            _ => Err(GenError::MeetingGrammar),
        }
    }
}

/// Twin of [`parse_meeting_list`]: the contents of a `meetings` bracket list
/// from `i` up to the `]` at `i + consumed`. An empty list is legal at this
/// layer; the non-emptiness invariant belongs one layer up.
pub open spec fn sp_meeting_list(ts: Seq<TokenView>, i: int) -> Result<
    (Seq<SMeeting>, nat),
    GenError,
>
    decreases ts.len() - i, 3int,
{
    if i < 0 || i >= ts.len() {
        Err(GenError::GroupGrammar)
    } else if ts[i] is CloseBracket {
        Ok((Seq::empty(), 0))
    } else {
        match sp_meeting(ts, i) {
            Err(e) => Err(e),
            Ok((m, c)) => {
                let q = i + c;
                if q >= ts.len() {
                    Err(GenError::GroupGrammar)
                } else if ts[q] is CloseBracket {
                    Ok((seq![m], c))
                } else if ts[q] is Comma {
                    match sp_meeting_list(ts, q + 1) {
                        Ok((rest, c2)) => Ok((seq![m] + rest, (c + 1 + c2) as nat)),
                        Err(e) => Err(e),
                    }
                } else {
                    Err(GenError::GroupGrammar)
                }
            },
        }
    }
}

/// Twin of [`parse_group_body`]: `key = value` pairs from `i` up to the `}`
/// at `i + consumed`. The accumulators hold what was seen so far; a key
/// already seen is a duplicate and is rejected. Succeeds only when a
/// location was seen and the meeting list was seen and is non-empty.
pub open spec fn sp_group_body(
    ts: Seq<TokenView>,
    i: int,
    loc: Option<Seq<char>>,
    ms: Option<Seq<SMeeting>>,
) -> Result<((Seq<char>, Seq<SMeeting>), nat), GenError>
    decreases ts.len() - i, 4int,
{
    if i < 0 || i >= ts.len() {
        Err(GenError::GroupGrammar)
    } else {
        match ts[i] {
            TokenView::CloseBrace => {
                match (loc, ms) {
                    (Some(l), Some(m)) => if m.len() > 0 {
                        Ok(((l, m), 0))
                    } else {
                        Err(GenError::GroupGrammar)
                    },
                    _ => Err(GenError::GroupGrammar),
                }
            },
            TokenView::Ident(k) => {
                if i + 2 >= ts.len() {
                    Err(GenError::GroupGrammar)
                } else if !(ts[i + 1] is Equals) {
                    Err(GenError::GroupGrammar)
                } else if k == "location"@ {
                    if loc is Some {
                        Err(GenError::GroupGrammar)
                    } else {
                        match ts[i + 2] {
                            TokenView::StrLit(l) => {
                                let p = i + 3;
                                if p >= ts.len() {
                                    Err(GenError::GroupGrammar)
                                } else if ts[p] is CloseBrace {
                                    match sp_group_body(ts, p, Some(l), ms) {
                                        Ok((v, c)) => Ok((v, (3 + c) as nat)),
                                        Err(e) => Err(e),
                                    }
                                } else if ts[p] is Comma {
                                    match sp_group_body(ts, p + 1, Some(l), ms) {
                                        Ok((v, c)) => Ok((v, (4 + c) as nat)),
                                        Err(e) => Err(e),
                                    }
                                } else {
                                    Err(GenError::GroupGrammar)
                                }
                            },
                            TokenView::OtherLit => Err(GenError::Lexical),
                            _ => Err(GenError::GroupGrammar),
                        }
                    }
                } else if k == "meetings"@ {
                    if ms is Some {
                        Err(GenError::GroupGrammar)
                    } else if !(ts[i + 2] is OpenBracket) {
                        Err(GenError::GroupGrammar)
                    } else {
                        match sp_meeting_list(ts, i + 3) {
                            Err(e) => Err(e),
                            Ok((mlist, c1)) => {
                                let p = i + 4 + c1;
                                if p >= ts.len() {
                                    Err(GenError::GroupGrammar)
                                } else if ts[p] is CloseBrace {
                                    match sp_group_body(ts, p, loc, Some(mlist)) {
                                        Ok((v, c2)) => Ok((v, (4 + c1 + c2) as nat)),
                                        Err(e) => Err(e),
                                    }
                                } else if ts[p] is Comma {
                                    match sp_group_body(ts, p + 1, loc, Some(mlist)) {
                                        Ok((v, c2)) => Ok((v, (5 + c1 + c2) as nat)),
                                        Err(e) => Err(e),
                                    }
                                } else {
                                    Err(GenError::GroupGrammar)
                                }
                            },
                        }
                    }
                } else {
                    Err(GenError::GroupGrammar)
                }
            },
            _ => Err(GenError::GroupGrammar),
        }
    }
}

/// Twin of [`parse_group`]: one whole group declaration, which must span the
/// entire token sequence. Two meetings of the same kind name are rejected:
/// their generated type names would collide.
pub open spec fn spec_parse_group(ts: Seq<TokenView>) -> Result<SGroup, GenError> {
    if ts.len() < 2 {
        Err(GenError::GroupGrammar)
    } else {
        match ts[0] {
            TokenView::Ident(name) => {
                if !(ts[1] is OpenBrace) {
                    Err(GenError::GroupGrammar)
                } else {
                    match sp_group_body(ts, 2, None, None) {
                        Err(e) => Err(e),
                        Ok(((l, ms), c)) => {
                            if 2 + c + 1 != ts.len() {
                                Err(GenError::GroupGrammar)
                            } else if !distinct_kinds(ms) {
                                Err(GenError::GroupGrammar)
                            } else {
                                Ok(SGroup { name, location: l, meetings: ms })
                            }
                        },
                    }
                }
            },
            _ => Err(GenError::GroupGrammar),
        }
    }
}

fn tok_is_equals(t: &Token) -> (r: bool)
    ensures
        r == (t@ is Equals),
{
    matches!(t, Token::Equals)
}

fn tok_is_comma(t: &Token) -> (r: bool)
    ensures
        r == (t@ is Comma),
{
    matches!(t, Token::Comma)
}

fn tok_is_open_brace(t: &Token) -> (r: bool)
    ensures
        r == (t@ is OpenBrace),
{
    matches!(t, Token::OpenBrace)
}

fn tok_is_close_brace(t: &Token) -> (r: bool)
    ensures
        r == (t@ is CloseBrace),
{
    matches!(t, Token::CloseBrace)
}

fn tok_is_open_bracket(t: &Token) -> (r: bool)
    ensures
        r == (t@ is OpenBracket),
{
    matches!(t, Token::OpenBracket)
}

fn tok_is_close_bracket(t: &Token) -> (r: bool)
    ensures
        r == (t@ is CloseBracket),
{
    matches!(t, Token::CloseBracket)
}

fn parse_str_list(ts: &Vec<Token>, i: usize) -> (r: Result<(Vec<String>, usize), GenError>)
    requires
        i <= ts@.len(),
    ensures
        ({
            let s = sp_str_list(views_of(ts@), i as int);
            match r {
                Ok((v, j)) => s matches Ok(sv) && str_views(v@) == sv.0 && j == i + sv.1 && j
                    < ts@.len(),
                Err(e) => s == Err::<(Seq<Seq<char>>, nat), GenError>(e),
            }
        }),
    decreases ts@.len() - i, 0int,
{
    let n = ts.len();
    if i >= n {
        return Err(GenError::MeetingGrammar);
    }
    match &ts[i] {
        Token::CloseBracket => Ok((Vec::new(), i)),
        Token::StrLit(s) => {
            if i + 1 >= n {
                Err(GenError::MeetingGrammar)
            } else if tok_is_close_bracket(&ts[i + 1]) {
                let mut v: Vec<String> = Vec::new();
                v.push(s.clone());
                proof {
                    assert(str_views(v@) =~= seq![s@]);
                }
                Ok((v, i + 1))
            } else if tok_is_comma(&ts[i + 1]) {
                match parse_str_list(ts, i + 2) {
                    Ok((rest, j)) => {
                        let ghost rest0 = rest@;
                        let mut v = rest;
                        v.insert(0, s.clone());
                        proof {
                            assert(str_views(v@) =~= seq![s@] + str_views(rest0));
                        }
                        Ok((v, j))
                    },
                    Err(e) => Err(e),
                }
            } else {
                Err(GenError::MeetingGrammar)
            }
        },
        Token::OtherLit => Err(GenError::Lexical),
        _ => Err(GenError::MeetingGrammar),
    }
}

fn parse_meeting_body(
    ts: &Vec<Token>,
    i: usize,
    att: Option<Vec<String>>,
    top: Option<Vec<String>>,
) -> (r: Result<((Vec<String>, Vec<String>), usize), GenError>)
    requires
        i <= ts@.len(),
    ensures
        ({
            let s = sp_meeting_body(views_of(ts@), i as int, opt_str_views(att), opt_str_views(top));
            match r {
                Ok(((a, t), j)) => s matches Ok(sv) && str_views(a@) == sv.0.0 && str_views(t@)
                    == sv.0.1 && j == i + sv.1 && j < ts@.len(),
                Err(e) => s == Err::<((Seq<Seq<char>>, Seq<Seq<char>>), nat), GenError>(e),
            }
        }),
    decreases ts@.len() - i, 1int,
{
    let n = ts.len();
    if i >= n {
        return Err(GenError::MeetingGrammar);
    }
    match &ts[i] {
        Token::CloseBrace => {
            match att {
                Some(a) => {
                    if a.len() > 0 {
                        let t = match top {
                            Some(t) => t,
                            None => Vec::new(),
                        };
                        proof {
                            assert(str_views(Seq::<String>::empty()) =~= Seq::<Seq<char>>::empty());
                        }
                        Ok(((a, t), i))
                    } else {
                        Err(GenError::MeetingGrammar)
                    }
                },
                None => Err(GenError::MeetingGrammar),
            }
        },
        Token::Ident(k) => {
            if n - i < 3 {
                Err(GenError::MeetingGrammar)
            } else if !tok_is_equals(&ts[i + 1]) {
                Err(GenError::MeetingGrammar)
            } else {
                let is_att = Symbol::attendees().matches(k);
                let is_top = Symbol::topics().matches(k);
                if !is_att && !is_top {
                    Err(GenError::MeetingGrammar)
                } else if is_att && att.is_some() {
                    Err(GenError::MeetingGrammar)
                } else if !is_att && top.is_some() {
                    Err(GenError::MeetingGrammar)
                } else if !tok_is_open_bracket(&ts[i + 2]) {
                    Err(GenError::MeetingGrammar)
                } else {
                    match parse_str_list(ts, i + 3) {
                        Err(e) => Err(e),
                        Ok((ss, jlist)) => {
                            let (att2, top2) = if is_att {
                                (Some(ss), top)
                            } else {
                                (att, Some(ss))
                            };
                            let p = jlist + 1;
                            if p >= n {
                                Err(GenError::MeetingGrammar)
                            } else if tok_is_close_brace(&ts[p]) {
                                parse_meeting_body(ts, p, att2, top2)
                            } else if tok_is_comma(&ts[p]) {
                                parse_meeting_body(ts, p + 1, att2, top2)
                            } else {
                                Err(GenError::MeetingGrammar)
                            }
                        },
                    }
                }
            }
        },
        _ => Err(GenError::MeetingGrammar),
    }
}

fn parse_meeting(ts: &Vec<Token>, i: usize) -> (r: Result<(Meeting, usize), GenError>)
    requires
        i <= ts@.len(),
    ensures
        ({
            let s = sp_meeting(views_of(ts@), i as int);
            match r {
                Ok((m, j)) => s matches Ok(sv) && m@ == sv.0 && j == i + sv.1 && j <= ts@.len(),
                Err(e) => s == Err::<(SMeeting, nat), GenError>(e),
            }
        }),
    decreases ts@.len() - i, 2int,
{
    let n = ts.len();
    if i >= n || n - i < 2 {
        return Err(GenError::MeetingGrammar);
    }
    match &ts[i] {
        Token::Ident(d) => {
            if !tok_is_open_brace(&ts[i + 1]) {
                Err(GenError::MeetingGrammar)
            } else {
                match parse_meeting_body(ts, i + 2, None, None) {
                    Ok(((att, top), jb)) => {
                        let m = Meeting { description: d.clone(), attendees: att, topics: top };
                        Ok((m, jb + 1))
                    },
                    Err(e) => Err(e),
                }
            }
        },
        _ => Err(GenError::MeetingGrammar),
    }
}

fn parse_meeting_list(ts: &Vec<Token>, i: usize) -> (r: Result<(Vec<Meeting>, usize), GenError>)
    requires
        i <= ts@.len(),
    ensures
        ({
            let s = sp_meeting_list(views_of(ts@), i as int);
            match r {
                Ok((v, j)) => s matches Ok(sv) && meeting_views(v@) == sv.0 && j == i + sv.1 && j
                    < ts@.len(),
                Err(e) => s == Err::<(Seq<SMeeting>, nat), GenError>(e),
            }
        }),
    decreases ts@.len() - i, 3int,
{
    let n = ts.len();
    if i >= n {
        return Err(GenError::GroupGrammar);
    }
    if tok_is_close_bracket(&ts[i]) {
        let v: Vec<Meeting> = Vec::new();
        proof {
            assert(meeting_views(v@) =~= Seq::<SMeeting>::empty());
        }
        return Ok((v, i));
    }
    match parse_meeting(ts, i) {
        Err(e) => Err(e),
        Ok((m, q)) => {
            if q >= n {
                Err(GenError::GroupGrammar)
            } else if tok_is_close_bracket(&ts[q]) {
                let mut v: Vec<Meeting> = Vec::new();
                let ghost mv = m@;
                v.push(m);
                proof {
                    assert(meeting_views(v@) =~= seq![mv]);
                }
                Ok((v, q))
            } else if tok_is_comma(&ts[q]) {
                match parse_meeting_list(ts, q + 1) {
                    Ok((rest, j)) => {
                        let ghost rest0 = rest@;
                        let ghost mv = m@;
                        let mut v = rest;
                        v.insert(0, m);
                        proof {
                            assert(meeting_views(v@) =~= seq![mv] + meeting_views(rest0));
                        }
                        Ok((v, j))
                    },
                    Err(e) => Err(e),
                }
            } else {
                Err(GenError::GroupGrammar)
            }
        },
    }
}

fn parse_group_body(
    ts: &Vec<Token>,
    i: usize,
    loc: Option<String>,
    ms: Option<Vec<Meeting>>,
) -> (r: Result<((String, Vec<Meeting>), usize), GenError>)
    requires
        i <= ts@.len(),
    ensures
        ({
            let s = sp_group_body(views_of(ts@), i as int, loc_view(loc), opt_meeting_views(ms));
            match r {
                Ok(((l, v), j)) => s matches Ok(sv) && l@ == sv.0.0 && meeting_views(v@) == sv.0.1
                    && j == i + sv.1 && j < ts@.len(),
                Err(e) => s == Err::<((Seq<char>, Seq<SMeeting>), nat), GenError>(e),
            }
        }),
    decreases ts@.len() - i, 4int,
{
    let n = ts.len();
    if i >= n {
        return Err(GenError::GroupGrammar);
    }
    match &ts[i] {
        Token::CloseBrace => {
            match (loc, ms) {
                (Some(l), Some(m)) => {
                    if m.len() > 0 {
                        Ok(((l, m), i))
                    } else {
                        Err(GenError::GroupGrammar)
                    }
                },
                _ => Err(GenError::GroupGrammar),
            }
        },
        Token::Ident(k) => {
            if n - i < 3 {
                Err(GenError::GroupGrammar)
            } else if !tok_is_equals(&ts[i + 1]) {
                Err(GenError::GroupGrammar)
            } else if Symbol::location().matches(k) {
                if loc.is_some() {
                    Err(GenError::GroupGrammar)
                } else {
                    match &ts[i + 2] {
                        Token::StrLit(l) => {
                            let p = i + 3;
                            if p >= n {
                                Err(GenError::GroupGrammar)
                            } else if tok_is_close_brace(&ts[p]) {
                                parse_group_body(ts, p, Some(l.clone()), ms)
                            } else if tok_is_comma(&ts[p]) {
                                parse_group_body(ts, p + 1, Some(l.clone()), ms)
                            } else {
                                Err(GenError::GroupGrammar)
                            }
                        },
                        Token::OtherLit => Err(GenError::Lexical),
                        _ => Err(GenError::GroupGrammar),
                    }
                }
            } else if Symbol::meetings().matches(k) {
                if ms.is_some() {
                    Err(GenError::GroupGrammar)
                } else if !tok_is_open_bracket(&ts[i + 2]) {
                    Err(GenError::GroupGrammar)
                } else {
                    match parse_meeting_list(ts, i + 3) {
                        Err(e) => Err(e),
                        Ok((mlist, jlist)) => {
                            let p = jlist + 1;
                            if p >= n {
                                Err(GenError::GroupGrammar)
                            } else if tok_is_close_brace(&ts[p]) {
                                parse_group_body(ts, p, loc, Some(mlist))
                            } else if tok_is_comma(&ts[p]) {
                                parse_group_body(ts, p + 1, loc, Some(mlist))
                            } else {
                                Err(GenError::GroupGrammar)
                            }
                        },
                    }
                }
            } else {
                Err(GenError::GroupGrammar)
            }
        },
        _ => Err(GenError::GroupGrammar),
    }
}

/// The view of an optional accumulated location.
pub open spec fn loc_view(o: Option<String>) -> Option<Seq<char>> {
    match o {
        Some(s) => Some(s@),
        None => None,
    }
}

/// The views of an optional accumulated string list.
pub open spec fn opt_str_views(o: Option<Vec<String>>) -> Option<Seq<Seq<char>>> {
    match o {
        Some(v) => Some(str_views(v@)),
        None => None,
    }
}

/// The views of an optional accumulated meeting list.
pub open spec fn opt_meeting_views(o: Option<Vec<Meeting>>) -> Option<Seq<SMeeting>> {
    match o {
        Some(v) => Some(meeting_views(v@)),
        None => None,
    }
}

/// No two meetings of `ms` share a kind name; twin condition
/// [`distinct_kinds`].
fn distinct_kinds_check(ms: &Vec<Meeting>) -> (r: bool)
    ensures
        r == distinct_kinds(meeting_views(ms@)),
{
    let n = ms.len();
    let mut a: usize = 0;
    while a < n
        invariant
            a <= n,
            n == ms@.len(),
            forall|x: int, y: int|
                0 <= x < y < ms@.len() && x < a ==> meeting_views(ms@)[x].description
                    != meeting_views(ms@)[y].description,
        decreases n - a,
    {
        let mut b: usize = a + 1;
        while b < n
            invariant
                a < n,
                a < b <= n,
                n == ms@.len(),
                forall|y: int|
                    a < y < b ==> meeting_views(ms@)[a as int].description != meeting_views(
                        ms@,
                    )[y].description,
            decreases n - b,
        {
            let da = &ms[a].description;
            let db = &ms[b].description;
            if *da == *db {
                proof {
                    assert(meeting_views(ms@)[a as int].description == meeting_views(
                        ms@,
                    )[b as int].description);
                }
                return false;
            }
            b += 1;
        }
        a += 1;
    }
    true
}

/// Parse one whole group declaration from a token stream.
///
/// Succeeds exactly when the twin [`spec_parse_group`] does, with the parsed
/// group's view equal to its result; a parsed group always satisfies its
/// invariant [`SGroup::wf`].
pub fn parse_group(ts: &Vec<Token>) -> (r: Result<Group, GenError>)
    ensures
        ({
            let s = spec_parse_group(views_of(ts@));
            match r {
                Ok(g) => s == Ok::<SGroup, GenError>(g@) && g@.wf(),
                Err(e) => s == Err::<SGroup, GenError>(e),
            }
        }),
{
    let n = ts.len();
    if n < 2 {
        return Err(GenError::GroupGrammar);
    }
    match &ts[0] {
        Token::Ident(name) => {
            if !tok_is_open_brace(&ts[1]) {
                Err(GenError::GroupGrammar)
            } else {
                match parse_group_body(ts, 2, None, None) {
                    Err(e) => Err(e),
                    Ok(((l, ms), jb)) => {
                        if jb + 1 != n {
                            Err(GenError::GroupGrammar)
                        } else if !distinct_kinds_check(&ms) {
                            Err(GenError::GroupGrammar)
                        } else {
                            let g = Group { name: name.clone(), location: l, meetings: ms };
                            proof {
                                lemma_group_body_wf(views_of(ts@), 2, None, None);
                            }
                            Ok(g)
                        }
                    },
                }
            }
        },
        _ => Err(GenError::GroupGrammar),
    }
}

/// A meeting body never parses successfully with an empty accumulated
/// attendee list: `attendees = []`, or a missing `attendees` key, is rejected
/// with the meeting-level grammar error.
pub proof fn lemma_meeting_body_wf(
    ts: Seq<TokenView>,
    i: int,
    att: Option<Seq<Seq<char>>>,
    top: Option<Seq<Seq<char>>>,
)
    ensures
        sp_meeting_body(ts, i, att, top) matches Ok((v, c)) ==> v.0.len() > 0,
    decreases ts.len() - i, 1int,
{
    if i < 0 || i >= ts.len() {
    } else {
        match ts[i] {
            TokenView::Ident(k) => {
                if i + 2 >= ts.len() || !(ts[i + 1] is Equals) || (k != "attendees"@ && k
                    != "topics"@) || !(ts[i + 2] is OpenBracket) {
                } else {
                    match sp_str_list(ts, i + 3) {
                        Err(_) => {},
                        Ok((ss, c1)) => {
                            let att2 = if k == "attendees"@ {
                                Some(ss)
                            } else {
                                att
                            };
                            let top2 = if k == "attendees"@ {
                                top
                            } else {
                                Some(ss)
                            };
                            let p = i + 4 + c1;
                            if p < ts.len() {
                                lemma_meeting_body_wf(ts, p, att2, top2);
                                lemma_meeting_body_wf(ts, p + 1, att2, top2);
                            }
                        },
                    }
                }
            },
            _ => {},
        }
    }
}

/// A parsed meeting satisfies its invariant: its attendee list is non-empty.
pub proof fn lemma_meeting_wf(ts: Seq<TokenView>, i: int)
    ensures
        sp_meeting(ts, i) matches Ok((m, c)) ==> m.wf(),
{
    if 0 <= i && i + 1 < ts.len() {
        lemma_meeting_body_wf(ts, i + 2, None, None);
    }
}

/// Every meeting of a parsed meeting list satisfies its invariant.
pub proof fn lemma_meeting_list_wf(ts: Seq<TokenView>, i: int)
    ensures
        sp_meeting_list(ts, i) matches Ok((v, c)) ==> forall|j: int|
            0 <= j < v.len() ==> v[j].wf(),
    decreases ts.len() - i, 3int,
{
    if i < 0 || i >= ts.len() {
    } else if ts[i] is CloseBracket {
    } else {
        lemma_meeting_wf(ts, i);
        match sp_meeting(ts, i) {
            Err(_) => {},
            Ok((m, c)) => {
                let q = i + c;
                if q < ts.len() && ts[q] is Comma {
                    lemma_meeting_list_wf(ts, q + 1);
                }
            },
        }
    }
}

/// A group body never parses successfully with an empty or absent meeting
/// list, and every meeting of its result satisfies its invariant:
/// `meetings = []`, or a missing `meetings` or `location` key, is rejected
/// with the group-level grammar error.
pub proof fn lemma_group_body_wf(
    ts: Seq<TokenView>,
    i: int,
    loc: Option<Seq<char>>,
    ms: Option<Seq<SMeeting>>,
)
    requires
        ms matches Some(m) ==> forall|j: int| 0 <= j < m.len() ==> m[j].wf(),
    ensures
        sp_group_body(ts, i, loc, ms) matches Ok((v, c)) ==> v.1.len() > 0 && (forall|j: int|
            0 <= j < v.1.len() ==> v.1[j].wf()),
    decreases ts.len() - i, 4int,
{
    if i < 0 || i >= ts.len() {
    } else {
        match ts[i] {
            TokenView::Ident(k) => {
                if i + 2 >= ts.len() || !(ts[i + 1] is Equals) {
                } else if k == "location"@ {
                    match ts[i + 2] {
                        TokenView::StrLit(l) => {
                            let p = i + 3;
                            if p < ts.len() {
                                lemma_group_body_wf(ts, p, Some(l), ms);
                                lemma_group_body_wf(ts, p + 1, Some(l), ms);
                            }
                        },
                        _ => {},
                    }
                } else if k == "meetings"@ {
                    if i + 2 < ts.len() && ts[i + 2] is OpenBracket {
                        lemma_meeting_list_wf(ts, i + 3);
                        match sp_meeting_list(ts, i + 3) {
                            Err(_) => {},
                            Ok((mlist, c1)) => {
                                let p = i + 4 + c1;
                                if p < ts.len() {
                                    lemma_group_body_wf(ts, p, loc, Some(mlist));
                                    lemma_group_body_wf(ts, p + 1, loc, Some(mlist));
                                }
                            },
                        }
                    }
                } else {
                }
            },
            _ => {},
        }
    }
}

/// A successfully parsed group satisfies its invariant: a non-empty meeting
/// list whose meetings each have a non-empty attendee list and whose kind
/// names are pairwise distinct.
pub proof fn lemma_parse_group_wf(ts: Seq<TokenView>)
    ensures
        spec_parse_group(ts) matches Ok(g) ==> g.wf(),
{
    if ts.len() >= 2 {
        lemma_group_body_wf(ts, 2, None, None);
    }
}

/// A group body whose next pair starts with any key other than `location` or
/// `meetings` is rejected with the group-level grammar error.
pub proof fn lemma_group_unknown_key(
    ts: Seq<TokenView>,
    i: int,
    loc: Option<Seq<char>>,
    ms: Option<Seq<SMeeting>>,
    k: Seq<char>,
)
    requires
        0 <= i < ts.len(),
        ts[i] == TokenView::Ident(k),
        k != "location"@,
        k != "meetings"@,
    ensures
        sp_group_body(ts, i, loc, ms) == Err::<((Seq<char>, Seq<SMeeting>), nat), GenError>(
            GenError::GroupGrammar,
        ),
{
}

/// The grammar's key words are pairwise distinct.
proof fn lemma_keys_differ()
    ensures
        "meetings"@ != "location"@,
        "attendees"@ != "topics"@,
{
    reveal_strlit("meetings");
    reveal_strlit("location");
    reveal_strlit("attendees");
    reveal_strlit("topics");
    assert("meetings"@[0] == 'm' && "location"@[0] == 'l');
    assert("attendees"@[0] == 'a' && "topics"@[0] == 't');
}

/// A group body whose next pair repeats the `location` key is rejected with
/// the group-level grammar error: `location` must be present exactly once.
pub proof fn lemma_group_duplicate_location(
    ts: Seq<TokenView>,
    i: int,
    loc: Option<Seq<char>>,
    ms: Option<Seq<SMeeting>>,
)
    requires
        0 <= i < ts.len(),
        ts[i] == TokenView::Ident("location"@),
        loc is Some,
    ensures
        sp_group_body(ts, i, loc, ms) == Err::<((Seq<char>, Seq<SMeeting>), nat), GenError>(
            GenError::GroupGrammar,
        ),
{
}

/// A group body whose next pair repeats the `meetings` key is rejected with
/// the group-level grammar error.
pub proof fn lemma_group_duplicate_meetings(
    ts: Seq<TokenView>,
    i: int,
    loc: Option<Seq<char>>,
    ms: Option<Seq<SMeeting>>,
)
    requires
        0 <= i < ts.len(),
        ts[i] == TokenView::Ident("meetings"@),
        ms is Some,
    ensures
        sp_group_body(ts, i, loc, ms) == Err::<((Seq<char>, Seq<SMeeting>), nat), GenError>(
            GenError::GroupGrammar,
        ),
{
    lemma_keys_differ();
}

/// A meeting body whose next pair repeats the `attendees` or the `topics`
/// key is rejected with the meeting-level grammar error.
pub proof fn lemma_meeting_duplicate_key(
    ts: Seq<TokenView>,
    i: int,
    att: Option<Seq<Seq<char>>>,
    top: Option<Seq<Seq<char>>>,
    k: Seq<char>,
)
    requires
        0 <= i < ts.len(),
        ts[i] == TokenView::Ident(k),
        (k == "attendees"@ && att is Some) || (k == "topics"@ && top is Some),
    ensures
        sp_meeting_body(ts, i, att, top) == Err::<
            ((Seq<Seq<char>>, Seq<Seq<char>>), nat),
            GenError,
        >(GenError::MeetingGrammar),
{
    lemma_keys_differ();
}

/// A successful string-list run stops at its closing bracket, in bounds.
pub proof fn lemma_str_list_stop(ts: Seq<TokenView>, i: int)
    ensures
        sp_str_list(ts, i) matches Ok((ss, c)) ==> i + c < ts.len() && ts[i + c] is CloseBracket,
    decreases ts.len() - i,
{
    if 0 <= i && i < ts.len() {
        match ts[i] {
            TokenView::StrLit(s) => {
                if i + 1 < ts.len() && ts[i + 1] is Comma {
                    lemma_str_list_stop(ts, i + 2);
                }
            },
            _ => {},
        }
    }
}

/// A successful meeting-body run stops at its closing brace, in bounds, and
/// a non-degenerate run consumes at least one whole pair.
pub proof fn lemma_meeting_body_stop(
    ts: Seq<TokenView>,
    i: int,
    att: Option<Seq<Seq<char>>>,
    top: Option<Seq<Seq<char>>>,
)
    ensures
        sp_meeting_body(ts, i, att, top) matches Ok((v, c)) ==> i + c < ts.len() && ts[i + c]
            is CloseBrace && (c == 0 || c >= 4),
    decreases ts.len() - i, 1int,
{
    if 0 <= i && i < ts.len() {
        match ts[i] {
            TokenView::Ident(k) => {
                if i + 2 < ts.len() && ts[i + 1] is Equals && (k == "attendees"@ || k
                    == "topics"@) && ts[i + 2] is OpenBracket {
                    match sp_str_list(ts, i + 3) {
                        Err(_) => {},
                        Ok((ss, c1)) => {
                            let att2 = if k == "attendees"@ {
                                Some(ss)
                            } else {
                                att
                            };
                            let top2 = if k == "attendees"@ {
                                top
                            } else {
                                Some(ss)
                            };
                            let p = i + 4 + c1;
                            if p < ts.len() {
                                lemma_meeting_body_stop(ts, p, att2, top2);
                                lemma_meeting_body_stop(ts, p + 1, att2, top2);
                            }
                        },
                    }
                }
            },
            _ => {},
        }
    }
}

/// A successful meeting run consumes at least its header and closing brace,
/// ends in bounds, and its last consumed token is that closing brace.
pub proof fn lemma_meeting_stop(ts: Seq<TokenView>, i: int)
    ensures
        sp_meeting(ts, i) matches Ok((m, c)) ==> i + c <= ts.len() && c >= 3 && ts[i + c - 1]
            is CloseBrace,
{
    if 0 <= i && i + 1 < ts.len() {
        lemma_meeting_body_stop(ts, i + 2, None, None);
    }
}

/// A successful meeting-list run stops at its closing bracket, in bounds.
pub proof fn lemma_meeting_list_stop(ts: Seq<TokenView>, i: int)
    ensures
        sp_meeting_list(ts, i) matches Ok((v, c)) ==> i + c < ts.len() && ts[i + c]
            is CloseBracket,
    decreases ts.len() - i, 3int,
{
    if 0 <= i && i < ts.len() && !(ts[i] is CloseBracket) {
        match sp_meeting(ts, i) {
            Err(_) => {},
            Ok((m, c)) => {
                let q = i + c;
                if q < ts.len() && ts[q] is Comma {
                    lemma_meeting_list_stop(ts, q + 1);
                }
            },
        }
    }
}

/// A successful group-body run stops at its closing brace, in bounds, and
/// a non-degenerate run consumes at least one whole pair.
pub proof fn lemma_group_body_stop(
    ts: Seq<TokenView>,
    i: int,
    loc: Option<Seq<char>>,
    ms: Option<Seq<SMeeting>>,
)
    ensures
        sp_group_body(ts, i, loc, ms) matches Ok((v, c)) ==> i + c < ts.len() && ts[i + c]
            is CloseBrace && (c == 0 || c >= 3),
    decreases ts.len() - i, 4int,
{
    if 0 <= i && i < ts.len() {
        match ts[i] {
            TokenView::Ident(k) => {
                if i + 2 < ts.len() && ts[i + 1] is Equals {
                    if k == "location"@ {
                        match ts[i + 2] {
                            TokenView::StrLit(l) => {
                                let p = i + 3;
                                if p < ts.len() {
                                    lemma_group_body_stop(ts, p, Some(l), ms);
                                    lemma_group_body_stop(ts, p + 1, Some(l), ms);
                                }
                            },
                            _ => {},
                        }
                    } else if k == "meetings"@ && ts[i + 2] is OpenBracket {
                        match sp_meeting_list(ts, i + 3) {
                            Err(_) => {},
                            Ok((mlist, c1)) => {
                                let p = i + 4 + c1;
                                if p < ts.len() {
                                    lemma_group_body_stop(ts, p, loc, Some(mlist));
                                    lemma_group_body_stop(ts, p + 1, loc, Some(mlist));
                                }
                            },
                        }
                    }
                }
            },
            _ => {},
        }
    }
}

/// An error-free string-list run reads only the tokens of its own extent: it
/// comes out the same on any token sequence that agrees there.
pub proof fn lemma_str_list_frame(ts: Seq<TokenView>, ts2: Seq<TokenView>, i: int)
    requires
        sp_str_list(ts, i) is Ok,
        i + sp_str_list(ts, i)->Ok_0.1 < ts2.len(),
        forall|k: int| i <= k <= i + sp_str_list(ts, i)->Ok_0.1 ==> ts2[k] == ts[k],
    ensures
        sp_str_list(ts2, i) == sp_str_list(ts, i),
    decreases ts.len() - i, 0int,
{
    let c = sp_str_list(ts, i)->Ok_0.1;
    match ts[i] {
        TokenView::CloseBracket => {},
        TokenView::StrLit(s) => {
            if ts[i + 1] is CloseBracket {
            } else {
                assert(ts[i + 1] is Comma);
                lemma_str_list_frame(ts, ts2, i + 2);
            }
        },
        _ => {
            assert(false);
        },
    }
}

/// An error-free meeting-body run reads only the tokens of its own extent.
pub proof fn lemma_meeting_body_frame(
    ts: Seq<TokenView>,
    ts2: Seq<TokenView>,
    i: int,
    att: Option<Seq<Seq<char>>>,
    top: Option<Seq<Seq<char>>>,
)
    requires
        sp_meeting_body(ts, i, att, top) is Ok,
        i + sp_meeting_body(ts, i, att, top)->Ok_0.1 < ts2.len(),
        forall|k: int|
            i <= k <= i + sp_meeting_body(ts, i, att, top)->Ok_0.1 ==> ts2[k] == ts[k],
    ensures
        sp_meeting_body(ts2, i, att, top) == sp_meeting_body(ts, i, att, top),
    decreases ts.len() - i, 1int,
{
    let c = sp_meeting_body(ts, i, att, top)->Ok_0.1;
    match ts[i] {
        TokenView::CloseBrace => {},
        TokenView::Ident(k) => {
            let sub = sp_str_list(ts, i + 3);
            assert(sub is Ok);
            let c1 = sub->Ok_0.1;
            let ss = sub->Ok_0.0;
            lemma_str_list_stop(ts, i + 3);
            lemma_str_list_frame(ts, ts2, i + 3);
            let att2 = if k == "attendees"@ {
                Some(ss)
            } else {
                att
            };
            let top2 = if k == "attendees"@ {
                top
            } else {
                Some(ss)
            };
            let p = i + 4 + c1;
            if ts[p] is CloseBrace {
                lemma_meeting_body_frame(ts, ts2, p, att2, top2);
            } else {
                assert(ts[p] is Comma);
                lemma_meeting_body_frame(ts, ts2, p + 1, att2, top2);
            }
        },
        _ => {
            assert(false);
        },
    }
}

/// An error-free meeting run reads only the tokens of its own extent.
pub proof fn lemma_meeting_frame(ts: Seq<TokenView>, ts2: Seq<TokenView>, i: int)
    requires
        sp_meeting(ts, i) is Ok,
        i + sp_meeting(ts, i)->Ok_0.1 <= ts2.len(),
        forall|k: int| i <= k < i + sp_meeting(ts, i)->Ok_0.1 ==> ts2[k] == ts[k],
    ensures
        sp_meeting(ts2, i) == sp_meeting(ts, i),
{
    lemma_meeting_body_stop(ts, i + 2, None, None);
    lemma_meeting_body_frame(ts, ts2, i + 2, None, None);
}

/// An error-free meeting-list run reads only the tokens of its own extent.
pub proof fn lemma_meeting_list_frame(ts: Seq<TokenView>, ts2: Seq<TokenView>, i: int)
    requires
        sp_meeting_list(ts, i) is Ok,
        i + sp_meeting_list(ts, i)->Ok_0.1 < ts2.len(),
        forall|k: int| i <= k <= i + sp_meeting_list(ts, i)->Ok_0.1 ==> ts2[k] == ts[k],
    ensures
        sp_meeting_list(ts2, i) == sp_meeting_list(ts, i),
    decreases ts.len() - i, 3int,
{
    if ts[i] is CloseBracket {
    } else {
        let sub = sp_meeting(ts, i);
        assert(sub is Ok);
        let c = sub->Ok_0.1;
        lemma_meeting_stop(ts, i);
        lemma_meeting_frame(ts, ts2, i);
        let q = i + c;
        if ts[q] is CloseBracket {
        } else {
            assert(ts[q] is Comma);
            lemma_meeting_list_frame(ts, ts2, q + 1);
        }
    }
}

/// Trailing-comma tolerance at the string-list layer: a non-empty string
/// list parsed without a trailing comma parses to the same strings, and to
/// the same error-free outcome, when one extra trailing comma is added after
/// its last element; the run consumes exactly the one extra token.
pub proof fn lemma_str_list_trailing_comma(ts: Seq<TokenView>, i: int, ss: Seq<Seq<char>>, c: nat)
    requires
        sp_str_list(ts, i) == Ok::<(Seq<Seq<char>>, nat), GenError>((ss, c)),
        c >= 1,
        !(ts[i + c - 1] is Comma),
    ensures
        sp_str_list(ts.insert(i + c, TokenView::Comma), i) == Ok::<
            (Seq<Seq<char>>, nat),
            GenError,
        >((ss, (c + 1) as nat)),
    decreases ts.len() - i,
{
    lemma_str_list_stop(ts, i);
    let p = i + c;
    let ts2 = ts.insert(p, TokenView::Comma);
    ts.insert_ensures(p, TokenView::Comma);
    match ts[i] {
        TokenView::StrLit(s) => {
            if ts[i + 1] is CloseBracket {
                assert(c == 1);
                assert(ts2[i] == ts[i]);
                assert(ts2[i + 1] == TokenView::Comma);
                assert(ts2[i + 2] == ts[i + 1]);
                assert(sp_str_list(ts2, i + 2) == Ok::<(Seq<Seq<char>>, nat), GenError>(
                    (Seq::empty(), 0),
                ));
                assert(seq![s] + Seq::<Seq<char>>::empty() =~= seq![s]);
            } else {
                assert(ts[i + 1] is Comma);
                let sub = sp_str_list(ts, i + 2);
                let rest = sub->Ok_0.0;
                let c3 = sub->Ok_0.1;
                lemma_str_list_stop(ts, i + 2);
                if c3 == 0 {
                    assert(ts[p - 1] is Comma);
                    assert(false);
                }
                lemma_str_list_trailing_comma(ts, i + 2, rest, c3);
                assert(ts2[i] == ts[i]);
                assert(ts2[i + 1] == ts[i + 1]);
                assert(sp_str_list(ts2, i + 2) == Ok::<(Seq<Seq<char>>, nat), GenError>(
                    (rest, (c3 + 1) as nat),
                ));
            }
        },
        _ => {
            assert(false);
        },
    }
}

/// What a meeting-body run yields when it starts at its closing brace.
proof fn lemma_meeting_body_at_close(
    ts: Seq<TokenView>,
    i: int,
    att: Option<Seq<Seq<char>>>,
    top: Option<Seq<Seq<char>>>,
)
    requires
        0 <= i < ts.len(),
        ts[i] is CloseBrace,
    ensures
        sp_meeting_body(ts, i, att, top) == (match att {
            Some(a) => if a.len() > 0 {
                Ok::<((Seq<Seq<char>>, Seq<Seq<char>>), nat), GenError>(
                    (
                        (
                            a,
                            match top {
                                Some(t) => t,
                                None => Seq::empty(),
                            },
                        ),
                        0,
                    ),
                )
            } else {
                Err::<((Seq<Seq<char>>, Seq<Seq<char>>), nat), GenError>(GenError::MeetingGrammar)
            },
            None => Err::<((Seq<Seq<char>>, Seq<Seq<char>>), nat), GenError>(
                GenError::MeetingGrammar,
            ),
        }),
{
}

/// What a group-body run yields when it starts at its closing brace.
proof fn lemma_group_body_at_close(
    ts: Seq<TokenView>,
    i: int,
    loc: Option<Seq<char>>,
    ms: Option<Seq<SMeeting>>,
)
    requires
        0 <= i < ts.len(),
        ts[i] is CloseBrace,
    ensures
        sp_group_body(ts, i, loc, ms) == (match (loc, ms) {
            (Some(l), Some(m)) => if m.len() > 0 {
                Ok::<((Seq<char>, Seq<SMeeting>), nat), GenError>(((l, m), 0))
            } else {
                Err::<((Seq<char>, Seq<SMeeting>), nat), GenError>(GenError::GroupGrammar)
            },
            _ => Err::<((Seq<char>, Seq<SMeeting>), nat), GenError>(GenError::GroupGrammar),
        }),
{
}

/// Trailing-comma tolerance at the meeting-body layer: a body run that ends
/// without a trailing comma after its last pair parses to the same lists
/// when one extra trailing comma is added before its closing brace.
pub proof fn lemma_meeting_body_trailing_comma(
    ts: Seq<TokenView>,
    i: int,
    att: Option<Seq<Seq<char>>>,
    top: Option<Seq<Seq<char>>>,
    v: (Seq<Seq<char>>, Seq<Seq<char>>),
    c: nat,
)
    requires
        sp_meeting_body(ts, i, att, top) == Ok::<((Seq<Seq<char>>, Seq<Seq<char>>), nat), GenError>(
            (v, c),
        ),
        c >= 1,
        !(ts[i + c - 1] is Comma),
    ensures
        sp_meeting_body(ts.insert(i + c, TokenView::Comma), i, att, top) == Ok::<
            ((Seq<Seq<char>>, Seq<Seq<char>>), nat),
            GenError,
        >((v, (c + 1) as nat)),
    decreases ts.len() - i,
{
    lemma_meeting_body_stop(ts, i, att, top);
    let pins = i + c;
    let ts2 = ts.insert(pins, TokenView::Comma);
    ts.insert_ensures(pins, TokenView::Comma);
    match ts[i] {
        TokenView::Ident(k) => {
            let sub = sp_str_list(ts, i + 3);
            let ss = sub->Ok_0.0;
            let c1 = sub->Ok_0.1;
            lemma_str_list_stop(ts, i + 3);
            lemma_str_list_frame(ts, ts2, i + 3);
            let att2 = if k == "attendees"@ {
                Some(ss)
            } else {
                att
            };
            let top2 = if k == "attendees"@ {
                top
            } else {
                Some(ss)
            };
            let p = i + 4 + c1;
            if ts[p] is CloseBrace {
                lemma_meeting_body_at_close(ts, p, att2, top2);
                assert(att2 matches Some(a) && a.len() > 0);
                assert(p == pins);
                assert(ts2[p] == TokenView::Comma);
                assert(ts2[p + 1] == ts[p]);
                lemma_meeting_body_at_close(ts2, p + 1, att2, top2);
            } else {
                assert(ts[p] is Comma);
                let rec = sp_meeting_body(ts, p + 1, att2, top2);
                let c2 = rec->Ok_0.1;
                lemma_meeting_body_stop(ts, p + 1, att2, top2);
                if c2 == 0 {
                    assert(ts[pins - 1] is Comma);
                    assert(false);
                }
                lemma_meeting_body_trailing_comma(ts, p + 1, att2, top2, rec->Ok_0.0, c2);
                assert(ts2[p] == ts[p]);
            }
        },
        _ => {
            assert(false);
        },
    }
}

/// Trailing-comma tolerance at the meeting-list layer: a non-empty meeting
/// list parsed without a trailing comma parses to the same meetings when one
/// extra trailing comma is added after its last meeting.
pub proof fn lemma_meeting_list_trailing_comma(ts: Seq<TokenView>, i: int, v: Seq<SMeeting>, c: nat)
    requires
        sp_meeting_list(ts, i) == Ok::<(Seq<SMeeting>, nat), GenError>((v, c)),
        c >= 1,
        !(ts[i + c - 1] is Comma),
    ensures
        sp_meeting_list(ts.insert(i + c, TokenView::Comma), i) == Ok::<
            (Seq<SMeeting>, nat),
            GenError,
        >((v, (c + 1) as nat)),
    decreases ts.len() - i,
{
    lemma_meeting_list_stop(ts, i);
    let pins = i + c;
    let ts2 = ts.insert(pins, TokenView::Comma);
    ts.insert_ensures(pins, TokenView::Comma);
    if ts[i] is CloseBracket {
        assert(false);
    } else {
        let sub = sp_meeting(ts, i);
        let m = sub->Ok_0.0;
        let cm = sub->Ok_0.1;
        lemma_meeting_stop(ts, i);
        lemma_meeting_frame(ts, ts2, i);
        let q = i + cm;
        if ts[q] is CloseBracket {
            assert(q == pins);
            assert(ts2[q] == TokenView::Comma);
            assert(ts2[q + 1] == ts[q]);
            assert(sp_meeting_list(ts2, q + 1) == Ok::<(Seq<SMeeting>, nat), GenError>(
                (Seq::empty(), 0),
            ));
            assert(seq![m] + Seq::<SMeeting>::empty() =~= seq![m]);
        } else {
            assert(ts[q] is Comma);
            let rec = sp_meeting_list(ts, q + 1);
            let c3 = rec->Ok_0.1;
            lemma_meeting_list_stop(ts, q + 1);
            if c3 == 0 {
                assert(ts[pins - 1] is Comma);
                assert(false);
            }
            lemma_meeting_list_trailing_comma(ts, q + 1, rec->Ok_0.0, c3);
            assert(ts2[q] == ts[q]);
        }
    }
}

/// Trailing-comma tolerance at the group-body layer: a body run that ends
/// without a trailing comma after its last pair parses to the same location
/// and meetings when one extra trailing comma is added before its closing
/// brace.
pub proof fn lemma_group_body_trailing_comma(
    ts: Seq<TokenView>,
    i: int,
    loc: Option<Seq<char>>,
    ms: Option<Seq<SMeeting>>,
    v: (Seq<char>, Seq<SMeeting>),
    c: nat,
)
    requires
        sp_group_body(ts, i, loc, ms) == Ok::<((Seq<char>, Seq<SMeeting>), nat), GenError>((v, c)),
        c >= 1,
        !(ts[i + c - 1] is Comma),
    ensures
        sp_group_body(ts.insert(i + c, TokenView::Comma), i, loc, ms) == Ok::<
            ((Seq<char>, Seq<SMeeting>), nat),
            GenError,
        >((v, (c + 1) as nat)),
    decreases ts.len() - i, 1int,
{
    lemma_group_body_stop(ts, i, loc, ms);
    match ts[i] {
        TokenView::Ident(k) => {
            if k == "location"@ {
                match ts[i + 2] {
                    TokenView::StrLit(l) => {
                        lemma_group_body_tc_location(ts, i, loc, ms, v, c, l);
                    },
                    _ => {
                        assert(false);
                    },
                }
            } else {
                assert(k == "meetings"@);
                lemma_group_body_tc_meetings(ts, i, loc, ms, v, c);
            }
        },
        _ => {
            assert(false);
        },
    }
}

/// The `location` pair case of [`lemma_group_body_trailing_comma`].
#[verifier::rlimit(50)]
proof fn lemma_group_body_tc_location(
    ts: Seq<TokenView>,
    i: int,
    loc: Option<Seq<char>>,
    ms: Option<Seq<SMeeting>>,
    v: (Seq<char>, Seq<SMeeting>),
    c: nat,
    l: Seq<char>,
)
    requires
        sp_group_body(ts, i, loc, ms) == Ok::<((Seq<char>, Seq<SMeeting>), nat), GenError>((v, c)),
        c >= 1,
        !(ts[i + c - 1] is Comma),
        0 <= i < ts.len(),
        ts[i] == TokenView::Ident("location"@),
        ts[i + 2] == TokenView::StrLit(l),
    ensures
        sp_group_body(ts.insert(i + c, TokenView::Comma), i, loc, ms) == Ok::<
            ((Seq<char>, Seq<SMeeting>), nat),
            GenError,
        >((v, (c + 1) as nat)),
    decreases ts.len() - i, 0int,
{
    lemma_group_body_stop(ts, i, loc, ms);
    let pins = i + c;
    let ts2 = ts.insert(pins, TokenView::Comma);
    ts.insert_ensures(pins, TokenView::Comma);
    let p = i + 3;
    if ts[p] is CloseBrace {
        lemma_group_body_at_close(ts, p, Some(l), ms);
        assert(ms matches Some(m) && m.len() > 0);
        assert(p == pins);
        assert(ts2[p] == TokenView::Comma);
        assert(ts2[p + 1] == ts[p]);
        lemma_group_body_at_close(ts2, p + 1, Some(l), ms);
    } else {
        assert(ts[p] is Comma);
        let rec = sp_group_body(ts, p + 1, Some(l), ms);
        let c2 = rec->Ok_0.1;
        lemma_group_body_stop(ts, p + 1, Some(l), ms);
        if c2 == 0 {
            assert(ts[pins - 1] is Comma);
            assert(false);
        }
        lemma_group_body_trailing_comma(ts, p + 1, Some(l), ms, rec->Ok_0.0, c2);
        assert(ts2[p] == ts[p]);
    }
}

/// The `meetings` pair case of [`lemma_group_body_trailing_comma`].
#[verifier::rlimit(50)]
proof fn lemma_group_body_tc_meetings(
    ts: Seq<TokenView>,
    i: int,
    loc: Option<Seq<char>>,
    ms: Option<Seq<SMeeting>>,
    v: (Seq<char>, Seq<SMeeting>),
    c: nat,
)
    requires
        sp_group_body(ts, i, loc, ms) == Ok::<((Seq<char>, Seq<SMeeting>), nat), GenError>((v, c)),
        c >= 1,
        !(ts[i + c - 1] is Comma),
        0 <= i < ts.len(),
        ts[i] == TokenView::Ident("meetings"@),
    ensures
        sp_group_body(ts.insert(i + c, TokenView::Comma), i, loc, ms) == Ok::<
            ((Seq<char>, Seq<SMeeting>), nat),
            GenError,
        >((v, (c + 1) as nat)),
    decreases ts.len() - i, 0int,
{
    lemma_keys_differ();
    lemma_group_body_stop(ts, i, loc, ms);
    let pins = i + c;
    let ts2 = ts.insert(pins, TokenView::Comma);
    ts.insert_ensures(pins, TokenView::Comma);
    let sub = sp_meeting_list(ts, i + 3);
    let mlist = sub->Ok_0.0;
    let c1 = sub->Ok_0.1;
    lemma_meeting_list_stop(ts, i + 3);
    lemma_meeting_list_frame(ts, ts2, i + 3);
    let p = i + 4 + c1;
    if ts[p] is CloseBrace {
        lemma_group_body_at_close(ts, p, loc, Some(mlist));
        assert(p == pins);
        assert(ts2[p] == TokenView::Comma);
        assert(ts2[p + 1] == ts[p]);
        lemma_group_body_at_close(ts2, p + 1, loc, Some(mlist));
    } else {
        assert(ts[p] is Comma);
        let rec = sp_group_body(ts, p + 1, loc, Some(mlist));
        let c2 = rec->Ok_0.1;
        lemma_group_body_stop(ts, p + 1, loc, Some(mlist));
        if c2 == 0 {
            assert(ts[pins - 1] is Comma);
            assert(false);
        }
        lemma_group_body_trailing_comma(ts, p + 1, loc, Some(mlist), rec->Ok_0.0, c2);
        assert(ts2[p] == ts[p]);
    }
}

/// Trailing-comma tolerance for a whole declaration: when the token before
/// the final closing brace is not already a comma, adding one extra trailing
/// comma there parses to the very same group.
pub proof fn lemma_group_trailing_comma(ts: Seq<TokenView>)
    requires
        spec_parse_group(ts) is Ok,
        !(ts[ts.len() - 2] is Comma),
    ensures
        spec_parse_group(ts.insert(ts.len() - 1, TokenView::Comma)) == spec_parse_group(ts),
{
    let body = sp_group_body(ts, 2, None, None);
    let v = body->Ok_0.0;
    let c = body->Ok_0.1;
    lemma_group_body_stop(ts, 2, None, None);
    assert(2 + c + 1 == ts.len());
    assert(c >= 3);
    lemma_group_body_trailing_comma(ts, 2, None, None, v, c);
    let ts2 = ts.insert(ts.len() - 1, TokenView::Comma);
    ts.insert_ensures(ts.len() - 1, TokenView::Comma);
    assert(ts2[0] == ts[0]);
    assert(ts2[1] == ts[1]);
}

/// The other direction of trailing-comma tolerance at the string-list
/// layer: a string list parsed with a trailing comma after its last element
/// parses to the same strings when that comma is removed.
pub proof fn lemma_str_list_comma_removal(ts: Seq<TokenView>, i: int, ss: Seq<Seq<char>>, c: nat)
    requires
        sp_str_list(ts, i) == Ok::<(Seq<Seq<char>>, nat), GenError>((ss, c)),
        c >= 1,
        ts[i + c - 1] is Comma,
    ensures
        sp_str_list(ts.remove(i + c - 1), i) == Ok::<(Seq<Seq<char>>, nat), GenError>(
            (ss, (c - 1) as nat),
        ),
    decreases ts.len() - i,
{
    lemma_str_list_stop(ts, i);
    let rp = i + c - 1;
    let ts3 = ts.remove(rp);
    ts.remove_ensures(rp);
    match ts[i] {
        TokenView::StrLit(s) => {
            if ts[i + 1] is CloseBracket {
                assert(false);
            } else {
                assert(ts[i + 1] is Comma);
                let sub = sp_str_list(ts, i + 2);
                let rest = sub->Ok_0.0;
                let c3 = sub->Ok_0.1;
                lemma_str_list_stop(ts, i + 2);
                if c3 == 0 {
                    assert(rp == i + 1);
                    assert(ts3[i] == ts[i]);
                    assert(ts3[i + 1] == ts[i + 2]);
                    assert(ts3[i + 1] is CloseBracket);
                    assert(seq![s] + Seq::<Seq<char>>::empty() =~= seq![s]);
                } else {
                    lemma_str_list_comma_removal(ts, i + 2, rest, c3);
                    assert(ts3[i] == ts[i]);
                    assert(ts3[i + 1] == ts[i + 1]);
                }
            }
        },
        _ => {
            assert(false);
        },
    }
}

/// The other direction of trailing-comma tolerance at the meeting-body
/// layer: a body run with a trailing comma after its last pair parses to the
/// same lists when that comma is removed.
pub proof fn lemma_meeting_body_comma_removal(
    ts: Seq<TokenView>,
    i: int,
    att: Option<Seq<Seq<char>>>,
    top: Option<Seq<Seq<char>>>,
    v: (Seq<Seq<char>>, Seq<Seq<char>>),
    c: nat,
)
    requires
        sp_meeting_body(ts, i, att, top) == Ok::<((Seq<Seq<char>>, Seq<Seq<char>>), nat), GenError>(
            (v, c),
        ),
        c >= 1,
        ts[i + c - 1] is Comma,
    ensures
        sp_meeting_body(ts.remove(i + c - 1), i, att, top) == Ok::<
            ((Seq<Seq<char>>, Seq<Seq<char>>), nat),
            GenError,
        >((v, (c - 1) as nat)),
    decreases ts.len() - i,
{
    lemma_meeting_body_stop(ts, i, att, top);
    let rp = i + c - 1;
    let ts3 = ts.remove(rp);
    ts.remove_ensures(rp);
    match ts[i] {
        TokenView::Ident(k) => {
            let sub = sp_str_list(ts, i + 3);
            let ss = sub->Ok_0.0;
            let c1 = sub->Ok_0.1;
            lemma_str_list_stop(ts, i + 3);
            let att2 = if k == "attendees"@ {
                Some(ss)
            } else {
                att
            };
            let top2 = if k == "attendees"@ {
                top
            } else {
                Some(ss)
            };
            let p = i + 4 + c1;
            if ts[p] is CloseBrace {
                lemma_meeting_body_at_close(ts, p, att2, top2);
                assert(ts[rp] == ts[i + 3 + c1]);
                assert(false);
            } else {
                assert(ts[p] is Comma);
                let rec = sp_meeting_body(ts, p + 1, att2, top2);
                let c2 = rec->Ok_0.1;
                lemma_meeting_body_stop(ts, p + 1, att2, top2);
                lemma_str_list_frame(ts, ts3, i + 3);
                if c2 == 0 {
                    assert(rp == p);
                    lemma_meeting_body_at_close(ts, p + 1, att2, top2);
                    assert(att2 matches Some(a) && a.len() > 0);
                    assert(ts3[p] == ts[p + 1]);
                    assert(ts3[p] is CloseBrace);
                    lemma_meeting_body_at_close(ts3, p, att2, top2);
                } else {
                    lemma_meeting_body_comma_removal(ts, p + 1, att2, top2, rec->Ok_0.0, c2);
                    assert(ts3[p] == ts[p]);
                }
            }
        },
        _ => {
            assert(false);
        },
    }
}

/// The other direction of trailing-comma tolerance at the meeting-list
/// layer: a meeting list with a trailing comma after its last meeting parses
/// to the same meetings when that comma is removed.
pub proof fn lemma_meeting_list_comma_removal(ts: Seq<TokenView>, i: int, v: Seq<SMeeting>, c: nat)
    requires
        sp_meeting_list(ts, i) == Ok::<(Seq<SMeeting>, nat), GenError>((v, c)),
        c >= 1,
        ts[i + c - 1] is Comma,
    ensures
        sp_meeting_list(ts.remove(i + c - 1), i) == Ok::<(Seq<SMeeting>, nat), GenError>(
            (v, (c - 1) as nat),
        ),
    decreases ts.len() - i,
{
    lemma_meeting_list_stop(ts, i);
    let rp = i + c - 1;
    let ts3 = ts.remove(rp);
    ts.remove_ensures(rp);
    if ts[i] is CloseBracket {
        assert(false);
    } else {
        let sub = sp_meeting(ts, i);
        let m = sub->Ok_0.0;
        let cm = sub->Ok_0.1;
        lemma_meeting_stop(ts, i);
        let q = i + cm;
        if ts[q] is CloseBracket {
            assert(ts[rp] == ts[q - 1]);
            assert(false);
        } else {
            assert(ts[q] is Comma);
            let rec = sp_meeting_list(ts, q + 1);
            let c3 = rec->Ok_0.1;
            lemma_meeting_list_stop(ts, q + 1);
            lemma_meeting_frame(ts, ts3, i);
            if c3 == 0 {
                assert(rp == q);
                assert(ts3[q] == ts[q + 1]);
                assert(ts3[q] is CloseBracket);
                assert(seq![m] + Seq::<SMeeting>::empty() =~= seq![m]);
            } else {
                lemma_meeting_list_comma_removal(ts, q + 1, rec->Ok_0.0, c3);
                assert(ts3[q] == ts[q]);
            }
        }
    }
}

/// The other direction of trailing-comma tolerance at the group-body layer:
/// a body run with a trailing comma after its last pair parses to the same
/// location and meetings when that comma is removed.
#[verifier::rlimit(100)]
pub proof fn lemma_group_body_comma_removal(
    ts: Seq<TokenView>,
    i: int,
    loc: Option<Seq<char>>,
    ms: Option<Seq<SMeeting>>,
    v: (Seq<char>, Seq<SMeeting>),
    c: nat,
)
    requires
        sp_group_body(ts, i, loc, ms) == Ok::<((Seq<char>, Seq<SMeeting>), nat), GenError>((v, c)),
        c >= 1,
        ts[i + c - 1] is Comma,
    ensures
        sp_group_body(ts.remove(i + c - 1), i, loc, ms) == Ok::<
            ((Seq<char>, Seq<SMeeting>), nat),
            GenError,
        >((v, (c - 1) as nat)),
    decreases ts.len() - i,
{
    lemma_group_body_stop(ts, i, loc, ms);
    let rp = i + c - 1;
    let ts3 = ts.remove(rp);
    ts.remove_ensures(rp);
    match ts[i] {
        TokenView::Ident(k) => {
            if k == "location"@ {
                match ts[i + 2] {
                    TokenView::StrLit(l) => {
                        let p = i + 3;
                        if ts[p] is CloseBrace {
                            lemma_group_body_at_close(ts, p, Some(l), ms);
                            assert(ts[rp] == ts[i + 2]);
                            assert(false);
                        } else {
                            assert(ts[p] is Comma);
                            let rec = sp_group_body(ts, p + 1, Some(l), ms);
                            let c2 = rec->Ok_0.1;
                            lemma_group_body_stop(ts, p + 1, Some(l), ms);
                            if c2 == 0 {
                                assert(rp == p);
                                lemma_group_body_at_close(ts, p + 1, Some(l), ms);
                                assert(ms matches Some(m) && m.len() > 0);
                                assert(ts3[p] == ts[p + 1]);
                                assert(ts3[p] is CloseBrace);
                                lemma_group_body_at_close(ts3, p, Some(l), ms);
                            } else {
                                lemma_group_body_comma_removal(
                                    ts,
                                    p + 1,
                                    Some(l),
                                    ms,
                                    rec->Ok_0.0,
                                    c2,
                                );
                                assert(ts3[p] == ts[p]);
                            }
                        }
                    },
                    _ => {
                        assert(false);
                    },
                }
            } else {
                assert(k == "meetings"@);
                let sub = sp_meeting_list(ts, i + 3);
                let mlist = sub->Ok_0.0;
                let c1 = sub->Ok_0.1;
                lemma_meeting_list_stop(ts, i + 3);
                let p = i + 4 + c1;
                if ts[p] is CloseBrace {
                    lemma_group_body_at_close(ts, p, loc, Some(mlist));
                    assert(ts[rp] == ts[i + 3 + c1]);
                    assert(false);
                } else {
                    assert(ts[p] is Comma);
                    let rec = sp_group_body(ts, p + 1, loc, Some(mlist));
                    let c2 = rec->Ok_0.1;
                    lemma_group_body_stop(ts, p + 1, loc, Some(mlist));
                    lemma_meeting_list_frame(ts, ts3, i + 3);
                    if c2 == 0 {
                        assert(rp == p);
                        lemma_group_body_at_close(ts, p + 1, loc, Some(mlist));
                        assert(ts3[p] == ts[p + 1]);
                        assert(ts3[p] is CloseBrace);
                        lemma_group_body_at_close(ts3, p, loc, Some(mlist));
                    } else {
                        lemma_group_body_comma_removal(ts, p + 1, loc, Some(mlist), rec->Ok_0.0, c2);
                        assert(ts3[p] == ts[p]);
                    }
                }
            }
        },
        _ => {
            assert(false);
        },
    }
}

/// The other direction of trailing-comma tolerance for a whole declaration:
/// when the token before the final closing brace is a trailing comma,
/// removing it parses to the very same group.
pub proof fn lemma_group_comma_removal(ts: Seq<TokenView>)
    requires
        spec_parse_group(ts) is Ok,
        ts[ts.len() - 2] is Comma,
    ensures
        spec_parse_group(ts.remove(ts.len() - 2)) == spec_parse_group(ts),
{
    let body = sp_group_body(ts, 2, None, None);
    let v = body->Ok_0.0;
    let c = body->Ok_0.1;
    lemma_group_body_stop(ts, 2, None, None);
    assert(2 + c + 1 == ts.len());
    assert(c >= 3);
    lemma_group_body_comma_removal(ts, 2, None, None, v, c);
    let ts3 = ts.remove(ts.len() - 2);
    ts.remove_ensures(ts.len() - 2);
    assert(ts3[0] == ts[0]);
    assert(ts3[1] == ts[1]);
}

/// A meeting body whose next pair starts with any key other than `attendees`
/// or `topics` is rejected with the meeting-level grammar error.
pub proof fn lemma_meeting_unknown_key(
    ts: Seq<TokenView>,
    i: int,
    att: Option<Seq<Seq<char>>>,
    top: Option<Seq<Seq<char>>>,
    k: Seq<char>,
)
    requires
        0 <= i < ts.len(),
        ts[i] == TokenView::Ident(k),
        k != "attendees"@,
        k != "topics"@,
    ensures
        sp_meeting_body(ts, i, att, top) == Err::<
            ((Seq<Seq<char>>, Seq<Seq<char>>), nat),
            GenError,
        >(GenError::MeetingGrammar),
{
}

} // verus!
