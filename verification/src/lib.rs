//! A small declarative grammar for fixed meeting-group data, with a verified
//! parser and a verified, deterministic projector that emits the matching
//! strongly-typed declarations as source text.
//!
//! The pipeline is [`tokenize`] -> [`parse_group`] -> [`emit_group`], wrapped
//! up by [`parse`] and [`generate`]. Every stage has a specification twin, so
//! the text that comes out is pinned down, character for character, by the
//! text that went in.

use vstd::prelude::*;

pub mod emit;
pub mod error;
pub mod model;
pub mod parse;
pub mod symbol;
pub mod token;

pub use emit::emit_group;
pub use emit::spec_emit_group;
pub use error::GenError;
pub use model::meeting_views;
pub use model::str_views;
pub use model::Group;
pub use model::Meeting;
pub use model::SGroup;
pub use model::SMeeting;
pub use parse::parse_group;
pub use parse::spec_parse_group;
pub use symbol::Symbol;
pub use token::spec_tokenize;
pub use token::tokenize;
pub use token::views_of;
pub use token::Token;
pub use token::TokenView;

verus! {

/// What [`parse`] returns for a given input text: tokenize, then parse one
/// group declaration spanning the whole input.
pub open spec fn spec_parse(input: Seq<char>) -> Result<SGroup, GenError> {
    match token::spec_tokenize(input, 0) {
        Err(e) => Err(e),
        Ok(ts) => parse::spec_parse_group(ts),
    }
}

/// What [`generate`] returns for a given input text: parse, then project the
/// group into the output declarations.
pub open spec fn spec_generate(input: Seq<char>) -> Result<Seq<char>, GenError> {
    match spec_parse(input) {
        Err(e) => Err(e),
        Ok(g) => Ok(emit::spec_emit_group(g)),
    }
}

/// Parse one group declaration from raw input text.
///
/// Succeeds exactly when the twin [`spec_parse`] does; a parsed group always
/// satisfies its invariant [`SGroup::wf`].
pub fn parse(input: &str) -> (r: Result<Group, GenError>)
    ensures
        ({
            match r {
                Ok(g) => spec_parse(input@) == Ok::<SGroup, GenError>(g@) && g@.wf(),
                Err(e) => spec_parse(input@) == Err::<SGroup, GenError>(e),
            }
        }),
{
    let tokens = token::tokenize(input)?;
    parse::parse_group(&tokens)
}

/// Turn one group declaration into the generated declaration text.
///
/// The result is a pure function of the input text — see
/// [`lemma_generate_deterministic`] — so two runs on the same input yield
/// byte-identical output, and a parse failure yields no partial output.
pub fn generate(input: &str) -> (r: Result<String, GenError>)
    ensures
        ({
            match r {
                Ok(out) => spec_generate(input@) == Ok::<Seq<char>, GenError>(out@),
                Err(e) => spec_generate(input@) == Err::<Seq<char>, GenError>(e),
            }
        }),
{
    let group = parse(input)?;
    Ok(emit::emit_group(&group))
}

/// Generation is deterministic: the outcome — generated text or error — is
/// fixed by the input characters alone, so two inputs of equal text generate
/// byte-identical output. Together with the contract of [`generate`], which
/// pins its result to [`spec_generate`], this rules out any dependence on
/// anything but the input.
pub proof fn lemma_generate_deterministic(a: Seq<char>, b: Seq<char>)
    requires
        a == b,
    ensures
        spec_generate(a) == spec_generate(b),
{
}

} // verus!
