//! Fixed pieces of text: the sigil of a register and the separator of fields.

use crate::error::ParseError;
use vstd::prelude::*;

verus! {

/// Whether `s` begins with one space that no second space follows.
pub open spec fn starts_with_separator(s: Seq<char>) -> bool {
    s.len() >= 1 && s[0] == ' ' && !(s.len() >= 2 && s[1] == ' ')
}

/// What is left of `s` once the separator at its front is taken.
pub open spec fn after_separator(s: Seq<char>) -> Result<Seq<char>, ParseError> {
    if starts_with_separator(s) {
        Ok(s.skip(1))
    } else {
        Err(ParseError::MissingSeparator)
    }
}

/// Takes `pattern` from the front of `input` with `nom::bytes::complete::tag`.
///
/// The contract is taken on trust. It says that `tag` accepts the input exactly
/// when the input begins with the pattern, and that it then hands back the input
/// without those leading characters.
#[verifier::external_body]
pub(crate) fn tag<'a>(pattern: &str, input: &'a str) -> (rest: Option<&'a str>)
    ensures
        rest is Some <==> pattern@.is_prefix_of(input@),
        rest is Some ==> rest->0@ == input@.skip(pattern@.len() as int),
{
    match nom::bytes::complete::tag::<&str, &'a str, nom::error::Error<&'a str>>(pattern)(input) {
        Ok((rest, _)) => Some(rest),
        Err(_) => None,
    }
}

/// Takes the separator of two fields from the front of `input`: exactly one space.
pub fn separator<'a>(input: &'a str) -> (r: Result<&'a str, ParseError>)
    ensures
        match r {
            Ok(rest) => after_separator(input@) == Ok::<Seq<char>, ParseError>(rest@),
            Err(e) => after_separator(input@) == Err::<Seq<char>, ParseError>(e),
        },
{
    proof {
        reveal_strlit(" ");
    }
    match tag(" ", input) {
        None => {
            assert(!starts_with_separator(input@)) by {
                if starts_with_separator(input@) {
                    assert(input@.subrange(0, 1) =~= " "@);
                }
            }
            Err(ParseError::MissingSeparator)
        },
        Some(rest) => {
            assert(input@.subrange(0, 1) == " "@);
            assert(input@[0] == input@.subrange(0, 1)[0]);
            match tag(" ", rest) {
                None => {
                    assert(starts_with_separator(input@)) by {
                        if input@.len() >= 2 && input@[1] == ' ' {
                            assert(rest@[0] == input@[1]);
                            assert(rest@.subrange(0, 1) =~= " "@);
                        }
                    }
                    Ok(rest)
                },
                Some(_) => {
                    assert(rest@.subrange(0, 1) == " "@);
                    assert(rest@[0] == rest@.subrange(0, 1)[0]);
                    assert(rest@[0] == input@[1]);
                    Err(ParseError::MissingSeparator)
                },
            }
        },
    }
}

} // verus!
