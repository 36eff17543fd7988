//! Moves in UCI coordinate notation: a from-square and a to-square,
//! an optional trailing promotion letter, or the literal "0000" for
//! the null move.

use vstd::prelude::*;

use crate::DecodeError;
use crate::board::{Role, Square, role_of_char, role_from_char, square_of, square_from_pair};
use crate::text::chars_vec;

verus! {

/// A move to highlight, or the distinguished null move meaning that
/// there is nothing to highlight.
#[derive(Clone, Copy, Debug, PartialEq, Eq, Structural)]
pub enum Move {
    Null,
    Normal { from: Square, to: Square, promotion: Option<Role> },
}

impl Move {
    /// Any squares the move names lie on the board.
    pub open spec fn wf(self) -> bool {
        match self {
            Move::Null => true,
            Move::Normal { from, to, promotion } => from.wf() && to.wf(),
        }
    }

    /// Parses UCI coordinate notation, or "0000" for the null move.
    pub fn parse(s: &str) -> (r: Result<Move, DecodeError>)
        ensures
            match r {
                Ok(m) => move_of(s@) == Some(m) && m.wf(),
                Err(e) => move_of(s@) is None && e == DecodeError::MalformedMove,
            },
    {
        let v = chars_vec(s);
        if v.len() == 4 && v[0] == '0' && v[1] == '0' && v[2] == '0' && v[3] == '0' {
            return Ok(Move::Null);
        }
        if v.len() == 4 {
            proof {
                assert(s@.take(2) =~= seq![s@[0], s@[1]]);
                assert(s@.skip(2) =~= seq![s@[2], s@[3]]);
            }
            match (square_from_pair(v[0], v[1]), square_from_pair(v[2], v[3])) {
                (Some(from), Some(to)) => Ok(Move::Normal { from, to, promotion: None }),
                _ => Err(DecodeError::MalformedMove),
            }
        } else if v.len() == 5 {
            proof {
                assert(s@.take(2) =~= seq![s@[0], s@[1]]);
                assert(s@.subrange(2, 4) =~= seq![s@[2], s@[3]]);
            }
            match (square_from_pair(v[0], v[1]), square_from_pair(v[2], v[3]), role_from_char(v[4])) {
                (Some(from), Some(to), Some(role)) => Ok(
                    Move::Normal { from, to, promotion: Some(role) },
                ),
                _ => Err(DecodeError::MalformedMove),
            }
        } else {
            Err(DecodeError::MalformedMove)
        }
    }
}

/// The move denoted by the text: "0000" is the null move, four
/// characters name the from- and to-squares, a fifth names the
/// promotion role.
pub open spec fn move_of(s: Seq<char>) -> Option<Move> {
    if s.len() == 4 && s[0] == '0' && s[1] == '0' && s[2] == '0' && s[3] == '0' {
        Some(Move::Null)
    } else if s.len() == 4 {
        match (square_of(s.take(2)), square_of(s.skip(2))) {
            (Some(from), Some(to)) => Some(Move::Normal { from, to, promotion: None }),
            _ => None,
        }
    } else if s.len() == 5 {
        match (square_of(s.take(2)), square_of(s.subrange(2, 4)), role_of_char(s[4])) {
            (Some(from), Some(to), Some(role)) => Some(
                Move::Normal { from, to, promotion: Some(role) },
            ),
            _ => None,
        }
    } else {
        None
    }
}

} // verus!

verus! {

/// Decoding of an optional move field: an absent field is the null
/// move, a present field must parse.
pub open spec fn move_opt_of(s: Option<Seq<char>>) -> Result<Move, DecodeError> {
    match s {
        None => Ok(Move::Null),
        Some(t) => match move_of(t) {
            Some(m) => Ok(m),
            None => Err(DecodeError::MalformedMove),
        },
    }
}

/// Parses an optional move field: omission yields the null move,
/// malformed content is failure.
pub fn maybe_move(s: Option<&str>) -> (r: Result<Move, DecodeError>)
    ensures
        r == move_opt_of(crate::text::opt_chars(s)),
        r matches Ok(m) ==> m.wf(),
{
    match s {
        None => Ok(Move::Null),
        Some(t) => Move::parse(t),
    }
}

} // verus!
