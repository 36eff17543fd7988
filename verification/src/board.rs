//! The board vocabulary: colors, piece roles, squares in algebraic
//! notation, and the orientation with its screen-coordinate transform.

use vstd::prelude::*;

verus! {

/// One of the two sides.
#[derive(Clone, Copy, Debug, PartialEq, Eq, Structural)]
pub enum Color {
    White,
    Black,
}

/// The kind of a piece.
#[derive(Clone, Copy, Debug, PartialEq, Eq, Structural)]
pub enum Role {
    Pawn,
    Knight,
    Bishop,
    Rook,
    Queen,
    King,
}

/// A colored piece.
#[derive(Clone, Copy, Debug, PartialEq, Eq, Structural)]
pub struct Piece {
    pub color: Color,
    pub role: Role,
}

/// One of the 64 board cells, addressed by file (0 = a) and
/// rank (0 = rank 1).
#[derive(Clone, Copy, Debug, PartialEq, Eq, Structural)]
pub struct Square {
    pub file: u8,
    pub rank: u8,
}

impl Square {
    /// File and rank both lie on the board.
    pub open spec fn wf(self) -> bool {
        self.file < 8 && self.rank < 8
    }
}

/// The square denoted by a two-character algebraic name such as "e4",
/// or nothing if the text is not such a name.
pub open spec fn square_of(s: Seq<char>) -> Option<Square> {
    if s.len() == 2 {
        let f = s[0] as u32;
        let r = s[1] as u32;
        if 97 <= f && f <= 104 && 49 <= r && r <= 56 {
            Some(Square { file: (f - 97) as u8, rank: (r - 49) as u8 })
        } else {
            None
        }
    } else {
        None
    }
}

/// Parses a square name given as its two characters.
pub(crate) fn square_from_pair(c0: char, c1: char) -> (r: Option<Square>)
    ensures
        r == square_of(seq![c0, c1]),
{
    let f = c0 as u32;
    let r = c1 as u32;
    if 97 <= f && f <= 104 && 49 <= r && r <= 56 {
        Some(Square { file: (f - 97) as u8, rank: (r - 49) as u8 })
    } else {
        None
    }
}

/// Parses a two-character algebraic square name.
pub(crate) fn square_from_chars(v: &Vec<char>) -> (r: Option<Square>)
    ensures
        r == square_of(v@),
{
    if v.len() != 2 {
        return None;
    }
    proof {
        assert(v@ =~= seq![v@[0], v@[1]]);
    }
    square_from_pair(v[0], v[1])
}

/// The two-character algebraic name of a square.
pub open spec fn square_str(q: Square) -> Seq<char>
    recommends
        q.wf(),
{
    seq![((97 + q.file) as u8) as char, ((49 + q.rank) as u8) as char]
}

/// Appends the algebraic name of the square.
pub(crate) fn push_square(out: &mut Vec<char>, q: Square)
    requires
        q.wf(),
    ensures
        final(out)@ == old(out)@ + square_str(q),
{
    out.push(((97 + q.file) as u8) as char);
    out.push(((49 + q.rank) as u8) as char);
    proof {
        assert(out@ =~= old(out)@ + square_str(q));
    }
}

/// Square names round-trip through parsing.
pub proof fn lemma_square_round_trip(q: Square)
    requires
        q.wf(),
    ensures
        square_of(square_str(q)) == Some(q),
{
}

/// The role denoted by a piece letter of either case.
pub open spec fn role_of_char(c: char) -> Option<Role> {
    if c == 'p' || c == 'P' {
        Some(Role::Pawn)
    } else if c == 'n' || c == 'N' {
        Some(Role::Knight)
    } else if c == 'b' || c == 'B' {
        Some(Role::Bishop)
    } else if c == 'r' || c == 'R' {
        Some(Role::Rook)
    } else if c == 'q' || c == 'Q' {
        Some(Role::Queen)
    } else if c == 'k' || c == 'K' {
        Some(Role::King)
    } else {
        None
    }
}

/// Looks a role letter up, accepting either case.
pub(crate) fn role_from_char(c: char) -> (r: Option<Role>)
    ensures
        r == role_of_char(c),
{
    if c == 'p' || c == 'P' {
        Some(Role::Pawn)
    } else if c == 'n' || c == 'N' {
        Some(Role::Knight)
    } else if c == 'b' || c == 'B' {
        Some(Role::Bishop)
    } else if c == 'r' || c == 'R' {
        Some(Role::Rook)
    } else if c == 'q' || c == 'Q' {
        Some(Role::Queen)
    } else if c == 'k' || c == 'K' {
        Some(Role::King)
    } else {
        None
    }
}

/// The piece denoted by a placement letter: uppercase is white,
/// lowercase is black.
pub open spec fn piece_of_char(c: char) -> Option<Piece> {
    match role_of_char(c) {
        Some(role) => {
            let color = if 65 <= c as u32 && c as u32 <= 90 {
                Color::White
            } else {
                Color::Black
            };
            Some(Piece { color, role })
        },
        None => None,
    }
}

/// Looks a placement letter up.
pub(crate) fn piece_from_char(c: char) -> (r: Option<Piece>)
    ensures
        r == piece_of_char(c),
{
    match role_from_char(c) {
        Some(role) => {
            let code = c as u32;
            let color = if 65 <= code && code <= 90 {
                Color::White
            } else {
                Color::Black
            };
            Some(Piece { color, role })
        },
        None => None,
    }
}

/// The placement letter of a piece.
pub open spec fn piece_char(p: Piece) -> char {
    match (p.color, p.role) {
        (Color::White, Role::Pawn) => 'P',
        (Color::White, Role::Knight) => 'N',
        (Color::White, Role::Bishop) => 'B',
        (Color::White, Role::Rook) => 'R',
        (Color::White, Role::Queen) => 'Q',
        (Color::White, Role::King) => 'K',
        (Color::Black, Role::Pawn) => 'p',
        (Color::Black, Role::Knight) => 'n',
        (Color::Black, Role::Bishop) => 'b',
        (Color::Black, Role::Rook) => 'r',
        (Color::Black, Role::Queen) => 'q',
        (Color::Black, Role::King) => 'k',
    }
}

/// Emits the placement letter of a piece.
pub(crate) fn piece_to_char(p: Piece) -> (r: char)
    ensures
        r == piece_char(p),
{
    match (p.color, p.role) {
        (Color::White, Role::Pawn) => 'P',
        (Color::White, Role::Knight) => 'N',
        (Color::White, Role::Bishop) => 'B',
        (Color::White, Role::Rook) => 'R',
        (Color::White, Role::Queen) => 'Q',
        (Color::White, Role::King) => 'K',
        (Color::Black, Role::Pawn) => 'p',
        (Color::Black, Role::Knight) => 'n',
        (Color::Black, Role::Bishop) => 'b',
        (Color::Black, Role::Rook) => 'r',
        (Color::Black, Role::Queen) => 'q',
        (Color::Black, Role::King) => 'k',
    }
}

/// Placement letters round-trip through parsing.
pub proof fn lemma_piece_char_round_trip(p: Piece)
    ensures
        piece_of_char(piece_char(p)) == Some(p),
{
}

/// Which side of the board is drawn at the bottom of the image.
#[derive(Clone, Copy, Debug, PartialEq, Eq, Structural)]
pub enum Orientation {
    White,
    Black,
}

impl Default for Orientation {
    /// The default view is from White's side.
    fn default() -> (r: Orientation)
        ensures
            r == Orientation::White,
    {
        Orientation::White
    }
}

impl Orientation {
    /// Maps each variant to one of two given values.
    pub fn fold<T>(self, white: T, black: T) -> (r: T)
        ensures
            self is White ==> r == white,
            self is Black ==> r == black,
    {
        match self {
            Orientation::White => white,
            Orientation::Black => black,
        }
    }

    /// The column of the square on screen: files run left to right for
    /// the white view, right to left for the black view.
    pub open spec fn x_spec(self, square: Square) -> int {
        if self is White {
            square.file as int
        } else {
            7 - square.file as int
        }
    }

    /// The row of the square on screen: the top row is rank 8 for the
    /// white view, rank 1 for the black view.
    pub open spec fn y_spec(self, square: Square) -> int {
        if self is White {
            7 - square.rank as int
        } else {
            square.rank as int
        }
    }

    /// The screen column of a square under this orientation.
    pub fn x(self, square: Square) -> (r: usize)
        requires
            square.wf(),
        ensures
            r == self.x_spec(square),
    {
        self.fold(square.file as usize, 7 - square.file as usize)
    }

    /// The screen row of a square under this orientation.
    pub fn y(self, square: Square) -> (r: usize)
        requires
            square.wf(),
        ensures
            r == self.y_spec(square),
    {
        self.fold(7 - square.rank as usize, square.rank as usize)
    }
}

/// Both screen coordinates stay on the board, and turning the board
/// around flips both axes.
pub proof fn lemma_orientation_flip(s: Square)
    requires
        s.wf(),
    ensures
        0 <= Orientation::White.x_spec(s) <= 7,
        0 <= Orientation::White.y_spec(s) <= 7,
        0 <= Orientation::Black.x_spec(s) <= 7,
        0 <= Orientation::Black.y_spec(s) <= 7,
        Orientation::White.x_spec(s) == 7 - Orientation::Black.x_spec(s),
        Orientation::White.y_spec(s) == 7 - Orientation::Black.y_spec(s),
{
}

} // verus!

verus! {

/// Decoding of an optional check-square field: an absent field is no
/// check, a present field must be a valid square name.
pub open spec fn square_opt_of(s: Option<Seq<char>>) -> Result<Option<Square>, crate::DecodeError> {
    match s {
        None => Ok(None),
        Some(t) => match square_of(t) {
            Some(q) => Ok(Some(q)),
            None => Err(crate::DecodeError::MalformedSquare),
        },
    }
}

/// Parses an optional square field: omission is success, malformed
/// content is failure.
pub fn maybe_square(name: Option<&str>) -> (r: Result<Option<Square>, crate::DecodeError>)
    ensures
        r == square_opt_of(crate::text::opt_chars(name)),
        r matches Ok(Some(q)) ==> q.wf(),
{
    match name {
        None => Ok(None),
        Some(s) => {
            let v = crate::text::chars_vec(s);
            match square_from_chars(&v) {
                Some(q) => Ok(Some(q)),
                None => Err(crate::DecodeError::MalformedSquare),
            }
        },
    }
}

} // verus!
