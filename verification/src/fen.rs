//! Board positions in FEN: parsing, canonical serialization, and the
//! standard starting position.
//!
//! A position is six space-separated fields: piece placement over
//! eight '/'-separated ranks from rank 8 down to rank 1, the side to
//! move, castling rights, the en-passant target square, the half-move
//! clock and the full-move number. Only syntactic well-formedness is
//! checked, never chess legality.

use vstd::prelude::*;

use crate::DecodeError;
use crate::board::{
    Color, Piece, Role, Square, piece_char, piece_from_char, piece_of_char, piece_to_char,
    push_square, square_from_chars, square_of, square_str,
};
use crate::text::{
    chars_vec, digit_char, lemma_split_on_append, lemma_split_on_whole, push_u32, split_chars,
    split_on, string_of, u32_from_chars, u32_of, u32_str, views_of,
};

verus! {

/// Which castling moves are still available to each side.
#[derive(Clone, Copy, Debug, PartialEq, Eq, Structural)]
pub struct CastlingRights {
    pub white_king: bool,
    pub white_queen: bool,
    pub black_king: bool,
    pub black_queen: bool,
}

/// The mathematical content of a position: the 64 cells in FEN
/// reading order (rank 8 first, file a first within a rank), and the
/// five trailing fields.
#[verifier::ext_equal]
pub ghost struct FenModel {
    pub board: Seq<Option<Piece>>,
    pub turn: Color,
    pub castling: CastlingRights,
    pub en_passant: Option<Square>,
    pub halfmoves: u32,
    pub fullmoves: u32,
}

/// A full board position, as validated from one FEN field.
#[derive(Debug)]
pub struct Position {
    /// The 64 cells in FEN reading order: index 0 is a8, index 7 is
    /// h8, index 63 is h1.
    pub board: Vec<Option<Piece>>,
    pub turn: Color,
    pub castling: CastlingRights,
    pub en_passant: Option<Square>,
    pub halfmoves: u32,
    pub fullmoves: u32,
}

impl View for Position {
    type V = FenModel;

    open spec fn view(&self) -> FenModel {
        FenModel {
            board: self.board@,
            turn: self.turn,
            castling: self.castling,
            en_passant: self.en_passant,
            halfmoves: self.halfmoves,
            fullmoves: self.fullmoves,
        }
    }
}

/// The model of a position has one cell per square, and any
/// en-passant square lies on the board.
pub open spec fn model_wf(m: FenModel) -> bool {
    &&& m.board.len() == 64
    &&& match m.en_passant {
        Some(q) => q.wf(),
        None => true,
    }
}

impl Position {
    /// The stored position satisfies the model invariant.
    pub open spec fn wf(&self) -> bool {
        model_wf(self@)
    }
}

/// The given number of empty cells.
pub open spec fn empty_cells(n: nat) -> Seq<Option<Piece>> {
    Seq::new(n, |i: int| None)
}

/// The cells denoted by one rank of the placement field: a letter is
/// one piece, a digit 1 to 8 is that many empty cells.
pub open spec fn rank_of(s: Seq<char>) -> Option<Seq<Option<Piece>>>
    decreases s.len(),
{
    if s.len() == 0 {
        Some(Seq::empty())
    } else {
        match rank_of(s.drop_last()) {
            None => None,
            Some(cells) => {
                let c = s.last();
                if piece_of_char(c) is Some {
                    Some(cells.push(Some(piece_of_char(c)->0)))
                } else if 49 <= c as u32 && c as u32 <= 56 {
                    Some(cells + empty_cells((c as u32 - 48) as nat))
                } else {
                    None
                }
            },
        }
    }
}

/// A malformed prefix makes the whole rank malformed.
proof fn lemma_rank_of_none(s: Seq<char>, j: int)
    requires
        0 <= j <= s.len(),
        rank_of(s.take(j)) is None,
    ensures
        rank_of(s) is None,
    decreases s.len() - j,
{
    if j < s.len() {
        assert(s.take(j + 1).drop_last() =~= s.take(j));
        lemma_rank_of_none(s, j + 1);
    } else {
        assert(s.take(j) =~= s);
    }
}

/// A rank of the placement field denotes exactly eight cells.
pub open spec fn row_cells_ok(s: Seq<char>) -> bool {
    rank_of(s) is Some && rank_of(s)->0.len() == 8
}

/// Parses one rank of the placement field.
fn rank_cells(v: &Vec<char>) -> (r: Option<Vec<Option<Piece>>>)
    ensures
        match r {
            Some(cells) => rank_of(v@) == Some(cells@),
            None => rank_of(v@) is None,
        },
{
    let mut cells: Vec<Option<Piece>> = Vec::new();
    let mut i: usize = 0;
    while i < v.len()
        invariant
            i <= v@.len(),
            rank_of(v@.take(i as int)) == Some(cells@),
        decreases v@.len() - i,
    {
        let c = v[i];
        proof {
            assert(v@.take(i as int + 1).drop_last() =~= v@.take(i as int));
            assert(v@.take(i as int + 1).last() == v@[i as int]);
        }
        match piece_from_char(c) {
            Some(p) => {
                cells.push(Some(p));
            },
            None => {
                let code = c as u32;
                if 49 <= code && code <= 56 {
                    let d = (code - 48) as usize;
                    let ghost before = cells@;
                    let mut j: usize = 0;
                    while j < d
                        invariant
                            j <= d,
                            cells@ == before + empty_cells(j as nat),
                        decreases d - j,
                    {
                        cells.push(None);
                        j = j + 1;
                        proof {
                            assert(cells@ =~= before + empty_cells(j as nat));
                        }
                    }
                } else {
                    proof {
                        assert(rank_of(v@.take(i as int + 1)) is None);
                        lemma_rank_of_none(v@, i as int + 1);
                    }
                    return None;
                }
            },
        }
        i = i + 1;
    }
    proof {
        assert(v@.take(v@.len() as int) =~= v@);
    }
    Some(cells)
}

/// The cells denoted by the whole placement field: eight ranks of
/// eight cells, separated by '/', concatenated from rank 8 down.
pub open spec fn placement_of(s: Seq<char>) -> Option<Seq<Option<Piece>>> {
    let rows = split_on(s, '/');
    if rows.len() == 8 && (forall|i: int| 0 <= i < 8 ==> row_cells_ok(#[trigger] rows[i])) {
        Some(
            rank_of(rows[0])->0 + rank_of(rows[1])->0 + rank_of(rows[2])->0 + rank_of(rows[3])->0
                + rank_of(rows[4])->0 + rank_of(rows[5])->0 + rank_of(rows[6])->0 + rank_of(
                rows[7],
            )->0,
        )
    } else {
        None
    }
}

/// Appends the cells of one parsed rank, reporting whether the rank
/// was well-formed.
fn add_row(board: &mut Vec<Option<Piece>>, row: &Vec<char>) -> (ok: bool)
    ensures
        ok ==> row_cells_ok(row@) && final(board)@ == old(board)@ + rank_of(row@)->0,
        !ok ==> !row_cells_ok(row@),
{
    match rank_cells(row) {
        Some(mut cells) => {
            if cells.len() == 8 {
                board.append(&mut cells);
                true
            } else {
                false
            }
        },
        None => false,
    }
}

/// Parses the placement field into 64 cells.
fn parse_placement(v: &Vec<char>) -> (r: Option<Vec<Option<Piece>>>)
    ensures
        match r {
            Some(board) => placement_of(v@) == Some(board@) && board@.len() == 64,
            None => placement_of(v@) is None,
        },
{
    let rows = split_chars(v, '/');
    let ghost rvs = split_on(v@, '/');
    if rows.len() != 8 {
        return None;
    }
    let mut board: Vec<Option<Piece>> = Vec::new();
    let mut i: usize = 0;
    while i < 8
        invariant
            i <= 8,
            rows@.len() == 8,
            views_of(rows@) == rvs,
            rvs == split_on(v@, '/'),
            rvs.len() == 8,
            forall|j: int| 0 <= j < i ==> row_cells_ok(#[trigger] rvs[j]),
            board@ == partial_board(rvs, i as int),
        decreases 8 - i,
    {
        let ok = add_row(&mut board, &rows[i]);
        if !ok {
            proof {
                assert(rvs[i as int] == rows@[i as int]@);
                assert(!row_cells_ok(split_on(v@, '/')[i as int]));
            }
            return None;
        }
        i = i + 1;
        proof {
            assert(board@ =~= partial_board(rvs, i as int));
        }
    }
    proof {
        reveal_with_fuel(partial_board, 9);
        assert(board@ =~= rank_of(rvs[0])->0 + rank_of(rvs[1])->0 + rank_of(rvs[2])->0 + rank_of(
            rvs[3],
        )->0 + rank_of(rvs[4])->0 + rank_of(rvs[5])->0 + rank_of(rvs[6])->0 + rank_of(rvs[7])->0);
    }
    Some(board)
}

/// The concatenated cells of the first `i` parsed ranks.
pub open spec fn partial_board(rows: Seq<Seq<char>>, i: int) -> Seq<Option<Piece>>
    decreases i,
{
    if i <= 0 {
        Seq::empty()
    } else {
        partial_board(rows, i - 1) + rank_of(rows[i - 1])->0
    }
}

/// The side to move: "w" or "b".
pub open spec fn turn_of(s: Seq<char>) -> Option<Color> {
    if s.len() == 1 && s[0] == 'w' {
        Some(Color::White)
    } else if s.len() == 1 && s[0] == 'b' {
        Some(Color::Black)
    } else {
        None
    }
}

/// Parses the side to move.
fn parse_turn(v: &Vec<char>) -> (r: Option<Color>)
    ensures
        r == turn_of(v@),
{
    if v.len() == 1 && v[0] == 'w' {
        Some(Color::White)
    } else if v.len() == 1 && v[0] == 'b' {
        Some(Color::Black)
    } else {
        None
    }
}

/// The castling rights denoted by the field: "-" for none, else a
/// non-empty subsequence of "KQkq" in that order.
pub open spec fn castling_of(s: Seq<char>) -> Option<CastlingRights> {
    if s.len() == 1 && s[0] == '-' {
        Some(
            CastlingRights {
                white_king: false,
                white_queen: false,
                black_king: false,
                black_queen: false,
            },
        )
    } else {
        let white_king = s.len() > 0 && s[0] == 'K';
        let i1: int = if white_king { 1 } else { 0 };
        let white_queen = s.len() > i1 && s[i1] == 'Q';
        let i2: int = i1 + if white_queen { 1int } else { 0int };
        let black_king = s.len() > i2 && s[i2] == 'k';
        let i3: int = i2 + if black_king { 1int } else { 0int };
        let black_queen = s.len() > i3 && s[i3] == 'q';
        let i4: int = i3 + if black_queen { 1int } else { 0int };
        if s.len() == i4 && s.len() > 0 {
            Some(CastlingRights { white_king, white_queen, black_king, black_queen })
        } else {
            None
        }
    }
}

/// Parses the castling-rights field.
fn parse_castling(v: &Vec<char>) -> (r: Option<CastlingRights>)
    ensures
        r == castling_of(v@),
{
    if v.len() == 1 && v[0] == '-' {
        return Some(
            CastlingRights {
                white_king: false,
                white_queen: false,
                black_king: false,
                black_queen: false,
            },
        );
    }
    let mut i: usize = 0;
    let white_king = i < v.len() && v[i] == 'K';
    if white_king {
        i = i + 1;
    }
    let white_queen = i < v.len() && v[i] == 'Q';
    if white_queen {
        i = i + 1;
    }
    let black_king = i < v.len() && v[i] == 'k';
    if black_king {
        i = i + 1;
    }
    let black_queen = i < v.len() && v[i] == 'q';
    if black_queen {
        i = i + 1;
    }
    if i == v.len() && v.len() > 0 {
        Some(CastlingRights { white_king, white_queen, black_king, black_queen })
    } else {
        None
    }
}

/// The en-passant field: "-" for no target, else a square name.
pub open spec fn ep_of(s: Seq<char>) -> Option<Option<Square>> {
    if s.len() == 1 && s[0] == '-' {
        Some(None)
    } else {
        match square_of(s) {
            Some(q) => Some(Some(q)),
            None => None,
        }
    }
}

/// Parses the en-passant field.
fn parse_ep(v: &Vec<char>) -> (r: Option<Option<Square>>)
    ensures
        r == ep_of(v@),
{
    if v.len() == 1 && v[0] == '-' {
        return Some(None);
    }
    match square_from_chars(v) {
        Some(q) => Some(Some(q)),
        None => None,
    }
}

/// The position denoted by a FEN line: exactly six space-separated
/// fields, each well-formed.
pub open spec fn fen_of(s: Seq<char>) -> Option<FenModel> {
    let fields = split_on(s, ' ');
    if fields.len() != 6 {
        None
    } else {
        if placement_of(fields[0]) is Some && turn_of(fields[1]) is Some && castling_of(fields[2])
            is Some && ep_of(fields[3]) is Some && u32_of(fields[4]) is Some && u32_of(fields[5])
            is Some {
            Some(
                FenModel {
                    board: placement_of(fields[0])->0,
                    turn: turn_of(fields[1])->0,
                    castling: castling_of(fields[2])->0,
                    en_passant: ep_of(fields[3])->0,
                    halfmoves: u32_of(fields[4])->0,
                    fullmoves: u32_of(fields[5])->0,
                },
            )
        } else {
            None
        }
    }
}

impl Position {
    /// Parses a FEN line, accepting exactly the syntactically
    /// well-formed positions.
    pub fn parse(s: &str) -> (r: Result<Position, DecodeError>)
        ensures
            match r {
                Ok(p) => fen_of(s@) == Some(p@) && p.wf(),
                Err(e) => fen_of(s@) is None && e == DecodeError::MalformedPosition,
            },
    {
        let v = chars_vec(s);
        let fields = split_chars(&v, ' ');
        if fields.len() != 6 {
            return Err(DecodeError::MalformedPosition);
        }
        let board = match parse_placement(&fields[0]) {
            Some(b) => b,
            None => {
                return Err(DecodeError::MalformedPosition);
            },
        };
        let turn = match parse_turn(&fields[1]) {
            Some(t) => t,
            None => {
                return Err(DecodeError::MalformedPosition);
            },
        };
        let castling = match parse_castling(&fields[2]) {
            Some(c) => c,
            None => {
                return Err(DecodeError::MalformedPosition);
            },
        };
        let en_passant = match parse_ep(&fields[3]) {
            Some(q) => q,
            None => {
                return Err(DecodeError::MalformedPosition);
            },
        };
        let halfmoves = match u32_from_chars(&fields[4]) {
            Some(n) => n,
            None => {
                return Err(DecodeError::MalformedPosition);
            },
        };
        let fullmoves = match u32_from_chars(&fields[5]) {
            Some(n) => n,
            None => {
                return Err(DecodeError::MalformedPosition);
            },
        };
        Ok(Position { board, turn, castling, en_passant, halfmoves, fullmoves })
    }
}

} // verus!

verus! {

/// How many empty cells stand at the front of the row.
pub open spec fn leading_nones(cells: Seq<Option<Piece>>) -> nat
    decreases cells.len(),
{
    if cells.len() == 0 || cells[0] is Some {
        0
    } else {
        1 + leading_nones(cells.drop_first())
    }
}

/// The run of empty cells at the front is exactly what
/// `leading_nones` counts, and never longer than the row.
pub proof fn lemma_leading_nones_bounds(cells: Seq<Option<Piece>>)
    ensures
        leading_nones(cells) <= cells.len(),
    decreases cells.len(),
{
    if cells.len() > 0 && cells[0] is None {
        lemma_leading_nones_bounds(cells.drop_first());
    }
}

/// A maximal run of empty cells at the front pins the count down.
pub proof fn lemma_leading_nones_eq(cells: Seq<Option<Piece>>, j: int)
    requires
        0 <= j <= cells.len(),
        forall|k: int| 0 <= k < j ==> cells[k] is None,
        j == cells.len() || cells[j] is Some,
    ensures
        leading_nones(cells) == j,
    decreases j,
{
    if j == 0 {
    } else {
        assert(cells[0] is None);
        lemma_leading_nones_eq(cells.drop_first(), j - 1);
    }
}

/// The canonical text of one rank: a letter per piece, maximal runs
/// of empty cells written as one digit.
pub open spec fn row_str(cells: Seq<Option<Piece>>) -> Seq<char>
    decreases cells.len(),
    via row_str_decreases
{
    if cells.len() == 0 {
        Seq::empty()
    } else if cells[0] is Some {
        seq![piece_char(cells[0]->0)] + row_str(cells.drop_first())
    } else {
        let n = leading_nones(cells);
        seq![crate::text::digit_char(n)] + row_str(cells.skip(n as int))
    }
}

#[via_fn]
proof fn row_str_decreases(cells: Seq<Option<Piece>>) {
    lemma_leading_nones_bounds(cells);
}

/// Appends the canonical text of one rank of the board.
fn push_row(out: &mut Vec<char>, board: &Vec<Option<Piece>>, start: usize)
    requires
        start + 8 <= board@.len(),
    ensures
        final(out)@ == old(out)@ + row_str(board@.subrange(start as int, start as int + 8)),
{
    let n = board.len();
    let ghost row = board@.subrange(start as int, start as int + 8);
    proof {
        assert(row.skip(0) =~= row);
    }
    let mut i: usize = 0;
    while i < 8
        invariant
            i <= 8,
            n == board@.len(),
            start + 8 <= n,
            row == board@.subrange(start as int, start as int + 8),
            out@ + row_str(row.skip(i as int)) == old(out)@ + row_str(row),
        decreases 8 - i,
    {
        match board[start + i] {
            Some(p) => {
                proof {
                    assert(row.skip(i as int)[0] == row[i as int]);
                    assert(row.skip(i as int).drop_first() =~= row.skip(i as int + 1));
                }
                let ghost pre = out@;
                out.push(piece_to_char(p));
                i = i + 1;
                proof {
                    assert(out@ + row_str(row.skip(i as int)) =~= pre + (seq![piece_char(p)]
                        + row_str(row.skip(i as int))));
                }
            },
            None => {
                let mut j: usize = 1;
                while i + j < 8 && board[start + i + j].is_none()
                    invariant
                        1 <= j <= 8 - i,
                        i < 8,
                        n == board@.len(),
                        start + 8 <= n,
                        row == board@.subrange(start as int, start as int + 8),
                        forall|k: int| i <= k < i + j ==> row[k] is None,
                    decreases 8 - i - j,
                {
                    j = j + 1;
                }
                proof {
                    assert(forall|k: int| 0 <= k < j ==> row.skip(i as int)[k] is None);
                    if i + j < 8 {
                        assert(row.skip(i as int)[j as int] == row[i as int + j]);
                    }
                    lemma_leading_nones_eq(row.skip(i as int), j as int);
                    assert(row.skip(i as int).skip(j as int) =~= row.skip(i as int + j));
                }
                let ghost pre = out@;
                out.push(((48 + j) as u8) as char);
                proof {
                    assert(out@ =~= pre + seq![crate::text::digit_char(j as nat)]);
                    assert(out@ + row_str(row.skip(i as int + j)) =~= pre + (seq![
                        crate::text::digit_char(j as nat),
                    ] + row_str(row.skip(i as int + j))));
                }
                i = i + j;
            },
        }
    }
    proof {
        assert(row.skip(8) =~= Seq::<Option<Piece>>::empty());
        assert(row_str(row.skip(8)) =~= Seq::<char>::empty());
        assert(out@ + row_str(row.skip(8)) =~= out@);
    }
}

/// The character of the side to move.
pub open spec fn turn_str(c: Color) -> Seq<char> {
    if c is White {
        seq!['w']
    } else {
        seq!['b']
    }
}

/// The canonical text of the castling rights.
pub open spec fn castling_str(c: CastlingRights) -> Seq<char> {
    if !c.white_king && !c.white_queen && !c.black_king && !c.black_queen {
        seq!['-']
    } else {
        (if c.white_king {
            seq!['K']
        } else {
            Seq::empty()
        }) + (if c.white_queen {
            seq!['Q']
        } else {
            Seq::empty()
        }) + (if c.black_king {
            seq!['k']
        } else {
            Seq::empty()
        }) + (if c.black_queen {
            seq!['q']
        } else {
            Seq::empty()
        })
    }
}

/// The canonical text of the en-passant field.
pub open spec fn ep_str(e: Option<Square>) -> Seq<char> {
    match e {
        None => seq!['-'],
        Some(q) => square_str(q),
    }
}

/// The canonical FEN line of a position: the eight ranks joined by
/// '/', then the five trailing fields, space-separated.
pub open spec fn fen_str(m: FenModel) -> Seq<char> {
    row_str(m.board.subrange(0, 8)) + seq!['/'] + row_str(m.board.subrange(8, 16)) + seq!['/']
        + row_str(m.board.subrange(16, 24)) + seq!['/'] + row_str(m.board.subrange(24, 32))
        + seq!['/'] + row_str(m.board.subrange(32, 40)) + seq!['/'] + row_str(
        m.board.subrange(40, 48),
    ) + seq!['/'] + row_str(m.board.subrange(48, 56)) + seq!['/'] + row_str(
        m.board.subrange(56, 64),
    ) + seq![' '] + turn_str(m.turn) + seq![' '] + castling_str(m.castling) + seq![' '] + ep_str(
        m.en_passant,
    ) + seq![' '] + u32_str(m.halfmoves) + seq![' '] + u32_str(m.fullmoves)
}

impl Position {
    /// Serializes the position as its canonical FEN line.
    #[verifier::rlimit(50)]
    pub fn to_fen(&self) -> (r: String)
        requires
            self.wf(),
        ensures
            r@ == fen_str(self@),
    {
        let ghost b = self.board@;
        let mut out: Vec<char> = Vec::new();
        push_row(&mut out, &self.board, 0);
        proof {
            assert(out@ =~= row_str(b.subrange(0, 8)));
        }
        let ghost a01 = out@;
        out.push('/');
        proof {
            assert(out@ =~= a01 + seq!['/']);
        }
        let ghost a02 = out@;
        push_row(&mut out, &self.board, 8);
        let ghost a03 = out@;
        out.push('/');
        proof {
            assert(out@ =~= a03 + seq!['/']);
        }
        let ghost a04 = out@;
        push_row(&mut out, &self.board, 16);
        let ghost a05 = out@;
        out.push('/');
        proof {
            assert(out@ =~= a05 + seq!['/']);
        }
        let ghost a06 = out@;
        push_row(&mut out, &self.board, 24);
        let ghost a07 = out@;
        out.push('/');
        proof {
            assert(out@ =~= a07 + seq!['/']);
        }
        let ghost a08 = out@;
        push_row(&mut out, &self.board, 32);
        let ghost a09 = out@;
        out.push('/');
        proof {
            assert(out@ =~= a09 + seq!['/']);
        }
        let ghost a10 = out@;
        push_row(&mut out, &self.board, 40);
        let ghost a11 = out@;
        out.push('/');
        proof {
            assert(out@ =~= a11 + seq!['/']);
        }
        let ghost a12 = out@;
        push_row(&mut out, &self.board, 48);
        let ghost a13 = out@;
        out.push('/');
        proof {
            assert(out@ =~= a13 + seq!['/']);
        }
        let ghost a14 = out@;
        push_row(&mut out, &self.board, 56);
        let ghost a15 = out@;
        out.push(' ');
        proof {
            assert(out@ =~= a15 + seq![' ']);
        }
        let ghost a16 = out@;
        match self.turn {
            Color::White => out.push('w'),
            Color::Black => out.push('b'),
        }
        proof {
            assert(out@ =~= a16 + turn_str(self.turn));
        }
        let ghost a17 = out@;
        out.push(' ');
        proof {
            assert(out@ =~= a17 + seq![' ']);
        }
        let ghost a18 = out@;
        let c = self.castling;
        if !c.white_king && !c.white_queen && !c.black_king && !c.black_queen {
            out.push('-');
        } else {
            if c.white_king {
                out.push('K');
            }
            if c.white_queen {
                out.push('Q');
            }
            if c.black_king {
                out.push('k');
            }
            if c.black_queen {
                out.push('q');
            }
        }
        proof {
            assert(out@ =~= a18 + castling_str(self.castling));
        }
        let ghost a19 = out@;
        out.push(' ');
        proof {
            assert(out@ =~= a19 + seq![' ']);
        }
        let ghost a20 = out@;
        match self.en_passant {
            None => out.push('-'),
            Some(q) => push_square(&mut out, q),
        }
        proof {
            assert(out@ =~= a20 + ep_str(self.en_passant));
        }
        let ghost a21 = out@;
        out.push(' ');
        proof {
            assert(out@ =~= a21 + seq![' ']);
        }
        let ghost a22 = out@;
        push_u32(&mut out, self.halfmoves);
        let ghost a23 = out@;
        out.push(' ');
        proof {
            assert(out@ =~= a23 + seq![' ']);
        }
        let ghost a24 = out@;
        push_u32(&mut out, self.fullmoves);
        proof {
            assert(out@ == fen_str(self@));
        }
        string_of(&out)
    }
}

} // verus!

verus! {

/// The back rank of one side, from file a to file h.
pub open spec fn back_rank(c: Color) -> Seq<Option<Piece>> {
    seq![
        Some(Piece { color: c, role: Role::Rook }),
        Some(Piece { color: c, role: Role::Knight }),
        Some(Piece { color: c, role: Role::Bishop }),
        Some(Piece { color: c, role: Role::Queen }),
        Some(Piece { color: c, role: Role::King }),
        Some(Piece { color: c, role: Role::Bishop }),
        Some(Piece { color: c, role: Role::Knight }),
        Some(Piece { color: c, role: Role::Rook }),
    ]
}

/// A rank of eight pawns of one side.
pub open spec fn pawn_rank(c: Color) -> Seq<Option<Piece>> {
    Seq::new(8, |i: int| Some(Piece { color: c, role: Role::Pawn }))
}

/// The cells of the standard starting position, in FEN reading order.
pub open spec fn initial_board() -> Seq<Option<Piece>> {
    back_rank(Color::Black) + pawn_rank(Color::Black) + empty_cells(32) + pawn_rank(Color::White)
        + back_rank(Color::White)
}

/// The standard starting position: White to move, all castling
/// rights, no en-passant target, clocks at 0 and 1.
pub open spec fn initial_model() -> FenModel {
    FenModel {
        board: initial_board(),
        turn: Color::White,
        castling: CastlingRights {
            white_king: true,
            white_queen: true,
            black_king: true,
            black_queen: true,
        },
        en_passant: None,
        halfmoves: 0,
        fullmoves: 1,
    }
}

/// Appends one back rank.
fn push_back_rank(board: &mut Vec<Option<Piece>>, c: Color)
    ensures
        final(board)@ == old(board)@ + back_rank(c),
{
    board.push(Some(Piece { color: c, role: Role::Rook }));
    board.push(Some(Piece { color: c, role: Role::Knight }));
    board.push(Some(Piece { color: c, role: Role::Bishop }));
    board.push(Some(Piece { color: c, role: Role::Queen }));
    board.push(Some(Piece { color: c, role: Role::King }));
    board.push(Some(Piece { color: c, role: Role::Bishop }));
    board.push(Some(Piece { color: c, role: Role::Knight }));
    board.push(Some(Piece { color: c, role: Role::Rook }));
    proof {
        assert(board@ =~= old(board)@ + back_rank(c));
    }
}

/// Appends the given cell a number of times.
fn push_fill(board: &mut Vec<Option<Piece>>, cell: Option<Piece>, n: usize)
    ensures
        final(board)@ == old(board)@ + Seq::new(n as nat, |i: int| cell),
{
    let mut j: usize = 0;
    while j < n
        invariant
            j <= n,
            board@ == old(board)@ + Seq::new(j as nat, |i: int| cell),
        decreases n - j,
    {
        board.push(cell);
        j = j + 1;
        proof {
            assert(board@ =~= old(board)@ + Seq::new(j as nat, |i: int| cell));
        }
    }
}

impl Position {
    /// The standard starting position, the default when no position
    /// field is supplied.
    pub fn initial() -> (r: Position)
        ensures
            r@ == initial_model(),
            r.wf(),
    {
        let mut board: Vec<Option<Piece>> = Vec::new();
        push_back_rank(&mut board, Color::Black);
        let ghost a1 = board@;
        push_fill(&mut board, Some(Piece { color: Color::Black, role: Role::Pawn }), 8);
        proof {
            assert(Seq::new(8, |i: int| Some(Piece { color: Color::Black, role: Role::Pawn }))
                =~= pawn_rank(Color::Black));
        }
        let ghost a2 = board@;
        push_fill(&mut board, None, 32);
        proof {
            assert(Seq::new(32, |i: int| None::<Piece>) =~= empty_cells(32));
        }
        let ghost a3 = board@;
        push_fill(&mut board, Some(Piece { color: Color::White, role: Role::Pawn }), 8);
        proof {
            assert(Seq::new(8, |i: int| Some(Piece { color: Color::White, role: Role::Pawn }))
                =~= pawn_rank(Color::White));
        }
        let ghost a4 = board@;
        push_back_rank(&mut board, Color::White);
        let r = Position {
            board,
            turn: Color::White,
            castling: CastlingRights {
                white_king: true,
                white_queen: true,
                black_king: true,
                black_queen: true,
            },
            en_passant: None,
            halfmoves: 0,
            fullmoves: 1,
        };
        proof {
            assert(a1 =~= back_rank(Color::Black));
            assert(r@.board == initial_board());
            assert(r@ =~= initial_model());
        }
        r
    }
}

} // verus!

verus! {

/// Every cell before the counted run's end is empty.
proof fn lemma_leading_nones_prefix(cells: Seq<Option<Piece>>)
    ensures
        forall|k: int| 0 <= k < leading_nones(cells) ==> cells[k] is None,
    decreases cells.len(),
{
    if cells.len() > 0 && cells[0] is None {
        lemma_leading_nones_bounds(cells);
        lemma_leading_nones_bounds(cells.drop_first());
        lemma_leading_nones_prefix(cells.drop_first());
        assert forall|k: int| 0 <= k < leading_nones(cells) implies cells[k] is None by {
            if k > 0 {
                assert(k - 1 < leading_nones(cells.drop_first()));
                assert(cells.drop_first()[k - 1] is None);
                assert(cells[k] == cells.drop_first()[k - 1]);
            }
        }
    }
}

/// The canonical text of a rank holds only placement letters and
/// cell counts, never a field or rank separator.
proof fn lemma_row_str_charset(cells: Seq<Option<Piece>>)
    requires
        cells.len() <= 8,
    ensures
        forall|i: int|
            0 <= i < row_str(cells).len() ==> row_str(cells)[i] != ' ' && row_str(cells)[i] != '/',
    decreases cells.len(),
{
    if cells.len() == 0 {
    } else if cells[0] is Some {
        lemma_row_str_charset(cells.drop_first());
        let p = cells[0]->0;
        assert(piece_char(p) != ' ' && piece_char(p) != '/');
        let rest = row_str(cells.drop_first());
        assert forall|i: int| 0 <= i < row_str(cells).len() implies row_str(cells)[i] != ' '
            && row_str(cells)[i] != '/' by {
            if i == 0 {
                assert(row_str(cells)[i] == piece_char(p));
            } else {
                assert(row_str(cells)[i] == rest[i - 1]);
            }
        }
    } else {
        let n = leading_nones(cells);
        lemma_leading_nones_bounds(cells);
        lemma_row_str_charset(cells.skip(n as int));
        assert(digit_char(n) as u32 == 48 + n);
        assert(digit_char(n) != ' ' && digit_char(n) != '/');
        let rest = row_str(cells.skip(n as int));
        assert forall|i: int| 0 <= i < row_str(cells).len() implies row_str(cells)[i] != ' '
            && row_str(cells)[i] != '/' by {
            if i == 0 {
                assert(row_str(cells)[i] == digit_char(n));
            } else {
                assert(row_str(cells)[i] == rest[i - 1]);
            }
        }
    }
}

/// Two well-formed rank texts in sequence denote the concatenation
/// of their cells.
proof fn lemma_rank_of_concat(a: Seq<char>, b: Seq<char>)
    requires
        rank_of(a) is Some,
        rank_of(b) is Some,
    ensures
        rank_of(a + b) == Some(rank_of(a)->0 + rank_of(b)->0),
    decreases b.len(),
{
    if b.len() == 0 {
        assert(a + b =~= a);
        assert(rank_of(a)->0 + rank_of(b)->0 =~= rank_of(a)->0);
    } else {
        lemma_rank_of_concat(a, b.drop_last());
        assert((a + b).drop_last() =~= a + b.drop_last());
        assert((a + b).last() == b.last());
        let c = b.last();
        if piece_of_char(c) is Some {
            assert((rank_of(a)->0 + rank_of(b.drop_last())->0).push(Some(piece_of_char(c)->0))
                =~= rank_of(a)->0 + rank_of(b)->0);
        } else {
            assert((rank_of(a)->0 + rank_of(b.drop_last())->0) + empty_cells(
                (c as u32 - 48) as nat,
            ) =~= rank_of(a)->0 + rank_of(b)->0);
        }
    }
}

/// One placement letter denotes one occupied cell.
proof fn lemma_rank_of_piece(p: Piece)
    ensures
        rank_of(seq![piece_char(p)]) == Some(seq![Some(p)]),
{
    let s = seq![piece_char(p)];
    assert(s.drop_last() =~= Seq::<char>::empty());
    assert(rank_of(Seq::<char>::empty()) == Some(Seq::<Option<Piece>>::empty()));
    assert(s.last() == piece_char(p));
    crate::board::lemma_piece_char_round_trip(p);
    assert(Seq::<Option<Piece>>::empty().push(Some(p)) =~= seq![Some(p)]);
}

/// One cell-count digit denotes that many empty cells.
proof fn lemma_rank_of_digit(n: nat)
    requires
        1 <= n <= 8,
    ensures
        rank_of(seq![digit_char(n)]) == Some(empty_cells(n)),
{
    let c = digit_char(n);
    assert(c as u32 == 48 + n);
    assert(crate::board::role_of_char(c) is None);
    assert(piece_of_char(c) is None);
    assert(seq![c].drop_last() =~= Seq::<char>::empty());
    assert(rank_of(Seq::<char>::empty()) == Some(Seq::<Option<Piece>>::empty()));
    assert(seq![c].last() == c);
    assert(Seq::<Option<Piece>>::empty() + empty_cells(n) =~= empty_cells(n));
}

/// The canonical text of a rank parses back to the same cells.
proof fn lemma_row_str_parses(cells: Seq<Option<Piece>>)
    requires
        cells.len() <= 8,
    ensures
        rank_of(row_str(cells)) == Some(cells),
    decreases cells.len(),
{
    if cells.len() == 0 {
        assert(cells =~= Seq::<Option<Piece>>::empty());
    } else if cells[0] is Some {
        let p = cells[0]->0;
        lemma_row_str_parses(cells.drop_first());
        lemma_rank_of_piece(p);
        lemma_rank_of_concat(seq![piece_char(p)], row_str(cells.drop_first()));
        assert(seq![Some(p)] + cells.drop_first() =~= cells);
    } else {
        let n = leading_nones(cells);
        lemma_leading_nones_bounds(cells);
        lemma_leading_nones_prefix(cells);
        lemma_row_str_parses(cells.skip(n as int));
        lemma_rank_of_digit(n);
        lemma_rank_of_concat(seq![digit_char(n)], row_str(cells.skip(n as int)));
        assert(empty_cells(n) + cells.skip(n as int) =~= cells);
    }
}

/// The canonical castling text parses back to the same rights.
proof fn lemma_castling_round_trip(c: CastlingRights)
    ensures
        castling_of(castling_str(c)) == Some(c),
{
    let s = castling_str(c);
    if !c.white_king && !c.white_queen && !c.black_king && !c.black_queen {
        assert(castling_of(s) == Some(c));
    } else {
        assert(castling_of(s) == Some(c));
    }
}

} // verus!

verus! {

/// The canonical FEN line of a well-formed position parses back to
/// the very same position: serialization loses nothing, and the text
/// the library emits is always accepted by its own parser.
#[verifier::rlimit(100)]
pub proof fn lemma_fen_round_trip(m: FenModel)
    requires
        model_wf(m),
    ensures
        fen_of(fen_str(m)) == Some(m),
{
    let b = m.board;
    let s0 = b.subrange(0, 8);
    let s1 = b.subrange(8, 16);
    let s2 = b.subrange(16, 24);
    let s3 = b.subrange(24, 32);
    let s4 = b.subrange(32, 40);
    let s5 = b.subrange(40, 48);
    let s6 = b.subrange(48, 56);
    let s7 = b.subrange(56, 64);
    let r0 = row_str(s0);
    let r1 = row_str(s1);
    let r2 = row_str(s2);
    let r3 = row_str(s3);
    let r4 = row_str(s4);
    let r5 = row_str(s5);
    let r6 = row_str(s6);
    let r7 = row_str(s7);
    lemma_row_str_parses(s0);
    lemma_row_str_parses(s1);
    lemma_row_str_parses(s2);
    lemma_row_str_parses(s3);
    lemma_row_str_parses(s4);
    lemma_row_str_parses(s5);
    lemma_row_str_parses(s6);
    lemma_row_str_parses(s7);
    lemma_row_str_charset(s0);
    lemma_row_str_charset(s1);
    lemma_row_str_charset(s2);
    lemma_row_str_charset(s3);
    lemma_row_str_charset(s4);
    lemma_row_str_charset(s5);
    lemma_row_str_charset(s6);
    lemma_row_str_charset(s7);
    assert(!r1.contains('/') && !r2.contains('/') && !r3.contains('/') && !r4.contains('/')
        && !r5.contains('/') && !r6.contains('/') && !r7.contains('/'));
    lemma_split_on_whole(r0, '/');
    lemma_split_on_append(r0, r1, '/');
    let p1 = r0 + seq!['/'] + r1;
    lemma_split_on_append(p1, r2, '/');
    let p2 = p1 + seq!['/'] + r2;
    lemma_split_on_append(p2, r3, '/');
    let p3 = p2 + seq!['/'] + r3;
    lemma_split_on_append(p3, r4, '/');
    let p4 = p3 + seq!['/'] + r4;
    lemma_split_on_append(p4, r5, '/');
    let p5 = p4 + seq!['/'] + r5;
    lemma_split_on_append(p5, r6, '/');
    let p6 = p5 + seq!['/'] + r6;
    lemma_split_on_append(p6, r7, '/');
    let pl = p6 + seq!['/'] + r7;
    let rows = split_on(pl, '/');
    assert(rows == seq![r0].push(r1).push(r2).push(r3).push(r4).push(r5).push(r6).push(r7));
    assert(rows.len() == 8);
    assert(rows[0] == r0 && rows[1] == r1 && rows[2] == r2 && rows[3] == r3 && rows[4] == r4
        && rows[5] == r5 && rows[6] == r6 && rows[7] == r7);
    assert forall|i: int| 0 <= i < pl.len() implies pl[i] != ' ' by {}
    assert(!pl.contains(' '));
    let t = turn_str(m.turn);
    let cs = castling_str(m.castling);
    let ep = ep_str(m.en_passant);
    let hm = u32_str(m.halfmoves);
    let fm = u32_str(m.fullmoves);
    assert(!t.contains(' '));
    assert forall|i: int| 0 <= i < cs.len() implies cs[i] != ' ' by {}
    assert(!cs.contains(' '));
    assert forall|i: int| 0 <= i < ep.len() implies ep[i] != ' ' by {
        match m.en_passant {
            None => {},
            Some(q) => {
                assert(ep == square_str(q));
            },
        }
    }
    assert(!ep.contains(' '));
    crate::text::lemma_u32_str_digits(m.halfmoves);
    crate::text::lemma_u32_str_digits(m.fullmoves);
    crate::text::lemma_digits_charset(hm);
    crate::text::lemma_digits_charset(fm);
    lemma_split_on_whole(pl, ' ');
    lemma_split_on_append(pl, t, ' ');
    let f2 = pl + seq![' '] + t;
    lemma_split_on_append(f2, cs, ' ');
    let f3 = f2 + seq![' '] + cs;
    lemma_split_on_append(f3, ep, ' ');
    let f4 = f3 + seq![' '] + ep;
    lemma_split_on_append(f4, hm, ' ');
    let f5 = f4 + seq![' '] + hm;
    lemma_split_on_append(f5, fm, ' ');
    let f6 = f5 + seq![' '] + fm;
    assert(fen_str(m) == f6);
    let fields = split_on(fen_str(m), ' ');
    assert(fields == seq![pl].push(t).push(cs).push(ep).push(hm).push(fm));
    assert(fields.len() == 6);
    assert(fields[0] == pl && fields[1] == t && fields[2] == cs && fields[3] == ep && fields[4]
        == hm && fields[5] == fm);
    assert forall|i: int| 0 <= i < 8 implies row_cells_ok(#[trigger] rows[i]) by {}
    assert(placement_of(pl) == Some(s0 + s1 + s2 + s3 + s4 + s5 + s6 + s7));
    assert(s0 + s1 + s2 + s3 + s4 + s5 + s6 + s7 =~= b);
    assert(turn_of(t) == Some(m.turn));
    lemma_castling_round_trip(m.castling);
    match m.en_passant {
        None => {
            assert(ep_of(ep) == Some(None::<Square>));
        },
        Some(q) => {
            crate::board::lemma_square_round_trip(q);
            assert(ep.len() == 2);
            assert(ep_of(ep) == Some(Some(q)));
        },
    }
    crate::text::lemma_u32_round_trip(m.halfmoves);
    crate::text::lemma_u32_round_trip(m.fullmoves);
    assert(fen_of(fen_str(m)) is Some);
    assert(fen_of(fen_str(m))->0 =~= m);
}

} // verus!
