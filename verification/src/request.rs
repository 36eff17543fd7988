//! The validated request models: bounded player names, one
//! displayable frame, the flat single-position request, and the
//! multi-frame animation request.

use vstd::prelude::*;
use vstd::pervasive::unreached;
use vstd::string::{StrSliceExecFns, StringSliceAdditionalSpecFns};
use vstd::utf8::encode_utf8;

use crate::DecodeError;
use crate::board::{Color, Orientation, Piece, Role, Square, square_opt_of};
use crate::fen::{FenModel, Position, fen_of, initial_board, initial_model, model_wf};
use crate::text::{chars_vec, opt_chars};
use crate::uci::{Move, move_opt_of, maybe_move};

verus! {

/// The byte capacity of a player name.
pub const NAME_CAPACITY: usize = 100;

/// Whether a name fits the capacity: measured in bytes of its UTF-8
/// encoding, not in characters.
pub open spec fn name_fits(s: Seq<char>) -> bool {
    encode_utf8(s).len() <= NAME_CAPACITY
}

/// A player name of at most 100 bytes; longer values are rejected
/// when the name is constructed.
#[derive(Debug)]
pub struct PlayerName {
    text: String,
}

impl View for PlayerName {
    type V = Seq<char>;

    closed spec fn view(&self) -> Seq<char> {
        self.text@
    }
}

impl PlayerName {
    /// The stored text fits the capacity.
    pub open spec fn wf(&self) -> bool {
        name_fits(self@)
    }

    /// Accepts exactly the texts of at most 100 bytes.
    pub fn new(s: &str) -> (r: Result<PlayerName, DecodeError>)
        ensures
            match r {
                Ok(n) => name_fits(s@) && n@ == s@ && n.wf(),
                Err(e) => !name_fits(s@) && e == DecodeError::NameTooLong,
            },
    {
        let bytes = s.as_bytes_vec();
        proof {
            assert(bytes@ == encode_utf8(s@));
        }
        if bytes.len() <= NAME_CAPACITY {
            Ok(PlayerName { text: s.to_owned() })
        } else {
            Err(DecodeError::NameTooLong)
        }
    }

    /// The text of the name.
    pub fn text(&self) -> (r: &str)
        ensures
            r@ == self@,
    {
        self.text.as_str()
    }
}

/// The view of an optional player name.
pub open spec fn opt_name_view(on: Option<PlayerName>) -> Option<Seq<char>> {
    match on {
        Some(n) => Some(n@),
        None => None,
    }
}

/// Decoding of an optional name field: an absent name is permitted,
/// a present one must fit the capacity.
pub open spec fn opt_name_of(s: Option<Seq<char>>) -> Result<Option<Seq<char>>, DecodeError> {
    match s {
        None => Ok(None),
        Some(t) => if name_fits(t) {
            Ok(Some(t))
        } else {
            Err(DecodeError::NameTooLong)
        },
    }
}

/// Parses an optional name field.
fn maybe_name(s: Option<&str>) -> (r: Result<Option<PlayerName>, DecodeError>)
    ensures
        match r {
            Ok(on) => opt_name_of(opt_chars(s)) == Ok::<_, DecodeError>(opt_name_view(on)) && (
            on matches Some(n) ==> n.wf()),
            Err(e) => opt_name_of(opt_chars(s)) == Err::<Option<Seq<char>>, _>(e),
        },
{
    match s {
        None => Ok(None),
        Some(t) => match PlayerName::new(t) {
            Ok(n) => Ok(Some(n)),
            Err(e) => Err(e),
        },
    }
}

/// The orientation denoted by the field: "white" or "black".
pub open spec fn orientation_of(s: Seq<char>) -> Option<Orientation> {
    if s.len() == 5 && s[0] == 'w' && s[1] == 'h' && s[2] == 'i' && s[3] == 't' && s[4] == 'e' {
        Some(Orientation::White)
    } else if s.len() == 5 && s[0] == 'b' && s[1] == 'l' && s[2] == 'a' && s[3] == 'c' && s[4]
        == 'k' {
        Some(Orientation::Black)
    } else {
        None
    }
}

/// Decoding of an optional orientation field: an absent field is the
/// white-side view.
pub open spec fn orientation_opt_of(s: Option<Seq<char>>) -> Result<Orientation, DecodeError> {
    match s {
        None => Ok(Orientation::White),
        Some(t) => match orientation_of(t) {
            Some(o) => Ok(o),
            None => Err(DecodeError::MalformedOrientation),
        },
    }
}

/// Parses an optional orientation field.
fn maybe_orientation(s: Option<&str>) -> (r: Result<Orientation, DecodeError>)
    ensures
        r == orientation_opt_of(opt_chars(s)),
{
    match s {
        None => Ok(Orientation::White),
        Some(t) => {
            let v = chars_vec(t);
            if v.len() == 5 && v[0] == 'w' && v[1] == 'h' && v[2] == 'i' && v[3] == 't' && v[4]
                == 'e' {
                Ok(Orientation::White)
            } else if v.len() == 5 && v[0] == 'b' && v[1] == 'l' && v[2] == 'a' && v[3] == 'c'
                && v[4] == 'k' {
                Ok(Orientation::Black)
            } else {
                Err(DecodeError::MalformedOrientation)
            }
        },
    }
}

/// The mathematical content of one frame.
#[verifier::ext_equal]
pub ghost struct FrameModel {
    pub fen: FenModel,
    pub delay: Option<u16>,
    pub last_move: Move,
    pub check: Option<Square>,
}

/// A frame model is well formed when its position and squares are.
pub open spec fn frame_model_wf(f: FrameModel) -> bool {
    &&& model_wf(f.fen)
    &&& f.last_move.wf()
    &&& match f.check {
        Some(q) => q.wf(),
        None => true,
    }
}

/// One displayable board state: a position, the move that led to it,
/// an optional square in check, and an optional display delay.
#[derive(Debug)]
pub struct RequestFrame {
    pub fen: Position,
    pub delay: Option<u16>,
    pub last_move: Move,
    pub check: Option<Square>,
}

impl View for RequestFrame {
    type V = FrameModel;

    open spec fn view(&self) -> FrameModel {
        FrameModel {
            fen: self.fen@,
            delay: self.delay,
            last_move: self.last_move,
            check: self.check,
        }
    }
}

impl RequestFrame {
    /// The stored frame satisfies the model invariant.
    pub open spec fn wf(&self) -> bool {
        frame_model_wf(self@)
    }
}

/// The raw fields of one frame of a structured body, before
/// validation.
#[derive(Debug)]
pub struct FrameParams {
    pub fen: Option<String>,
    pub delay: Option<u16>,
    pub last_move: Option<String>,
    pub check: Option<String>,
}

/// The mathematical content of the raw fields of one frame.
#[verifier::ext_equal]
pub ghost struct FrameIn {
    pub fen: Option<Seq<char>>,
    pub delay: Option<u16>,
    pub last_move: Option<Seq<char>>,
    pub check: Option<Seq<char>>,
}

impl View for FrameParams {
    type V = FrameIn;

    open spec fn view(&self) -> FrameIn {
        FrameIn {
            fen: match self.fen {
                Some(s) => Some(s@),
                None => None,
            },
            delay: self.delay,
            last_move: match self.last_move {
                Some(s) => Some(s@),
                None => None,
            },
            check: match self.check {
                Some(s) => Some(s@),
                None => None,
            },
        }
    }
}

/// Decoding of one frame: the position is required, the move and the
/// check square default field by field, the delay passes through.
pub open spec fn frame_of(f: FrameIn) -> Result<FrameModel, DecodeError> {
    match f.fen {
        None => Err(DecodeError::MissingRequiredField),
        Some(ft) => match fen_of(ft) {
            None => Err(DecodeError::MalformedPosition),
            Some(pos) => match move_opt_of(f.last_move) {
                Err(e) => Err(e),
                Ok(mv) => match square_opt_of(f.check) {
                    Err(e) => Err(e),
                    Ok(ck) => Ok(FrameModel { fen: pos, delay: f.delay, last_move: mv, check: ck }),
                },
            },
        },
    }
}

impl RequestFrame {
    /// Decodes one frame of a structured body.
    pub fn decode(params: &FrameParams) -> (r: Result<RequestFrame, DecodeError>)
        ensures
            match r {
                Ok(f) => frame_of(params@) == Ok::<_, DecodeError>(f@) && f.wf(),
                Err(e) => frame_of(params@) == Err::<FrameModel, _>(e),
            },
    {
        let fen = match &params.fen {
            None => {
                return Err(DecodeError::MissingRequiredField);
            },
            Some(ft) => match Position::parse(ft.as_str()) {
                Ok(p) => p,
                Err(e) => {
                    return Err(e);
                },
            },
        };
        let last_move = match maybe_move(match &params.last_move {
            Some(s) => Some(s.as_str()),
            None => None,
        }) {
            Ok(m) => m,
            Err(e) => {
                return Err(e);
            },
        };
        let check = match crate::board::maybe_square(match &params.check {
            Some(s) => Some(s.as_str()),
            None => None,
        }) {
            Ok(c) => c,
            Err(e) => {
                return Err(e);
            },
        };
        Ok(RequestFrame { fen, delay: params.delay, last_move, check })
    }
}

} // verus!

verus! {

/// Decoding of the position field of a flat request: an absent field
/// is the standard starting position.
pub open spec fn fen_opt_of(s: Option<Seq<char>>) -> Result<FenModel, DecodeError> {
    match s {
        None => Ok(initial_model()),
        Some(t) => match fen_of(t) {
            Some(m) => Ok(m),
            None => Err(DecodeError::MalformedPosition),
        },
    }
}

/// The mathematical content of a flat single-position request.
#[verifier::ext_equal]
pub ghost struct ParamsModel {
    pub white: Option<Seq<char>>,
    pub black: Option<Seq<char>>,
    pub fen: FenModel,
    pub last_move: Move,
    pub check: Option<Square>,
    pub orientation: Orientation,
}

/// Decoding of a flat single-position request. Every field is
/// optional and defaults independently of the others; the first
/// malformed field, in the order written here, decides the error.
pub open spec fn params_of(
    white: Option<Seq<char>>,
    black: Option<Seq<char>>,
    fen: Option<Seq<char>>,
    last_move: Option<Seq<char>>,
    check: Option<Seq<char>>,
    orientation: Option<Seq<char>>,
) -> Result<ParamsModel, DecodeError> {
    match opt_name_of(white) {
        Err(e) => Err(e),
        Ok(w) => match opt_name_of(black) {
            Err(e) => Err(e),
            Ok(bl) => match fen_opt_of(fen) {
                Err(e) => Err(e),
                Ok(p) => match move_opt_of(last_move) {
                    Err(e) => Err(e),
                    Ok(mv) => match square_opt_of(check) {
                        Err(e) => Err(e),
                        Ok(ck) => match orientation_opt_of(orientation) {
                            Err(e) => Err(e),
                            Ok(o) => Ok(
                                ParamsModel {
                                    white: w,
                                    black: bl,
                                    fen: p,
                                    last_move: mv,
                                    check: ck,
                                    orientation: o,
                                },
                            ),
                        },
                    },
                },
            },
        },
    }
}

/// One validated rendering request from flat key-value parameters.
#[derive(Debug)]
pub struct RequestParams {
    pub white: Option<PlayerName>,
    pub black: Option<PlayerName>,
    pub fen: Position,
    pub last_move: Move,
    pub check: Option<Square>,
    pub orientation: Orientation,
}

impl View for RequestParams {
    type V = ParamsModel;

    open spec fn view(&self) -> ParamsModel {
        ParamsModel {
            white: opt_name_view(self.white),
            black: opt_name_view(self.black),
            fen: self.fen@,
            last_move: self.last_move,
            check: self.check,
            orientation: self.orientation,
        }
    }
}

impl RequestParams {
    /// Every stored part satisfies its invariant.
    pub open spec fn wf(&self) -> bool {
        &&& match self.white {
            Some(n) => n.wf(),
            None => true,
        }
        &&& match self.black {
            Some(n) => n.wf(),
            None => true,
        }
        &&& self.fen.wf()
        &&& self.last_move.wf()
        &&& match self.check {
            Some(q) => q.wf(),
            None => true,
        }
    }

    /// Decodes one rendering request from flat parameters.
    pub fn decode(
        white: Option<&str>,
        black: Option<&str>,
        fen: Option<&str>,
        last_move: Option<&str>,
        check: Option<&str>,
        orientation: Option<&str>,
    ) -> (r: Result<RequestParams, DecodeError>)
        ensures
            match r {
                Ok(p) => params_of(
                    opt_chars(white),
                    opt_chars(black),
                    opt_chars(fen),
                    opt_chars(last_move),
                    opt_chars(check),
                    opt_chars(orientation),
                ) == Ok::<_, DecodeError>(p@) && p.wf(),
                Err(e) => params_of(
                    opt_chars(white),
                    opt_chars(black),
                    opt_chars(fen),
                    opt_chars(last_move),
                    opt_chars(check),
                    opt_chars(orientation),
                ) == Err::<ParamsModel, _>(e),
            },
    {
        let w = match maybe_name(white) {
            Ok(n) => n,
            Err(e) => {
                return Err(e);
            },
        };
        let bl = match maybe_name(black) {
            Ok(n) => n,
            Err(e) => {
                return Err(e);
            },
        };
        let p = match fen {
            None => Position::initial(),
            Some(t) => match Position::parse(t) {
                Ok(p) => p,
                Err(e) => {
                    return Err(e);
                },
            },
        };
        let mv = match maybe_move(last_move) {
            Ok(m) => m,
            Err(e) => {
                return Err(e);
            },
        };
        let ck = match crate::board::maybe_square(check) {
            Ok(c) => c,
            Err(e) => {
                return Err(e);
            },
        };
        let o = match maybe_orientation(orientation) {
            Ok(o) => o,
            Err(e) => {
                return Err(e);
            },
        };
        Ok(RequestParams { white: w, black: bl, fen: p, last_move: mv, check: ck, orientation: o })
    }
}

/// The views of the raw frames of a structured body.
pub open spec fn frames_in(s: Seq<FrameParams>) -> Seq<FrameIn> {
    s.map_values(|p: FrameParams| p@)
}

/// The views of a vector of validated frames.
pub open spec fn frame_views(s: Seq<RequestFrame>) -> Seq<FrameModel> {
    s.map_values(|f: RequestFrame| f@)
}

/// Decoding of a frame sequence: every frame must decode, in order,
/// and the first failure decides the error.
pub open spec fn frames_of(list: Seq<FrameIn>) -> Result<Seq<FrameModel>, DecodeError>
    decreases list.len(),
{
    if list.len() == 0 {
        Ok(Seq::empty())
    } else {
        match frame_of(list[0]) {
            Err(e) => Err(e),
            Ok(f) => match frames_of(list.drop_first()) {
                Err(e) => Err(e),
                Ok(fs) => Ok(seq![f] + fs),
            },
        }
    }
}

/// A decoded prefix together with the outcome on the rest.
pub open spec fn frames_prefixed(
    pre: Seq<FrameModel>,
    rest: Result<Seq<FrameModel>, DecodeError>,
) -> Result<Seq<FrameModel>, DecodeError> {
    match rest {
        Ok(fs) => Ok(pre + fs),
        Err(e) => Err(e),
    }
}

/// The mathematical content of a multi-frame animation request.
#[verifier::ext_equal]
pub ghost struct BodyModel {
    pub white: Option<Seq<char>>,
    pub black: Option<Seq<char>>,
    pub frames: Seq<FrameModel>,
    pub orientation: Orientation,
    pub delay: u16,
}

/// Decoding of a structured multi-frame body. The names, the frame
/// list and the orientation must all decode; an absent request-level
/// delay defaults to 0.
pub open spec fn body_of(
    white: Option<Seq<char>>,
    black: Option<Seq<char>>,
    orientation: Option<Seq<char>>,
    delay: Option<u16>,
    frames: Seq<FrameIn>,
) -> Result<BodyModel, DecodeError> {
    match opt_name_of(white) {
        Err(e) => Err(e),
        Ok(w) => match opt_name_of(black) {
            Err(e) => Err(e),
            Ok(bl) => match frames_of(frames) {
                Err(e) => Err(e),
                Ok(fs) => match orientation_opt_of(orientation) {
                    Err(e) => Err(e),
                    Ok(o) => Ok(
                        BodyModel {
                            white: w,
                            black: bl,
                            frames: fs,
                            orientation: o,
                            delay: match delay {
                                Some(d) => d,
                                None => 0,
                            },
                        },
                    ),
                },
            },
        },
    }
}

/// One validated animation request from a structured body.
#[derive(Debug)]
pub struct RequestBody {
    pub white: Option<PlayerName>,
    pub black: Option<PlayerName>,
    pub frames: Vec<RequestFrame>,
    pub orientation: Orientation,
    pub delay: u16,
}

impl View for RequestBody {
    type V = BodyModel;

    open spec fn view(&self) -> BodyModel {
        BodyModel {
            white: opt_name_view(self.white),
            black: opt_name_view(self.black),
            frames: frame_views(self.frames@),
            orientation: self.orientation,
            delay: self.delay,
        }
    }
}

impl RequestBody {
    /// Every stored part satisfies its invariant.
    pub open spec fn wf(&self) -> bool {
        &&& match self.white {
            Some(n) => n.wf(),
            None => true,
        }
        &&& match self.black {
            Some(n) => n.wf(),
            None => true,
        }
        &&& forall|i: int| 0 <= i < self.frames@.len() ==> (#[trigger] self.frames@[i]).wf()
    }

    /// Decodes an animation request: the frames decode in order, and
    /// any malformed frame fails the whole request.
    pub fn decode(
        white: Option<&str>,
        black: Option<&str>,
        orientation: Option<&str>,
        delay: Option<u16>,
        frames: &Vec<FrameParams>,
    ) -> (r: Result<RequestBody, DecodeError>)
        ensures
            match r {
                Ok(b) => body_of(
                    opt_chars(white),
                    opt_chars(black),
                    opt_chars(orientation),
                    delay,
                    frames_in(frames@),
                ) == Ok::<_, DecodeError>(b@) && b.wf(),
                Err(e) => body_of(
                    opt_chars(white),
                    opt_chars(black),
                    opt_chars(orientation),
                    delay,
                    frames_in(frames@),
                ) == Err::<BodyModel, _>(e),
            },
    {
        let ghost fin = frames_in(frames@);
        let w = match maybe_name(white) {
            Ok(n) => n,
            Err(e) => {
                return Err(e);
            },
        };
        let bl = match maybe_name(black) {
            Ok(n) => n,
            Err(e) => {
                return Err(e);
            },
        };
        let mut out: Vec<RequestFrame> = Vec::new();
        proof {
            assert(fin.skip(0) =~= fin);
            assert(frame_views(out@) =~= Seq::<FrameModel>::empty());
        }
        let mut i: usize = 0;
        while i < frames.len()
            invariant
                i <= frames@.len(),
                fin == frames_in(frames@),
                fin.len() == frames@.len(),
                opt_name_of(opt_chars(white)) == Ok::<_, DecodeError>(opt_name_view(w)),
                opt_name_of(opt_chars(black)) == Ok::<_, DecodeError>(opt_name_view(bl)),
                w matches Some(n) ==> n.wf(),
                bl matches Some(n) ==> n.wf(),
                frames_of(fin) == frames_prefixed(frame_views(out@), frames_of(fin.skip(i as int))),
                forall|k: int| 0 <= k < out@.len() ==> (#[trigger] out@[k]).wf(),
            decreases frames@.len() - i,
        {
            proof {
                assert(fin[i as int] == frames@[i as int]@);
                assert(fin.skip(i as int)[0] == fin[i as int]);
                assert(fin.skip(i as int).drop_first() =~= fin.skip(i as int + 1));
            }
            match RequestFrame::decode(&frames[i]) {
                Err(e) => {
                    return Err(e);
                },
                Ok(f) => {
                    let ghost pre = frame_views(out@);
                    out.push(f);
                    proof {
                        assert(frame_views(out@) =~= pre.push(f@));
                        match frames_of(fin.skip(i as int + 1)) {
                            Ok(rest) => {
                                assert(pre + (seq![f@] + rest) =~= frame_views(out@) + rest);
                            },
                            Err(_) => {},
                        }
                    }
                },
            }
            i = i + 1;
        }
        proof {
            assert(fin.skip(fin.len() as int) =~= Seq::<FrameIn>::empty());
            assert(frame_views(out@) + Seq::<FrameModel>::empty() =~= frame_views(out@));
        }
        let o = match maybe_orientation(orientation) {
            Ok(o) => o,
            Err(e) => {
                return Err(e);
            },
        };
        let d = match delay {
            Some(d) => d,
            None => 0,
        };
        Ok(RequestBody { white: w, black: bl, frames: out, orientation: o, delay: d })
    }
}

/// A malformed frame anywhere in the list makes the frame-sequence
/// decode fail, whatever the other frames hold.
pub proof fn lemma_frames_of_err(frames: Seq<FrameIn>, i: int)
    requires
        0 <= i < frames.len(),
        frame_of(frames[i]) is Err,
    ensures
        frames_of(frames) is Err,
    decreases i,
{
    if frame_of(frames[0]) is Err {
    } else if i > 0 {
        lemma_frames_of_err(frames.drop_first(), i - 1);
    }
}

/// Any single malformed frame in a multi-frame body makes the whole
/// request decode fail, even if every other field and frame is valid.
pub proof fn lemma_malformed_frame_fails(
    white: Option<Seq<char>>,
    black: Option<Seq<char>>,
    orientation: Option<Seq<char>>,
    delay: Option<u16>,
    frames: Seq<FrameIn>,
    i: int,
)
    requires
        0 <= i < frames.len(),
        frame_of(frames[i]) is Err,
    ensures
        body_of(white, black, orientation, delay, frames) is Err,
{
    lemma_frames_of_err(frames, i);
}

} // verus!

verus! {

/// The position after the opening move e2e4 from the start: the e2
/// pawn stands on e4 and Black is to move.
pub open spec fn after_e2e4_model() -> FenModel {
    FenModel {
        board: initial_board().update(52, None).update(
            36,
            Some(Piece { color: Color::White, role: Role::Pawn }),
        ),
        turn: Color::Black,
        castling: crate::fen::CastlingRights {
            white_king: true,
            white_queen: true,
            black_king: true,
            black_queen: true,
        },
        en_passant: None,
        halfmoves: 0,
        fullmoves: 1,
    }
}

/// The canonical fully populated example request: two named players
/// and two frames, the starting position and the position after
/// e2e4.
pub open spec fn example_model() -> BodyModel {
    BodyModel {
        white: Some("Molinari"@),
        black: Some("Bordais"@),
        frames: seq![
            FrameModel { fen: initial_model(), delay: None, last_move: Move::Null, check: None },
            FrameModel {
                fen: after_e2e4_model(),
                delay: None,
                last_move: Move::Normal {
                    from: Square { file: 4, rank: 1 },
                    to: Square { file: 4, rank: 3 },
                    promotion: None,
                },
                check: None,
            },
        ],
        orientation: Orientation::White,
        delay: 50,
    }
}

impl RequestBody {
    /// Builds the canonical example request; it never fails.
    pub fn example() -> (r: RequestBody)
        ensures
            r@ == example_model(),
            r.wf(),
    {
        proof {
            reveal_strlit("Molinari");
            reveal_strlit("Bordais");
            assert(vstd::utf8::is_ascii_chars("Molinari"@));
            assert(vstd::utf8::is_ascii_chars("Bordais"@));
            vstd::utf8::is_ascii_chars_encode_utf8("Molinari"@);
            vstd::utf8::is_ascii_chars_encode_utf8("Bordais"@);
            assert(name_fits("Molinari"@));
            assert(name_fits("Bordais"@));
        }
        let white = match PlayerName::new("Molinari") {
            Ok(n) => n,
            Err(_) => unreached(),
        };
        let black = match PlayerName::new("Bordais") {
            Ok(n) => n,
            Err(_) => unreached(),
        };
        let first = RequestFrame {
            fen: Position::initial(),
            delay: None,
            last_move: Move::Null,
            check: None,
        };
        let mut p2 = Position::initial();
        proof {
            assert(p2.board@.len() == 64);
        }
        p2.board[52] = None;
        p2.board[36] = Some(Piece { color: Color::White, role: Role::Pawn });
        p2.turn = Color::Black;
        let second = RequestFrame {
            fen: p2,
            delay: None,
            last_move: Move::Normal {
                from: Square { file: 4, rank: 1 },
                to: Square { file: 4, rank: 3 },
                promotion: None,
            },
            check: None,
        };
        let mut frames: Vec<RequestFrame> = Vec::new();
        proof {
            assert(first@ =~= example_model().frames[0]);
            assert(second@ =~= example_model().frames[1]);
        }
        frames.push(first);
        frames.push(second);
        let r = RequestBody {
            white: Some(white),
            black: Some(black),
            frames,
            orientation: Orientation::White,
            delay: 50,
        };
        proof {
            assert(frame_views(r.frames@) =~= example_model().frames);
            assert(r@ =~= example_model());
        }
        r
    }
}

} // verus!
