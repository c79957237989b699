use rand::Rng;
use vstd::prelude::*;
use crate::board::{Board, Coordinate, Errors, FieldType};
use crate::coordinate::parse_coordinate;

verus! {

/// One side of a game and the mark it places.
#[derive(Debug, Clone, Copy, PartialEq, Eq, Structural)]
pub enum Player {
    Human(FieldType),
    Computer(FieldType),
}

/// What a human's typed line gives on `board`: the coordinate it names
/// where that is a legal move, else why it was refused.
pub open spec fn human_move(board: Board, input: Seq<char>) -> Result<Coordinate, Errors> {
    match parse_coordinate(input) {
        Err(e) => Err(e),
        Ok(c) => if board.valid_move(c) {
            Ok(c)
        } else {
            Err(Errors::InvalidCoordinatres)
        },
    }
}

/// Relies on rand's `thread_rng` and `Rng::gen_range`: a value drawn from
/// `0..len`, which must not be empty.
#[verifier::external_body]
fn random_below(len: usize) -> (r: usize)
    requires
        len > 0,
    ensures
        r < len,
{
    rand::thread_rng().gen_range(0..len)
}

/// A legal move drawn at random from the free cells, or `None` on a full
/// board.
pub fn run_advanced_ai_move(board: Board) -> (r: Option<Coordinate>)
    requires
        board.wf(),
    ensures
        r is None <==> forall|c: Coordinate| !#[trigger] board.valid_move(c),
        r matches Some(c) ==> board.valid_move(c),
{
    let free_coords = board.get_free_coordinates();
    if free_coords.len() == 0 {
        assert forall|c: Coordinate| !#[trigger] board.valid_move(c) by {
            if board.valid_move(c) {
                assert(free_coords@.contains(c));
            }
        }
        return None;
    }
    let random_index = random_below(free_coords.len());
    Some(free_coords[random_index])
}

/// The coordinate that a human's typed line names on `board`:
/// `ParseCoordinatesError` where the line is malformed, and
/// `InvalidCoordinatres` where it names an illegal move.
pub fn read_human_move(board: Board, input: &str) -> (r: Result<Coordinate, Errors>)
    requires
        board.wf(),
    ensures
        r == human_move(board, input@),
{
    match Coordinate::parse(input) {
        Err(e) => Err(e),
        Ok(c) => if board.is_move_valid(c) {
            Ok(c)
        } else {
            Err(Errors::InvalidCoordinatres)
        },
    }
}

impl Player {
    /// The mark this player places.
    pub open spec fn mark(self) -> FieldType {
        match self {
            Player::Human(f) => f,
            Player::Computer(f) => f,
        }
    }

    /// The player's choice of move on `board`. A human's is read from
    /// `input`, the line it typed; a computer ignores `input` and picks a
    /// free cell at random, or gives `None` when there is none.
    pub fn read_move(&self, board: Board, input: &str) -> (r: Result<Option<Coordinate>, Errors>)
        requires
            board.wf(),
        ensures
            self is Human ==> r == match human_move(board, input@) {
                Ok(c) => Ok(Some(c)),
                Err(e) => Err::<Option<Coordinate>, Errors>(e),
            },
            self is Computer ==> r is Ok,
            self is Computer ==> (r == Ok::<Option<Coordinate>, Errors>(None) <==> forall|c: Coordinate|
                !#[trigger] board.valid_move(c)),
            r matches Ok(Some(c)) ==> board.valid_move(c),
    {
        match self {
            Player::Human(_) => match read_human_move(board, input) {
                Ok(c) => Ok(Some(c)),
                Err(e) => Err(e),
            },
            Player::Computer(_) => Ok(run_advanced_ai_move(board)),
        }
    }

    pub fn get_field_type(&self) -> (r: &FieldType)
        ensures
            *r == self.mark(),
    {
        match self {
            Player::Human(f) => f,
            Player::Computer(f) => f,
        }
    }
}

} // verus!
