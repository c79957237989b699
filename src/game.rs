use vstd::prelude::*;
use crate::board::{Board, Coordinate, Errors, FieldType, GameResults};
use crate::player::Player;

verus! {

/// A game between two players on a board. The first player moves first in
/// every round.
#[derive(Debug, Clone, Copy)]
pub struct Game {
    pub player1: Player,
    pub player2: Player,
    pub board: Board,
}

impl Game {
    /// Both players place a real mark and the board is well formed.
    pub open spec fn wf(self) -> bool {
        &&& self.board.wf()
        &&& self.player1.mark() != FieldType::Empty
        &&& self.player2.mark() != FieldType::Empty
    }

    /// The player who moves first (`second == false`) or second.
    pub open spec fn mover(self, second: bool) -> Player {
        if second {
            self.player2
        } else {
            self.player1
        }
    }

    /// A new game: a human playing `X` against a computer playing `O`, on an
    /// empty board.
    pub fn start() -> (r: Game)
        ensures
            r.wf(),
            r.player1 == Player::Human(FieldType::X),
            r.player2 == Player::Computer(FieldType::O),
            r.board.moves() == 0,
            forall|x: int, y: int|
                0 <= x < 3 && 0 <= y < 3 ==> #[trigger] r.board.cell(x, y) == FieldType::Empty,
    {
        let board = Board::empty();
        Game { player1: Player::Human(FieldType::X), player2: Player::Computer(FieldType::O), board }
    }

    /// The game after one player's turn: `None` (no move available) leaves it
    /// as it is; a coordinate is placed with that player's mark, and an
    /// illegal one is refused with `InvalidCoordinatres`.
    pub fn apply_move(&self, second: bool, mv: Option<Coordinate>) -> (r: Result<Game, Errors>)
        requires
            self.wf(),
        ensures
            mv is None ==> r == Ok::<Game, Errors>(*self),
            mv matches Some(c) ==> (self.board.valid_move(c) <==> r is Ok),
            r matches Err(e) ==> e == Errors::InvalidCoordinatres,
            r matches Ok(g) ==> {
                &&& g.wf()
                &&& g.player1 == self.player1
                &&& g.player2 == self.player2
            },
            r matches Ok(g) ==> (mv matches Some(c) ==> self.board.is_placement(
                g.board,
                c,
                self.mover(second).mark(),
            )),
    {
        match mv {
            None => Ok(*self),
            Some(c) => {
                let player = if second {
                    &self.player2
                } else {
                    &self.player1
                };
                match self.board.move_next(c, *player.get_field_type()) {
                    Ok(board) => Ok(Game { player1: self.player1, player2: self.player2, board }),
                    Err(e) => Err(e),
                }
            },
        }
    }

    /// The result of the game so far.
    pub fn result(&self) -> (r: GameResults)
        requires
            self.wf(),
        ensures
            r == self.board.game_result(),
    {
        self.board.check_game_result()
    }

    /// Whether the game has reached a decisive result.
    pub fn is_decided(&self) -> (r: bool)
        requires
            self.wf(),
        ensures
            r == (self.board.game_result() != GameResults::InProgress),
    {
        self.result() != GameResults::InProgress
    }
}

} // verus!
