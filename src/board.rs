use vstd::prelude::*;

verus! {

/// Why a move or a coordinate was refused.
#[derive(Debug, Clone, Copy, PartialEq, Eq, Structural)]
pub enum Errors {
    InvalidCoordinatres,
    ParseCoordinatesError,
}

/// The content of one cell of the grid.
#[derive(Debug, Clone, Copy, PartialEq, Eq, Structural)]
pub enum FieldType {
    X,
    O,
    Empty,
}

/// The state of a game, always recomputed from the board.
#[derive(Debug, Clone, Copy, PartialEq, Eq, Structural)]
pub enum GameResults {
    XWon,
    OWon,
    Draw,
    InProgress,
}

/// A cell position: column first, then row.
#[derive(Debug, Clone, Copy, PartialEq, Eq, Structural)]
pub struct Coordinate(pub usize, pub usize);

/// The text that renders a cell.
pub open spec fn field_text(f: FieldType) -> Seq<char> {
    match f {
        FieldType::X => seq!['X'],
        FieldType::O => seq!['O'],
        FieldType::Empty => seq![' '],
    }
}

impl FieldType {
    pub fn format(&self) -> (r: &str)
        ensures
            r@ == field_text(*self),
    {
        proof {
            reveal_strlit("X");
            reveal_strlit("O");
            reveal_strlit(" ");
        }
        match self {
            FieldType::X => "X",
            FieldType::O => "O",
            FieldType::Empty => " ",
        }
    }
}


/// Coordinate `a` comes strictly before `b` in row-major scan order
/// (rows ascending, then columns ascending within a row).
pub open spec fn scan_before(a: Coordinate, b: Coordinate) -> bool {
    a.1 < b.1 || (a.1 == b.1 && a.0 < b.0)
}

/// The outcome that a single line gives: a win for the mark that fills it.
pub open spec fn line_result(x_all: bool, o_all: bool) -> GameResults {
    if x_all {
        GameResults::XWon
    } else if o_all {
        GameResults::OWon
    } else {
        GameResults::InProgress
    }
}

/// The line between two rows of the rendered grid.
pub open spec fn separator_text() -> Seq<char> {
    seq!['-', '-', '-', '+', '-', '-', '-', '+', '-', '-', '-', '\n']
}

/// An immutable `n x n` grid of marks together with the number of moves
/// made on it. Every move produces a new board.
#[derive(Debug, Clone, Copy, PartialEq, Eq)]
pub struct Board {
    fields: [[FieldType; 3]; 3],
    move_count: usize,
    n: usize,
}

impl Board {
    /// The grid dimension `n`.
    pub closed spec fn dim(self) -> int {
        self.n as int
    }

    /// The move counter.
    pub closed spec fn moves(self) -> int {
        self.move_count as int
    }

    /// The mark in column `x` of row `y`.
    pub closed spec fn cell(self, x: int, y: int) -> FieldType {
        self.fields@[y]@[x]
    }

    pub open spec fn in_bounds(self, c: Coordinate) -> bool {
        c.0 < self.dim() && c.1 < self.dim()
    }

    /// A legal move: in bounds and onto an empty cell.
    pub open spec fn valid_move(self, c: Coordinate) -> bool {
        self.in_bounds(c) && self.cell(c.0 as int, c.1 as int) == FieldType::Empty
    }

    /// The number of non-empty cells among the first `x` cells of row `y`.
    pub open spec fn row_filled(self, y: int, x: int) -> int
        decreases x,
    {
        if x <= 0 {
            0
        } else {
            self.row_filled(y, x - 1) + if self.cell(x - 1, y) != FieldType::Empty {
                1int
            } else {
                0int
            }
        }
    }

    /// The number of non-empty cells in the first `y` rows.
    pub open spec fn rows_filled(self, y: int) -> int
        decreases y,
    {
        if y <= 0 {
            0
        } else {
            self.rows_filled(y - 1) + self.row_filled(y - 1, self.dim())
        }
    }

    /// The number of non-empty cells on the whole grid.
    pub open spec fn filled_count(self) -> int {
        self.rows_filled(self.dim())
    }

    /// The board's invariant: a 3 x 3 grid whose move counter equals the
    /// number of non-empty cells.
    pub open spec fn wf(self) -> bool {
        &&& self.dim() == 3
        &&& self.moves() == self.filled_count()
    }

    /// Every cell in column `c` holds `m`.
    pub open spec fn column_all(self, c: int, m: FieldType) -> bool {
        forall|j: int| 0 <= j < self.dim() ==> #[trigger] self.cell(c, j) == m
    }

    /// Every cell in row `r` holds `m`.
    pub open spec fn row_all(self, r: int, m: FieldType) -> bool {
        forall|i: int| 0 <= i < self.dim() ==> #[trigger] self.cell(i, r) == m
    }

    /// Every cell `(i, i)` holds `m`.
    pub open spec fn diag_all(self, m: FieldType) -> bool {
        forall|i: int| 0 <= i < self.dim() ==> #[trigger] self.cell(i, i) == m
    }

    /// Every cell `(i, n - 1 - i)` holds `m`.
    pub open spec fn anti_diag_all(self, m: FieldType) -> bool {
        forall|i: int| 0 <= i < self.dim() ==> #[trigger] self.cell(i, self.dim() - 1 - i) == m
    }

    /// The result of the first complete column at index `c` or later.
    pub open spec fn columns_from(self, c: int) -> GameResults
        decreases self.dim() - c,
    {
        if c < 0 || c >= self.dim() {
            GameResults::InProgress
        } else {
            let r = line_result(
                self.column_all(c, FieldType::X),
                self.column_all(c, FieldType::O),
            );
            if r != GameResults::InProgress {
                r
            } else {
                self.columns_from(c + 1)
            }
        }
    }

    /// The result of the first complete row at index `r` or later.
    pub open spec fn rows_from(self, r: int) -> GameResults
        decreases self.dim() - r,
    {
        if r < 0 || r >= self.dim() {
            GameResults::InProgress
        } else {
            let res = line_result(self.row_all(r, FieldType::X), self.row_all(r, FieldType::O));
            if res != GameResults::InProgress {
                res
            } else {
                self.rows_from(r + 1)
            }
        }
    }

    /// The result of the main diagonal, or failing that of the anti-diagonal.
    pub open spec fn diagonals_result(self) -> GameResults {
        let d = line_result(self.diag_all(FieldType::X), self.diag_all(FieldType::O));
        if d != GameResults::InProgress {
            d
        } else {
            line_result(self.anti_diag_all(FieldType::X), self.anti_diag_all(FieldType::O))
        }
    }

    /// The game result: columns, then rows, then diagonals; a full board
    /// with no complete line is a draw.
    pub open spec fn game_result(self) -> GameResults {
        if self.columns_from(0) != GameResults::InProgress {
            self.columns_from(0)
        } else if self.rows_from(0) != GameResults::InProgress {
            self.rows_from(0)
        } else if self.diagonals_result() != GameResults::InProgress {
            self.diagonals_result()
        } else if self.moves() == self.dim() * self.dim() {
            GameResults::Draw
        } else {
            GameResults::InProgress
        }
    }

    /// The text of row `y`: each cell padded by one space, cells joined by `|`.
    pub open spec fn row_text(self, y: int) -> Seq<char> {
        seq![' '] + field_text(self.cell(0, y)) + seq![' ', '|', ' '] + field_text(self.cell(1, y))
            + seq![' ', '|', ' '] + field_text(self.cell(2, y)) + seq![' ', '\n']
    }

    /// The first `k` rows' text, with a separator line between rows.
    pub open spec fn rows_text(self, k: int) -> Seq<char>
        decreases k,
    {
        if k <= 0 {
            Seq::empty()
        } else if k == 1 {
            self.row_text(0)
        } else {
            self.rows_text(k - 1) + separator_text() + self.row_text(k - 1)
        }
    }

    /// The rendering of the whole grid.
    pub open spec fn board_text(self) -> Seq<char> {
        self.rows_text(self.dim())
    }

    /// `next` is this board with `m` placed at `c`: that cell changed,
    /// every other cell kept, and one more move counted.
    pub open spec fn is_placement(self, next: Board, c: Coordinate, m: FieldType) -> bool {
        &&& next.wf()
        &&& next.dim() == self.dim()
        &&& next.moves() == self.moves() + 1
        &&& next.cell(c.0 as int, c.1 as int) == m
        &&& forall|x: int, y: int|
            0 <= x < next.dim() && 0 <= y < next.dim() && (x != c.0 || y != c.1) ==> #[trigger] next.cell(
                x,
                y,
            ) == self.cell(x, y)
    }

    /// A 3 x 3 board with every cell empty and no moves made.
    pub fn empty() -> (r: Board)
        ensures
            r.wf(),
            r.moves() == 0,
            forall|x: int, y: int| 0 <= x < 3 && 0 <= y < 3 ==> #[trigger] r.cell(x, y) == FieldType::Empty,
            r.game_result() == GameResults::InProgress,
    {
        let r = Board { fields: [[FieldType::Empty; 3]; 3], move_count: 0, n: 3 };
        proof {
            lemma_rows_filled_empty(r, 3);
            assert(!r.column_all(0, FieldType::X) && !r.column_all(0, FieldType::O)) by {
                assert(r.cell(0, 0) == FieldType::Empty);
            }
            assert(!r.column_all(1, FieldType::X) && !r.column_all(1, FieldType::O)) by {
                assert(r.cell(1, 0) == FieldType::Empty);
            }
            assert(!r.column_all(2, FieldType::X) && !r.column_all(2, FieldType::O)) by {
                assert(r.cell(2, 0) == FieldType::Empty);
            }
            assert(!r.row_all(0, FieldType::X) && !r.row_all(0, FieldType::O)) by {
                assert(r.cell(0, 0) == FieldType::Empty);
            }
            assert(!r.row_all(1, FieldType::X) && !r.row_all(1, FieldType::O)) by {
                assert(r.cell(0, 1) == FieldType::Empty);
            }
            assert(!r.row_all(2, FieldType::X) && !r.row_all(2, FieldType::O)) by {
                assert(r.cell(0, 2) == FieldType::Empty);
            }
            assert(!r.diag_all(FieldType::X) && !r.diag_all(FieldType::O)) by {
                assert(r.cell(0, 0) == FieldType::Empty);
            }
            assert(!r.anti_diag_all(FieldType::X) && !r.anti_diag_all(FieldType::O)) by {
                assert(r.cell(0, r.dim() - 1 - 0) == FieldType::Empty);
            }
            reveal_with_fuel(Board::columns_from, 4);
            reveal_with_fuel(Board::rows_from, 4);
        }
        r
    }

    /// The mark at `coord`, which must lie on the grid.
    pub fn get(&self, coord: Coordinate) -> (r: FieldType)
        requires
            self.wf(),
            self.in_bounds(coord),
        ensures
            r == self.cell(coord.0 as int, coord.1 as int),
    {
        let Coordinate(x, y) = coord;
        self.fields[y][x]
    }

    /// The number of moves made on this board.
    pub fn move_count(&self) -> (r: usize)
        ensures
            r == self.moves(),
    {
        self.move_count
    }

    /// Whether `coordinate` is a legal move on this board.
    pub fn is_move_valid(&self, coordinate: Coordinate) -> (r: bool)
        requires
            self.wf(),
        ensures
            r == self.valid_move(coordinate),
            coordinate.0 >= self.dim() || coordinate.1 >= self.dim() ==> !r,
    {
        let Coordinate(x, y) = coordinate;
        x < self.n && y < self.n && self.get(coordinate) == FieldType::Empty
    }

    /// Every empty cell, in row-major scan order.
    pub fn get_free_coordinates(&self) -> (r: Vec<Coordinate>)
        requires
            self.wf(),
        ensures
            r@.len() == self.dim() * self.dim() - self.moves(),
            forall|i: int| 0 <= i < r@.len() ==> self.valid_move(#[trigger] r@[i]),
            forall|c: Coordinate| #[trigger] self.valid_move(c) ==> r@.contains(c),
            forall|i: int, j: int| 0 <= i < j < r@.len() ==> scan_before(#[trigger] r@[i], #[trigger] r@[j]),
    {
        let mut free_coordinates: Vec<Coordinate> = Vec::new();
        let mut y: usize = 0;
        while y < self.n
            invariant
                self.wf(),
                y <= self.n,
                free_coordinates@.len() == 3 * y - self.rows_filled(y as int),
                forall|i: int| 0 <= i < free_coordinates@.len() ==> {
                    &&& self.valid_move(#[trigger] free_coordinates@[i])
                    &&& free_coordinates@[i].1 < y
                },
                forall|c: Coordinate| #[trigger] self.valid_move(c) && c.1 < y ==> free_coordinates@.contains(c),
                forall|i: int, j: int| 0 <= i < j < free_coordinates@.len() ==> scan_before(
                    #[trigger] free_coordinates@[i],
                    #[trigger] free_coordinates@[j],
                ),
            decreases self.n - y,
        {
            let mut x: usize = 0;
            while x < self.n
                invariant
                    self.wf(),
                    y < self.n,
                    x <= self.n,
                    free_coordinates@.len() == 3 * y - self.rows_filled(y as int) + x - self.row_filled(y as int, x as int),
                    forall|i: int| 0 <= i < free_coordinates@.len() ==> {
                        &&& self.valid_move(#[trigger] free_coordinates@[i])
                        &&& scan_before(free_coordinates@[i], Coordinate(x, y))
                    },
                    forall|c: Coordinate| #[trigger] self.valid_move(c) && scan_before(c, Coordinate(x, y))
                        ==> free_coordinates@.contains(c),
                    forall|i: int, j: int| 0 <= i < j < free_coordinates@.len() ==> scan_before(
                        #[trigger] free_coordinates@[i],
                        #[trigger] free_coordinates@[j],
                    ),
                decreases self.n - x,
            {
                let c = Coordinate(x, y);
                if self.get(c) == FieldType::Empty {
                    let ghost old_free = free_coordinates@;
                    free_coordinates.push(c);
                    proof {
                        assert(free_coordinates@[old_free.len() as int] == c);
                        assert forall|d: Coordinate| #[trigger] self.valid_move(d) && scan_before(d, Coordinate((x + 1) as usize, y))
                            implies free_coordinates@.contains(d) by {
                            if d == c {
                                assert(free_coordinates@[old_free.len() as int] == d);
                            } else {
                                assert(old_free.contains(d));
                                let k = choose|k: int| 0 <= k < old_free.len() && old_free[k] == d;
                                assert(free_coordinates@[k] == d);
                            }
                        }
                    }
                } else {
                    proof {
                        assert forall|d: Coordinate| #[trigger] self.valid_move(d) && scan_before(d, Coordinate((x + 1) as usize, y))
                            implies free_coordinates@.contains(d) by {
                            if d != c {
                                assert(scan_before(d, c));
                            }
                        }
                    }
                }
                x += 1;
            }
            y += 1;
        }
        free_coordinates
    }

    /// The board after `field_type` is placed at `coordinate`, or
    /// `InvalidCoordinatres` where the move is not legal. The mark must be
    /// `X` or `O`: the move counter counts the cells that hold one.
    pub fn move_next(&self, coordinate: Coordinate, field_type: FieldType) -> (r: Result<
        Board,
        Errors,
    >)
        requires
            self.wf(),
            field_type != FieldType::Empty,
        ensures
            self.valid_move(coordinate) ==> r is Ok,
            !self.valid_move(coordinate) ==> r == Err::<Board, Errors>(Errors::InvalidCoordinatres),
            r matches Ok(b) ==> self.is_placement(b, coordinate, field_type),
    {
        let Coordinate(x, y) = coordinate;
        if self.is_move_valid(coordinate) {
            proof {
                lemma_rows_filled_bound(*self, 3);
            }
            let mut arr = self.fields;
            let mut row = arr[y];
            row[x] = field_type;
            arr[y] = row;
            let b = Board { fields: arr, move_count: self.move_count + 1, n: self.n };
            proof {
                assert forall|i: int, j: int|
                    0 <= i < 3 && 0 <= j < 3 && (i != x || j != y) implies #[trigger] b.cell(i, j)
                    == self.cell(i, j) by {
                    if j != y {
                        assert(b.fields@[j] == self.fields@[j]);
                    }
                }
                lemma_rows_filled_place(*self, b, x as int, y as int, 3);
            }
            return Ok(b);
        }
        Err(Errors::InvalidCoordinatres)
    }

    /// The outcome of one line from its counts of `X` and `O` marks.
    fn check_result(&self, counts: (usize, usize)) -> (r: GameResults)
        ensures
            r == line_result(counts.0 == self.dim(), counts.1 == self.dim()),
    {
        let (x_count, o_count) = counts;
        if x_count == self.n {
            return GameResults::XWon;
        }
        if o_count == self.n {
            return GameResults::OWon;
        }
        GameResults::InProgress
    }

    /// The first complete column, scanning columns left to right.
    pub fn check_colums(&self) -> (r: GameResults)
        requires
            self.wf(),
        ensures
            r == self.columns_from(0),
    {
        let mut i: usize = 0;
        while i < self.n
            invariant
                self.wf(),
                i <= self.n,
                self.columns_from(0) == self.columns_from(i as int),
            decreases self.n - i,
        {
            let mut x_count: usize = 0;
            let mut o_count: usize = 0;
            let mut j: usize = 0;
            while j < self.n
                invariant
                    self.wf(),
                    i < self.n,
                    j <= self.n,
                    x_count <= j,
                    o_count <= j,
                    (x_count == j) <==> (forall|k: int|
                        0 <= k < j ==> #[trigger] self.cell(i as int, k) == FieldType::X),
                    (o_count == j) <==> (forall|k: int|
                        0 <= k < j ==> #[trigger] self.cell(i as int, k) == FieldType::O),
                decreases self.n - j,
            {
                match self.get(Coordinate(i, j)) {
                    FieldType::X => x_count += 1,
                    FieldType::O => o_count += 1,
                    FieldType::Empty => {},
                }
                j += 1;
            }
            let result = self.check_result((x_count, o_count));
            if result != GameResults::InProgress {
                return result;
            }
            i += 1;
        }
        GameResults::InProgress
    }

    /// The first complete row, scanning rows top to bottom.
    pub fn check_rows(&self) -> (r: GameResults)
        requires
            self.wf(),
        ensures
            r == self.rows_from(0),
    {
        let mut i: usize = 0;
        while i < self.n
            invariant
                self.wf(),
                i <= self.n,
                self.rows_from(0) == self.rows_from(i as int),
            decreases self.n - i,
        {
            let mut x_count: usize = 0;
            let mut o_count: usize = 0;
            let mut j: usize = 0;
            while j < self.n
                invariant
                    self.wf(),
                    i < self.n,
                    j <= self.n,
                    x_count <= j,
                    o_count <= j,
                    (x_count == j) <==> (forall|k: int|
                        0 <= k < j ==> #[trigger] self.cell(k, i as int) == FieldType::X),
                    (o_count == j) <==> (forall|k: int|
                        0 <= k < j ==> #[trigger] self.cell(k, i as int) == FieldType::O),
                decreases self.n - j,
            {
                match self.get(Coordinate(j, i)) {
                    FieldType::X => x_count += 1,
                    FieldType::O => o_count += 1,
                    FieldType::Empty => {},
                }
                j += 1;
            }
            let result = self.check_result((x_count, o_count));
            if result != GameResults::InProgress {
                return result;
            }
            i += 1;
        }
        GameResults::InProgress
    }

    /// The main diagonal's outcome, or failing that the anti-diagonal's.
    pub fn check_diag(&self) -> (r: GameResults)
        requires
            self.wf(),
        ensures
            r == self.diagonals_result(),
    {
        let mut x_count: usize = 0;
        let mut o_count: usize = 0;
        let mut i: usize = 0;
        while i < self.n
            invariant
                self.wf(),
                i <= self.n,
                x_count <= i,
                o_count <= i,
                (x_count == i) <==> (forall|k: int| 0 <= k < i ==> #[trigger] self.cell(k, k) == FieldType::X),
                (o_count == i) <==> (forall|k: int| 0 <= k < i ==> #[trigger] self.cell(k, k) == FieldType::O),
            decreases self.n - i,
        {
            match self.get(Coordinate(i, i)) {
                FieldType::X => x_count += 1,
                FieldType::O => o_count += 1,
                FieldType::Empty => {},
            }
            i += 1;
        }
        let result = self.check_result((x_count, o_count));
        if result != GameResults::InProgress {
            return result;
        }
        x_count = 0;
        o_count = 0;
        i = 0;
        while i < self.n
            invariant
                self.wf(),
                i <= self.n,
                x_count <= i,
                o_count <= i,
                (x_count == i) <==> (forall|k: int|
                    0 <= k < i ==> #[trigger] self.cell(k, self.dim() - 1 - k) == FieldType::X),
                (o_count == i) <==> (forall|k: int|
                    0 <= k < i ==> #[trigger] self.cell(k, self.dim() - 1 - k) == FieldType::O),
            decreases self.n - i,
        {
            match self.get(Coordinate(i, (self.n - 1) - i)) {
                FieldType::X => x_count += 1,
                FieldType::O => o_count += 1,
                FieldType::Empty => {},
            }
            i += 1;
        }
        self.check_result((x_count, o_count))
    }

    /// The grid as text, one line per row and a separator line between rows.
    pub fn format_board(&self) -> (r: String)
        requires
            self.wf(),
        ensures
            r@ == self.board_text(),
    {
        let mut res = String::new();
        let mut i: usize = 0;
        while i < self.n
            invariant
                self.wf(),
                i <= self.n,
                res@ == self.rows_text(i as int),
            decreases self.n - i,
        {
            if i > 0 {
                proof {
                    reveal_strlit("---+---+---\n");
                    assert("---+---+---\n"@ =~= separator_text());
                }
                res.append("---+---+---\n");
            }
            let ghost prefix = res@;
            let row = self.fields[i];
            assert(row == self.fields@[i as int]);
            let c0 = row[0].format();
            let c1 = row[1].format();
            let c2 = row[2].format();
            assert(c0@ == field_text(self.cell(0, i as int)));
            assert(c1@ == field_text(self.cell(1, i as int)));
            assert(c2@ == field_text(self.cell(2, i as int)));
            proof {
                reveal_strlit(" ");
                reveal_strlit(" | ");
                reveal_strlit(" \n");
                assert(" "@ =~= seq![' ']);
                assert(" | "@ =~= seq![' ', '|', ' ']);
                assert(" \n"@ =~= seq![' ', '\n']);
            }
            res.append(" ");
            res.append(c0);
            res.append(" | ");
            res.append(c1);
            res.append(" | ");
            res.append(c2);
            res.append(" \n");
            assert(res@ =~= prefix + self.row_text(i as int));
            assert(res@ =~= self.rows_text(i + 1));
            i += 1;
        }
        res
    }

    /// The result of the game on this board.
    pub fn check_game_result(&self) -> (r: GameResults)
        requires
            self.wf(),
        ensures
            r == self.game_result(),
    {
        let columns_result = self.check_colums();
        if columns_result != GameResults::InProgress {
            return columns_result;
        }
        let rows_result = self.check_rows();
        if rows_result != GameResults::InProgress {
            return rows_result;
        }
        let diag_result = self.check_diag();
        if diag_result != GameResults::InProgress {
            return diag_result;
        }
        if self.move_count == self.n * self.n {
            return GameResults::Draw;
        }
        GameResults::InProgress
    }
}

/// Placing a mark on one empty cell of row `cy` adds one to that row's count
/// once the count reaches past column `cx`.
proof fn lemma_row_filled_place(a: Board, b: Board, cx: int, cy: int, y: int, x: int)
    requires
        0 <= cx < 3,
        0 <= cy < 3,
        0 <= y < 3,
        0 <= x <= 3,
        a.cell(cx, cy) == FieldType::Empty,
        b.cell(cx, cy) != FieldType::Empty,
        forall|i: int, j: int|
            0 <= i < 3 && 0 <= j < 3 && (i != cx || j != cy) ==> #[trigger] b.cell(i, j) == a.cell(
                i,
                j,
            ),
    ensures
        b.row_filled(y, x) == a.row_filled(y, x) + if y == cy && cx < x {
            1int
        } else {
            0int
        },
    decreases x,
{
    if x > 0 {
        lemma_row_filled_place(a, b, cx, cy, y, x - 1);
        assert(b.cell(x - 1, y) == a.cell(x - 1, y) || (x - 1 == cx && y == cy));
    }
}

proof fn lemma_rows_filled_place(a: Board, b: Board, cx: int, cy: int, y: int)
    requires
        a.dim() == 3,
        b.dim() == 3,
        0 <= cx < 3,
        0 <= cy < 3,
        0 <= y <= 3,
        a.cell(cx, cy) == FieldType::Empty,
        b.cell(cx, cy) != FieldType::Empty,
        forall|i: int, j: int|
            0 <= i < 3 && 0 <= j < 3 && (i != cx || j != cy) ==> #[trigger] b.cell(i, j) == a.cell(
                i,
                j,
            ),
    ensures
        b.rows_filled(y) == a.rows_filled(y) + if cy < y {
            1int
        } else {
            0int
        },
    decreases y,
{
    if y > 0 {
        lemma_rows_filled_place(a, b, cx, cy, y - 1);
        lemma_row_filled_place(a, b, cx, cy, y - 1, 3);
    }
}

proof fn lemma_row_filled_bound(b: Board, y: int, x: int)
    requires
        0 <= x,
    ensures
        0 <= b.row_filled(y, x) <= x,
    decreases x,
{
    if x > 0 {
        lemma_row_filled_bound(b, y, x - 1);
    }
}

proof fn lemma_rows_filled_bound(b: Board, y: int)
    requires
        b.dim() == 3,
        0 <= y,
    ensures
        0 <= b.rows_filled(y) <= 3 * y,
    decreases y,
{
    if y > 0 {
        lemma_rows_filled_bound(b, y - 1);
        lemma_row_filled_bound(b, y - 1, 3);
    }
}

proof fn lemma_row_filled_empty(b: Board, y: int, x: int)
    requires
        forall|i: int| 0 <= i < x ==> #[trigger] b.cell(i, y) == FieldType::Empty,
    ensures
        b.row_filled(y, x) == 0,
    decreases x,
{
    if x > 0 {
        lemma_row_filled_empty(b, y, x - 1);
    }
}

proof fn lemma_rows_filled_empty(b: Board, y: int)
    requires
        forall|i: int, j: int| 0 <= i < b.dim() && 0 <= j < y ==> #[trigger] b.cell(i, j) == FieldType::Empty,
    ensures
        b.rows_filled(y) == 0,
    decreases y,
{
    if y > 0 {
        lemma_rows_filled_empty(b, y - 1);
        lemma_row_filled_empty(b, y - 1, b.dim());
    }
}

} // verus!
