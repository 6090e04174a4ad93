//! The game board.
use vstd::prelude::*;
use vstd::string::*;

use crate::text::{chars_of, is_whitespace, push_decimal};
use crate::text::{ascii_letter, decimal, whitespace};

verus! {

/// Number of rows, and of columns, of a board.
pub const SIDE: usize = 10;

/// Number of cells of a board.
pub const CELLS: usize = 100;

/// 10x10 game board represented as row-major 2D array of chars.
#[derive(Debug, PartialEq)]
pub struct Board(pub [[char; 10]; 10]);

impl Clone for Board {
    fn clone(&self) -> (r: Self)
        ensures
            r == *self,
    {
        Board(self.0)
    }
}

/// The cells of a board, row by row.
impl View for Board {
    type V = Seq<char>;

    open spec fn view(&self) -> Seq<char> {
        Seq::new(CELLS as nat, |i: int| self.0@[i / 10]@[i % 10])
    }
}

/// Whether (x, y) names a cell: both coordinates count from one.
pub open spec fn on_board(x: int, y: int) -> bool {
    1 <= x <= SIDE && 1 <= y <= SIDE
}

/// The place of cell (x, y), column `x` and row `y`, among the cells of a board.
pub open spec fn place(x: int, y: int) -> int {
    (y - 1) * 10 + (x - 1)
}

/// What separates the rows of a written board.
pub open spec fn delimiter(c: char) -> bool {
    c == '|' || whitespace(c)
}

/// What a written board holds besides delimiters.
pub open spec fn without_delimiters(s: Seq<char>) -> Seq<char> {
    s.filter(|c: char| !delimiter(c))
}

/// The cells that `s` spells out, where it spells out a board.
pub open spec fn board_of(s: Seq<char>) -> Option<Seq<char>> {
    if without_delimiters(s).len() == CELLS {
        Some(without_delimiters(s))
    } else {
        None
    }
}

/// A cell that is not water: shooting at it is a hit.
pub open spec fn hit_at(cells: Seq<char>, x: int, y: int) -> bool {
    on_board(x, y) && cells[place(x, y)] != '.'
}

/// The cells after `mark` was put at (x, y); off the board nothing changes.
pub open spec fn marked(cells: Seq<char>, x: int, y: int, mark: char) -> Seq<char> {
    if on_board(x, y) {
        cells.update(place(x, y), mark)
    } else {
        cells
    }
}

/// A part of a ship that has not been hit.
pub open spec fn ship_part(c: char) -> bool {
    ascii_letter(c) && c != 'x' && c != 'X'
}

/// Some part of a ship has not been hit.
pub open spec fn ships_left(cells: Seq<char>) -> bool {
    exists|i: int| 0 <= i < cells.len() && ship_part(#[trigger] cells[i])
}

/// Row `y` of the drawing: its number in two columns, then its cells, with a blank
/// between neighbours, between bars.
pub open spec fn drawn_row(cells: Seq<char>, y: int) -> Seq<char> {
    let number = decimal(y as nat);
    (if number.len() < 2 {
        seq![' '] + number
    } else {
        number
    }) + " |"@ + drawn_cells(cells, y) + "|\n"@
}

/// The cells of row `y` with a blank between neighbours.
pub open spec fn drawn_cells(cells: Seq<char>, y: int) -> Seq<char> {
    Seq::new(
        19,
        |i: int|
            if i % 2 == 0 {
                cells[place(i / 2 + 1, y)]
            } else {
                ' '
            },
    )
}

/// The first `n` rows of the drawing.
pub open spec fn drawn_rows(cells: Seq<char>, n: nat) -> Seq<char>
    decreases n,
{
    if n == 0 {
        Seq::empty()
    } else {
        drawn_rows(cells, (n - 1) as nat) + drawn_row(cells, n as int)
    }
}

/// The drawing of a board: the column numbers, a rule, the rows, and a rule.
pub open spec fn drawing(cells: Seq<char>) -> Seq<char> {
    "    1 2 3 4 5 6 7 8 9 10\n"@ + "   +--------------------+\n"@ + drawn_rows(cells, 10)
        + "   +--------------------+"@
}

/// The drawing of a board as a line of its own per row, under a title line
/// where there is a label.
pub open spec fn labeled_drawing(cells: Seq<char>, label: Seq<char>) -> Seq<char> {
    (if label.len() > 0 {
        "--- Board: "@ + label + " ---\n"@
    } else {
        Seq::empty()
    }) + drawing(cells) + "\n"@
}

/// Whether `c` separates the rows of a written board.
fn is_delimiter(c: char) -> (r: bool)
    ensures
        r == delimiter(c),
{
    c == '|' || is_whitespace(c)
}

/// Whether `c` is a part of a ship that has not been hit.
fn is_ship_part(c: char) -> (r: bool)
    ensures
        r == ship_part(c),
{
    (('A' <= c && c <= 'Z') || ('a' <= c && c <= 'z')) && c != 'x' && c != 'X'
}

/// Whether (x, y) names a cell.
fn is_on_board(x: usize, y: usize) -> (r: bool)
    ensures
        r == on_board(x as int, y as int),
{
    1 <= x && x <= SIDE && 1 <= y && y <= SIDE
}

/// `s` without its delimiters.
fn strip_delimiters(s: &str) -> (r: Vec<char>)
    ensures
        r@ == without_delimiters(s@),
{
    let cs = chars_of(s);
    let mut r: Vec<char> = Vec::new();
    let mut i: usize = 0;
    assert(cs@.take(0).filter(|c: char| !delimiter(c)) =~= Seq::<char>::empty()) by {
        reveal(Seq::filter);
    }
    while i < cs.len()
        invariant
            i <= cs@.len(),
            r@ == without_delimiters(cs@.take(i as int)),
        decreases cs@.len() - i,
    {
        proof {
            reveal(Seq::filter);
            assert(cs@.take(i + 1).drop_last() =~= cs@.take(i as int));
        }
        if !is_delimiter(cs[i]) {
            r.push(cs[i]);
        }
        i = i + 1;
    }
    assert(cs@.take(i as int) =~= cs@);
    r
}

impl Board {
    /// Puts `mark` at cell (x, y).
    fn put(&mut self, x: usize, y: usize, mark: char)
        requires
            on_board(x as int, y as int),
        ensures
            final(self)@ == old(self)@.update(place(x as int, y as int), mark),
    {
        self.0[y - 1][x - 1] = mark;
    }

    /// Parse a 10x10 board string.
    ///
    /// Accepts 100 contiguous characters (or rows separated by '|' / whitespace),
    /// filtering out delimiters and filling the 10x10 grid row-by-row.
    pub fn parse(s: &str) -> (r: Option<Self>)
        ensures
            r is Some <==> board_of(s@) is Some,
            r matches Some(b) ==> board_of(s@) == Some(b@),
    {
        let cells = strip_delimiters(s);
        if cells.len() != CELLS {
            return None;
        }
        let mut board = Board([['.'; 10]; 10]);
        let mut i: usize = 0;
        while i < CELLS
            invariant
                i <= CELLS,
                cells@.len() == CELLS,
                forall|j: int| 0 <= j < i ==> #[trigger] board@[j] == cells@[j],
            decreases CELLS - i,
        {
            board.put(i % SIDE + 1, i / SIDE + 1, cells[i]);
            i = i + 1;
        }
        assert(board@ =~= cells@);
        Some(board)
    }

    /// Check if coordinate (x, y) contains a non-dot character.
    /// x = column index (1..=10), y = row index (1..=10).
    pub fn is_hit(&self, x: usize, y: usize) -> (r: bool)
        ensures
            r == hit_at(self@, x as int, y as int),
    {
        if is_on_board(x, y) {
            self.0[y - 1][x - 1] != '.'
        } else {
            false
        }
    }

    /// Mark a hit at coordinate (x, y) with an 'x' character.
    /// x = column index (1..=10), y = row index (1..=10).
    pub fn set_hit(&mut self, x: usize, y: usize)
        ensures
            final(self)@ == marked(old(self)@, x as int, y as int, 'x'),
    {
        if is_on_board(x, y) {
            self.put(x, y, 'x');
        }
    }

    /// Mark a miss at coordinate (x, y) with a '-' character.
    /// x = column index (1..=10), y = row index (1..=10).
    pub fn set_miss(&mut self, x: usize, y: usize)
        ensures
            final(self)@ == marked(old(self)@, x as int, y as int, '-'),
    {
        if is_on_board(x, y) {
            self.put(x, y, '-');
        }
    }

    /// Check if the board has any uppercase or lowercase ASCII letters remaining.
    /// Hits marked as 'x' are ignored: a remaining ship part is any ASCII letter
    /// other than 'x' and 'X'.
    pub fn has_remaining_letters(&self) -> (r: bool)
        ensures
            r == ships_left(self@),
    {
        let mut i: usize = 0;
        while i < CELLS
            invariant
                i <= CELLS,
                forall|j: int| 0 <= j < i ==> !ship_part(#[trigger] self@[j]),
            decreases CELLS - i,
        {
            let c = self.0[i / SIDE][i % SIDE];
            assert(c == self@[i as int]);
            if is_ship_part(c) {
                return true;
            }
            i = i + 1;
        }
        false
    }

    /// Appends row `y` of the drawing.
    fn push_row(&self, out: &mut String, y: usize)
        requires
            1 <= y <= SIDE,
        ensures
            final(out)@ == old(out)@ + drawn_row(self@, y as int),
    {
        let ghost before = out@;
        if y < 10 {
            out.push(' ');
        }
        push_decimal(out, y);
        out.append(" |");
        let ghost head = out@;
        let mut x: usize = 1;
        while x <= SIDE
            invariant
                1 <= y <= SIDE,
                1 <= x <= SIDE + 1,
                x == 1 ==> out@ == head,
                x > 1 ==> out@ == head + drawn_cells(self@, y as int).take(2 * x - 3),
            decreases SIDE + 1 - x,
        {
            if x > 1 {
                out.push(' ');
            }
            let c = self.0[y - 1][x - 1];
            assert(c == self@[place(x as int, y as int)]);
            out.push(c);
            x = x + 1;
            proof {
                let k = 2 * x - 3;
                assert(drawn_cells(self@, y as int)[k - 1] == c);
                assert(out@ =~= head + drawn_cells(self@, y as int).take(k));
            }
        }
        out.append("|\n");
        proof {
            assert(drawn_cells(self@, y as int).take(19) =~= drawn_cells(self@, y as int));
            assert(decimal(y as nat).len() == if y < 10 { 1int } else { 2 }) by {
                reveal_with_fuel(decimal, 2);
            }
            assert(out@ =~= before + drawn_row(self@, y as int));
        }
    }

    /// Format the 10x10 board as a multi-line ASCII grid string with 1-based indexing.
    pub fn to_ascii_string(&self) -> (r: String)
        ensures
            r@ == drawing(self@),
    {
        let mut out = String::new();
        out.append("    1 2 3 4 5 6 7 8 9 10\n");
        out.append("   +--------------------+\n");
        let ghost head = out@;
        let mut y: usize = 1;
        while y <= SIDE
            invariant
                1 <= y <= SIDE + 1,
                out@ == head + drawn_rows(self@, (y - 1) as nat),
            decreases SIDE + 1 - y,
        {
            self.push_row(&mut out, y);
            y = y + 1;
            assert(out@ =~= head + drawn_rows(self@, (y - 1) as nat));
        }
        out.append("   +--------------------+");
        assert(out@ =~= drawing(self@));
        out
    }

    /// The board as it is shown on a console: the drawing, one line per row, under a
    /// title line unless `label` is empty.
    pub fn to_labeled_string(&self, label: &str) -> (r: String)
        ensures
            r@ == labeled_drawing(self@, label@),
    {
        let mut out = String::new();
        if !label.is_empty() {
            out.append("--- Board: ");
            out.append(label);
            out.append(" ---\n");
        }
        out.append(self.to_ascii_string().as_str());
        out.append("\n");
        assert(out@ =~= labeled_drawing(self@, label@));
        out
    }
}

// ---------------------------------------------------------------------------
// Laws
// ---------------------------------------------------------------------------

/// Characters that are all delimiters leave nothing.
proof fn lemma_only_delimiters(s: Seq<char>)
    requires
        forall|i: int| 0 <= i < s.len() ==> delimiter(#[trigger] s[i]),
    ensures
        without_delimiters(s) == Seq::<char>::empty(),
    decreases s.len(),
{
    reveal(Seq::filter);
    if s.len() > 0 {
        lemma_only_delimiters(s.drop_last());
    }
}

/// Characters none of which is a delimiter are all kept.
pub(crate) proof fn lemma_no_delimiters(s: Seq<char>)
    requires
        forall|i: int| 0 <= i < s.len() ==> !delimiter(#[trigger] s[i]),
    ensures
        without_delimiters(s) == s,
    decreases s.len(),
{
    reveal(Seq::filter);
    if s.len() > 0 {
        lemma_no_delimiters(s.drop_last());
        assert(s.drop_last().push(s.last()) =~= s);
    } else {
        assert(s =~= Seq::<char>::empty());
    }
}

/// Delimiters may stand anywhere in a written board: the board is the same with
/// them as without them.
pub proof fn delimiters_do_not_matter(before: Seq<char>, between: Seq<char>, after: Seq<char>)
    requires
        forall|i: int| 0 <= i < between.len() ==> delimiter(#[trigger] between[i]),
    ensures
        board_of(before + between + after) == board_of(before + after),
{
    let keep = |c: char| !delimiter(c);
    lemma_only_delimiters(between);
    Seq::filter_distributes_over_add(before + between, after, keep);
    Seq::filter_distributes_over_add(before, between, keep);
    Seq::filter_distributes_over_add(before, after, keep);
    assert(without_delimiters(before) + Seq::<char>::empty() =~= without_delimiters(before));
}

/// A hundred characters none of which is a delimiter are a board as they stand, row
/// by row. So a board that is spelled out reads back as itself.
pub proof fn contiguous_cells_are_a_board(cells: Seq<char>)
    requires
        cells.len() == CELLS,
        forall|i: int| 0 <= i < cells.len() ==> !delimiter(#[trigger] cells[i]),
    ensures
        board_of(cells) == Some(cells),
{
    lemma_no_delimiters(cells);
}

/// A board that was read has a hundred cells, and none of them is a delimiter.
pub proof fn a_read_board_is_whole(s: Seq<char>)
    ensures
        board_of(s) matches Some(cells) ==> {
            &&& cells.len() == CELLS
            &&& forall|i: int| 0 <= i < cells.len() ==> !delimiter(#[trigger] cells[i])
        },
{
    let keep = |c: char| !delimiter(c);
    assert forall|i: int| 0 <= i < without_delimiters(s).len() implies !delimiter(
        #[trigger] without_delimiters(s)[i],
    ) by {
        s.lemma_filter_pred(keep, i);
        assert(keep(s.filter(keep)[i]));
    }
}

/// A board is no more than its cells.
pub proof fn cells_make_the_board(a: Board, b: Board)
    requires
        a@ == b@,
    ensures
        a == b,
{
    assert forall|y: int| 0 <= y < 10 implies a.0@[y] == b.0@[y] by {
        assert forall|x: int| 0 <= x < 10 implies a.0@[y]@[x] == b.0@[y]@[x] by {
            let i = y * 10 + x;
            assert(i / 10 == y && i % 10 == x);
            assert(a@[i] == a.0@[i / 10]@[i % 10]);
            assert(b@[i] == b.0@[i / 10]@[i % 10]);
        }
        assert(a.0@[y] =~= b.0@[y]);
    }
    assert(a.0 =~= b.0);
}

/// Coordinates that differ name cells that differ, and every place is named.
pub proof fn coordinates_name_every_cell_once()
    ensures
        forall|x: int, y: int| #[trigger] on_board(x, y) ==> 0 <= place(x, y) < CELLS,
        forall|x1: int, y1: int, x2: int, y2: int|
            #[trigger] on_board(x1, y1) && #[trigger] on_board(x2, y2) && place(x1, y1) == place(
                x2,
                y2,
            ) ==> x1 == x2 && y1 == y2,
        forall|i: int|
            0 <= i < CELLS ==> on_board(#[trigger] (i % 10) + 1, i / 10 + 1) && place(
                i % 10 + 1,
                i / 10 + 1,
            ) == i,
{
}

/// A marked cell holds the mark, and shooting at it is a hit, also where the mark is
/// that of a miss; shooting anywhere else is what it was before.
pub proof fn a_marked_cell_is_a_hit(cells: Seq<char>, x: int, y: int, mark: char)
    requires
        cells.len() == CELLS,
        on_board(x, y),
        mark == 'x' || mark == '-',
    ensures
        marked(cells, x, y, mark)[place(x, y)] == mark,
        hit_at(marked(cells, x, y, mark), x, y),
        forall|x2: int, y2: int|
            (x2, y2) != (x, y) ==> #[trigger] hit_at(marked(cells, x, y, mark), x2, y2) == hit_at(
                cells,
                x2,
                y2,
            ),
{
}

/// Marks keep the number of cells. The last mark at a cell is the one that counts.
pub proof fn the_last_mark_counts(cells: Seq<char>, x: int, y: int, first: char, last: char)
    requires
        cells.len() == CELLS,
    ensures
        marked(cells, x, y, first).len() == cells.len(),
        marked(marked(cells, x, y, first), x, y, last) == marked(cells, x, y, last),
{
    assert(marked(marked(cells, x, y, first), x, y, last) =~= marked(cells, x, y, last));
}

/// The number of parts of ships that have not been hit.
pub open spec fn parts_left(cells: Seq<char>) -> nat
    decreases cells.len(),
{
    if cells.len() == 0 {
        0
    } else {
        parts_left(cells.drop_last()) + (if ship_part(cells.last()) {
            1nat
        } else {
            0nat
        })
    }
}

/// Ships are left just as long as parts of them are.
pub proof fn ships_are_left_while_parts_are(cells: Seq<char>)
    ensures
        ships_left(cells) <==> parts_left(cells) > 0,
    decreases cells.len(),
{
    if cells.len() > 0 {
        let rest = cells.drop_last();
        ships_are_left_while_parts_are(rest);
        if ships_left(rest) {
            let i = choose|i: int| 0 <= i < rest.len() && ship_part(#[trigger] rest[i]);
            assert(ship_part(cells[i]));
        }
        if ships_left(cells) && !ship_part(cells.last()) {
            let i = choose|i: int| 0 <= i < cells.len() && ship_part(#[trigger] cells[i]);
            assert(ship_part(rest[i]));
        }
        if ship_part(cells.last()) {
            assert(ship_part(cells[cells.len() - 1]));
        }
    }
}

/// Replacing the character at a place changes the count by what stood and what stands there.
proof fn lemma_parts_left_update(cells: Seq<char>, i: int, c: char)
    requires
        0 <= i < cells.len(),
    ensures
        parts_left(cells.update(i, c)) + (if ship_part(cells[i]) {
            1int
        } else {
            0
        }) == parts_left(cells) + (if ship_part(c) {
            1int
        } else {
            0
        }),
    decreases cells.len(),
{
    let after = cells.update(i, c);
    if i == cells.len() - 1 {
        assert(after.drop_last() =~= cells.drop_last());
    } else {
        lemma_parts_left_update(cells.drop_last(), i, c);
        assert(after.drop_last() =~= cells.drop_last().update(i, c));
    }
}

/// A mark takes away one part of a ship where one stood, and nothing elsewhere; so no
/// mark ever adds to the parts that are left.
pub proof fn a_mark_takes_the_part_it_covers(cells: Seq<char>, x: int, y: int, mark: char)
    requires
        cells.len() == CELLS,
        mark == 'x' || mark == '-',
    ensures
        on_board(x, y) && ship_part(cells[place(x, y)]) ==> parts_left(marked(cells, x, y, mark))
            == parts_left(cells) - 1,
        !(on_board(x, y) && ship_part(cells[place(x, y)])) ==> parts_left(
            marked(cells, x, y, mark),
        ) == parts_left(cells),
{
    if on_board(x, y) {
        lemma_parts_left_update(cells, place(x, y), mark);
    }
}

/// Every row of a drawing takes up 25 characters, and shows each cell at its column.
proof fn lemma_drawn_row(cells: Seq<char>, y: int)
    requires
        1 <= y <= 10,
    ensures
        drawn_row(cells, y).len() == 25,
        forall|x: int|
            1 <= x <= 10 ==> drawn_row(cells, y)[2 + 2 * x] == #[trigger] cells[place(x, y)],
{
    reveal_strlit(" |");
    reveal_strlit("|\n");
    reveal_with_fuel(decimal, 2);
    assert forall|x: int| 1 <= x <= 10 implies drawn_row(cells, y)[2 + 2 * x]
        == #[trigger] cells[place(x, y)] by {
        assert(drawn_row(cells, y)[2 + 2 * x] == drawn_cells(cells, y)[2 * x - 2]);
    }
}

/// The first rows of a drawing, 25 characters each.
proof fn lemma_drawn_rows(cells: Seq<char>, n: nat)
    requires
        n <= 10,
    ensures
        drawn_rows(cells, n).len() == 25 * n,
        forall|x: int, y: int|
            1 <= x <= 10 && 1 <= y <= n ==> drawn_rows(cells, n)[(y - 1) * 25 + 2 + 2 * x]
                == #[trigger] cells[place(x, y)],
    decreases n,
{
    if n > 0 {
        lemma_drawn_rows(cells, (n - 1) as nat);
        lemma_drawn_row(cells, n as int);
        assert forall|x: int, y: int| 1 <= x <= 10 && 1 <= y <= n implies drawn_rows(cells, n)[(y
            - 1) * 25 + 2 + 2 * x] == #[trigger] cells[place(x, y)] by {
            if y == n {
                assert(drawn_row(cells, y)[2 + 2 * x] == cells[place(x, y)]);
            }
        }
    }
}

/// The drawing of a board is 326 characters long and shows every cell at a place of
/// its own: 51 characters stand before the first row, 25 make a row, and the cells
/// of a row stand two apart.
pub proof fn the_drawing_shows_every_cell(cells: Seq<char>)
    ensures
        drawing(cells).len() == 326,
        forall|x: int, y: int|
            #[trigger] on_board(x, y) ==> drawing(cells)[51 + (y - 1) * 25 + 2 + 2 * x]
                == cells[place(x, y)],
{
    reveal_strlit("    1 2 3 4 5 6 7 8 9 10\n");
    reveal_strlit("   +--------------------+\n");
    reveal_strlit("   +--------------------+");
    lemma_drawn_rows(cells, 10);
    assert forall|x: int, y: int| #[trigger] on_board(x, y) implies drawing(cells)[51 + (y - 1)
        * 25 + 2 + 2 * x] == cells[place(x, y)] by {
        let at = (y - 1) * 25 + 2 + 2 * x;
        assert(cells[place(x, y)] == drawn_rows(cells, 10)[at]);
        assert(drawing(cells)[51 + at] == drawn_rows(cells, 10)[at]);
    }
}

/// Boards that are drawn alike are alike.
pub proof fn the_drawing_tells_boards_apart(a: Seq<char>, b: Seq<char>)
    requires
        a.len() == CELLS,
        b.len() == CELLS,
        drawing(a) == drawing(b),
    ensures
        a == b,
{
    the_drawing_shows_every_cell(a);
    the_drawing_shows_every_cell(b);
    assert forall|i: int| 0 <= i < CELLS implies a[i] == b[i] by {
        assert(on_board(i % 10 + 1, i / 10 + 1));
    }
    assert(a =~= b);
}

} // verus!
