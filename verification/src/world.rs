use vstd::prelude::*;

use crate::actions::Actions;
use crate::position::Position;
use crate::text::{
    decimal, decimal_chars, join_lines, lemma_lines_bounded, push_char, push_chars, spec_lines, split_lines, string_from_chars,
};

verus! {

/// The walls around one cell of the grid.
#[derive(Debug, Clone, Copy, PartialEq, Eq, Structural)]
pub struct Wall {
    pub north: bool,
    pub south: bool,
    pub east: bool,
    pub west: bool,
}

impl Wall {
    /// A cell with no wall on any side.
    pub fn new() -> (w: Wall)
        ensures
            w == (Wall { north: false, south: false, east: false, west: false }),
    {
        Wall { north: false, south: false, east: false, west: false }
    }

    /// The wall written as `Wall('nsew')`, with the letters of the sides it has.
    pub fn to_string(&self) -> (s: String)
        ensures
            s@ == wall_text(*self),
    {
        let mut s = String::new();
        s.append("Wall('");
        if self.north {
            push_char(&mut s, 'n');
        }
        if self.south {
            push_char(&mut s, 's');
        }
        if self.east {
            push_char(&mut s, 'e');
        }
        if self.west {
            push_char(&mut s, 'w');
        }
        s.append("')");
        assert(s@ =~= wall_text(*self));
        s
    }
}

/// The letter of a side when the wall is there.
pub open spec fn side_text(present: bool, letter: char) -> Seq<char> {
    if present {
        seq![letter]
    } else {
        Seq::empty()
    }
}

/// A wall written as `Wall('nsew')`, with the letters of the sides it has.
pub open spec fn wall_text(w: Wall) -> Seq<char> {
    "Wall('"@ + side_text(w.north, 'n') + side_text(w.south, 's') + side_text(w.east, 'e')
        + side_text(w.west, 'w') + "')"@
}

/// A named location of the grid, where a passenger waits or wants to go.
#[derive(Debug, Clone, Copy, PartialEq, Eq, Structural)]
pub struct FixedPosition {
    pub id: char,
    pub position: Position,
}

/// What an action does to the taxi at a given cell.
#[derive(Debug, Clone, Copy, PartialEq, Eq, Structural)]
pub enum ActionAffect {
    Invalid,
    Move(Position),
    PickUp(char),
    DropOff(char),
}

/// Why a world description was refused.
#[derive(Debug, Clone, Copy, PartialEq, Eq, Structural)]
pub enum ParseError {
    LineTooLong { line: usize, num_chars: usize, expected_num_chars: usize },
    DuplicateFixedPosition { id: char },
}

/// Why a world could not be built.
#[derive(Debug)]
pub enum Error {
    EmptyString,
    Parse { source: String, error: ParseError },
}

/// The explanation of a parse error.
pub open spec fn parse_error_text(e: ParseError) -> Seq<char> {
    match e {
        ParseError::LineTooLong { line, num_chars, expected_num_chars } => "Line "@ + decimal(line as nat)
            + " has width "@ + decimal(num_chars as nat) + " which does not match initial width of "@
            + decimal(expected_num_chars as nat) + "."@,
        ParseError::DuplicateFixedPosition { id } => "Found duplicate fixed position '"@ + seq![id] + "'."@,
    }
}

/// The explanation of a refused world: for a parse error, the error and the text.
pub open spec fn error_text(e: &Error) -> Seq<char> {
    match e {
        Error::EmptyString => "Attempted to build world from empty string."@,
        Error::Parse { source, error } => "Parse failure: "@ + parse_error_text(*error) + "\nSource string:\n"@
            + source@,
    }
}

impl ParseError {
    /// The explanation of the error.
    pub fn to_string(&self) -> (s: String)
        ensures
            s@ == parse_error_text(*self),
    {
        let mut s = String::new();
        match *self {
            ParseError::LineTooLong { line, num_chars, expected_num_chars } => {
                s.append("Line ");
                push_chars(&mut s, decimal_chars(line).as_slice());
                s.append(" has width ");
                push_chars(&mut s, decimal_chars(num_chars).as_slice());
                s.append(" which does not match initial width of ");
                push_chars(&mut s, decimal_chars(expected_num_chars).as_slice());
                s.append(".");
            },
            ParseError::DuplicateFixedPosition { id } => {
                s.append("Found duplicate fixed position '");
                push_char(&mut s, id);
                s.append("'.");
            },
        }
        assert(s@ =~= parse_error_text(*self));
        s
    }
}

impl Error {
    /// The explanation of the error; for a parse error it ends with the refused text.
    pub fn to_string(&self) -> (s: String)
        ensures
            s@ == error_text(self),
    {
        match self {
            Error::EmptyString => {
                let mut s = String::new();
                s.append("Attempted to build world from empty string.");
                s
            },
            Error::Parse { source, error } => {
                let mut s = String::new();
                s.append("Parse failure: ");
                let explanation = error.to_string();
                s.append(explanation.as_str());
                s.append("\nSource string:\n");
                s.append(source.as_str());
                assert(s@ =~= error_text(self));
                s
            },
        }
    }
}

/// The grid of the taxi problem: its size, the walls of each cell and the named
/// locations.
#[derive(Debug, PartialEq)]
pub struct World {
    pub width: i32,
    pub height: i32,
    pub walls: Vec<Vec<Wall>>,
    pub fixed_positions: Vec<FixedPosition>,
}

/// The mathematical content of a world.
pub struct WorldView {
    pub width: int,
    pub height: int,
    /// `walls[y][x]` are the walls of the cell in column `x` and row `y`.
    pub walls: Seq<Seq<Wall>>,
    /// The named locations, in the order in which they were read.
    pub fixed: Seq<FixedPosition>,
}

impl WorldView {
    pub open spec fn in_bounds(self, p: Position) -> bool {
        0 <= p.x < self.width && 0 <= p.y < self.height
    }

    pub open spec fn wall_at(self, p: Position) -> Wall {
        self.walls[p.y as int][p.x as int]
    }

    /// The sizes fit in `i32` and every row has `width` cells: what drawing needs.
    pub open spec fn shaped(self) -> bool {
        &&& 0 <= self.width <= i32::MAX
        &&& 0 <= self.height <= i32::MAX
        &&& self.walls.len() == self.height
        &&& forall|y: int| 0 <= y < self.height ==> #[trigger] self.walls[y].len() == self.width
    }

    /// The sizes fit in `i32`, every row has `width` cells and every named location
    /// lies on the grid.
    pub open spec fn valid(self) -> bool {
        &&& 0 <= self.width <= i32::MAX
        &&& 0 <= self.height <= i32::MAX
        &&& self.walls.len() == self.height
        &&& forall|y: int| 0 <= y < self.height ==> #[trigger] self.walls[y].len() == self.width
        &&& forall|k: int| 0 <= k < self.fixed.len() ==> self.in_bounds(#[trigger] self.fixed[k].position)
    }
}

impl View for World {
    type V = WorldView;

    open spec fn view(&self) -> WorldView {
        WorldView {
            width: self.width as int,
            height: self.height as int,
            walls: Seq::new(self.walls@.len(), |y: int| self.walls@[y]@),
            fixed: self.fixed_positions@,
        }
    }
}

// ---------------------------------------------------------------------------
// The text format of a world.
//
// Lines alternate between wall lines and content lines, starting and ending with a
// wall line. Each has `2 * width + 1` characters. In a wall line the character at
// `2 * x + 1` is '─' where a wall separates two rows at column `x`. In a content line
// the character at `2 * x` is '│' where a wall stands west of column `x`, and the
// character at `2 * x + 1` is the content of the cell: '.' for none, anything else
// names a location.
// ---------------------------------------------------------------------------

/// The length of every line of a world `width` cells wide.
pub open spec fn line_len(width: int) -> int {
    2 * width + 1
}

/// Characters that mark the taxi, the passenger or the destination rather than a
/// location; they may occur more than once.
pub open spec fn is_marker(c: char) -> bool {
    c == 't' || c == 'T' || c == 'd' || c == 'D' || c == 'p'
}

/// The character at `i` of a line.
pub open spec fn char_at(line: Seq<char>, i: int) -> char {
    line[i]
}

/// The named locations found among the first `k` characters of the content line of
/// row `y`.
pub open spec fn row_entries(line: Seq<char>, y: int, k: int) -> Seq<FixedPosition>
    decreases k,
{
    if k <= 0 {
        Seq::empty()
    } else {
        let before = row_entries(line, y, k - 1);
        let i = k - 1;
        if i % 2 == 1 && i < line.len() && line[i] != '.' {
            before.push(
                FixedPosition {
                    id: char_at(line, i),
                    position: Position { x: (i / 2) as i32, y: y as i32 },
                },
            )
        } else {
            before
        }
    }
}

/// The characters of a content line that are read: at most one line's worth.
pub open spec fn read_len(line: Seq<char>, width: int) -> int {
    if line.len() < line_len(width) {
        line.len() as int
    } else {
        line_len(width)
    }
}

/// The named locations of the rows before row `n`, in reading order.
pub open spec fn entries_upto(lines: Seq<Seq<char>>, width: int, n: int) -> Seq<FixedPosition>
    decreases n,
{
    if n <= 0 {
        Seq::empty()
    } else {
        let line = lines[2 * (n - 1) + 1];
        entries_upto(lines, width, n - 1) + row_entries(line, n - 1, read_len(line, width))
    }
}

/// The entry at `k` names a location (not a marker) already named before it.
pub open spec fn repeats_earlier(s: Seq<FixedPosition>, k: int) -> bool {
    &&& !is_marker(s[k].id)
    &&& exists|j: int| 0 <= j < k && #[trigger] s[j].id == s[k].id
}

/// The first entry at or after `start` that names a location named before it.
pub open spec fn first_repeat_from(s: Seq<FixedPosition>, start: int) -> Option<int>
    decreases s.len(),
{
    if s.len() == 0 || s.len() <= start {
        None
    } else {
        match first_repeat_from(s.drop_last(), start) {
            Some(k) => Some(k),
            None => if repeats_earlier(s, s.len() - 1) {
                Some(s.len() - 1)
            } else {
                None
            },
        }
    }
}

/// The error raised by row `y`, if the rows before it raised none.
pub open spec fn row_error(lines: Seq<Seq<char>>, width: int, y: int) -> Option<ParseError> {
    let before = entries_upto(lines, width, y);
    let all = entries_upto(lines, width, y + 1);
    let content = lines[2 * y + 1];
    let below = lines[2 * y + 2];
    match first_repeat_from(all, before.len() as int) {
        Some(k) => Some(ParseError::DuplicateFixedPosition { id: all[k].id }),
        None => if content.len() != line_len(width) {
            Some(
                ParseError::LineTooLong {
                    line: (2 * y + 2) as usize,
                    num_chars: content.len() as usize,
                    expected_num_chars: line_len(width) as usize,
                },
            )
        } else if below.len() != line_len(width) {
            Some(
                ParseError::LineTooLong {
                    line: (2 * y + 3) as usize,
                    num_chars: below.len() as usize,
                    expected_num_chars: line_len(width) as usize,
                },
            )
        } else {
            None
        },
    }
}

/// The first error among the rows before row `n`.
pub open spec fn rows_error(lines: Seq<Seq<char>>, width: int, n: int) -> Option<ParseError>
    decreases n,
{
    if n <= 0 {
        None
    } else {
        match rows_error(lines, width, n - 1) {
            Some(e) => Some(e),
            None => row_error(lines, width, n - 1),
        }
    }
}

/// The width of the world a text describes, read from its first line.
pub open spec fn text_width(lines: Seq<Seq<char>>) -> int {
    lines[0].len() as int / 2
}

/// The number of rows: every content line followed by a wall line makes one.
pub open spec fn text_height(lines: Seq<Seq<char>>) -> int {
    (lines.len() - 1) / 2
}

/// The first error in the lines of a world description that has at least one line.
pub open spec fn text_error(lines: Seq<Seq<char>>) -> Option<ParseError> {
    let width = text_width(lines);
    if lines[0].len() != line_len(width) {
        Some(
            ParseError::LineTooLong {
                line: 1,
                num_chars: lines[0].len() as usize,
                expected_num_chars: line_len(width) as usize,
            },
        )
    } else {
        rows_error(lines, width, text_height(lines))
    }
}

/// The walls of the cell at `(x, y)` as the lines draw them.
pub open spec fn text_wall(lines: Seq<Seq<char>>, x: int, y: int) -> Wall {
    Wall {
        north: lines[2 * y][2 * x + 1] == '─',
        south: lines[2 * y + 2][2 * x + 1] == '─',
        east: lines[2 * y + 1][2 * x + 2] == '│',
        west: lines[2 * y + 1][2 * x] == '│',
    }
}

/// The world that error-free lines describe.
pub open spec fn text_world(lines: Seq<Seq<char>>) -> WorldView {
    let width = text_width(lines);
    let height = text_height(lines);
    WorldView {
        width,
        height,
        walls: Seq::new(
            height as nat,
            |y: int| Seq::new(width as nat, |x: int| text_wall(lines, x, y)),
        ),
        fixed: entries_upto(lines, width, height),
    }
}

/// Reading more characters of a line only adds entries after those already found.
pub proof fn lemma_row_entries_prefix(line: Seq<char>, y: int, a: int, b: int)
    requires
        a <= b,
    ensures
        row_entries(line, y, a).len() <= row_entries(line, y, b).len(),
        row_entries(line, y, b).take(row_entries(line, y, a).len() as int) == row_entries(line, y, a),
    decreases b - a,
{
    if a < b {
        lemma_row_entries_prefix(line, y, a, b - 1);
        let n = row_entries(line, y, a).len() as int;
        let pb1 = row_entries(line, y, b - 1);
        if b > 0 {
            let i = b - 1;
            if i % 2 == 1 && i < line.len() && line[i] != '.' {
                let e = FixedPosition { id: char_at(line, i), position: Position { x: (i / 2) as i32, y: y as i32 } };
                assert(row_entries(line, y, b) == pb1.push(e));
                assert(pb1.push(e).take(n) =~= pb1.take(n));
            } else {
                assert(row_entries(line, y, b) == pb1);
            }
        }
    } else {
        assert(row_entries(line, y, b).take(row_entries(line, y, a).len() as int) =~= row_entries(line, y, a));
    }
}

/// A repeat found in a prefix is the first repeat of the whole sequence too.
pub proof fn lemma_first_repeat_prefix(s: Seq<FixedPosition>, t: Seq<FixedPosition>, start: int)
    requires
        t.len() <= s.len(),
        s.take(t.len() as int) == t,
        first_repeat_from(t, start) is Some,
    ensures
        first_repeat_from(s, start) == first_repeat_from(t, start),
    decreases s.len(),
{
    if s.len() == t.len() {
        assert(s =~= t);
    } else {
        assert(s.drop_last().take(t.len() as int) =~= t);
        lemma_first_repeat_prefix(s.drop_last(), t, start);
    }
}

/// Once an error is found among the first rows, it stays the first error.
pub proof fn lemma_rows_error_stable(lines: Seq<Seq<char>>, width: int, n: int, m: int)
    requires
        n <= m,
        rows_error(lines, width, n) is Some,
    ensures
        rows_error(lines, width, m) == rows_error(lines, width, n),
    decreases m - n,
{
    if n < m {
        lemma_rows_error_stable(lines, width, n, m - 1);
    }
}

/// The locations of a row lie in that row, in a column of the grid.
pub proof fn lemma_row_entries_bounds(line: Seq<char>, y: int, k: int, width: int)
    requires
        k <= line_len(width),
        0 <= y <= i32::MAX,
        0 <= width <= i32::MAX,
    ensures
        forall|j: int|
            0 <= j < row_entries(line, y, k).len() ==> {
                let p = #[trigger] row_entries(line, y, k)[j].position;
                0 <= p.x < width && p.y == y
            },
    decreases k,
{
    if k > 0 {
        lemma_row_entries_bounds(line, y, k - 1, width);
        let i = k - 1;
        let before = row_entries(line, y, k - 1);
        if i % 2 == 1 {
            assert(i / 2 < width);
            assert((i / 2) as i32 == i / 2);
            assert(y as i32 == y);
        }
        assert forall|j: int| 0 <= j < row_entries(line, y, k).len() implies {
            let p = #[trigger] row_entries(line, y, k)[j].position;
            0 <= p.x < width && p.y == y
        } by {
            if j < before.len() {
                assert(row_entries(line, y, k)[j] == before[j]);
            }
        }
    }
}

/// The locations read from the first `n` rows lie on a grid of `n` rows.
pub proof fn lemma_entries_bounds(lines: Seq<Seq<char>>, width: int, n: int)
    requires
        0 <= n <= i32::MAX,
        0 <= width <= i32::MAX,
        2 * n <= lines.len(),
    ensures
        forall|j: int|
            0 <= j < entries_upto(lines, width, n).len() ==> {
                let p = #[trigger] entries_upto(lines, width, n)[j].position;
                0 <= p.x < width && 0 <= p.y < n
            },
    decreases n,
{
    if n > 0 {
        lemma_entries_bounds(lines, width, n - 1);
        let line = lines[2 * (n - 1) + 1];
        lemma_row_entries_bounds(line, n - 1, read_len(line, width), width);
        let before = entries_upto(lines, width, n - 1);
        let row = row_entries(line, n - 1, read_len(line, width));
        assert forall|j: int| 0 <= j < entries_upto(lines, width, n).len() implies {
            let p = #[trigger] entries_upto(lines, width, n)[j].position;
            0 <= p.x < width && 0 <= p.y < n
        } by {
            if j < before.len() {
                assert(entries_upto(lines, width, n)[j] == before[j]);
            } else {
                assert(entries_upto(lines, width, n)[j] == row[j - before.len()]);
            }
        }
    }
}

// ---------------------------------------------------------------------------
// Reading a world.
// ---------------------------------------------------------------------------

/// Whether a content character marks the taxi, the passenger or the destination.
pub fn is_marker_char(c: char) -> (b: bool)
    ensures
        b == is_marker(c),
{
    c == 't' || c == 'T' || c == 'd' || c == 'D' || c == 'p'
}

/// The character at `i` of a line.
fn read_char(line: &[char], i: usize) -> (c: char)
    requires
        i < line.len(),
    ensures
        c == char_at(line@, i as int),
{
    line[i]
}

/// Whether some entry of `s` has the identifier `id`.
fn contains_id(s: &Vec<FixedPosition>, id: char) -> (b: bool)
    ensures
        b == exists|j: int| 0 <= j < s.len() && #[trigger] s[j].id == id,
{
    let mut i: usize = 0;
    while i < s.len()
        invariant
            i <= s.len(),
            forall|j: int| 0 <= j < i ==> #[trigger] s[j].id != id,
        decreases s.len() - i,
    {
        if s[i].id == id {
            return true;
        }
        i = i + 1;
    }
    false
}

/// Reads a wall line: where the line draws a wall below column `x`, `marks[x]` is set.
/// A line that is not `2 * width + 1` characters long is refused.
pub fn parse_wall_line(line: &[char], line_count: usize, width: usize) -> (r: Result<
    Vec<bool>,
    ParseError,
>)
    requires
        2 * width + 1 <= usize::MAX,
    ensures
        match r {
            Ok(marks) => {
                &&& line.len() == line_len(width as int)
                &&& marks.len() == width
                &&& forall|x: int| 0 <= x < width ==> #[trigger] marks[x] == (line[2 * x + 1] == '─')
            },
            Err(e) => {
                &&& line.len() != line_len(width as int)
                &&& e == ParseError::LineTooLong {
                    line: line_count,
                    num_chars: line.len(),
                    expected_num_chars: (2 * width + 1) as usize,
                }
            },
        },
{
    let expected_num_chars = 2 * width + 1;
    if line.len() != expected_num_chars {
        return Err(
            ParseError::LineTooLong { line: line_count, num_chars: line.len(), expected_num_chars },
        );
    }
    let mut marks: Vec<bool> = Vec::new();
    let mut x: usize = 0;
    while x < width
        invariant
            x <= width,
            line.len() == 2 * width + 1,
            marks.len() == x,
            forall|j: int| 0 <= j < x ==> #[trigger] marks[j] == (line[2 * j + 1] == '─'),
        decreases width - x,
    {
        marks.push(line[2 * x + 1] == '─');
        x = x + 1;
    }
    Ok(marks)
}

/// Reads the content line numbered `line_count` (counted from 1): the locations it
/// names are appended to `fixed_positions`, and the walls it draws west and east of
/// each cell are added to `wall_row`. A location named twice, or a line that is not
/// `2 * width + 1` characters long, is refused, and then nothing is changed.
pub fn parse_content_line(
    line: &[char],
    line_count: usize,
    width: usize,
    wall_row: &mut Vec<Wall>,
    fixed_positions: &mut Vec<FixedPosition>,
) -> (r: Result<(), ParseError>)
    requires
        line_count >= 1,
        width <= i32::MAX,
        (line_count - 1) / 2 <= i32::MAX,
        old(wall_row).len() == width,
    ensures
        ({
            let y = (line_count - 1) / 2;
            let all = old(fixed_positions)@ + row_entries(
                line@,
                y as int,
                read_len(line@, width as int),
            );
            let repeat = first_repeat_from(all, old(fixed_positions).len() as int);
            match r {
                Err(ParseError::DuplicateFixedPosition { id }) => {
                    &&& repeat matches Some(k) && id == all[k].id
                    &&& final(fixed_positions)@ == old(fixed_positions)@
                    &&& final(wall_row)@ == old(wall_row)@
                },
                Err(e) => {
                    &&& repeat is None
                    &&& line.len() != line_len(width as int)
                    &&& e == ParseError::LineTooLong {
                        line: line_count,
                        num_chars: line.len(),
                        expected_num_chars: (2 * width + 1) as usize,
                    }
                    &&& final(fixed_positions)@ == old(fixed_positions)@
                    &&& final(wall_row)@ == old(wall_row)@
                },
                Ok(()) => {
                    &&& repeat is None
                    &&& line.len() == line_len(width as int)
                    &&& final(fixed_positions)@ == all
                    &&& final(wall_row).len() == width
                    &&& forall|x: int|
                        0 <= x < width ==> #[trigger] final(wall_row)[x] == (Wall {
                            north: old(wall_row)[x].north,
                            south: old(wall_row)[x].south,
                            east: old(wall_row)[x].east || line[2 * x + 2] == '│',
                            west: old(wall_row)[x].west || line[2 * x] == '│',
                        })
                },
            }
        }),
{
    let expected_num_chars = 2 * width + 1;
    let y: usize = (line_count - 1) / 2;
    let n: usize = if line.len() < expected_num_chars {
        line.len()
    } else {
        expected_num_chars
    };
    let ghost start = fixed_positions.len() as int;
    let mut added: Vec<FixedPosition> = Vec::new();
    let mut i: usize = 0;
    while i < n
        invariant
            i <= n,
            n == read_len(line@, width as int),
            added@ == row_entries(line@, y as int, i as int),
            first_repeat_from(fixed_positions@ + added@, start) is None,
            start == fixed_positions.len(),
            fixed_positions@ == old(fixed_positions)@,
            wall_row@ == old(wall_row)@,
            y == (line_count - 1) / 2,
            expected_num_chars == 2 * width + 1,
        decreases n - i,
    {
        let c = read_char(line, i);
        let ghost all = fixed_positions@ + added@;
        if i % 2 == 1 && c != '.' {
            let entry = FixedPosition { id: c, position: Position::new((i / 2) as i32, y as i32) };
            let ghost next = all.push(entry);
            assert(next.drop_last() =~= all);
            if !is_marker_char(c) {
                let in_old = contains_id(fixed_positions, c);
                let in_added = contains_id(&added, c);
                if in_old || in_added {
                    proof {
                        if in_old {
                            let j = choose|j: int| 0 <= j < fixed_positions.len() && #[trigger] fixed_positions[j].id == c;
                            assert(next[j].id == c);
                        } else {
                            let j = choose|j: int| 0 <= j < added.len() && #[trigger] added[j].id == c;
                            assert(next[start + j].id == c);
                        }
                        assert(repeats_earlier(next, next.len() - 1));
                        assert(first_repeat_from(next, start) == Some(next.len() - 1));
                        lemma_row_entries_prefix(line@, y as int, i + 1, n as int);
                        let full = fixed_positions@ + row_entries(line@, y as int, n as int);
                        assert(full.take(next.len() as int) =~= next);
                        lemma_first_repeat_prefix(full, next, start);
                        assert(full[next.len() - 1] == next[next.len() - 1]);
                    }
                    return Err(ParseError::DuplicateFixedPosition { id: c });
                }
                assert forall|j: int| 0 <= j < next.len() - 1 implies #[trigger] next[j].id != c by {
                    if j < start {
                        assert(next[j] == fixed_positions[j]);
                    } else {
                        assert(next[j] == added[j - start]);
                    }
                }
            }
            added.push(entry);
            assert(fixed_positions@ + added@ == next);
        }
        i = i + 1;
    }
    if line.len() != expected_num_chars {
        return Err(
            ParseError::LineTooLong { line: line_count, num_chars: line.len(), expected_num_chars },
        );
    }
    let ghost old_walls = wall_row@;
    let mut x: usize = 0;
    while x < width
        invariant
            x <= width,
            line.len() == 2 * width + 1,
            wall_row.len() == width,
            old_walls.len() == width,
            forall|j: int|
                x <= j < width ==> #[trigger] wall_row[j] == old_walls[j],
            forall|j: int|
                0 <= j < x ==> #[trigger] wall_row[j] == (Wall {
                    north: old_walls[j].north,
                    south: old_walls[j].south,
                    east: old_walls[j].east || line[2 * j + 2] == '│',
                    west: old_walls[j].west || line[2 * j] == '│',
                }),
        decreases width - x,
    {
        let mut w = wall_row[x];
        w.west = w.west || line[2 * x] == '│';
        w.east = w.east || line[2 * x + 2] == '│';
        wall_row.set(x, w);
        x = x + 1;
    }
    let ghost old_fixed = fixed_positions@;
    let mut k: usize = 0;
    while k < added.len()
        invariant
            k <= added.len(),
            fixed_positions@ == old_fixed + added@.take(k as int),
        decreases added.len() - k,
    {
        fixed_positions.push(added[k]);
        assert(added@.take(k + 1) == added@.take(k as int).push(added@[k as int]));
        k = k + 1;
    }
    assert(added@.take(added.len() as int) == added@);
    Ok(())
}

impl World {
    /// The world can be drawn: its view has the world's sizes and its rows have the
    /// world's width; named locations may lie anywhere.
    pub open spec fn drawable(&self) -> bool {
        &&& self@.width == self.width
        &&& self@.height == self.height
        &&& self@.shaped()
    }

    /// The world is consistent: its view has the world's sizes and is valid.
    pub open spec fn wf(&self) -> bool {
        &&& self@.width == self.width
        &&& self@.height == self.height
        &&& self@.valid()
    }

    /// Reads a world from its text: the first line is a wall line, then each content
    /// line with the wall line after it makes one row. An empty text, a line of the
    /// wrong length and a location named twice are refused; the error carries the text.
    pub fn build_from_str(source: &str) -> (r: Result<World, Error>)
        requires
            source@.len() <= i32::MAX,
        ensures
            ({
                let lines = spec_lines(source@);
                match r {
                    Err(Error::EmptyString) => lines.len() == 0,
                    Err(Error::Parse { source: text, error }) => {
                        &&& lines.len() > 0
                        &&& text_error(lines) == Some(error)
                        &&& text@ == source@
                    },
                    Ok(world) => {
                        &&& lines.len() > 0
                        &&& text_error(lines) is None
                        &&& world.wf()
                        &&& world@ == text_world(lines)
                    },
                }
            }),
    {
        let lines = split_lines(source);
        let ghost ls = spec_lines(source@);
        if lines.len() == 0 {
            return Err(Error::EmptyString);
        }
        proof {
            lemma_lines_bounded(source@);
            assert(lines[0]@ == ls[0]);
        }
        let width: usize = lines[0].len() / 2;
        let ghost w = width as int;
        let top = parse_wall_line(lines[0].as_slice(), 1, width);
        let marks = match top {
            Err(error) => {
                return Err(Error::Parse { source: String::from_str(source), error });
            },
            Ok(marks) => marks,
        };
        let mut wall_row: Vec<Wall> = Vec::new();
        let mut x: usize = 0;
        while x < width
            invariant
                x <= width,
                marks.len() == width,
                wall_row.len() == x,
                forall|j: int|
                    0 <= j < x ==> #[trigger] wall_row[j] == (Wall {
                        north: marks[j],
                        south: false,
                        east: false,
                        west: false,
                    }),
            decreases width - x,
        {
            wall_row.push(Wall { north: marks[x], south: false, east: false, west: false });
            x = x + 1;
        }
        let mut walls: Vec<Vec<Wall>> = Vec::new();
        let mut fixed_positions: Vec<FixedPosition> = Vec::new();
        let mut y: usize = 0;
        while 2 * y + 2 < lines.len()
            invariant
                ls == spec_lines(source@),
                lines.len() == ls.len(),
                forall|k: int| 0 <= k < lines.len() ==> #[trigger] lines[k]@ == ls[k],
                ls.len() <= i32::MAX,
                forall|k: int| 0 <= k < ls.len() ==> #[trigger] ls[k].len() <= i32::MAX,
                w == text_width(ls),
                width == w,
                ls[0].len() == line_len(w),
                2 * y + 1 <= ls.len(),
                rows_error(ls, w, y as int) is None,
                fixed_positions@ == entries_upto(ls, w, y as int),
                walls.len() == y,
                forall|yy: int|
                    0 <= yy < y ==> #[trigger] walls[yy]@ == Seq::new(
                        w as nat,
                        |xx: int| text_wall(ls, xx, yy),
                    ),
                wall_row.len() == width,
                forall|xx: int|
                    0 <= xx < width ==> #[trigger] wall_row[xx] == (Wall {
                        north: ls[2 * y][2 * xx + 1] == '─',
                        south: false,
                        east: false,
                        west: false,
                    }),
            decreases ls.len() - 2 * y,
        {
            let content = parse_content_line(
                lines[2 * y + 1].as_slice(),
                2 * y + 2,
                width,
                &mut wall_row,
                &mut fixed_positions,
            );
            proof {
                assert(lines[2 * y + 1]@ == ls[2 * y + 1]);
                assert(entries_upto(ls, w, y + 1) == entries_upto(ls, w, y as int) + row_entries(
                    ls[2 * y + 1],
                    y as int,
                    read_len(ls[2 * y + 1], w),
                ));
            }
            match content {
                Err(error) => {
                    proof {
                        assert(rows_error(ls, w, y + 1) == Some(error));
                        lemma_rows_error_stable(ls, w, y + 1, text_height(ls));
                    }
                    return Err(Error::Parse { source: String::from_str(source), error });
                },
                Ok(()) => {},
            }
            let below = parse_wall_line(lines[2 * y + 2].as_slice(), 2 * y + 3, width);
            proof {
                assert(lines[2 * y + 2]@ == ls[2 * y + 2]);
            }
            let below_marks = match below {
                Err(error) => {
                    proof {
                        assert(rows_error(ls, w, y + 1) == Some(error));
                        lemma_rows_error_stable(ls, w, y + 1, text_height(ls));
                    }
                    return Err(Error::Parse { source: String::from_str(source), error });
                },
                Ok(m) => m,
            };
            let ghost before_row = wall_row@;
            let mut next_row: Vec<Wall> = Vec::new();
            let mut x: usize = 0;
            while x < width
                invariant
                    x <= width,
                    below_marks.len() == width,
                    wall_row.len() == width,
                    next_row.len() == x,
                    forall|j: int|
                        0 <= j < x ==> #[trigger] next_row[j] == (Wall {
                            north: below_marks[j],
                            south: false,
                            east: false,
                            west: false,
                        }),
                    before_row.len() == width,
                    forall|j: int|
                        0 <= j < x ==> #[trigger] wall_row[j] == (Wall {
                            north: before_row[j].north,
                            south: below_marks[j],
                            east: before_row[j].east,
                            west: before_row[j].west,
                        }),
                    forall|j: int| x <= j < width ==> #[trigger] wall_row[j] == before_row[j],
                decreases width - x,
            {
                let mut cell = wall_row[x];
                cell.south = below_marks[x];
                wall_row.set(x, cell);
                next_row.push(Wall { north: below_marks[x], south: false, east: false, west: false });
                x = x + 1;
            }
            walls.push(wall_row);
            wall_row = next_row;
            y = y + 1;
        }
        proof {
            assert(y == text_height(ls));
            lemma_entries_bounds(ls, w, y as int);
        }
        let world = World {
            width: width as i32,
            height: walls.len() as i32,
            walls,
            fixed_positions,
        };
        proof {
            assert(world@.walls =~= text_world(ls).walls);
        }
        Ok(world)
    }
}

// ---------------------------------------------------------------------------
// Looking up named locations.
// ---------------------------------------------------------------------------

/// The index of the first location named `id`.
pub open spec fn find_id(fixed: Seq<FixedPosition>, id: char) -> Option<int>
    decreases fixed.len(),
{
    if fixed.len() == 0 {
        None
    } else {
        match find_id(fixed.drop_last(), id) {
            Some(k) => Some(k),
            None => if fixed.last().id == id {
                Some(fixed.len() - 1)
            } else {
                None
            },
        }
    }
}

/// The index of the first location at `p`.
pub open spec fn find_at(fixed: Seq<FixedPosition>, p: Position) -> Option<int>
    decreases fixed.len(),
{
    if fixed.len() == 0 {
        None
    } else {
        match find_at(fixed.drop_last(), p) {
            Some(k) => Some(k),
            None => if fixed.last().position == p {
                Some(fixed.len() - 1)
            } else {
                None
            },
        }
    }
}

/// No two named locations share a name or a cell.
pub open spec fn distinct_locations(v: WorldView) -> bool {
    forall|i: int, j: int|
        #![trigger v.fixed[i], v.fixed[j]]
        0 <= i < j < v.fixed.len() ==> v.fixed[i].id != v.fixed[j].id && v.fixed[i].position != v.fixed[j].position
}

/// Where no two locations share a name or a cell, the location named `id` is the one
/// at `p` exactly when it lies at `p`.
pub proof fn lemma_location_named_at(v: WorldView, id: char, p: Position)
    requires
        distinct_locations(v),
    ensures
        (find_at(v.fixed, p) matches Some(k) && v.fixed[k].id == id) <==> (find_id(v.fixed, id) matches Some(k)
            && v.fixed[k].position == p),
{
    lemma_find_at(v.fixed, p);
    lemma_find_id(v.fixed, id);
    if find_at(v.fixed, p) is Some && find_id(v.fixed, id) is Some {
        let a = find_at(v.fixed, p)->0;
        let b = find_id(v.fixed, id)->0;
        let fa = v.fixed[a];
        let fb = v.fixed[b];
        if a < b {
            assert(fa.id != fb.id && fa.position != fb.position);
        } else if b < a {
            assert(fb.id != fa.id && fb.position != fa.position);
        }
    }
}

/// `find_id` gives the first matching index, or none when nothing matches.
pub proof fn lemma_find_id(fixed: Seq<FixedPosition>, id: char)
    ensures
        match find_id(fixed, id) {
            Some(k) => {
                &&& 0 <= k < fixed.len()
                &&& fixed[k].id == id
                &&& forall|j: int| 0 <= j < k ==> #[trigger] fixed[j].id != id
            },
            None => forall|j: int| 0 <= j < fixed.len() ==> #[trigger] fixed[j].id != id,
        },
    decreases fixed.len(),
{
    if fixed.len() > 0 {
        lemma_find_id(fixed.drop_last(), id);
        assert forall|j: int| 0 <= j < fixed.len() - 1 implies #[trigger] fixed[j] == fixed.drop_last()[j] by {}
    }
}

/// `find_at` gives the first matching index, or none when nothing matches.
pub proof fn lemma_find_at(fixed: Seq<FixedPosition>, p: Position)
    ensures
        match find_at(fixed, p) {
            Some(k) => {
                &&& 0 <= k < fixed.len()
                &&& fixed[k].position == p
                &&& forall|j: int| 0 <= j < k ==> #[trigger] fixed[j].position != p
            },
            None => forall|j: int| 0 <= j < fixed.len() ==> #[trigger] fixed[j].position != p,
        },
    decreases fixed.len(),
{
    if fixed.len() > 0 {
        lemma_find_at(fixed.drop_last(), p);
        assert forall|j: int| 0 <= j < fixed.len() - 1 implies #[trigger] fixed[j] == fixed.drop_last()[j] by {}
    }
}

/// A match found in a prefix is the first match of the whole sequence.
proof fn lemma_find_id_prefix(fixed: Seq<FixedPosition>, id: char, m: int)
    requires
        0 <= m <= fixed.len(),
        find_id(fixed.take(m), id) is Some,
    ensures
        find_id(fixed, id) == find_id(fixed.take(m), id),
    decreases fixed.len() - m,
{
    if m < fixed.len() {
        assert(fixed.take(m + 1).drop_last() =~= fixed.take(m));
        lemma_find_id_prefix(fixed, id, m + 1);
    } else {
        assert(fixed.take(m) =~= fixed);
    }
}

proof fn lemma_find_at_prefix(fixed: Seq<FixedPosition>, p: Position, m: int)
    requires
        0 <= m <= fixed.len(),
        find_at(fixed.take(m), p) is Some,
    ensures
        find_at(fixed, p) == find_at(fixed.take(m), p),
    decreases fixed.len() - m,
{
    if m < fixed.len() {
        assert(fixed.take(m + 1).drop_last() =~= fixed.take(m));
        lemma_find_at_prefix(fixed, p, m + 1);
    } else {
        assert(fixed.take(m) =~= fixed);
    }
}

/// The index of the first location named `id` in `fixed`.
fn index_of_id(fixed: &Vec<FixedPosition>, id: char) -> (r: Option<usize>)
    ensures
        match r {
            Some(k) => find_id(fixed@, id) == Some(k as int),
            None => find_id(fixed@, id) is None,
        },
{
    let mut i: usize = 0;
    while i < fixed.len()
        invariant
            i <= fixed.len(),
            find_id(fixed@.take(i as int), id) is None,
        decreases fixed.len() - i,
    {
        assert(fixed@.take(i + 1).drop_last() =~= fixed@.take(i as int));
        if fixed[i].id == id {
            proof {
                lemma_find_id_prefix(fixed@, id, i + 1);
            }
            return Some(i);
        }
        i = i + 1;
    }
    assert(fixed@.take(fixed.len() as int) =~= fixed@);
    None
}

/// The index of the first location at `p` in `fixed`.
fn index_at(fixed: &Vec<FixedPosition>, p: &Position) -> (r: Option<usize>)
    ensures
        match r {
            Some(k) => find_at(fixed@, *p) == Some(k as int),
            None => find_at(fixed@, *p) is None,
        },
{
    let mut i: usize = 0;
    while i < fixed.len()
        invariant
            i <= fixed.len(),
            find_at(fixed@.take(i as int), *p) is None,
        decreases fixed.len() - i,
    {
        assert(fixed@.take(i + 1).drop_last() =~= fixed@.take(i as int));
        if fixed[i].position == *p {
            proof {
                lemma_find_at_prefix(fixed@, *p, i + 1);
            }
            return Some(i);
        }
        i = i + 1;
    }
    assert(fixed@.take(fixed.len() as int) =~= fixed@);
    None
}

// ---------------------------------------------------------------------------
// What actions do.
// ---------------------------------------------------------------------------

/// The effect of `action` for a taxi at `p`: a move where no wall or edge blocks it,
/// a pick-up or drop-off at a named location, and nothing otherwise.
pub open spec fn spec_affect(v: WorldView, p: Position, action: Actions) -> ActionAffect {
    match action {
        Actions::North => if p.y > 0 && !v.wall_at(p).north {
            ActionAffect::Move(Position { x: 0, y: -1i32 })
        } else {
            ActionAffect::Invalid
        },
        Actions::South => if p.y < v.height - 1 && !v.wall_at(p).south {
            ActionAffect::Move(Position { x: 0, y: 1 })
        } else {
            ActionAffect::Invalid
        },
        Actions::East => if p.x < v.width - 1 && !v.wall_at(p).east {
            ActionAffect::Move(Position { x: 1, y: 0 })
        } else {
            ActionAffect::Invalid
        },
        Actions::West => if p.x > 0 && !v.wall_at(p).west {
            ActionAffect::Move(Position { x: -1i32, y: 0 })
        } else {
            ActionAffect::Invalid
        },
        Actions::PickUp => match find_at(v.fixed, p) {
            Some(k) => ActionAffect::PickUp(v.fixed[k].id),
            None => ActionAffect::Invalid,
        },
        Actions::DropOff => match find_at(v.fixed, p) {
            Some(k) => ActionAffect::DropOff(v.fixed[k].id),
            None => ActionAffect::Invalid,
        },
    }
}

/// The walls of `p` are read only where a move is not already ruled out by the edge;
/// there `p` must lie on the grid.
pub open spec fn affect_defined(v: WorldView, p: Position, action: Actions) -> bool {
    match action {
        Actions::North => p.y > 0 ==> v.in_bounds(p),
        Actions::South => p.y < v.height - 1 ==> v.in_bounds(p),
        Actions::East => p.x < v.width - 1 ==> v.in_bounds(p),
        Actions::West => p.x > 0 ==> v.in_bounds(p),
        Actions::PickUp => true,
        Actions::DropOff => true,
    }
}

impl World {
    /// Where the first location named `id` is.
    pub fn get_fixed_position(&self, id: char) -> (r: Option<&Position>)
        ensures
            match r {
                Some(p) => find_id(self@.fixed, id) matches Some(k) && *p == self@.fixed[k].position,
                None => find_id(self@.fixed, id) is None,
            },
    {
        proof {
            lemma_find_id(self@.fixed, id);
        }
        match index_of_id(&self.fixed_positions, id) {
            Some(k) => Some(&self.fixed_positions[k].position),
            None => None,
        }
    }

    /// The index of the first location named `id`.
    pub fn get_fixed_index(&self, id: char) -> (r: Option<usize>)
        ensures
            match r {
                Some(k) => find_id(self@.fixed, id) == Some(k as int),
                None => find_id(self@.fixed, id) is None,
            },
    {
        index_of_id(&self.fixed_positions, id)
    }

    /// The name of the first location at `position`.
    pub fn get_fixed_id(&self, position: &Position) -> (r: Option<char>)
        ensures
            match r {
                Some(id) => find_at(self@.fixed, *position) matches Some(k) && id == self@.fixed[k].id,
                None => find_at(self@.fixed, *position) is None,
            },
    {
        proof {
            lemma_find_at(self@.fixed, *position);
        }
        match index_at(&self.fixed_positions, position) {
            Some(k) => Some(self.fixed_positions[k].id),
            None => None,
        }
    }

    /// How many named locations the world has.
    pub fn num_fixed_positions(&self) -> (n: usize)
        ensures
            n == self@.fixed.len(),
    {
        self.fixed_positions.len()
    }

    /// The name of the location at `index`, if there is one.
    pub fn get_fixed_id_from_index(&self, index: usize) -> (r: Option<char>)
        ensures
            match r {
                Some(id) => index < self@.fixed.len() && id == self@.fixed[index as int].id,
                None => index >= self@.fixed.len(),
            },
    {
        if index < self.fixed_positions.len() {
            Some(self.fixed_positions[index].id)
        } else {
            None
        }
    }

    /// The walls of the cell at `position`.
    pub fn get_wall(&self, position: &Position) -> (w: &Wall)
        requires
            self.wf(),
            self@.in_bounds(*position),
        ensures
            *w == self@.wall_at(*position),
    {
        proof {
            assert(self@.walls[position.y as int] == self.walls@[position.y as int]@);
        }
        &self.walls[position.y as usize][position.x as usize]
    }

    /// What `action` does for a taxi at `position`.
    pub fn determine_affect(&self, position: &Position, action: Actions) -> (r: ActionAffect)
        requires
            self.wf(),
            affect_defined(self@, *position, action),
        ensures
            r == spec_affect(self@, *position, action),
    {
        match action {
            Actions::North => {
                if position.y > 0 && !self.get_wall(position).north {
                    ActionAffect::Move(Position::new(0, -1))
                } else {
                    ActionAffect::Invalid
                }
            },
            Actions::South => {
                if position.y < self.height - 1 && !self.get_wall(position).south {
                    ActionAffect::Move(Position::new(0, 1))
                } else {
                    ActionAffect::Invalid
                }
            },
            Actions::East => {
                if position.x < self.width - 1 && !self.get_wall(position).east {
                    ActionAffect::Move(Position::new(1, 0))
                } else {
                    ActionAffect::Invalid
                }
            },
            Actions::West => {
                if position.x > 0 && !self.get_wall(position).west {
                    ActionAffect::Move(Position::new(-1, 0))
                } else {
                    ActionAffect::Invalid
                }
            },
            Actions::PickUp => {
                if let Some(id) = self.get_fixed_id(position) {
                    ActionAffect::PickUp(id)
                } else {
                    ActionAffect::Invalid
                }
            },
            Actions::DropOff => {
                if let Some(id) = self.get_fixed_id(position) {
                    ActionAffect::DropOff(id)
                } else {
                    ActionAffect::Invalid
                }
            },
        }
    }
}

// ---------------------------------------------------------------------------
// Drawing a world.
// ---------------------------------------------------------------------------

/// The box-drawing character that joins wall segments running north, south, east and
/// west from a corner; a blank where fewer than two segments meet.
pub open spec fn connection_char(north: bool, south: bool, east: bool, west: bool) -> char {
    match (north, south, east, west) {
        (true, true, true, true) => '┼',
        (true, true, true, false) => '├',
        (true, true, false, true) => '┤',
        (true, false, true, true) => '┴',
        (false, true, true, true) => '┬',
        (true, true, false, false) => '│',
        (true, false, true, false) => '└',
        (true, false, false, true) => '┘',
        (false, true, true, false) => '┌',
        (false, true, false, true) => '┐',
        (false, false, true, true) => '─',
        _ => ' ',
    }
}

/// The north wall of an optional neighbour.
pub open spec fn has_north(w: Option<Wall>) -> bool {
    w matches Some(w) && w.north
}

pub open spec fn has_south(w: Option<Wall>) -> bool {
    w matches Some(w) && w.south
}

pub open spec fn has_east(w: Option<Wall>) -> bool {
    w matches Some(w) && w.east
}

pub open spec fn has_west(w: Option<Wall>) -> bool {
    w matches Some(w) && w.west
}

/// The corner north-west of a cell, given the cell west of it and the cell above it.
pub open spec fn upper_left_char(current: Wall, previous: Option<Wall>, upper: Option<Wall>) -> char {
    connection_char(has_west(upper), current.west, current.north, has_north(previous))
}

/// The corner north-east of the last cell of a row, given the cell above it.
pub open spec fn upper_right_char(current: Wall, upper: Option<Wall>) -> char {
    connection_char(has_east(upper), current.east, false, current.north)
}

/// The corner south-west of a cell of the last row, given the cell west of it.
pub open spec fn lower_left_char(current: Wall, previous: Option<Wall>) -> char {
    connection_char(current.west, false, current.south, has_south(previous))
}

/// An optional wall, read through its reference.
pub open spec fn deref_wall(w: Option<&Wall>) -> Option<Wall> {
    match w {
        Some(w) => Some(*w),
        None => None,
    }
}

pub fn render_connection(connect_north: bool, connect_south: bool, connect_east: bool, connect_west: bool) -> (c: char)
    ensures
        c == connection_char(connect_north, connect_south, connect_east, connect_west),
{
    match (connect_north, connect_south, connect_east, connect_west) {
        (true, true, true, true) => '┼',
        (true, true, true, false) => '├',
        (true, true, false, true) => '┤',
        (true, false, true, true) => '┴',
        (false, true, true, true) => '┬',
        (true, true, false, false) => '│',
        (true, false, true, false) => '└',
        (true, false, false, true) => '┘',
        (false, true, true, false) => '┌',
        (false, true, false, true) => '┐',
        (false, false, true, true) => '─',
        (true, false, false, false) | (false, false, true, false) | (false, true, false, false) | (
            false,
            false,
            false,
            true,
        ) | (false, false, false, false) => ' ',
    }
}

pub fn calc_upper_left_char(current_wall: &Wall, previous_wall: Option<&Wall>, upper_wall: Option<&Wall>) -> (c: char)
    ensures
        c == upper_left_char(*current_wall, deref_wall(previous_wall), deref_wall(upper_wall)),
{
    let mut connect_north = false;
    let mut connect_south = false;
    let mut connect_east = false;
    let mut connect_west = false;
    if let Some(upper_wall) = upper_wall {
        if upper_wall.west {
            connect_north = true;
        }
    }
    if current_wall.west {
        connect_south = true;
    }
    if current_wall.north {
        connect_east = true;
    }
    if let Some(previous_wall) = previous_wall {
        if previous_wall.north {
            connect_west = true;
        }
    }
    render_connection(connect_north, connect_south, connect_east, connect_west)
}

pub fn calc_upper_right_char(current_wall: &Wall, upper_wall: Option<&Wall>) -> (c: char)
    ensures
        c == upper_right_char(*current_wall, deref_wall(upper_wall)),
{
    let mut connect_north = false;
    let mut connect_south = false;
    let connect_east = false;
    let mut connect_west = false;
    if let Some(upper_wall) = upper_wall {
        if upper_wall.east {
            connect_north = true;
        }
    }
    if current_wall.east {
        connect_south = true;
    }
    if current_wall.north {
        connect_west = true;
    }
    render_connection(connect_north, connect_south, connect_east, connect_west)
}

pub fn calc_lower_left_char(current_wall: &Wall, previous_wall: Option<&Wall>) -> (c: char)
    ensures
        c == lower_left_char(*current_wall, deref_wall(previous_wall)),
{
    let mut connect_north = false;
    let connect_south = false;
    let mut connect_east = false;
    let mut connect_west = false;
    if current_wall.west {
        connect_north = true;
    }
    if current_wall.south {
        connect_east = true;
    }
    if let Some(previous_wall) = previous_wall {
        if previous_wall.south {
            connect_west = true;
        }
    }
    render_connection(connect_north, connect_south, connect_east, connect_west)
}

/// The cell west of `(x, y)`, if any.
pub open spec fn west_of(v: WorldView, x: int, y: int) -> Option<Wall> {
    if x > 0 {
        Some(v.walls[y][x - 1])
    } else {
        None
    }
}

/// The cell above `(x, y)`, if any.
pub open spec fn above(v: WorldView, x: int, y: int) -> Option<Wall> {
    if y > 0 {
        Some(v.walls[y - 1][x])
    } else {
        None
    }
}

/// The content shown in the cell at `(x, y)`: the name of the first location there, or
/// '.'.
pub open spec fn cell_char(v: WorldView, x: int, y: int) -> char {
    match find_at(v.fixed, Position { x: x as i32, y: y as i32 }) {
        Some(k) => v.fixed[k].id,
        None => '.',
    }
}

/// The length of a drawn line: a corner or wall before and after each cell, none for
/// an empty row.
pub open spec fn drawn_len(v: WorldView) -> int {
    if v.width == 0 {
        0
    } else {
        2 * v.width + 1
    }
}

/// Character `i` of the line drawn above row `y`.
pub open spec fn upper_char(v: WorldView, y: int, i: int) -> char {
    if i == 2 * v.width {
        upper_right_char(v.walls[y][v.width - 1], above(v, v.width - 1, y))
    } else if i % 2 == 0 {
        upper_left_char(v.walls[y][i / 2], west_of(v, i / 2, y), above(v, i / 2, y))
    } else if v.walls[y][i / 2].north {
        '─'
    } else {
        ' '
    }
}

/// Character `i` of the line that draws the cells of row `y`.
pub open spec fn content_char(v: WorldView, y: int, i: int) -> char {
    if i == 2 * v.width {
        if v.walls[y][v.width - 1].east {
            '│'
        } else {
            ' '
        }
    } else if i % 2 == 0 {
        if v.walls[y][i / 2].west {
            '│'
        } else {
            ' '
        }
    } else {
        cell_char(v, i / 2, y)
    }
}

/// Character `i` of the line drawn below the last row.
pub open spec fn bottom_char(v: WorldView, i: int) -> char {
    let y = v.height - 1;
    if i == 2 * v.width {
        connection_char(v.walls[y][v.width - 1].east, false, false, v.walls[y][v.width - 1].south)
    } else if i % 2 == 0 {
        lower_left_char(v.walls[y][i / 2], west_of(v, i / 2, y))
    } else if v.walls[y][i / 2].south {
        '─'
    } else {
        ' '
    }
}

/// The drawing of a world, line by line: above each row a line of corners and north
/// walls, then a line of west walls and contents, and below the last row a closing
/// line. A world without rows draws nothing.
pub open spec fn display_lines(v: WorldView) -> Seq<Seq<char>> {
    if v.height == 0 {
        Seq::empty()
    } else {
        Seq::new(
            (2 * v.height + 1) as nat,
            |k: int|
                if k == 2 * v.height {
                    Seq::new(drawn_len(v) as nat, |i: int| bottom_char(v, i))
                } else if k % 2 == 0 {
                    Seq::new(drawn_len(v) as nat, |i: int| upper_char(v, k / 2, i))
                } else {
                    Seq::new(drawn_len(v) as nat, |i: int| content_char(v, k / 2, i))
                },
        )
    }
}

/// The drawing of a valid world has lines of at most `2 * i32::MAX + 1` characters.
pub proof fn lemma_display_lines_len(v: WorldView)
    requires
        v.shaped(),
    ensures
        display_lines(v).len() <= 2 * i32::MAX + 1,
        forall|j: int|
            0 <= j < display_lines(v).len() ==> #[trigger] display_lines(v)[j].len() <= 2 * i32::MAX + 1,
{
}


impl World {
    /// The drawing of the world, line by line, as characters.
    pub fn display_chars(&self) -> (r: Vec<Vec<char>>)
        requires
            self.drawable(),
        ensures
            r.len() == display_lines(self@).len(),
            forall|k: int| 0 <= k < r.len() ==> #[trigger] r[k]@ == display_lines(self@)[k],
    {
        let ghost v = self@;
        let mut result: Vec<Vec<char>> = Vec::new();
        let width = self.width as usize;
        let height = self.walls.len();
        if height == 0 {
            return result;
        }
        let mut y: usize = 0;
        while y < height
            invariant
                self.drawable(),
                v == self@,
                width == v.width,
                height == v.height,
                height > 0,
                y <= height,
                result.len() == 2 * y,
                forall|k: int| 0 <= k < 2 * y ==> #[trigger] result[k]@ == display_lines(v)[k],
            decreases height - y,
        {
            let row = &self.walls[y];
            proof {
                assert(v.walls[y as int] == row@);
            }
            let mut upper: Vec<char> = Vec::new();
            let mut chars: Vec<char> = Vec::new();
            let mut x: usize = 0;
            while x < width
                invariant
                    self.drawable(),
                    v == self@,
                    width == v.width,
                    height == v.height,
                    y < height,
                    row@ == v.walls[y as int],
                    x <= width,
                    upper.len() == 2 * x,
                    chars.len() == 2 * x,
                    forall|i: int| 0 <= i < 2 * x ==> #[trigger] upper[i] == upper_char(v, y as int, i),
                    forall|i: int| 0 <= i < 2 * x ==> #[trigger] chars[i] == content_char(v, y as int, i),
                decreases width - x,
            {
                let w = &row[x];
                let previous_wall = if x > 0 {
                    Some(&row[x - 1])
                } else {
                    None
                };
                let upper_wall = if y > 0 {
                    proof {
                        assert(v.walls[y - 1] == self.walls@[y - 1]@);
                    }
                    Some(&self.walls[y - 1][x])
                } else {
                    None
                };
                upper.push(calc_upper_left_char(w, previous_wall, upper_wall));
                upper.push(
                    if w.north {
                        '─'
                    } else {
                        ' '
                    },
                );
                chars.push(
                    if w.west {
                        '│'
                    } else {
                        ' '
                    },
                );
                proof {
                    lemma_find_at(v.fixed, Position { x: x as i32, y: y as i32 });
                }
                let content = match index_at(&self.fixed_positions, &Position::new(x as i32, y as i32)) {
                    Some(k) => self.fixed_positions[k].id,
                    None => '.',
                };
                chars.push(content);
                x = x + 1;
            }
            if width > 0 {
                let w = &row[width - 1];
                let upper_wall = if y > 0 {
                    proof {
                        assert(v.walls[y - 1] == self.walls@[y - 1]@);
                    }
                    Some(&self.walls[y - 1][width - 1])
                } else {
                    None
                };
                upper.push(calc_upper_right_char(w, upper_wall));
                chars.push(
                    if w.east {
                        '│'
                    } else {
                        ' '
                    },
                );
            }
            proof {
                assert(upper@ =~= display_lines(v)[2 * y]);
                assert(chars@ =~= display_lines(v)[2 * y + 1]);
            }
            result.push(upper);
            result.push(chars);
            y = y + 1;
        }
        let row = &self.walls[height - 1];
        proof {
            assert(v.walls[height - 1] == row@);
        }
        let mut bottom: Vec<char> = Vec::new();
        let mut x: usize = 0;
        while x < width
            invariant
                self.drawable(),
                v == self@,
                width == v.width,
                height == v.height,
                height > 0,
                row@ == v.walls[height - 1],
                x <= width,
                bottom.len() == 2 * x,
                forall|i: int| 0 <= i < 2 * x ==> #[trigger] bottom[i] == bottom_char(v, i),
            decreases width - x,
        {
            let w = &row[x];
            let previous_wall = if x > 0 {
                Some(&row[x - 1])
            } else {
                None
            };
            bottom.push(calc_lower_left_char(w, previous_wall));
            bottom.push(
                if w.south {
                    '─'
                } else {
                    ' '
                },
            );
            x = x + 1;
        }
        if width > 0 {
            let w = &row[width - 1];
            bottom.push(render_connection(w.east, false, false, w.south));
        }
        proof {
            assert(bottom@ =~= display_lines(v)[2 * height]);
        }
        result.push(bottom);
        result
    }

    /// The drawing of the world, line by line.
    pub fn display_strings(&self) -> (r: Vec<String>)
        requires
            self.drawable(),
        ensures
            r.len() == display_lines(self@).len(),
            forall|k: int| 0 <= k < r.len() ==> #[trigger] r[k]@ == display_lines(self@)[k],
    {
        let lines = self.display_chars();
        let mut result: Vec<String> = Vec::new();
        let mut k: usize = 0;
        while k < lines.len()
            invariant
                k <= lines.len(),
                lines.len() == display_lines(self@).len(),
                forall|j: int| 0 <= j < lines.len() ==> #[trigger] lines[j]@ == display_lines(self@)[j],
                result.len() == k,
                forall|j: int| 0 <= j < k ==> #[trigger] result[j]@ == display_lines(self@)[j],
            decreases lines.len() - k,
        {
            result.push(string_from_chars(lines[k].as_slice()));
            k = k + 1;
        }
        result
    }

    /// The drawing of the world as one text, each line ended by a line feed.
    pub fn display(&self) -> (s: String)
        requires
            self.drawable(),
        ensures
            s@ == join_lines(display_lines(self@)),
    {
        let lines = self.display_chars();
        let mut result = String::new();
        let mut k: usize = 0;
        while k < lines.len()
            invariant
                k <= lines.len(),
                lines.len() == display_lines(self@).len(),
                forall|j: int| 0 <= j < lines.len() ==> #[trigger] lines[j]@ == display_lines(self@)[j],
                result@ == join_lines(display_lines(self@).take(k as int)),
            decreases lines.len() - k,
        {
            push_chars(&mut result, lines[k].as_slice());
            push_char(&mut result, '\n');
            proof {
                let ls = display_lines(self@);
                assert(ls.take(k + 1).drop_last() =~= ls.take(k as int));
            }
            k = k + 1;
        }
        proof {
            assert(display_lines(self@).take(lines.len() as int) =~= display_lines(self@));
        }
        result
    }
}

} // verus!
