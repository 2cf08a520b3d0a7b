use vstd::prelude::*;

use crate::position::Position;
use crate::text::{join_lines, lemma_lines_no_newline, lemma_lines_of_joined, plain_line, spec_lines};
use crate::world::{
    above, bottom_char, cell_char, connection_char, content_char, display_lines, entries_upto, find_at, has_east,
    has_north, has_south, has_west, lemma_find_at, line_len, read_len, row_entries, row_error, rows_error,
    text_error, text_height, text_wall, text_width, text_world, upper_char, west_of, FixedPosition,
};

verus! {

// A world drawn by `World::display` and read back by `World::build_from_str`.

/// The content character of the cell in column `x` of a content line.
pub open spec fn content_at(line: Seq<char>, x: int) -> char {
    line[2 * x + 1]
}

/// The content character of the cell at `(x, y)` in the lines of a world's text.
pub open spec fn text_cell(lines: Seq<Seq<char>>, x: int, y: int) -> char {
    lines[2 * y + 1][2 * x + 1]
}

/// Some entry of `s` is at `p`.
pub open spec fn has_entry_at(s: Seq<FixedPosition>, p: Position) -> bool {
    exists|j: int| 0 <= j < s.len() && #[trigger] s[j].position == p
}

/// Each location read from the first `k` characters of a content line stands at an odd
/// column of it, where the line shows its name, not '.'; each such column gives one.
proof fn lemma_row_entries_facts(line: Seq<char>, y: int, k: int)
    requires
        0 <= y <= i32::MAX,
        k <= 2 * i32::MAX + 1,
    ensures
        forall|j: int|
            0 <= j < row_entries(line, y, k).len() ==> {
                let e = #[trigger] row_entries(line, y, k)[j];
                &&& e.position.y == y
                &&& 0 <= e.position.x
                &&& 2 * e.position.x + 1 < k
                &&& 2 * e.position.x + 1 < line.len()
                &&& content_at(line, e.position.x as int) == e.id
                &&& e.id != '.'
            },
        forall|x: int|
            0 <= x && 2 * x + 1 < k && 2 * x + 1 < line.len() && #[trigger] content_at(line, x) != '.'
                ==> has_entry_at(row_entries(line, y, k), Position { x: x as i32, y: y as i32 }),
    decreases k,
{
    if k > 0 {
        lemma_row_entries_facts(line, y, k - 1);
        let before = row_entries(line, y, k - 1);
        let all = row_entries(line, y, k);
        let i = k - 1;
        if i % 2 == 1 && i < line.len() && line[i] != '.' {
            let e = FixedPosition {
                id: line[i],
                position: Position { x: (i / 2) as i32, y: y as i32 },
            };
            assert(all == before.push(e));
            assert(2 * (i / 2) + 1 == i);
            assert forall|j: int| 0 <= j < all.len() implies {
                let f = #[trigger] all[j];
                &&& f.position.y == y
                &&& 0 <= f.position.x
                &&& 2 * f.position.x + 1 < k
                &&& 2 * f.position.x + 1 < line.len()
                &&& content_at(line, f.position.x as int) == f.id
                &&& f.id != '.'
            } by {
                if j < before.len() {
                    assert(all[j] == before[j]);
                }
            }
            assert forall|x: int|
                0 <= x && 2 * x + 1 < k && 2 * x + 1 < line.len() && #[trigger] content_at(line, x) != '.'
                    implies has_entry_at(all, Position { x: x as i32, y: y as i32 }) by {
                if 2 * x + 1 < k - 1 {
                    let j = choose|j: int|
                        0 <= j < before.len() && #[trigger] before[j].position == Position {
                            x: x as i32,
                            y: y as i32,
                        };
                    assert(all[j] == before[j]);
                } else {
                    assert(x == i / 2);
                    assert(all[before.len() as int] == e);
                }
            }
        } else {
            assert(all == before);
            assert forall|x: int|
                0 <= x && 2 * x + 1 < k && 2 * x + 1 < line.len() && #[trigger] content_at(line, x) != '.'
                    implies has_entry_at(all, Position { x: x as i32, y: y as i32 }) by {
                if 2 * x + 1 == k - 1 {
                    assert(i % 2 == 1);
                }
            }
        }
    }
}

/// Each location read from the first `n` rows of a world's text lies in one of them,
/// in a column of the world, where the text shows its name, not '.'; each cell of those
/// rows whose content line shows a name gives one.
proof fn lemma_entries_facts(lines: Seq<Seq<char>>, w: int, n: int)
    requires
        0 <= w <= i32::MAX,
        0 <= n <= i32::MAX,
        2 * n <= lines.len(),
    ensures
        forall|j: int|
            0 <= j < entries_upto(lines, w, n).len() ==> {
                let e = #[trigger] entries_upto(lines, w, n)[j];
                &&& 0 <= e.position.y < n
                &&& 0 <= e.position.x < w
                &&& text_cell(lines, e.position.x as int, e.position.y as int) == e.id
                &&& e.id != '.'
            },
        forall|x: int, y: int|
            0 <= x < w && 0 <= y < n && 2 * x + 1 < lines[2 * y + 1].len() && #[trigger] text_cell(lines, x, y)
                != '.' ==> has_entry_at(entries_upto(lines, w, n), Position { x: x as i32, y: y as i32 }),
    decreases n,
{
    if n > 0 {
        lemma_entries_facts(lines, w, n - 1);
        let before = entries_upto(lines, w, n - 1);
        let line = lines[2 * (n - 1) + 1];
        let k = read_len(line, w);
        let row = row_entries(line, n - 1, k);
        lemma_row_entries_facts(line, n - 1, k);
        let all = entries_upto(lines, w, n);
        assert(all == before + row);
        assert forall|j: int| 0 <= j < all.len() implies {
            let e = #[trigger] all[j];
            &&& 0 <= e.position.y < n
            &&& 0 <= e.position.x < w
            &&& text_cell(lines, e.position.x as int, e.position.y as int) == e.id
            &&& e.id != '.'
        } by {
            if j < before.len() {
                assert(all[j] == before[j]);
            } else {
                assert(all[j] == row[j - before.len()]);
                assert(2 * (n - 1) + 1 == 2 * (all[j].position.y as int) + 1);
            }
        }
        assert forall|x: int, y: int|
            0 <= x < w && 0 <= y < n && 2 * x + 1 < lines[2 * y + 1].len() && #[trigger] text_cell(lines, x, y)
                != '.' implies has_entry_at(all, Position { x: x as i32, y: y as i32 }) by {
            let p = Position { x: x as i32, y: y as i32 };
            if y < n - 1 {
                let j = choose|j: int| 0 <= j < before.len() && #[trigger] before[j].position == p;
                assert(all[j] == before[j]);
            } else {
                assert(content_at(line, x) == text_cell(lines, x, y));
                assert(2 * x + 1 < k);
                let j = choose|j: int| 0 <= j < row.len() && #[trigger] row[j].position == p;
                assert(all[before.len() + j] == row[j]);
            }
        }
    }
}

/// In a world read from text, the cell at `(x, y)` shows what the text shows there.
proof fn lemma_cell_char_read(lines: Seq<Seq<char>>, x: int, y: int)
    requires
        text_world(lines).valid(),
        0 <= x < text_width(lines),
        0 <= y < text_height(lines),
        2 * x + 1 < lines[2 * y + 1].len(),
    ensures
        cell_char(text_world(lines), x, y) == text_cell(lines, x, y),
{
    let v = text_world(lines);
    let p = Position { x: x as i32, y: y as i32 };
    lemma_entries_facts(lines, v.width, v.height);
    lemma_find_at(v.fixed, p);
    match find_at(v.fixed, p) {
        Some(k) => {
            assert(v.fixed[k] == entries_upto(lines, v.width, v.height)[k]);
        },
        None => {
            if text_cell(lines, x, y) != '.' {
                let j = choose|j: int| 0 <= j < v.fixed.len() && #[trigger] v.fixed[j].position == p;
                assert(v.fixed[j].position == p);
            }
        },
    }
}

/// A text without error has no error in any of its rows.
proof fn lemma_rows_clean(lines: Seq<Seq<char>>, w: int, n: int)
    requires
        rows_error(lines, w, n) is None,
    ensures
        forall|y: int| 0 <= y < n ==> #[trigger] row_error(lines, w, y) is None,
    decreases n,
{
    if n > 0 {
        lemma_rows_clean(lines, w, n - 1);
    }
}

/// Two content lines of the same length that agree at their odd columns before `k`
/// name the same locations there.
proof fn lemma_row_entries_agree(a: Seq<char>, b: Seq<char>, y: int, k: int)
    requires
        a.len() == b.len(),
        forall|i: int| 0 <= i < k && i < a.len() && i % 2 == 1 ==> #[trigger] a[i] == b[i],
    ensures
        row_entries(a, y, k) == row_entries(b, y, k),
    decreases k,
{
    if k > 0 {
        lemma_row_entries_agree(a, b, y, k - 1);
        let i = k - 1;
        if i % 2 == 1 && i < a.len() {
            assert(a[i] == b[i]);
        }
    }
}

/// The drawing's box characters are neither line feeds nor carriage returns.
proof fn lemma_connection_plain(north: bool, south: bool, east: bool, west: bool)
    ensures
        connection_char(north, south, east, west) != '\n',
        connection_char(north, south, east, west) != '\r',
{
}

/// The conditions under which a world read from `lines` is drawn and read back: a
/// text without error, with no line feed in its lines, describing a valid world of at
/// least one row and one column.
pub open spec fn redrawable(lines: Seq<Seq<char>>) -> bool {
    &&& lines.len() > 0
    &&& text_error(lines) is None
    &&& text_world(lines).valid()
    &&& text_width(lines) > 0
    &&& text_height(lines) > 0
    &&& forall|k: int, j: int| 0 <= k < lines.len() && 0 <= j < lines[k].len() ==> #[trigger] lines[k][j] != '\n'
}

/// The lines of a text without error that make up its rows all have the full length.
proof fn lemma_clean_lengths(lines: Seq<Seq<char>>)
    requires
        lines.len() > 0,
        text_error(lines) is None,
    ensures
        lines[0].len() == line_len(text_width(lines)),
        forall|y: int|
            0 <= y < text_height(lines) ==> (#[trigger] lines[2 * y + 1]).len() == line_len(text_width(lines))
                && lines[2 * y + 2].len() == line_len(text_width(lines)),
        forall|y: int| 0 <= y < text_height(lines) ==> #[trigger] row_error(lines, text_width(lines), y) is None,
{
    let w = text_width(lines);
    let h = text_height(lines);
    lemma_rows_clean(lines, w, h);
    assert forall|y: int| 0 <= y < h implies (#[trigger] lines[2 * y + 1]).len() == line_len(w) && lines[2 * y
        + 2].len() == line_len(w) by {
        assert(row_error(lines, w, y) is None);
    }
}

/// The drawing of a world read from `lines` has as many lines as the text's rows
/// need, each of full length; it shows the same content and the same walls in every
/// cell; and its lines hold no line feed and end with no carriage return.
proof fn lemma_drawn_lines(lines: Seq<Seq<char>>)
    requires
        redrawable(lines),
    ensures
        ({
            let v = text_world(lines);
            let drawn = display_lines(v);
            &&& drawn.len() == 2 * v.height + 1
            &&& forall|k: int| 0 <= k < drawn.len() ==> (#[trigger] drawn[k]).len() == line_len(v.width)
            &&& forall|x: int, y: int|
                0 <= x < v.width && 0 <= y < v.height ==> #[trigger] text_cell(drawn, x, y) == text_cell(
                    lines,
                    x,
                    y,
                )
            &&& forall|x: int, y: int|
                0 <= x < v.width && 0 <= y < v.height ==> #[trigger] text_wall(drawn, x, y) == text_wall(
                    lines,
                    x,
                    y,
                )
            &&& forall|k: int| 0 <= k < drawn.len() ==> plain_line(#[trigger] drawn[k])
        }),
{
    let v = text_world(lines);
    let w = v.width;
    let h = v.height;
    let drawn = display_lines(v);
    lemma_clean_lengths(lines);
    assert forall|x: int, y: int| 0 <= x < w && 0 <= y < h implies #[trigger] text_cell(drawn, x, y)
        == text_cell(lines, x, y) by {
        assert(drawn[2 * y + 1][2 * x + 1] == content_char(v, y, 2 * x + 1));
        lemma_cell_char_read(lines, x, y);
    }
    assert forall|x: int, y: int| 0 <= x < w && 0 <= y < h implies #[trigger] text_wall(drawn, x, y)
        == text_wall(lines, x, y) by {
        assert(v.walls[y][x] == text_wall(lines, x, y));
        assert(drawn[2 * y][2 * x + 1] == upper_char(v, y, 2 * x + 1));
        if y + 1 < h {
            assert(drawn[2 * y + 2] == drawn[2 * (y + 1)]);
            assert(drawn[2 * y + 2][2 * x + 1] == upper_char(v, y + 1, 2 * x + 1));
            assert(v.walls[y + 1][x] == text_wall(lines, x, y + 1));
        } else {
            assert(drawn[2 * y + 2][2 * x + 1] == bottom_char(v, 2 * x + 1));
        }
        if x + 1 < w {
            assert(drawn[2 * y + 1][2 * x + 2] == content_char(v, y, 2 * (x + 1)));
            assert(v.walls[y][x + 1] == text_wall(lines, x + 1, y));
        } else {
            assert(drawn[2 * y + 1][2 * x + 2] == content_char(v, y, 2 * w));
        }
        assert(drawn[2 * y + 1][2 * x] == content_char(v, y, 2 * x));
    }
    assert forall|k: int| 0 <= k < drawn.len() implies plain_line(#[trigger] drawn[k]) by {
        let line = drawn[k];
        assert forall|i: int| 0 <= i < line.len() implies #[trigger] line[i] != '\n' by {
            if k == 2 * h {
                let y = h - 1;
                if i == 2 * w {
                    lemma_connection_plain(v.walls[y][w - 1].east, false, false, v.walls[y][w - 1].south);
                } else if i % 2 == 0 {
                    let cur = v.walls[y][i / 2];
                    lemma_connection_plain(cur.west, false, cur.south, has_south(west_of(v, i / 2, y)));
                }
            } else if k % 2 == 0 {
                let y = k / 2;
                if i == 2 * w {
                    let cur = v.walls[y][w - 1];
                    lemma_connection_plain(has_east(above(v, w - 1, y)), cur.east, false, cur.north);
                } else if i % 2 == 0 {
                    let cur = v.walls[y][i / 2];
                    lemma_connection_plain(
                        has_west(above(v, i / 2, y)),
                        cur.west,
                        cur.north,
                        has_north(west_of(v, i / 2, y)),
                    );
                }
            } else {
                let y = k / 2;
                if i != 2 * w && i % 2 == 1 {
                    let x = i / 2;
                    lemma_cell_char_read(lines, x, y);
                    assert(line[i] == text_cell(lines, x, y));
                    assert(lines[2 * y + 1][2 * x + 1] != '\n');
                }
            }
        }
        let i = 2 * w;
        if k == 2 * h {
            lemma_connection_plain(v.walls[h - 1][w - 1].east, false, false, v.walls[h - 1][w - 1].south);
        } else if k % 2 == 0 {
            let cur = v.walls[k / 2][w - 1];
            lemma_connection_plain(has_east(above(v, w - 1, k / 2)), cur.east, false, cur.north);
        }
        assert(line.last() == line[i]);
    }
}

/// The drawing names the same locations as the text, row by row.
proof fn lemma_drawn_entries(lines: Seq<Seq<char>>, n: int)
    requires
        redrawable(lines),
        0 <= n <= text_height(lines),
    ensures
        entries_upto(display_lines(text_world(lines)), text_width(lines), n) == entries_upto(
            lines,
            text_width(lines),
            n,
        ),
    decreases n,
{
    if n > 0 {
        lemma_drawn_entries(lines, n - 1);
        let v = text_world(lines);
        let w = v.width;
        let drawn = display_lines(v);
        lemma_drawn_lines(lines);
        lemma_clean_lengths(lines);
        let y = n - 1;
        let a = drawn[2 * y + 1];
        let b = lines[2 * y + 1];
        assert(a.len() == b.len());
        assert forall|i: int| 0 <= i < read_len(a, w) && i < a.len() && i % 2 == 1 implies #[trigger] a[i]
            == b[i] by {
            let x = i / 2;
            assert(text_cell(drawn, x, y) == text_cell(lines, x, y));
        }
        lemma_row_entries_agree(a, b, y, read_len(a, w));
    }
}

/// The drawing raises the same errors as the text, row by row: none.
proof fn lemma_drawn_rows_error(lines: Seq<Seq<char>>, n: int)
    requires
        redrawable(lines),
        0 <= n <= text_height(lines),
    ensures
        rows_error(display_lines(text_world(lines)), text_width(lines), n) == rows_error(
            lines,
            text_width(lines),
            n,
        ),
    decreases n,
{
    if n > 0 {
        lemma_drawn_rows_error(lines, n - 1);
        let w = text_width(lines);
        let drawn = display_lines(text_world(lines));
        lemma_drawn_lines(lines);
        lemma_clean_lengths(lines);
        lemma_drawn_entries(lines, n - 1);
        lemma_drawn_entries(lines, n);
        let y = n - 1;
        assert(drawn[2 * y + 1].len() == lines[2 * y + 1].len());
        assert(drawn[2 * y + 2].len() == lines[2 * y + 2].len());
        assert(row_error(drawn, w, y) == row_error(lines, w, y));
    }
}

/// A world's drawing reads back as the same world: for a text without error that
/// describes a world of at least one row and one column, the text that `display`
/// writes for that world is read without error into that very world.
pub proof fn lemma_display_reads_back(source: Seq<char>)
    requires
        spec_lines(source).len() > 0,
        text_error(spec_lines(source)) is None,
        text_world(spec_lines(source)).valid(),
        text_width(spec_lines(source)) > 0,
        text_height(spec_lines(source)) > 0,
    ensures
        ({
            let v = text_world(spec_lines(source));
            let shown = spec_lines(join_lines(display_lines(v)));
            &&& shown.len() > 0
            &&& text_error(shown) is None
            &&& text_world(shown) == v
        }),
{
    let lines = spec_lines(source);
    lemma_lines_no_newline(source);
    assert(redrawable(lines));
    let v = text_world(lines);
    let w = v.width;
    let h = v.height;
    let drawn = display_lines(v);
    lemma_drawn_lines(lines);
    lemma_lines_of_joined(drawn);
    assert(spec_lines(join_lines(drawn)) == drawn);
    lemma_clean_lengths(lines);
    assert(drawn[0].len() == line_len(w));
    assert(text_width(drawn) == w);
    assert(text_height(drawn) == h);
    lemma_drawn_rows_error(lines, h);
    lemma_drawn_entries(lines, h);
    let back = text_world(drawn);
    assert forall|y: int| 0 <= y < h implies #[trigger] back.walls[y] == v.walls[y] by {
        assert forall|x: int| 0 <= x < w implies #[trigger] back.walls[y][x] == v.walls[y][x] by {
            assert(text_wall(drawn, x, y) == text_wall(lines, x, y));
        }
        assert(back.walls[y] =~= v.walls[y]);
    }
    assert(back.walls =~= v.walls);
    assert(back == v);
}

/// In a world read from text, every row has the world's width, and neighbouring cells
/// agree on the wall between them: both read the same character of the text.
pub proof fn lemma_parsed_walls_agree(lines: Seq<Seq<char>>)
    requires
        lines.len() > 0,
    ensures
        ({
            let v = text_world(lines);
            &&& v.walls.len() == v.height
            &&& forall|y: int| 0 <= y < v.height ==> (#[trigger] v.walls[y]).len() == v.width
            &&& forall|x: int, y: int|
                0 <= x && x + 1 < v.width && 0 <= y < v.height ==> (#[trigger] v.walls[y][x]).east
                    == v.walls[y][x + 1].west
            &&& forall|x: int, y: int|
                0 <= x < v.width && 0 <= y && y + 1 < v.height ==> (#[trigger] v.walls[y][x]).south
                    == v.walls[y + 1][x].north
        }),
{
    let v = text_world(lines);
    assert forall|x: int, y: int| 0 <= x && x + 1 < v.width && 0 <= y < v.height implies (
    #[trigger] v.walls[y][x]).east == v.walls[y][x + 1].west by {
        assert(v.walls[y][x] == text_wall(lines, x, y));
        assert(v.walls[y][x + 1] == text_wall(lines, x + 1, y));
        assert(2 * (x + 1) == 2 * x + 2);
    }
    assert forall|x: int, y: int| 0 <= x < v.width && 0 <= y && y + 1 < v.height implies (
    #[trigger] v.walls[y][x]).south == v.walls[y + 1][x].north by {
        assert(v.walls[y][x] == text_wall(lines, x, y));
        assert(v.walls[y + 1][x] == text_wall(lines, x, y + 1));
        assert(2 * (y + 1) == 2 * y + 2);
    }
}

} // verus!
