//! Loading program text into a machine and writing the grid back out.
use vstd::prelude::*;
use array2d::Array2D;
use crate::befreak::BefreakState;
use crate::grid::{
    array_column_len, array_filled_with, array_from_rows, array_get, array_row_len, array_set,
    cell_at, cells, rectangular, rows_view,
};
use crate::semantics::initial;

verus! {

/// Why program text could not be loaded.
#[derive(Clone, Copy, Debug, PartialEq, Eq, Structural)]
pub enum LoadError {
    /// No cell holds the start marker `@`.
    MissingStart,
    /// More than one cell holds the start marker `@`.
    MultipleStarts,
}

/// `line` without one trailing carriage return.
pub open spec fn strip_cr(line: Seq<char>) -> Seq<char> {
    if line.len() > 0 && line.last() == '\r' {
        line.drop_last()
    } else {
        line
    }
}

/// `rows` with the finished line `line` added, unless it is empty.
pub open spec fn close_line(rows: Seq<Seq<char>>, line: Seq<char>) -> Seq<Seq<char>> {
    let l = strip_cr(line);
    if l.len() == 0 {
        rows
    } else {
        rows.push(l)
    }
}

/// The non-empty lines finished so far in `text`, and the line in progress.
pub open spec fn scan_lines(text: Seq<char>) -> (Seq<Seq<char>>, Seq<char>)
    decreases text.len(),
{
    if text.len() == 0 {
        (Seq::empty(), Seq::empty())
    } else {
        let (rows, line) = scan_lines(text.drop_last());
        if text.last() == '\n' {
            (close_line(rows, line), Seq::empty())
        } else {
            (rows, line.push(text.last()))
        }
    }
}

/// The non-empty lines of `text`, split at line feeds, each without a
/// trailing carriage return.
pub open spec fn program_lines(text: Seq<char>) -> Seq<Seq<char>> {
    close_line(scan_lines(text).0, scan_lines(text).1)
}

/// The length of the longest row.
pub open spec fn longest(rows: Seq<Seq<char>>) -> nat
    decreases rows.len(),
{
    if rows.len() == 0 {
        0
    } else {
        let m = longest(rows.drop_last());
        if rows.last().len() > m {
            rows.last().len()
        } else {
            m
        }
    }
}

/// `line` filled out with spaces to `width` cells.
pub open spec fn padded(line: Seq<char>, width: nat) -> Seq<char> {
    line + Seq::new((width - line.len()) as nat, |i: int| ' ')
}

/// The grid of a program text: its non-empty lines, each padded with
/// spaces to the longest.
pub open spec fn program_grid(text: Seq<char>) -> Seq<Seq<char>> {
    let lines = program_lines(text);
    lines.map_values(|l: Seq<char>| padded(l, longest(lines)))
}

pub open spec fn is_marker(g: Seq<Seq<char>>, p: (usize, usize)) -> bool {
    cell_at(g, p) == Some('@')
}

/// `p` comes before `q` in row-major order.
pub open spec fn row_major_before(p: (usize, usize), q: (usize, usize)) -> bool {
    p.1 < q.1 || (p.1 == q.1 && p.0 < q.0)
}

/// `p` is the only cell of `g` that holds the start marker.
pub open spec fn unique_marker(g: Seq<Seq<char>>, p: (usize, usize)) -> bool {
    &&& is_marker(g, p)
    &&& forall|q: (usize, usize)| #[trigger] is_marker(g, q) ==> q == p
}

/// The text of a grid: each row followed by a line feed.
pub open spec fn serialized(g: Seq<Seq<char>>) -> Seq<char>
    decreases g.len(),
{
    if g.len() == 0 {
        Seq::empty()
    } else {
        serialized(g.drop_last()) + g.last().push('\n')
    }
}

/// Relies on `str::chars`: the characters of `s` in order.
#[verifier::external_body]
fn chars_of(s: &str) -> (r: Vec<char>)
    ensures
        r@ == s@,
{
    s.chars().collect()
}

/// Relies on `String::from_iter` over characters: the string of `v`.
#[verifier::external_body]
fn string_of(v: &Vec<char>) -> (r: String)
    ensures
        r@ == v@,
{
    v.iter().collect()
}

proof fn lemma_rows_view_push(rows: Seq<Vec<char>>, l: Vec<char>)
    ensures
        rows_view(rows.push(l)) == rows_view(rows).push(l@),
{
    assert(rows_view(rows.push(l)) =~= rows_view(rows).push(l@));
}

/// Adds the finished line `line` to `rows` unless it is empty.
fn close_into(rows: &mut Vec<Vec<char>>, line: Vec<char>)
    ensures
        rows_view(final(rows)@) == close_line(rows_view(old(rows)@), line@),
{
    let mut l = line;
    let n = l.len();
    if n > 0 && l[n - 1] == '\r' {
        l.pop();
    }
    if l.len() > 0 {
        proof {
            lemma_rows_view_push(rows@, l);
        }
        rows.push(l);
    }
}

/// Splits `text` into its non-empty lines.
fn split_lines(text: &Vec<char>) -> (r: Vec<Vec<char>>)
    ensures
        rows_view(r@) == program_lines(text@),
{
    let mut rows: Vec<Vec<char>> = Vec::new();
    let mut line: Vec<char> = Vec::new();
    let mut i: usize = 0;
    proof {
        assert(rows_view(rows@) =~= Seq::<Seq<char>>::empty());
        assert(text@.take(0) =~= Seq::<char>::empty());
    }
    while i < text.len()
        invariant
            i <= text.len(),
            (rows_view(rows@), line@) == scan_lines(text@.take(i as int)),
        decreases text.len() - i,
    {
        let c = text[i];
        proof {
            assert(text@.take(i as int + 1).drop_last() =~= text@.take(i as int));
        }
        if c == '\n' {
            close_into(&mut rows, line);
            line = Vec::new();
        } else {
            line.push(c);
        }
        i = i + 1;
        proof {
            assert(line@ =~= scan_lines(text@.take(i as int)).1);
        }
    }
    proof {
        assert(text@.take(i as int) =~= text@);
    }
    close_into(&mut rows, line);
    rows
}

/// Pads every line with spaces to the length of the longest.
fn pad_lines(lines: &Vec<Vec<char>>) -> (r: Vec<Vec<char>>)
    ensures
        rows_view(r@) == rows_view(lines@).map_values(
            |l: Seq<char>| padded(l, longest(rows_view(lines@))),
        ),
        rectangular(rows_view(r@)),
{
    let ghost g = rows_view(lines@);
    let mut width: usize = 0;
    let mut i: usize = 0;
    while i < lines.len()
        invariant
            i <= lines.len(),
            g == rows_view(lines@),
            width == longest(g.take(i as int)),
        decreases lines.len() - i,
    {
        proof {
            assert(g.take(i as int + 1).drop_last() =~= g.take(i as int));
        }
        if lines[i].len() > width {
            width = lines[i].len();
        }
        i = i + 1;
    }
    proof {
        assert(g.take(i as int) =~= g);
    }
    let mut rows: Vec<Vec<char>> = Vec::new();
    let mut k: usize = 0;
    while k < lines.len()
        invariant
            k <= lines.len(),
            g == rows_view(lines@),
            width == longest(g),
            rows@.len() == k,
            forall|j: int| 0 <= j < k ==> #[trigger] rows@[j]@ == padded(g[j], width as nat),
        decreases lines.len() - k,
    {
        proof {
            lemma_longest_bounds(g, k as int);
        }
        let mut row = lines[k].clone();
        let ghost start = row@;
        while row.len() < width
            invariant
                start == g[k as int],
                start.len() <= width,
                row@.len() <= width,
                row@ == start + Seq::new((row@.len() - start.len()) as nat, |i: int| ' '),
            decreases width - row.len(),
        {
            row.push(' ');
            proof {
                assert(row@ =~= start + Seq::new((row@.len() - start.len()) as nat, |i: int| ' '));
            }
        }
        rows.push(row);
        k = k + 1;
    }
    proof {
        assert(rows_view(rows@) =~= g.map_values(|l: Seq<char>| padded(l, longest(g))));
        assert forall|j: int| 0 <= j < rows_view(rows@).len() implies #[trigger] rows_view(
            rows@,
        )[j].len() == rows_view(rows@)[0].len() by {
            lemma_longest_bounds(g, j);
            lemma_longest_bounds(g, 0);
        }
    }
    rows
}

/// No row is longer than the longest.
proof fn lemma_longest_bounds(rows: Seq<Seq<char>>, i: int)
    requires
        0 <= i < rows.len(),
    ensures
        rows[i].len() <= longest(rows),
    decreases rows.len(),
{
    if i < rows.len() - 1 {
        lemma_longest_bounds(rows.drop_last(), i);
    }
}

impl BefreakState {
    /// The first cell in row-major order that holds the start marker `@`.
    pub fn get_start_pos(code: &Array2D<char>) -> (r: Option<(usize, usize)>)
        requires
            rectangular(cells(*code)),
        ensures
            r is None <==> forall|q: (usize, usize)| !#[trigger] is_marker(cells(*code), q),
            r matches Some(p) ==> is_marker(cells(*code), p) && forall|q: (usize, usize)|
                #[trigger] is_marker(cells(*code), q) ==> !row_major_before(q, p),
    {
        let ghost g = cells(*code);
        let height = array_column_len(code);
        if height == 0 {
            return None;
        }
        let width = array_row_len(code);
        let mut y: usize = 0;
        while y < height
            invariant
                g == cells(*code),
                height == g.len(),
                height > 0,
                width == g[0].len(),
                rectangular(g),
                y <= height,
                forall|q: (usize, usize)| q.1 < y ==> !#[trigger] is_marker(g, q),
            decreases height - y,
        {
            let mut x: usize = 0;
            while x < width
                invariant
                    g == cells(*code),
                    height == g.len(),
                    width == g[0].len(),
                    rectangular(g),
                    y < height,
                    x <= width,
                    forall|q: (usize, usize)|
                        q.1 < y || (q.1 == y && q.0 < x) ==> !#[trigger] is_marker(g, q),
                decreases width - x,
            {
                if array_get(code, y, x) == Some('@') {
                    assert(is_marker(g, (x, y)));
                    return Some((x, y));
                }
                x = x + 1;
            }
            y = y + 1;
        }
        None
    }
}

/// Whether a cell other than `p` holds the start marker.
fn has_other_marker(code: &Array2D<char>, p: (usize, usize)) -> (r: bool)
    requires
        rectangular(cells(*code)),
    ensures
        r <==> exists|q: (usize, usize)| #[trigger] is_marker(cells(*code), q) && q != p,
{
    let ghost g = cells(*code);
    let height = array_column_len(code);
    if height == 0 {
        return false;
    }
    let width = array_row_len(code);
    let mut y: usize = 0;
    while y < height
        invariant
            g == cells(*code),
            height == g.len(),
            height > 0,
            width == g[0].len(),
            rectangular(g),
            y <= height,
            forall|q: (usize, usize)| q.1 < y && #[trigger] is_marker(g, q) ==> q == p,
        decreases height - y,
    {
        let mut x: usize = 0;
        while x < width
            invariant
                g == cells(*code),
                height == g.len(),
                width == g[0].len(),
                rectangular(g),
                y < height,
                x <= width,
                forall|q: (usize, usize)|
                    (q.1 < y || (q.1 == y && q.0 < x)) && #[trigger] is_marker(g, q) ==> q == p,
            decreases width - x,
        {
            if array_get(code, y, x) == Some('@') && (x != p.0 || y != p.1) {
                assert(is_marker(g, (x, y)));
                return true;
            }
            x = x + 1;
        }
        y = y + 1;
    }
    false
}

/// The grid of a new, empty program: ten rows of ten spaces with the start
/// marker at column 1, row 1.
pub open spec fn empty_grid() -> Seq<Seq<char>> {
    Seq::new(10, |i: int| Seq::new(10, |j: int| if i == 1 && j == 1 { '@' } else { ' ' }))
}

impl BefreakState {
    /// Loads program text: its non-empty lines, padded with spaces to the
    /// longest, form the grid, and the one cell holding `@` is where the
    /// program starts.
    pub fn new_from_string(data: &str) -> (r: Result<Self, LoadError>)
        ensures
            match r {
                Ok(s) => {
                    &&& s.wf()
                    &&& unique_marker(program_grid(data@), s.start_pos)
                    &&& s@ == initial(s.start_pos, program_grid(data@))
                },
                Err(LoadError::MissingStart) => forall|q: (usize, usize)|
                    !#[trigger] is_marker(program_grid(data@), q),
                Err(LoadError::MultipleStarts) => exists|p: (usize, usize), q: (usize, usize)|
                    #[trigger] is_marker(program_grid(data@), p) && #[trigger] is_marker(
                        program_grid(data@),
                        q,
                    ) && p != q,
            },
    {
        let text = chars_of(data);
        let lines = split_lines(&text);
        let rows = pad_lines(&lines);
        let ghost g = program_grid(data@);
        assert(rows_view(rows@) == g);
        let code = match array_from_rows(&rows) {
            Ok(a) => a,
            Err(_) => return vstd::pervasive::unreached(),
        };
        match Self::get_start_pos(&code) {
            None => Err(LoadError::MissingStart),
            Some(p) => {
                if has_other_marker(&code, p) {
                    Err(LoadError::MultipleStarts)
                } else {
                    Ok(Self::new(p, code))
                }
            },
        }
    }

    /// A machine on an empty ten-by-ten program.
    pub fn new_empty() -> (r: Self)
        ensures
            r.wf(),
            r@ == initial((1, 1), empty_grid()),
    {
        let mut code = array_filled_with(' ', 10, 10);
        let _ = array_set(&mut code, 1, 1, '@');
        assert(cells(code) =~~= empty_grid());
        Self::new((1, 1), code)
    }

    /// The grid as text, each row followed by a line feed.
    pub fn serialize(&self) -> (r: String)
        requires
            rectangular(cells(self.code)),
        ensures
            r@ == serialized(cells(self.code)),
    {
        let ghost g = cells(self.code);
        let height = array_column_len(&self.code);
        let mut out: Vec<char> = Vec::new();
        if height == 0 {
            return string_of(&out);
        }
        let width = array_row_len(&self.code);
        let mut y: usize = 0;
        while y < height
            invariant
                g == cells(self.code),
                height == g.len(),
                width == g[0].len(),
                rectangular(g),
                y <= height,
                out@ == serialized(g.take(y as int)),
            decreases height - y,
        {
            let mut x: usize = 0;
            while x < width
                invariant
                    g == cells(self.code),
                    height == g.len(),
                    width == g[0].len(),
                    rectangular(g),
                    y < height,
                    x <= width,
                    out@ == serialized(g.take(y as int)) + g[y as int].take(x as int),
                decreases width - x,
            {
                match array_get(&self.code, y, x) {
                    Some(c) => out.push(c),
                    None => {},
                }
                proof {
                    assert(g[y as int].take(x as int + 1) =~= g[y as int].take(x as int).push(
                        g[y as int][x as int],
                    ));
                    assert(out@ =~= serialized(g.take(y as int)) + g[y as int].take(x as int + 1));
                }
                x = x + 1;
            }
            out.push('\n');
            proof {
                assert(g.take(y as int + 1).drop_last() =~= g.take(y as int));
                assert(g[y as int].take(x as int) =~= g[y as int]);
                assert(out@ =~= serialized(g.take(y as int + 1)));
            }
            y = y + 1;
        }
        proof {
            assert(g.take(y as int) =~= g);
        }
        string_of(&out)
    }
}

} // verus!
