//! The compact view: names packed into a grid of columns of one width.

use vstd::prelude::*;
use vstd::string::*;

use crate::text::{
    byte_len, lemma_padded_len, lemma_text_len_concat, pad, padded, text_len,
};
use crate::widths::greater;

verus! {

/// Whether a name is hidden: it starts with a dot.
pub open spec fn is_hidden(name: Seq<char>) -> bool {
    name.len() > 0 && name[0] == '.'
}

/// Whether a name is listed: hidden names only where all are asked for.
pub open spec fn is_listed(name: Seq<char>, show_all: bool) -> bool {
    show_all || !is_hidden(name)
}

/// The names that are listed, in the order in which they were given.
pub open spec fn visible_names(names: Seq<Seq<char>>, show_all: bool) -> Seq<Seq<char>>
    decreases names.len(),
{
    if names.len() == 0 {
        Seq::empty()
    } else {
        let front = visible_names(names.drop_last(), show_all);
        if is_listed(names.last(), show_all) {
            front.push(names.last())
        } else {
            front
        }
    }
}

/// The length of the longest of the names; zero where there is none.
pub open spec fn longest(names: Seq<Seq<char>>) -> nat
    decreases names.len(),
{
    if names.len() == 0 {
        0
    } else {
        greater(longest(names.drop_last()), text_len(names.last()))
    }
}

/// The width of a column: the longest listed name and a gutter of two.
pub open spec fn column_width(names: Seq<Seq<char>>, show_all: bool) -> nat {
    longest(visible_names(names, show_all)) + 2
}

/// The number of cells in a full row: as many columns as fit the terminal,
/// and one where not even one fits.
pub open spec fn columns_per_row(width: nat, column: nat) -> nat {
    if column == 0 || width / column == 0 {
        1
    } else {
        width / column
    }
}

/// A cell: the gutter of two spaces, then the name, then spaces up to the
/// length of the longest name.
pub open spec fn cell(name: Seq<char>, longest: nat) -> Seq<char> {
    "  "@ + padded(name, longest)
}

/// The cells of the names, each as wide as the column.
pub open spec fn cells_of(names: Seq<Seq<char>>) -> Seq<Seq<char>> {
    Seq::new(names.len(), |i: int| cell(names[i], longest(names)))
}

/// The texts one after another.
pub open spec fn joined(parts: Seq<Seq<char>>) -> Seq<char>
    decreases parts.len(),
{
    if parts.len() == 0 {
        Seq::empty()
    } else {
        joined(parts.drop_last()) + parts.last()
    }
}

/// The number of rows that `cells` cells take with `per_row` in a full row.
pub open spec fn row_count(cells: nat, per_row: nat) -> nat {
    ((cells + per_row - 1) / (per_row as int)) as nat
}

/// The end of row `k`: the start of the next, or the end of the cells.
pub open spec fn row_end(cells: nat, per_row: nat, k: int) -> int {
    if (k + 1) * per_row < cells {
        (k + 1) * per_row
    } else {
        cells as int
    }
}

/// Row `k` of the grid: the cells from `k * per_row` on, up to `per_row` of
/// them, one after another.
pub open spec fn grid_row(cells: Seq<Seq<char>>, per_row: nat, k: int) -> Seq<char> {
    joined(cells.subrange(k * per_row, row_end(cells.len(), per_row, k)))
}

/// The rows of the grid. Every row but the last is full; the last holds what
/// is left, and at least one cell.
pub open spec fn grid(cells: Seq<Seq<char>>, per_row: nat) -> Seq<Seq<char>> {
    Seq::new(row_count(cells.len(), per_row), |k: int| grid_row(cells, per_row, k))
}

/// The lines of the compact view of `names` on a terminal `width` columns
/// wide. Names that are not listed neither show nor count for the width of
/// the columns.
pub open spec fn compact_lines(names: Seq<Seq<char>>, width: nat, show_all: bool) -> Seq<
    Seq<char>,
> {
    let visible = visible_names(names, show_all);
    grid(cells_of(visible), columns_per_row(width, longest(visible) + 2))
}

/// Whether `name` is listed.
pub fn listed(name: &str, show_all: bool) -> (yes: bool)
    ensures
        yes == is_listed(name@, show_all),
{
    show_all || name.is_empty() || name.get_char(0) != '.'
}

/// No name is longer than the longest.
pub proof fn lemma_longest_covers(names: Seq<Seq<char>>)
    ensures
        forall|i: int| 0 <= i < names.len() ==> text_len(#[trigger] names[i]) <= longest(names),
    decreases names.len(),
{
    if names.len() > 0 {
        let front = names.drop_last();
        lemma_longest_covers(front);
        assert forall|i: int| 0 <= i < names.len() implies text_len(#[trigger] names[i])
            <= longest(names) by {
            if i < front.len() {
                assert(names[i] == front[i]);
            }
        }
    }
}

/// The gutter is two bytes long.
pub proof fn lemma_gutter_len()
    ensures
        text_len("  "@) == 2,
{
    reveal_strlit("  ");
    assert(vstd::utf8::is_ascii_chars("  "@));
    vstd::utf8::is_ascii_chars_encode_utf8("  "@);
}

/// A cell of a name that is no longer than the longest is as wide as the
/// column.
pub proof fn lemma_cell_len(name: Seq<char>, longest: nat)
    requires
        text_len(name) <= longest,
    ensures
        text_len(cell(name, longest)) == longest + 2,
{
    lemma_gutter_len();
    lemma_padded_len(name, longest);
    lemma_text_len_concat("  "@, padded(name, longest));
}

/// Texts of one length, joined, are as long as their number times that
/// length.
pub proof fn lemma_joined_len(parts: Seq<Seq<char>>, each: nat)
    requires
        forall|i: int| 0 <= i < parts.len() ==> text_len(#[trigger] parts[i]) == each,
    ensures
        text_len(joined(parts)) == parts.len() * each,
    decreases parts.len(),
{
    if parts.len() == 0 {
        assert(vstd::utf8::encode_utf8(Seq::<char>::empty()).len() == 0);
        assert(0 * each == 0) by (nonlinear_arith);
    } else {
        let front = parts.drop_last();
        assert forall|i: int| 0 <= i < front.len() implies text_len(#[trigger] front[i])
            == each by {
            assert(front[i] == parts[i]);
        }
        lemma_joined_len(front, each);
        lemma_text_len_concat(joined(front), parts.last());
        assert(text_len(parts.last()) == each);
        assert((parts.len() - 1) * each + each == parts.len() * each) by (nonlinear_arith);
    }
}

/// The number of rows, from the number of full rows and the number of cells
/// left over.
pub proof fn lemma_row_count(full: nat, left: nat, per_row: nat)
    requires
        left < per_row,
    ensures
        row_count(full * per_row + left, per_row) == if left > 0 {
            full + 1
        } else {
            full
        },
{
    let x = (full * per_row + left + per_row - 1) as int;
    if left > 0 {
        assert(x == (full + 1) * per_row + (left - 1)) by (nonlinear_arith)
            requires
                x == full * per_row + left + per_row - 1,
        ;
        vstd::arithmetic::div_mod::lemma_fundamental_div_mod_converse(
            x,
            per_row as int,
            (full + 1) as int,
            (left - 1) as int,
        );
    } else {
        vstd::arithmetic::div_mod::lemma_fundamental_div_mod_converse(
            x,
            per_row as int,
            full as int,
            (per_row - 1) as int,
        );
    }
}

/// Packs `names` into the lines of the compact view for a terminal `width`
/// columns wide. Hidden names are left out before anything is measured,
/// unless `show_all` asks for them. The names keep their order and fill the
/// grid row by row; a name longer than the terminal gets a row of its own.
/// A row is emitted only when it holds a cell: no line is ever blank, and
/// nothing is emitted where no name is listed.
pub fn pack(names: &Vec<String>, width: usize, show_all: bool) -> (lines: Vec<String>)
    ensures
        lines.deep_view() == compact_lines(names.deep_view(), width as nat, show_all),
{
    let mut visible: Vec<String> = Vec::new();
    let mut longest_len: usize = 0;
    let mut i: usize = 0;
    while i < names.len()
        invariant
            i <= names.len(),
            visible.deep_view() == visible_names(names.deep_view().take(i as int), show_all),
            longest_len == longest(visible.deep_view()),
        decreases names.len() - i,
    {
        let ghost before = names.deep_view().take(i as int);
        let ghost after = names.deep_view().take(i + 1);
        assert(after.drop_last() == before);
        if listed(names[i].as_str(), show_all) {
            let len = byte_len(names[i].as_str());
            if len > longest_len {
                longest_len = len;
            }
            let ghost shown = visible.deep_view();
            visible.push(names[i].clone());
            assert(visible.deep_view().drop_last() == shown);
        }
        i = i + 1;
    }
    assert(names.deep_view().take(names.len() as int) == names.deep_view());
    let ghost shown = visible.deep_view();
    let ghost cells = cells_of(shown);
    let per_row: usize = if longest_len >= width || width - longest_len < 2 {
        proof {
            vstd::arithmetic::div_mod::lemma_basic_div(width as int, longest_len + 2);
        }
        1
    } else {
        let columns = width / (longest_len + 2);
        if columns == 0 {
            1
        } else {
            columns
        }
    };
    let mut lines: Vec<String> = Vec::new();
    let mut content = String::new();
    let mut in_row: usize = 0;
    let ghost mut start: int = 0;
    let mut j: usize = 0;
    assert(0 == 0 * per_row) by (nonlinear_arith);
    while j < visible.len()
        invariant
            j <= visible.len(),
            per_row >= 1,
            shown == visible.deep_view(),
            cells == cells_of(shown),
            longest_len == longest(shown),
            in_row < per_row,
            start == lines.len() * per_row,
            start + in_row == j,
            content@ == joined(cells.subrange(start, j as int)),
            forall|k: int| 0 <= k < lines.len() ==> #[trigger] lines[k]@ == grid_row(cells, per_row as nat, k),
        decreases visible.len() - j,
    {
        let mut name = visible[j].clone();
        pad(&mut name, longest_len);
        content.append("  ");
        content.append(name.as_str());
        in_row = in_row + 1;
        proof {
            let grown = cells.subrange(start, j + 1);
            assert(grown.drop_last() == cells.subrange(start, j as int));
        }
        if in_row == per_row {
            proof {
                let k = lines.len() as int;
                assert((k + 1) * per_row == start + per_row) by (nonlinear_arith)
                    requires
                        start == k * per_row,
                ;
                start = start + per_row;
            }
            lines.push(content);
            content = String::new();
            in_row = 0;
        }
        j = j + 1;
    }
    proof {
        let full = lines.len() as nat;
        lemma_row_count(full, in_row as nat, per_row as nat);
    }
    if in_row > 0 {
        proof {
            let k = lines.len() as int;
            assert((k + 1) * per_row == start + per_row) by (nonlinear_arith)
                requires
                    start == k * per_row,
            ;
        }
        lines.push(content);
    }
    lines
}

/// Every name of the compact view is one of the names given and is listed:
/// without `show_all`, none starts with a dot.
pub proof fn lemma_visible_names_listed(names: Seq<Seq<char>>, show_all: bool)
    ensures
        forall|i: int|
            0 <= i < visible_names(names, show_all).len() ==> {
                &&& is_listed(#[trigger] visible_names(names, show_all)[i], show_all)
                &&& names.contains(visible_names(names, show_all)[i])
            },
        visible_names(names, show_all).len() <= names.len(),
        show_all ==> visible_names(names, show_all) == names,
    decreases names.len(),
{
    if names.len() > 0 {
        let front = names.drop_last();
        lemma_visible_names_listed(front, show_all);
        let visible = visible_names(names, show_all);
        let before = visible_names(front, show_all);
        assert forall|i: int| 0 <= i < visible.len() implies {
            &&& is_listed(#[trigger] visible[i], show_all)
            &&& names.contains(visible[i])
        } by {
            if i < before.len() {
                assert(visible[i] == before[i]);
                let at = choose|at: int| 0 <= at < front.len() && front[at] == before[i];
                assert(names[at] == before[i]);
            } else {
                assert(visible[i] == names[names.len() - 1]);
            }
        }
        if show_all {
            assert(visible == names);
        }
    }
}

/// Row `k` of a grid starts and ends within the cells, and holds at least one
/// cell and at most `per_row`.
pub proof fn lemma_row_bounds(cells: nat, per_row: nat, k: int)
    requires
        per_row >= 1,
        0 <= k < row_count(cells, per_row),
    ensures
        0 <= k * per_row < row_end(cells, per_row, k) <= cells,
        row_end(cells, per_row, k) - k * per_row <= per_row,
        k + 1 < row_count(cells, per_row) ==> row_end(cells, per_row, k) - k * per_row
            == per_row,
{
    let x = (cells + per_row - 1) as int;
    let d = per_row as int;
    vstd::arithmetic::div_mod::lemma_fundamental_div_mod(x, d);
    vstd::arithmetic::div_mod::lemma_mod_bound(x, d);
    let q = x / d;
    assert(0 <= k * d && k * d + d <= q * d && (k + 1 < q ==> k * d + d + d <= q * d)
        && (k + 1) * d == k * d + d) by (nonlinear_arith)
        requires
            0 <= k < q,
            d >= 1,
    ;
    assert(d * q == q * d) by (nonlinear_arith);
}

/// The column is as wide as the longest listed name and two more, and the
/// length of every line of the compact view is a multiple of that width: the
/// number of its cells times the width. Every line but the last holds as many
/// cells as fit a row.
pub proof fn lemma_line_lengths(names: Seq<Seq<char>>, width: nat, show_all: bool, k: int)
    requires
        0 <= k < compact_lines(names, width, show_all).len(),
    ensures
        ({
            let column = column_width(names, show_all);
            let per_row = columns_per_row(width, column);
            let lines = compact_lines(names, width, show_all);
            let listed = visible_names(names, show_all).len();
            &&& column == longest(visible_names(names, show_all)) + 2
            &&& text_len(lines[k]) == (row_end(listed, per_row, k) - k * per_row) * column
            &&& text_len(lines[k]) % column == 0
            &&& k + 1 < lines.len() ==> text_len(lines[k]) == per_row * column
        }),
{
    let visible = visible_names(names, show_all);
    let column = column_width(names, show_all);
    let per_row = columns_per_row(width, column);
    let cells = cells_of(visible);
    lemma_row_bounds(cells.len(), per_row, k);
    let from = k * per_row;
    let to = row_end(cells.len(), per_row, k);
    let row = cells.subrange(from, to);
    lemma_longest_covers(visible);
    assert forall|i: int| 0 <= i < row.len() implies text_len(#[trigger] row[i]) == column by {
        assert(row[i] == cells[from + i]);
        lemma_cell_len(visible[from + i], longest(visible));
    }
    lemma_joined_len(row, column);
    vstd::arithmetic::div_mod::lemma_mod_multiples_basic((to - from) as int, column as int);
}

/// A row holds at least one cell, whatever the widths. Where the longest
/// listed name does not fit the terminal with its gutter, every listed name
/// gets a line of its own.
pub proof fn lemma_narrow_terminal(names: Seq<Seq<char>>, width: nat, show_all: bool)
    ensures
        columns_per_row(width, column_width(names, show_all)) >= 1,
        width < column_width(names, show_all) ==> {
            &&& columns_per_row(width, column_width(names, show_all)) == 1
            &&& compact_lines(names, width, show_all) == cells_of(
                visible_names(names, show_all),
            )
        },
{
    let column = column_width(names, show_all);
    if width < column {
        vstd::arithmetic::div_mod::lemma_basic_div(width as int, column as int);
        let cells = cells_of(visible_names(names, show_all));
        let lines = compact_lines(names, width, show_all);
        assert(lines.len() == cells.len());
        assert forall|k: int| 0 <= k < lines.len() implies lines[k] == cells[k] by {
            let row = cells.subrange(k, k + 1);
            assert(row.drop_last() =~= Seq::<Seq<char>>::empty());
            assert(joined(row.drop_last()) =~= Seq::<char>::empty());
            assert(joined(row) =~= cells[k]);
        }
        assert(lines =~= cells);
    }
}

} // verus!
