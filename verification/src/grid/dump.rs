//! The grid written out as text, for a look at all three of its parts.

use vstd::prelude::*;
use vstd::string::StringExecFns;
use crate::grid::cell::Cell;
use crate::grid::row::Row;
use crate::grid::{rows_view, Grid, GridView};

verus! {

/// A line of `columns` times the character `c`.
pub open spec fn rule(columns: nat, c: char) -> Seq<char> {
    Seq::new(columns, |i: int| c).push('\n')
}

/// The written characters of the first `upto` cells of a row, with a space
/// for each tab; erased cells give nothing.
pub open spec fn dumped_cells(row: Seq<Cell>, upto: int) -> Seq<char>
    decreases upto,
{
    if upto <= 0 {
        Seq::<char>::empty()
    } else {
        let before = dumped_cells(row, upto - 1);
        match row[upto - 1].c {
            Some(c) => before.push(
                if c == '\t' {
                    ' '
                } else {
                    c
                },
            ),
            None => before,
        }
    }
}

/// A row between two bars, and a line end.
pub open spec fn dumped_row(row: Seq<Cell>) -> Seq<char> {
    seq!['|'] + dumped_cells(row, row.len() as int) + seq!['|', '\n']
}

/// The first `upto` rows, each as [`dumped_row`] says.
pub open spec fn dumped_rows(rows: Seq<Seq<Cell>>, upto: int) -> Seq<char>
    decreases upto,
{
    if upto <= 0 {
        Seq::<char>::empty()
    } else {
        dumped_rows(rows, upto - 1) + dumped_row(rows[upto - 1])
    }
}

/// Rows between a line of underscores and a line of hyphens, both as wide
/// as the grid.
pub open spec fn dumped_part(rows: Seq<Seq<Cell>>, columns: nat) -> Seq<char> {
    rule(columns, '_') + dumped_rows(rows, rows.len() as int) + rule(columns, '-')
}

impl GridView {
    /// The grid as text: the scrollback, the visible rows and the rows below
    /// the screen, each part under its name.
    pub open spec fn dumped(self) -> Seq<char> {
        "\n\n#################################\n\n\n"@ + "Scrollback\n"@ + dumped_part(
            self.scrollback,
            self.columns,
        ) + "-------------------------------------\n"@ + "Rows\n"@ + dumped_part(
            self.rows,
            self.columns,
        ) + "-------------------------------------\n"@ + "Scrolldown\n"@ + dumped_part(
            self.scrolldown,
            self.columns,
        )
    }
}

fn push_rule(columns: usize, c: char, out: &mut String)
    ensures
        final(out)@ == old(out)@ + rule(columns as nat, c),
{
    let mut i: usize = 0;
    while i < columns
        invariant
            i <= columns,
            out@ == old(out)@ + Seq::new(i as nat, |k: int| c),
        decreases columns - i,
    {
        out.push(c);
        assert(out@ =~= old(out)@ + Seq::new((i + 1) as nat, |k: int| c));
        i += 1;
    }
    out.push('\n');
    assert(out@ =~= old(out)@ + rule(columns as nat, c));
}

fn push_row(row: &Row, out: &mut String)
    ensures
        final(out)@ == old(out)@ + dumped_row(row@),
{
    out.push('|');
    let n: usize = row.inner.len();
    let mut i: usize = 0;
    while i < n
        invariant
            i <= n,
            n == row@.len(),
            out@ == old(out)@ + seq!['|'] + dumped_cells(row@, i as int),
        decreases n - i,
    {
        match row.inner[i].c {
            Some(c) => {
                if c == '\t' {
                    out.push(' ');
                } else {
                    out.push(c);
                }
            },
            None => {},
        }
        assert(out@ =~= old(out)@ + seq!['|'] + dumped_cells(row@, i + 1));
        i += 1;
    }
    out.push('|');
    out.push('\n');
    assert(out@ =~= old(out)@ + dumped_row(row@));
}

impl Grid {
    /// Appends the rows of `v` to `out`, between a line of underscores and a
    /// line of hyphens.
    pub fn print_vec(&self, v: &Vec<Row>, out: &mut String)
        ensures
            final(out)@ == old(out)@ + dumped_part(rows_view(v@), self@.columns),
    {
        let ghost rows = rows_view(v@);
        push_rule(self.columns, '_', out);
        let ghost ruled = out@;
        let n: usize = v.len();
        let mut i: usize = 0;
        assert(out@ =~= ruled + dumped_rows(rows, 0));
        while i < n
            invariant
                i <= n,
                n == v@.len(),
                rows == rows_view(v@),
                out@ == ruled + dumped_rows(rows, i as int),
            decreases n - i,
        {
            push_row(&v[i], out);
            assert(out@ =~= ruled + dumped_rows(rows, i + 1));
            i += 1;
        }
        push_rule(self.columns, '-', out);
        assert(out@ =~= old(out)@ + dumped_part(rows, self@.columns));
    }

    /// The grid as text: the scrollback, the visible rows and the rows below
    /// the screen, each part under its name.
    pub fn to_text(&self) -> (text: String)
        ensures
            text@ == self@.dumped(),
    {
        let mut out = String::new();
        out.append("\n\n#################################\n\n\n");
        out.append("Scrollback\n");
        self.print_vec(&self.scrollback, &mut out);
        out.append("-------------------------------------\n");
        out.append("Rows\n");
        self.print_vec(&self.rows, &mut out);
        out.append("-------------------------------------\n");
        out.append("Scrolldown\n");
        self.print_vec(&self.scrolldown, &mut out);
        assert(out@ =~= self@.dumped());
        out
    }
}

} // verus!
