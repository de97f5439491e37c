//! Text renderings of matrices and of errors.

use std::fmt::Display;
use vstd::prelude::*;
use vstd::string::to_string_from_display_ensures;
use crate::matrix::{Matrix, MatrixError};
use crate::model::{n_rows, n_cols};

verus! {

/// Relies on `String::push`: appends one character.
#[verifier::external_body]
fn push_char(s: &mut String, c: char)
    ensures
        final(s)@ == old(s)@.push(c),
{
    s.push(c)
}

/// Relies on `String::push_str`: appends the characters of `t`.
#[verifier::external_body]
fn push_text(s: &mut String, t: &str)
    ensures
        final(s)@ == old(s)@ + t@,
{
    s.push_str(t)
}

/// The character of a decimal digit.
pub open spec fn digit_char(d: nat) -> char {
    seq!['0', '1', '2', '3', '4', '5', '6', '7', '8', '9'][d as int]
}

/// The decimal digits of `n`, most significant first, without leading zeros.
pub open spec fn decimal(n: nat) -> Seq<char>
    decreases n,
{
    if n < 10 {
        seq![digit_char(n)]
    } else {
        decimal(n / 10).push(digit_char(n % 10))
    }
}

/// Appends the decimal digits of `n`.
fn push_decimal(s: &mut String, n: usize)
    ensures
        final(s)@ == old(s)@ + decimal(n as nat),
    decreases n,
{
    if n >= 10 {
        push_decimal(s, n / 10);
    }
    let digits: [char; 10] = ['0', '1', '2', '3', '4', '5', '6', '7', '8', '9'];
    let c = digits[n % 10];
    assert(digits@ == seq!['0', '1', '2', '3', '4', '5', '6', '7', '8', '9']);
    push_char(s, c);
    assert(s@ =~= old(s)@ + decimal(n as nat));
}

/// The message that describes an error.
pub open spec fn message_text(e: MatrixError) -> Seq<char> {
    match e {
        MatrixError::DimMismatch(a, b) => "Error: Matrix dimension ("@ + decimal(a.0 as nat) + ","@
            + decimal(a.1 as nat) + ") is mismatched with ("@ + decimal(b.0 as nat) + ","@
            + decimal(b.1 as nat) + ")"@,
        MatrixError::Empty => "Error: Matrix needs at least one row and one column"@,
        MatrixError::Ragged(j) => "Error: Matrix row "@ + decimal(j as nat)
            + " is not as long as the first row"@,
    }
}

impl MatrixError {
    /// A human-readable description of the error.
    pub fn message(&self) -> (r: String)
        ensures
            r@ == message_text(*self),
    {
        let mut s = String::new();
        match self {
            MatrixError::DimMismatch(a, b) => {
                push_text(&mut s, "Error: Matrix dimension (");
                push_decimal(&mut s, a.0);
                push_text(&mut s, ",");
                push_decimal(&mut s, a.1);
                push_text(&mut s, ") is mismatched with (");
                push_decimal(&mut s, b.0);
                push_text(&mut s, ",");
                push_decimal(&mut s, b.1);
                push_text(&mut s, ")");
            },
            MatrixError::Empty => {
                push_text(&mut s, "Error: Matrix needs at least one row and one column");
            },
            MatrixError::Ragged(j) => {
                push_text(&mut s, "Error: Matrix row ");
                push_decimal(&mut s, *j);
                push_text(&mut s, " is not as long as the first row");
            },
        }
        assert(s@ =~= message_text(*self));
        s
    }
}

/// Texts joined with `", "` between neighbours.
pub open spec fn joined(cells: Seq<Seq<char>>) -> Seq<char>
    decreases cells.len(),
{
    if cells.len() == 0 {
        Seq::empty()
    } else if cells.len() == 1 {
        cells[0]
    } else {
        joined(cells.drop_last()) + seq![',', ' '] + cells.last()
    }
}

/// Rows of cell texts, each as `[` + its cells joined + `]`, with a line
/// break and a space between neighbouring rows.
pub open spec fn rows_text(rows: Seq<Seq<Seq<char>>>) -> Seq<char>
    decreases rows.len(),
{
    if rows.len() == 0 {
        Seq::empty()
    } else if rows.len() == 1 {
        seq!['['] + joined(rows[0]) + seq![']']
    } else {
        rows_text(rows.drop_last()) + seq!['\n', ' ', '['] + joined(rows.last()) + seq![']']
    }
}

/// The rendering of a grid of cell texts: its rows inside one more pair of brackets.
pub open spec fn grid_text(rows: Seq<Seq<Seq<char>>>) -> Seq<char> {
    seq!['['] + rows_text(rows) + seq![']']
}

/// `t` is a text that `Display` gives for `x`.
pub open spec fn shown_as<T: Display>(x: T, t: Seq<char>) -> bool {
    exists|s: String| #[trigger] to_string_from_display_ensures::<T>(&x, s) && s@ == t
}

/// `texts` has the shape of `g` and holds the `Display` text of each of its cells.
pub open spec fn cell_texts<T: Display>(g: Seq<Seq<T>>, texts: Seq<Seq<Seq<char>>>) -> bool {
    &&& texts.len() == g.len()
    &&& forall|j: int| 0 <= j < g.len() ==> #[trigger] texts[j].len() == g[j].len()
    &&& forall|j: int, i: int| 0 <= j < g.len() && 0 <= i < g[j].len() ==> shown_as(g[j][i], #[trigger] texts[j][i])
}

impl<T: Display> Matrix<T> {
    /// Renders the matrix as `[[a, b]` + line break + ` [c, d]]`: each row in
    /// brackets with its cells separated by `", "`, rows separated by a line
    /// break and a space, the whole in brackets, with no final line break.
    pub fn to_display_string(&self) -> (r: String)
        requires
            self.wf(),
        ensures
            exists|texts: Seq<Seq<Seq<char>>>| #[trigger] cell_texts(self@, texts) && r@ == grid_text(texts),
    {
        let nr = self.n_rows();
        let nc = self.n_cols();
        let mut s = String::new();
        push_char(&mut s, '[');
        let ghost mut texts: Seq<Seq<Seq<char>>> = Seq::empty();
        let mut j: usize = 0;
        while j < nr
            invariant
                self.wf(),
                nr == n_rows(self@),
                nc == n_cols(self@),
                j <= nr,
                texts.len() == j,
                forall|k: int| 0 <= k < j ==> #[trigger] texts[k].len() == nc,
                forall|k: int, i: int| 0 <= k < j && 0 <= i < nc ==> shown_as(self@[k][i], #[trigger] texts[k][i]),
                s@ == seq!['['] + rows_text(texts),
            decreases nr - j,
        {
            let ghost start = s@;
            if j != 0 {
                push_char(&mut s, '\n');
                push_char(&mut s, ' ');
            }
            push_char(&mut s, '[');
            let ghost opened = s@;
            let ghost mut row: Seq<Seq<char>> = Seq::empty();
            let mut i: usize = 0;
            while i < nc
                invariant
                    self.wf(),
                    nr == n_rows(self@),
                    nc == n_cols(self@),
                    j < nr,
                    i <= nc,
                    row.len() == i,
                    forall|c: int| 0 <= c < i ==> shown_as(self@[j as int][c], #[trigger] row[c]),
                    s@ == opened + joined(row),
                decreases nc - i,
            {
                if i != 0 {
                    push_char(&mut s, ',');
                    push_char(&mut s, ' ');
                }
                let t = self.cell(j, i).to_string();
                push_text(&mut s, t.as_str());
                proof {
                    let old_row = row;
                    row = row.push(t@);
                    assert(row.drop_last() =~= old_row);
                    assert(s@ =~= opened + joined(row));
                }
                i = i + 1;
            }
            push_char(&mut s, ']');
            proof {
                let old_texts = texts;
                texts = texts.push(row);
                assert(texts.drop_last() =~= old_texts);
                assert(s@ =~= seq!['['] + rows_text(texts));
            }
            j = j + 1;
        }
        push_char(&mut s, ']');
        assert(cell_texts(self@, texts));
        assert(s@ =~= grid_text(texts));
        s
    }
}

} // verus!
