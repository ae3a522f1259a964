//! Plain-text rendering: every cell is printed right-aligned in a field of
//! three columns, cells are joined by '|', and rows by "\r\n".
use crate::board::{sec_nonneg, spec_row, Board, Rank};
use vstd::prelude::*;
use vstd::string::StringExecFns;

verus! {

broadcast use crate::board::lemma_board_view_len;

pub open spec fn spec_digit(d: int) -> char {
    if d == 0 {
        '0'
    } else if d == 1 {
        '1'
    } else if d == 2 {
        '2'
    } else if d == 3 {
        '3'
    } else if d == 4 {
        '4'
    } else if d == 5 {
        '5'
    } else if d == 6 {
        '6'
    } else if d == 7 {
        '7'
    } else if d == 8 {
        '8'
    } else {
        '9'
    }
}

/// The decimal digits of a non-negative number, most significant first.
pub open spec fn spec_dec(n: int) -> Seq<char>
    decreases n,
{
    if n < 10 {
        seq![spec_digit(n)]
    } else {
        spec_dec(n / 10).push(spec_digit(n % 10))
    }
}

/// A number padded with spaces on the left to at least three columns.
pub open spec fn spec_cell_plain(c: int) -> Seq<char> {
    if spec_dec(c).len() >= 3 {
        spec_dec(c)
    } else if spec_dec(c).len() == 2 {
        seq![' '] + spec_dec(c)
    } else {
        seq![' ', ' '] + spec_dec(c)
    }
}

/// Like `spec_cell_plain`, but an empty cell prints as blank space.
pub open spec fn spec_cell_blank(c: int) -> Seq<char> {
    if c == 0 {
        seq![' ', ' ', ' ']
    } else {
        spec_cell_plain(c)
    }
}

pub open spec fn spec_cell(c: int, blank: bool) -> Seq<char> {
    if blank {
        spec_cell_blank(c)
    } else {
        spec_cell_plain(c)
    }
}

/// One row of four cells joined by '|'.
pub open spec fn spec_row_chars(row: Seq<i32>, blank: bool) -> Seq<char> {
    spec_cell(row[0] as int, blank) + seq!['|'] + spec_cell(row[1] as int, blank) + seq!['|']
        + spec_cell(row[2] as int, blank) + seq!['|'] + spec_cell(row[3] as int, blank)
}

/// The whole grid, rows joined by "\r\n".
pub open spec fn spec_board_render(b: Seq<i32>, blank: bool) -> Seq<char> {
    spec_row_chars(spec_row(b, 0), blank) + seq!['\r', '\n'] + spec_row_chars(spec_row(b, 1), blank)
        + seq!['\r', '\n'] + spec_row_chars(spec_row(b, 2), blank) + seq!['\r', '\n']
        + spec_row_chars(spec_row(b, 3), blank)
}

fn push_digit(s: &mut String, d: i32)
    requires
        0 <= d <= 9,
    ensures
        final(s)@ == old(s)@ + seq![spec_digit(d as int)],
{
    if d == 0 {
        s.append("0");
        proof {
            reveal_strlit("0");
            assert(s@ =~= old(s)@ + seq![spec_digit(d as int)]);
        }
    } else if d == 1 {
        s.append("1");
        proof {
            reveal_strlit("1");
            assert(s@ =~= old(s)@ + seq![spec_digit(d as int)]);
        }
    } else if d == 2 {
        s.append("2");
        proof {
            reveal_strlit("2");
            assert(s@ =~= old(s)@ + seq![spec_digit(d as int)]);
        }
    } else if d == 3 {
        s.append("3");
        proof {
            reveal_strlit("3");
            assert(s@ =~= old(s)@ + seq![spec_digit(d as int)]);
        }
    } else if d == 4 {
        s.append("4");
        proof {
            reveal_strlit("4");
            assert(s@ =~= old(s)@ + seq![spec_digit(d as int)]);
        }
    } else if d == 5 {
        s.append("5");
        proof {
            reveal_strlit("5");
            assert(s@ =~= old(s)@ + seq![spec_digit(d as int)]);
        }
    } else if d == 6 {
        s.append("6");
        proof {
            reveal_strlit("6");
            assert(s@ =~= old(s)@ + seq![spec_digit(d as int)]);
        }
    } else if d == 7 {
        s.append("7");
        proof {
            reveal_strlit("7");
            assert(s@ =~= old(s)@ + seq![spec_digit(d as int)]);
        }
    } else if d == 8 {
        s.append("8");
        proof {
            reveal_strlit("8");
            assert(s@ =~= old(s)@ + seq![spec_digit(d as int)]);
        }
    } else {
        s.append("9");
        proof {
            reveal_strlit("9");
            assert(s@ =~= old(s)@ + seq![spec_digit(d as int)]);
        }
    }
}

fn push_dec(s: &mut String, n: i32)
    requires
        n >= 0,
    ensures
        final(s)@ == old(s)@ + spec_dec(n as int),
    decreases n,
{
    if n < 10 {
        push_digit(s, n);
    } else {
        push_dec(s, n / 10);
        push_digit(s, n % 10);
        proof {
            assert(s@ =~= old(s)@ + spec_dec(n as int));
        }
    }
}

proof fn lemma_dec_len(n: int)
    requires
        n >= 0,
    ensures
        n < 10 ==> spec_dec(n).len() == 1,
        10 <= n < 100 ==> spec_dec(n).len() == 2,
        n >= 100 ==> spec_dec(n).len() >= 3,
    decreases n,
{
    if n >= 10 {
        lemma_dec_len(n / 10);
    }
}

fn push_cell_plain(s: &mut String, c: i32)
    requires
        c >= 0,
    ensures
        final(s)@ == old(s)@ + spec_cell_plain(c as int),
{
    proof {
        lemma_dec_len(c as int);
    }
    if c < 10 {
        s.append("  ");
        proof {
            reveal_strlit("  ");
        }
    } else if c < 100 {
        s.append(" ");
        proof {
            reveal_strlit(" ");
        }
    }
    push_dec(s, c);
    proof {
        assert(s@ =~= old(s)@ + spec_cell_plain(c as int));
    }
}

pub(crate) fn push_cell(s: &mut String, c: i32, blank: bool)
    requires
        c >= 0,
    ensures
        final(s)@ == old(s)@ + spec_cell(c as int, blank),
{
    if blank && c == 0 {
        s.append("   ");
        proof {
            reveal_strlit("   ");
            assert(s@ =~= old(s)@ + spec_cell(c as int, blank));
        }
    } else {
        push_cell_plain(s, c);
    }
}

#[verifier::rlimit(30)]
pub(crate) fn push_row_chars(s: &mut String, row: &[Rank; 4], blank: bool)
    requires
        sec_nonneg(row@),
    ensures
        final(s)@ == old(s)@ + spec_row_chars(row@, blank),
{
    push_cell(s, row[0], blank);
    let ghost s1 = s@;
    s.append("|");
    proof {
        reveal_strlit("|");
        assert(s@ =~= s1 + seq!['|']);
    }
    push_cell(s, row[1], blank);
    let ghost s2 = s@;
    s.append("|");
    proof {
        assert(s@ =~= s2 + seq!['|']);
    }
    push_cell(s, row[2], blank);
    let ghost s3 = s@;
    s.append("|");
    proof {
        assert(s@ =~= s3 + seq!['|']);
    }
    push_cell(s, row[3], blank);
    proof {
        assert(s@ =~= old(s)@ + spec_row_chars(row@, blank));
    }
}

pub(crate) fn push_crlf(s: &mut String)
    ensures
        final(s)@ == old(s)@ + seq!['\r', '\n'],
{
    s.append("\r\n");
    proof {
        reveal_strlit("\r\n");
        assert(s@ =~= old(s)@ + seq!['\r', '\n']);
    }
}

impl Board {
    /// The grid as text, one line per row, empty cells printed as "  0".
    pub fn simple_render(&self) -> (s: String)
        requires
            sec_nonneg(self@),
        ensures
            s@ == spec_board_render(self@, false),
    {
        let mut s = String::new();
        let r0 = self.get_row(0);
        let r1 = self.get_row(1);
        let r2 = self.get_row(2);
        let r3 = self.get_row(3);
        proof {
            assert forall|j: int| 0 <= j < 4 implies #[trigger] r0@[j] >= 0 && r1@[j] >= 0
                && r2@[j] >= 0 && r3@[j] >= 0 by {
                assert(self@[j] >= 0);
                assert(self@[4 + j] >= 0);
                assert(self@[8 + j] >= 0);
                assert(self@[12 + j] >= 0);
            }
        }
        push_row_chars(&mut s, &r0, false);
        push_crlf(&mut s);
        push_row_chars(&mut s, &r1, false);
        push_crlf(&mut s);
        push_row_chars(&mut s, &r2, false);
        push_crlf(&mut s);
        push_row_chars(&mut s, &r3, false);
        proof {
            assert(s@ =~= spec_board_render(self@, false));
        }
        s
    }
}

} // verus!
