//! The text form of a grid state, for people to read.

use crate::maze::MazeState;
use crate::model::MazeModel;
use vstd::prelude::*;
use vstd::string::StringExecFns;

verus! {

/// The character of a decimal digit.
pub open spec fn digit_char(digit: int) -> char {
    if digit == 0 {
        '0'
    } else if digit == 1 {
        '1'
    } else if digit == 2 {
        '2'
    } else if digit == 3 {
        '3'
    } else if digit == 4 {
        '4'
    } else if digit == 5 {
        '5'
    } else if digit == 6 {
        '6'
    } else if digit == 7 {
        '7'
    } else if digit == 8 {
        '8'
    } else {
        '9'
    }
}

/// The decimal digits of a number that is not negative, without leading zeros.
pub open spec fn decimal(value: int) -> Seq<char>
    decreases value,
{
    if value < 10 {
        seq![digit_char(value)]
    } else {
        decimal(value / 10) + seq![digit_char(value % 10)]
    }
}

/// What is shown for one cell: `@` where the agent stands, the reward where one lies, and
/// `.` on an empty cell.
pub open spec fn cell_text(state: MazeModel, h: int, w: int) -> Seq<char> {
    if state.h == h && state.w == w {
        seq!['@']
    } else if state.points[h][w] > 0 {
        decimal(state.points[h][w])
    } else {
        seq!['.']
    }
}

/// The first `count` cells of row `h`, side by side.
pub open spec fn row_text(state: MazeModel, h: int, count: int) -> Seq<char>
    decreases count,
{
    if count <= 0 {
        Seq::empty()
    } else {
        row_text(state, h, count - 1) + cell_text(state, h, count - 1)
    }
}

/// The first `count` rows, each followed by a line break.
pub open spec fn rows_text(state: MazeModel, count: int) -> Seq<char>
    decreases count,
{
    if count <= 0 {
        Seq::empty()
    } else {
        rows_text(state, count - 1) + row_text(state, count - 1, state.width()) + seq!['\n']
    }
}

/// The text form of a state: a line with the turn, a line with the score, then the grid
/// row by row.
pub open spec fn rendered(state: MazeModel) -> Seq<char> {
    seq!['t', 'u', 'r', 'n', 's', ':', '\t'] + decimal(state.turns) + seq!['\n'] + seq![
        's',
        'c',
        'o',
        'r',
        'e',
        ':',
        '\t',
    ] + decimal(state.game_score) + seq!['\n'] + rows_text(state, state.height())
}

/// The text of one decimal digit.
fn digit_text(digit: u32) -> (text: &'static str)
    requires
        digit < 10,
    ensures
        text@ == seq![digit_char(digit as int)],
{
    proof {
        reveal_strlit("0");
        reveal_strlit("1");
        reveal_strlit("2");
        reveal_strlit("3");
        reveal_strlit("4");
        reveal_strlit("5");
        reveal_strlit("6");
        reveal_strlit("7");
        reveal_strlit("8");
        reveal_strlit("9");
    }
    if digit == 0 {
        "0"
    } else if digit == 1 {
        "1"
    } else if digit == 2 {
        "2"
    } else if digit == 3 {
        "3"
    } else if digit == 4 {
        "4"
    } else if digit == 5 {
        "5"
    } else if digit == 6 {
        "6"
    } else if digit == 7 {
        "7"
    } else if digit == 8 {
        "8"
    } else {
        "9"
    }
}

/// Appends the decimal digits of a number to the text.
fn append_decimal(text: &mut String, value: u32)
    ensures
        final(text)@ == old(text)@ + decimal(value as int),
    decreases value,
{
    if value >= 10 {
        append_decimal(text, value / 10);
    }
    text.append(digit_text(value % 10));
}

impl MazeState {
    /// The text form of the state: the turn and the score on a line each, then one line
    /// for each row of the grid, with `@` for the agent, the reward of each cell that holds
    /// one, and `.` for each empty cell.
    pub fn render(&self) -> (text: String)
        requires
            self@.wf(),
        ensures
            text@ == rendered(self@),
    {
        proof {
            reveal_strlit("turns:\t");
            reveal_strlit("score:\t");
            reveal_strlit("\n");
        }
        let mut text = String::new();
        text.append("turns:\t");
        append_decimal(&mut text, self.turns());
        text.append("\n");
        text.append("score:\t");
        append_decimal(&mut text, self.game_score() as u32);
        text.append("\n");
        let ghost head = text@;
        let height = self.height();
        let width = self.width();
        let character = self.character();
        let mut h: usize = 0;
        while h < height
            invariant
                h <= height,
                height == self@.height(),
                width == self@.width(),
                character.h == self@.h,
                character.w == self@.w,
                self@.wf(),
                text@ == head + rows_text(self@, h as int),
            decreases height - h,
        {
            let ghost above = text@;
            let mut w: usize = 0;
            while w < width
                invariant
                    w <= width,
                    h < height,
                    height == self@.height(),
                    width == self@.width(),
                    character.h == self@.h,
                    character.w == self@.w,
                    self@.wf(),
                    text@ == above + row_text(self@, h as int, w as int),
                decreases width - w,
            {
                proof {
                    reveal_strlit("@");
                    reveal_strlit(".");
                }
                let reward = self.point(h, w);
                if character.w == w as i32 && character.h == h as i32 {
                    text.append("@");
                } else if reward > 0 {
                    append_decimal(&mut text, reward as u32);
                } else {
                    text.append(".");
                }
                w += 1;
            }
            proof {
                reveal_strlit("\n");
            }
            text.append("\n");
            h += 1;
        }
        text
    }
}

} // verus!
