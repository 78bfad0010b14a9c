//! The boards the browser shows, what each holds, and how far its loading got.

use vstd::prelude::*;

use crate::aa::Model;
use crate::metric::Metric;

verus! {

/// A leaderboard tab.
#[derive(Debug, Clone, Copy, PartialEq, Eq, Structural, Hash)]
pub enum Board {
    Aa,
    AaAgents,
    DeepSwe,
}

/// How many boards there are.
pub const BOARD_COUNT: usize = 3;

/// The board at position `i` of the tab bar.
pub open spec fn board_at(i: int) -> Board {
    if i == 0 {
        Board::Aa
    } else if i == 1 {
        Board::AaAgents
    } else {
        Board::DeepSwe
    }
}

/// The position of `b` in the tab bar.
pub open spec fn board_index(b: Board) -> int {
    match b {
        Board::Aa => 0,
        Board::AaAgents => 1,
        Board::DeepSwe => 2,
    }
}

/// The keys that jump to a tab, by tab position.
pub open spec fn shortcut_keys() -> Seq<char> {
    seq!['1', '2', '3', '4', '5', '6', '7', '8', '9', '0', '-', '=']
}

impl Board {
    /// Every board, in tab order.
    pub fn all() -> (v: Vec<Board>)
        ensures
            v@.len() == BOARD_COUNT,
            forall|i: int| 0 <= i < BOARD_COUNT ==> #[trigger] v@[i] == board_at(i),
    {
        vec![Board::Aa, Board::AaAgents, Board::DeepSwe]
    }

    /// The board at tab position `i`.
    pub fn at(i: usize) -> (b: Board)
        requires
            i < BOARD_COUNT,
        ensures
            b == board_at(i as int),
            board_index(b) == i,
    {
        if i == 0 {
            Board::Aa
        } else if i == 1 {
            Board::AaAgents
        } else {
            Board::DeepSwe
        }
    }

    /// The tab position of this board.
    pub fn index(self) -> (i: usize)
        ensures
            i == board_index(self),
            i < BOARD_COUNT,
            board_at(i as int) == self,
    {
        match self {
            Board::Aa => 0,
            Board::AaAgents => 1,
            Board::DeepSwe => 2,
        }
    }

    /// The key that jumps to tab position `i`, if any.
    pub fn shortcut(i: usize) -> (r: Option<char>)
        ensures
            i < shortcut_keys().len() ==> r == Some(shortcut_keys()[i as int]),
            i >= shortcut_keys().len() ==> r is None,
    {
        let keys = ['1', '2', '3', '4', '5', '6', '7', '8', '9', '0', '-', '='];
        if i < 12 {
            Some(keys[i])
        } else {
            None
        }
    }

    /// The board's full name, as the header's title gives it.
    pub fn label(self) -> (s: &'static str)
        ensures
            s@ == match self {
                Board::Aa => "AA"@,
                Board::AaAgents => "AA Agents"@,
                Board::DeepSwe => "DeepSWE"@,
            },
    {
        match self {
            Board::Aa => "AA",
            Board::AaAgents => "AA Agents",
            Board::DeepSwe => "DeepSWE",
        }
    }

    /// The tab position a shortcut key jumps to, when a board sits there.
    pub fn from_shortcut(c: char) -> (r: Option<usize>)
        ensures
            match r {
                Some(i) => i < BOARD_COUNT && shortcut_keys()[i as int] == c,
                None => forall|i: int| 0 <= i < BOARD_COUNT ==> shortcut_keys()[i] != c,
            },
    {
        if c == '1' {
            Some(0)
        } else if c == '2' {
            Some(1)
        } else if c == '3' {
            Some(2)
        } else {
            None
        }
    }
}

/// A row of a board whose source is read outside the library: what the
/// board logic reads of it.
#[derive(Debug, Clone)]
pub struct BoardRow {
    /// The name copied to the clipboard for the row.
    pub label: String,
    /// Who makes what the row ranks.
    pub provider: Option<String>,
    /// When what the row ranks was released.
    pub release_date: Option<String>,
    /// The texts a filter is matched against.
    pub search: Vec<String>,
    /// The row's metrics, by the position of the board's sort key.
    pub metrics: Vec<Option<Metric>>,
}

/// The rows a board has loaded.
#[derive(Debug)]
pub enum Data {
    Aa(Vec<Model>),
    AaAgents(Vec<BoardRow>),
    DeepSwe(Vec<BoardRow>),
}

/// How far a board's loading has got.
#[derive(Debug)]
pub enum Status {
    Loading,
    Loaded(Data),
    Error(String),
}

/// How many rows `d` holds.
pub open spec fn data_len(d: Data) -> nat {
    match d {
        Data::Aa(v) => v@.len(),
        Data::AaAgents(v) => v@.len(),
        Data::DeepSwe(v) => v@.len(),
    }
}

} // verus!
