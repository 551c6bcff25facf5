//! One cell of a minesweeper board.
//!
//! A tile has two independent parts: what it holds, which is fixed when the
//! board is generated, and whether the player can see it, which only ever
//! goes from invisible to visible.

use vstd::prelude::*;

verus! {

/// What a tile holds: a mine, or nothing together with the number of mines
/// on the neighbouring tiles.
#[derive(Clone, Copy, Debug, PartialEq, Eq, Structural)]
pub enum Content {
    Empty(i32),
    Mine,
}

/// A tile of the board: hidden from the player or revealed, with what it
/// holds either way.
#[derive(Clone, Copy, Debug, PartialEq, Eq, Structural)]
pub enum Tile {
    Invisible(Content),
    Visible(Content),
}

/// The colours of the board.
#[derive(Clone, Copy, Debug, PartialEq, Eq, Structural)]
pub enum Ink {
    White,
    Blue,
    Green,
    Red,
    Cyan,
    Magenta,
    Purple,
    Yellow,
    BrightRed,
}

/// How a tile is drawn: its character, its colour, and whether in bold.
#[derive(Clone, Copy, Debug, PartialEq, Eq, Structural)]
pub struct Face {
    pub glyph: char,
    pub ink: Ink,
    pub bold: bool,
}

/// How a tile's content is drawn: a mine as a bold bright red `*`, the count
/// 0 as a blank, and each count from 1 to 8 as its digit in its own colour.
pub open spec fn content_face(content: Content) -> Face {
    match content {
        Content::Mine => Face { glyph: '*', ink: Ink::BrightRed, bold: true },
        Content::Empty(count) => if count == 0 {
            Face { glyph: ' ', ink: Ink::White, bold: false }
        } else if count == 1 {
            Face { glyph: '1', ink: Ink::Blue, bold: false }
        } else if count == 2 {
            Face { glyph: '2', ink: Ink::Green, bold: false }
        } else if count == 3 {
            Face { glyph: '3', ink: Ink::Red, bold: false }
        } else if count == 4 {
            Face { glyph: '4', ink: Ink::Cyan, bold: false }
        } else if count == 5 {
            Face { glyph: '5', ink: Ink::Magenta, bold: false }
        } else if count == 6 {
            Face { glyph: '6', ink: Ink::Purple, bold: false }
        } else if count == 7 {
            Face { glyph: '7', ink: Ink::Yellow, bold: false }
        } else {
            Face { glyph: '8', ink: Ink::White, bold: false }
        },
    }
}

/// Whether `content` is one that a board holds: a mine, or a count from 0
/// to 8.
pub open spec fn on_board(content: Content) -> bool {
    content matches Content::Empty(count) ==> 0 <= count <= 8
}

impl Tile {
    /// How the tile is drawn: by its content if it is revealed or `cheat`
    /// is set, and as a bold white `#` otherwise.
    pub open spec fn face_spec(self, cheat: bool) -> Face {
        if self is Visible || cheat {
            content_face(self.content())
        } else {
            Face { glyph: '#', ink: Ink::White, bold: true }
        }
    }

    /// How the tile is drawn: by its content if it is revealed or `cheat`
    /// is set, and as a bold white `#` otherwise. The tile is one of a
    /// board.
    pub fn face(&self, cheat: bool) -> (face: Face)
        requires
            on_board(self.content()),
        ensures
            face == self.face_spec(cheat),
    {
        if !self.is_visible() && !cheat {
            return Face { glyph: '#', ink: Ink::White, bold: true };
        }
        match self.get_inner() {
            Content::Mine => Face { glyph: '*', ink: Ink::BrightRed, bold: true },
            Content::Empty(count) => if count == 0 {
                Face { glyph: ' ', ink: Ink::White, bold: false }
            } else if count == 1 {
                Face { glyph: '1', ink: Ink::Blue, bold: false }
            } else if count == 2 {
                Face { glyph: '2', ink: Ink::Green, bold: false }
            } else if count == 3 {
                Face { glyph: '3', ink: Ink::Red, bold: false }
            } else if count == 4 {
                Face { glyph: '4', ink: Ink::Cyan, bold: false }
            } else if count == 5 {
                Face { glyph: '5', ink: Ink::Magenta, bold: false }
            } else if count == 6 {
                Face { glyph: '6', ink: Ink::Purple, bold: false }
            } else if count == 7 {
                Face { glyph: '7', ink: Ink::Yellow, bold: false }
            } else {
                Face { glyph: '8', ink: Ink::White, bold: false }
            },
        }
    }

    /// What the tile holds.
    pub open spec fn content(self) -> Content {
        match self {
            Tile::Invisible(content) => content,
            Tile::Visible(content) => content,
        }
    }

    /// The tile with the same content, revealed.
    pub open spec fn shown(self) -> Tile {
        Tile::Visible(self.content())
    }

    /// The tile that is as visible as this one and holds `content`.
    pub open spec fn replaced(self, content: Content) -> Tile {
        match self {
            Tile::Invisible(_) => Tile::Invisible(content),
            Tile::Visible(_) => Tile::Visible(content),
        }
    }

    /// The tile that generation starts from.
    pub open spec fn starter_tile_spec() -> Tile {
        Tile::Invisible(Content::Empty(0))
    }

    /// A tile as generation starts from it: hidden, empty, no mined neighbour.
    pub fn starter_tile() -> (tile: Tile)
        ensures
            tile == Tile::starter_tile_spec(),
    {
        Tile::Invisible(Content::Empty(0))
    }

    /// Whether the tile holds a mine.
    pub fn is_mine(&self) -> (mine: bool)
        ensures
            mine == (self.content() is Mine),
    {
        match self.get_inner() {
            Content::Mine => true,
            Content::Empty(_) => false,
        }
    }

    /// Whether the player can see the tile.
    pub fn is_visible(&self) -> (visible: bool)
        ensures
            visible == (self is Visible),
    {
        match self {
            Tile::Visible(_) => true,
            Tile::Invisible(_) => false,
        }
    }

    /// Whether the tile holds no mine.
    pub fn is_empty(&self) -> (empty: bool)
        ensures
            empty == (self.content() is Empty),
    {
        match self.get_inner() {
            Content::Empty(_) => true,
            Content::Mine => false,
        }
    }

    /// The number of mined neighbours that an empty tile stores; `None` for a mine.
    pub fn get_empty(&self) -> (surrounding: Option<i32>)
        ensures
            surrounding == (match self.content() {
                Content::Empty(n) => Some(n),
                Content::Mine => None::<i32>,
            }),
    {
        match self.get_inner() {
            Content::Empty(n) => Some(n),
            Content::Mine => None,
        }
    }

    /// What the tile holds, without its visibility.
    pub fn get_inner(&self) -> (content: Content)
        ensures
            content == self.content(),
    {
        match self {
            Tile::Invisible(content) => *content,
            Tile::Visible(content) => *content,
        }
    }

    /// The same tile, revealed.
    pub fn revealed(self) -> (tile: Tile)
        ensures
            tile == self.shown(),
    {
        Tile::Visible(self.get_inner())
    }

    /// The tile that is as visible as this one and holds `content`.
    pub fn with_content(self, content: Content) -> (tile: Tile)
        ensures
            tile == self.replaced(content),
    {
        match self {
            Tile::Invisible(_) => Tile::Invisible(content),
            Tile::Visible(_) => Tile::Visible(content),
        }
    }
}

} // verus!
