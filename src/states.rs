//! The plain value types of the game: colors, field kinds, directions, moves.
use vstd::prelude::*;

verus! {

/// One of the two players. Red moves on even turns.
#[derive(Clone, Copy, PartialEq, Eq, Hash, Debug, Structural)]
pub enum PlayerColor {
    Red,
    Blue,
}

/// What occupies a cell.
#[derive(Clone, Copy, PartialEq, Eq, Hash, Debug, Structural)]
pub enum FieldType {
    RedPlayer,
    BluePlayer,
    Obstacle,
    Free,
}

/// The eight compass directions a piece may slide in.
#[derive(Clone, Copy, PartialEq, Eq, Hash, Debug, Structural)]
pub enum Direction {
    Up,
    UpRight,
    Right,
    DownRight,
    Down,
    DownLeft,
    Left,
    UpLeft,
}

/// The opponent of a color.
pub open spec fn opponent(c: PlayerColor) -> PlayerColor {
    match c {
        PlayerColor::Red => PlayerColor::Blue,
        PlayerColor::Blue => PlayerColor::Red,
    }
}

/// The field kind a color's pieces occupy.
pub open spec fn field_of(c: PlayerColor) -> FieldType {
    match c {
        PlayerColor::Red => FieldType::RedPlayer,
        PlayerColor::Blue => FieldType::BluePlayer,
    }
}

/// The unit step `(dx, dy)` of a direction.
pub open spec fn step_of(d: Direction) -> (int, int) {
    match d {
        Direction::Up => (0, 1),
        Direction::UpRight => (1, 1),
        Direction::Right => (1, 0),
        Direction::DownRight => (1, -1),
        Direction::Down => (0, -1),
        Direction::DownLeft => (-1, -1),
        Direction::Left => (-1, 0),
        Direction::UpLeft => (-1, 1),
    }
}

/// The position of a direction in the order Up, UpRight, Right, ... UpLeft.
pub open spec fn index_of(d: Direction) -> int {
    match d {
        Direction::Up => 0,
        Direction::UpRight => 1,
        Direction::Right => 2,
        Direction::DownRight => 3,
        Direction::Down => 4,
        Direction::DownLeft => 5,
        Direction::Left => 6,
        Direction::UpLeft => 7,
    }
}

/// The direction whose unit step is `(dx, dy)`, if any.
pub open spec fn direction_of_step(dx: int, dy: int) -> Option<Direction> {
    if dx == 0 && dy == 1 {
        Some(Direction::Up)
    } else if dx == 1 && dy == 1 {
        Some(Direction::UpRight)
    } else if dx == 1 && dy == 0 {
        Some(Direction::Right)
    } else if dx == 1 && dy == -1 {
        Some(Direction::DownRight)
    } else if dx == 0 && dy == -1 {
        Some(Direction::Down)
    } else if dx == -1 && dy == -1 {
        Some(Direction::DownLeft)
    } else if dx == -1 && dy == 0 {
        Some(Direction::Left)
    } else if dx == -1 && dy == 1 {
        Some(Direction::UpLeft)
    } else {
        None
    }
}

impl PlayerColor {
    pub fn to_fieldtype(&self) -> (r: FieldType)
        ensures
            r == field_of(*self),
    {
        match self {
            PlayerColor::Red => FieldType::RedPlayer,
            PlayerColor::Blue => FieldType::BluePlayer,
        }
    }

    pub fn get_opponent_color(&self) -> (r: PlayerColor)
        ensures
            r == opponent(*self),
    {
        match self {
            PlayerColor::Red => PlayerColor::Blue,
            PlayerColor::Blue => PlayerColor::Red,
        }
    }

    /// The name used on the wire: "RED" or "BLUE".
    pub fn name(&self) -> (r: &'static str)
        ensures
            r@ == (if *self == PlayerColor::Red {
                "RED"@
            } else {
                "BLUE"@
            }),
    {
        proof {
            reveal_strlit("RED");
            reveal_strlit("BLUE");
        }
        match self {
            PlayerColor::Red => "RED",
            PlayerColor::Blue => "BLUE",
        }
    }
}

/// The opponent of the opponent is the color itself.
pub proof fn lemma_opponent_involution(c: PlayerColor)
    ensures
        opponent(opponent(c)) == c,
        opponent(c) != c,
{
}

impl FieldType {
    pub fn to_player_color(&self) -> (r: Option<PlayerColor>)
        ensures
            *self == FieldType::RedPlayer ==> r == Some(PlayerColor::Red),
            *self == FieldType::BluePlayer ==> r == Some(PlayerColor::Blue),
            (*self == FieldType::Obstacle || *self == FieldType::Free) ==> r.is_none(),
    {
        match self {
            FieldType::RedPlayer => Some(PlayerColor::Red),
            FieldType::BluePlayer => Some(PlayerColor::Blue),
            _ => None,
        }
    }

    /// The name used on the wire: "RED", "BLUE", "OBSTRUCTED" or "EMPTY".
    pub fn name(&self) -> (r: &'static str)
        ensures
            r@ == (match *self {
                FieldType::RedPlayer => "RED"@,
                FieldType::BluePlayer => "BLUE"@,
                FieldType::Obstacle => "OBSTRUCTED"@,
                FieldType::Free => "EMPTY"@,
            }),
    {
        proof {
            reveal_strlit("RED");
            reveal_strlit("BLUE");
            reveal_strlit("OBSTRUCTED");
            reveal_strlit("EMPTY");
        }
        match self {
            FieldType::RedPlayer => "RED",
            FieldType::BluePlayer => "BLUE",
            FieldType::Obstacle => "OBSTRUCTED",
            FieldType::Free => "EMPTY",
        }
    }
}

impl Direction {
    pub fn get_multipliers(&self) -> (r: (i8, i8))
        ensures
            (r.0 as int, r.1 as int) == step_of(*self),
    {
        match self {
            Direction::Up => (0, 1),
            Direction::UpRight => (1, 1),
            Direction::UpLeft => (-1, 1),
            Direction::Left => (-1, 0),
            Direction::Right => (1, 0),
            Direction::Down => (0, -1),
            Direction::DownRight => (1, -1),
            Direction::DownLeft => (-1, -1),
        }
    }

    /// All eight directions, in index order.
    pub fn variants() -> (r: Vec<Direction>)
        ensures
            r@.len() == 8,
            forall|i: int| 0 <= i < 8 ==> index_of(#[trigger] r@[i]) == i,
    {
        let mut v: Vec<Direction> = Vec::new();
        v.push(Direction::Up);
        v.push(Direction::UpRight);
        v.push(Direction::Right);
        v.push(Direction::DownRight);
        v.push(Direction::Down);
        v.push(Direction::DownLeft);
        v.push(Direction::Left);
        v.push(Direction::UpLeft);
        v
    }

    pub fn get_index(&self) -> (r: usize)
        ensures
            r as int == index_of(*self),
    {
        match self {
            Direction::Up => 0,
            Direction::UpRight => 1,
            Direction::Right => 2,
            Direction::DownRight => 3,
            Direction::Down => 4,
            Direction::DownLeft => 5,
            Direction::Left => 6,
            Direction::UpLeft => 7,
        }
    }

    /// The direction that moves by the unit step `(dx, dy)`, if there is one.
    pub fn from_step(dx: i8, dy: i8) -> (r: Option<Direction>)
        ensures
            r == direction_of_step(dx as int, dy as int),
    {
        if dx == 0 && dy == 1 {
            Some(Direction::Up)
        } else if dx == 1 && dy == 1 {
            Some(Direction::UpRight)
        } else if dx == 1 && dy == 0 {
            Some(Direction::Right)
        } else if dx == 1 && dy == -1 {
            Some(Direction::DownRight)
        } else if dx == 0 && dy == -1 {
            Some(Direction::Down)
        } else if dx == -1 && dy == -1 {
            Some(Direction::DownLeft)
        } else if dx == -1 && dy == 0 {
            Some(Direction::Left)
        } else if dx == -1 && dy == 1 {
            Some(Direction::UpLeft)
        } else {
            None
        }
    }

    /// The name used on the wire, such as "UP_RIGHT".
    pub fn name(&self) -> (r: &'static str)
        ensures
            r@ == (match *self {
                Direction::Up => "UP"@,
                Direction::UpRight => "UP_RIGHT"@,
                Direction::Right => "RIGHT"@,
                Direction::DownRight => "DOWN_RIGHT"@,
                Direction::Down => "DOWN"@,
                Direction::DownLeft => "DOWN_LEFT"@,
                Direction::Left => "LEFT"@,
                Direction::UpLeft => "UP_LEFT"@,
            }),
    {
        proof {
            reveal_strlit("UP");
            reveal_strlit("UP_RIGHT");
            reveal_strlit("RIGHT");
            reveal_strlit("DOWN_RIGHT");
            reveal_strlit("DOWN");
            reveal_strlit("DOWN_LEFT");
            reveal_strlit("LEFT");
            reveal_strlit("UP_LEFT");
        }
        match self {
            Direction::Up => "UP",
            Direction::UpRight => "UP_RIGHT",
            Direction::Right => "RIGHT",
            Direction::DownRight => "DOWN_RIGHT",
            Direction::Down => "DOWN",
            Direction::DownLeft => "DOWN_LEFT",
            Direction::Left => "LEFT",
            Direction::UpLeft => "UP_LEFT",
        }
    }
}

/// A move: origin, destination and the direction of travel.
#[derive(Clone, Copy, PartialEq, Eq, Hash, Debug, Structural)]
pub struct Move {
    pub x: u8,
    pub y: u8,
    pub dest_x: u8,
    pub dest_y: u8,
    pub direction: Direction,
}

impl Move {
    pub fn new(x: u8, y: u8, dest_x: u8, dest_y: u8, direction: Direction) -> (r: Move)
        ensures
            r == (Move { x, y, dest_x, dest_y, direction }),
    {
        Move { x, y, dest_x, dest_y, direction }
    }
}

/// A cell with its coordinates and what occupies it.
#[derive(Clone, Copy, PartialEq, Eq, Hash, Debug, Structural)]
pub struct Field {
    pub fieldtype: FieldType,
    pub x: u8,
    pub y: u8,
}

impl Field {
    /// The single-bit word of this cell.
    pub fn get_bit_index(&self) -> (r: u128)
        requires
            self.x < 10,
            self.y < 10,
        ensures
            r == 1u128 << ((self.y * 10 + self.x) as u128),
    {
        let idx: u8 = self.x + self.y * 10;
        1u128 << (idx as u128)
    }
}

/// The room a client joined on the match server.
pub struct Room {
    pub id: String,
}

/// The color the match server assigned to this client.
pub struct WelcomeMessage {
    pub color: String,
}

/// Notice that the client joined a room.
pub struct Joined {
    pub id: String,
}

} // verus!
