//! Players, resources and development cards.

use vstd::prelude::*;

verus! {

/// A seat at the table. `PNone` marks "nobody" (for example, no holder of an award yet).
#[derive(Copy, Clone, Debug, Default, PartialEq, Eq, Structural)]
pub enum Player {
    P0,
    P1,
    P2,
    P3,
    #[default]
    PNone,
}

impl Player {
    /// Position of the player in the seat order: `P0` is 0, ..., `PNone` is 4.
    pub open spec fn spec_index(self) -> nat {
        match self {
            Player::P0 => 0,
            Player::P1 => 1,
            Player::P2 => 2,
            Player::P3 => 3,
            Player::PNone => 4,
        }
    }

    /// The player in seat `value` (`4` is `PNone`).
    pub open spec fn spec_from_u8(value: u8) -> Player {
        if value == 0 {
            Player::P0
        } else if value == 1 {
            Player::P1
        } else if value == 2 {
            Player::P2
        } else if value == 3 {
            Player::P3
        } else {
            Player::PNone
        }
    }

    /// Converts a seat number into a player; seats above 4 do not exist.
    pub fn from_u8(value: u8) -> (p: Player)
        requires
            value < 5,
        ensures
            p == Player::spec_from_u8(value),
            p.spec_index() == value,
    {
        match value {
            0 => Player::P0,
            1 => Player::P1,
            2 => Player::P2,
            3 => Player::P3,
            _ => Player::PNone,
        }
    }

    /// Seat number of the player, used to index per-player arrays.
    pub fn index(self) -> (i: usize)
        ensures
            i == self.spec_index(),
            Player::spec_from_u8(i as u8) == self,
    {
        match self {
            Player::P0 => 0,
            Player::P1 => 1,
            Player::P2 => 2,
            Player::P3 => 3,
            Player::PNone => 4,
        }
    }
}

/// A resource produced by a land hex. `Desert` produces nothing; in actions it is the
/// placeholder for "not chosen yet".
#[derive(Copy, Clone, Debug, Default, PartialEq, Eq, Structural)]
pub enum Resource {
    Brick,
    Wood,
    Ore,
    Wheat,
    Sheep,
    #[default]
    Desert,
}

/// The five resources that can be held in a hand, in index order.
pub open spec fn is_tradeable(r: Resource) -> bool {
    r != Resource::Desert
}

impl Resource {
    /// Index of the resource in per-resource arrays: `Brick` is 0, ..., `Desert` is 5.
    pub open spec fn spec_index(self) -> nat {
        match self {
            Resource::Brick => 0,
            Resource::Wood => 1,
            Resource::Ore => 2,
            Resource::Wheat => 3,
            Resource::Sheep => 4,
            Resource::Desert => 5,
        }
    }

    /// The resource with index `value`.
    pub open spec fn spec_from_u8(value: u8) -> Resource {
        if value == 0 {
            Resource::Brick
        } else if value == 1 {
            Resource::Wood
        } else if value == 2 {
            Resource::Ore
        } else if value == 3 {
            Resource::Wheat
        } else if value == 4 {
            Resource::Sheep
        } else {
            Resource::Desert
        }
    }

    /// Converts an index into a resource; indices above 5 do not exist.
    pub fn from_u8(value: u8) -> (r: Resource)
        requires
            value < 6,
        ensures
            r == Resource::spec_from_u8(value),
            r.spec_index() == value,
    {
        match value {
            0 => Resource::Brick,
            1 => Resource::Wood,
            2 => Resource::Ore,
            3 => Resource::Wheat,
            4 => Resource::Sheep,
            _ => Resource::Desert,
        }
    }

    /// Index of the resource in per-resource arrays.
    pub fn index(self) -> (i: usize)
        ensures
            i == self.spec_index(),
            Resource::spec_from_u8(i as u8) == self,
    {
        match self {
            Resource::Brick => 0,
            Resource::Wood => 1,
            Resource::Ore => 2,
            Resource::Wheat => 3,
            Resource::Sheep => 4,
            Resource::Desert => 5,
        }
    }

    /// The two-character harbour label of the resource.
    pub open spec fn spec_port_letter(self) -> Seq<char> {
        match self {
            Resource::Brick => seq![' ', 'B'],
            Resource::Wood => seq![' ', 'W'],
            Resource::Ore => seq![' ', 'O'],
            Resource::Wheat => seq![' ', 'G'],
            Resource::Sheep => seq![' ', 'S'],
            Resource::Desert => seq![' ', '?'],
        }
    }

    /// The harbour label shown on the board picture.
    pub fn port_letter(self) -> (s: &'static str)
        ensures
            s@ == self.spec_port_letter(),
    {
        match self {
            Resource::Brick => {
                proof {
                    reveal_strlit(" B");
                }
                " B"
            },
            Resource::Wood => {
                proof {
                    reveal_strlit(" W");
                }
                " W"
            },
            Resource::Ore => {
                proof {
                    reveal_strlit(" O");
                }
                " O"
            },
            Resource::Wheat => {
                proof {
                    reveal_strlit(" G");
                }
                " G"
            },
            Resource::Sheep => {
                proof {
                    reveal_strlit(" S");
                }
                " S"
            },
            Resource::Desert => {
                proof {
                    reveal_strlit(" ?");
                }
                " ?"
            },
        }
    }

    /// The lower-case letter that stands for the resource in board strings.
    pub open spec fn spec_letter(self) -> char {
        match self {
            Resource::Brick => 'b',
            Resource::Wood => 'w',
            Resource::Ore => 'o',
            Resource::Wheat => 'g',
            Resource::Sheep => 's',
            Resource::Desert => 'd',
        }
    }

    /// The letter of the resource as a one-character string.
    pub fn letter(self) -> (s: &'static str)
        ensures
            s@ == seq![self.spec_letter()],
    {
        match self {
            Resource::Brick => {
                proof {
                    reveal_strlit("b");
                }
                "b"
            },
            Resource::Wood => {
                proof {
                    reveal_strlit("w");
                }
                "w"
            },
            Resource::Ore => {
                proof {
                    reveal_strlit("o");
                }
                "o"
            },
            Resource::Wheat => {
                proof {
                    reveal_strlit("g");
                }
                "g"
            },
            Resource::Sheep => {
                proof {
                    reveal_strlit("s");
                }
                "s"
            },
            Resource::Desert => {
                proof {
                    reveal_strlit("d");
                }
                "d"
            },
        }
    }

    /// Position of `other` among the four resources that `self` can be traded for,
    /// counted in index order with `self` skipped; 4 when `other` is `self` or `Desert`,
    /// and always 4 for `Desert`.
    pub open spec fn spec_trade_index(self, other: Resource) -> nat {
        if self == Resource::Desert || other == Resource::Desert || other == self {
            4
        } else if other.spec_index() < self.spec_index() {
            other.spec_index()
        } else {
            (other.spec_index() - 1) as nat
        }
    }

    /// The resource at position `i` among the four that `self` can be traded for
    /// (index order, `self` skipped); `Desert` for `Desert`.
    pub open spec fn spec_from_trade_index(self, i: nat) -> Resource {
        if self == Resource::Desert {
            Resource::Desert
        } else if i < self.spec_index() {
            Resource::spec_from_u8(i as u8)
        } else {
            Resource::spec_from_u8((i + 1) as u8)
        }
    }

    /// Index of the bank trade that gives `self` and gets `other`.
    pub fn trade_index(&self, other: Resource) -> (i: u8)
        ensures
            i == self.spec_trade_index(other),
    {
        match self {
            Resource::Brick => match other {
                Resource::Wood => 0,
                Resource::Ore => 1,
                Resource::Wheat => 2,
                Resource::Sheep => 3,
                Resource::Desert | Resource::Brick => 4,
            },
            Resource::Wood => match other {
                Resource::Brick => 0,
                Resource::Ore => 1,
                Resource::Wheat => 2,
                Resource::Sheep => 3,
                Resource::Desert | Resource::Wood => 4,
            },
            Resource::Ore => match other {
                Resource::Brick => 0,
                Resource::Wood => 1,
                Resource::Wheat => 2,
                Resource::Sheep => 3,
                Resource::Desert | Resource::Ore => 4,
            },
            Resource::Wheat => match other {
                Resource::Brick => 0,
                Resource::Wood => 1,
                Resource::Ore => 2,
                Resource::Sheep => 3,
                Resource::Desert | Resource::Wheat => 4,
            },
            Resource::Sheep => match other {
                Resource::Brick => 0,
                Resource::Wood => 1,
                Resource::Ore => 2,
                Resource::Wheat => 3,
                Resource::Desert | Resource::Sheep => 4,
            },
            Resource::Desert => 4,
        }
    }

    /// The resource obtained by the bank trade with index `i` when giving `self`.
    /// Only four trades exist per resource, so `i` must be below 4.
    pub fn get_from_trade_index(&self, i: usize) -> (r: Resource)
        requires
            i < 4,
        ensures
            r == self.spec_from_trade_index(i as nat),
    {
        match self {
            Resource::Brick => [Resource::Wood, Resource::Ore, Resource::Wheat, Resource::Sheep][i],
            Resource::Wood => [Resource::Brick, Resource::Ore, Resource::Wheat, Resource::Sheep][i],
            Resource::Ore => [Resource::Brick, Resource::Wood, Resource::Wheat, Resource::Sheep][i],
            Resource::Wheat => [Resource::Brick, Resource::Wood, Resource::Ore, Resource::Sheep][i],
            Resource::Sheep => [Resource::Brick, Resource::Wood, Resource::Ore, Resource::Wheat][i],
            Resource::Desert => Resource::Desert,
        }
    }
}

/// Trading indices are inverse to each other: for a tradeable resource `give`, the
/// trade index of a different tradeable resource `get` is below 4 and leads back to `get`,
/// and every index below 4 leads to a different tradeable resource whose index is that index.
pub proof fn lemma_trade_index_inverse(give: Resource, get: Resource, i: nat)
    requires
        is_tradeable(give),
    ensures
        is_tradeable(get) && get != give ==> give.spec_trade_index(get) < 4
            && give.spec_from_trade_index(give.spec_trade_index(get)) == get,
        i < 4 ==> is_tradeable(give.spec_from_trade_index(i)) && give.spec_from_trade_index(i)
            != give && give.spec_trade_index(give.spec_from_trade_index(i)) == i,
{
}

/// A development card. `Unknown` is the placeholder for a card that has not been drawn yet.
#[derive(Copy, Clone, Debug, Default, PartialEq, Eq, Structural)]
pub enum DevCard {
    Knight,
    Monopoly,
    YoP,
    RoadBuild,
    VP,
    #[default]
    Unknown,
}

impl DevCard {
    /// Index of the card in per-card arrays: `Knight` is 0, ..., `Unknown` is 5.
    pub open spec fn spec_index(self) -> nat {
        match self {
            DevCard::Knight => 0,
            DevCard::Monopoly => 1,
            DevCard::YoP => 2,
            DevCard::RoadBuild => 3,
            DevCard::VP => 4,
            DevCard::Unknown => 5,
        }
    }

    /// The card with index `value`.
    pub open spec fn spec_from_u8(value: u8) -> DevCard {
        if value == 0 {
            DevCard::Knight
        } else if value == 1 {
            DevCard::Monopoly
        } else if value == 2 {
            DevCard::YoP
        } else if value == 3 {
            DevCard::RoadBuild
        } else if value == 4 {
            DevCard::VP
        } else {
            DevCard::Unknown
        }
    }

    /// Converts an index into a card; indices above 5 do not exist.
    pub fn from_u8(value: u8) -> (c: DevCard)
        requires
            value < 6,
        ensures
            c == DevCard::spec_from_u8(value),
            c.spec_index() == value,
    {
        match value {
            0 => DevCard::Knight,
            1 => DevCard::Monopoly,
            2 => DevCard::YoP,
            3 => DevCard::RoadBuild,
            4 => DevCard::VP,
            _ => DevCard::Unknown,
        }
    }

    /// Index of the card in per-card arrays.
    pub fn index(self) -> (i: usize)
        ensures
            i == self.spec_index(),
            DevCard::spec_from_u8(i as u8) == self,
    {
        match self {
            DevCard::Knight => 0,
            DevCard::Monopoly => 1,
            DevCard::YoP => 2,
            DevCard::RoadBuild => 3,
            DevCard::VP => 4,
            DevCard::Unknown => 5,
        }
    }
}

} // verus!
