//! The six sphere colors and which catalog items each of them may yield.
use vstd::prelude::*;

use crate::loot::IT_COUNT;

verus! {

/// The tint of a treasure sphere.
#[derive(Debug, Clone, Copy, PartialEq, Eq, Structural)]
pub enum Colors {
    Normal,
    Opal,
    Sapphire,
    Ruby,
    Garnet,
    Emerald,
}

/// `lo <= i < hi`.
pub open spec fn in_range(i: int, lo: int, hi: int) -> bool {
    lo <= i < hi
}

impl Colors {
    /// The color that each of the eight equally weighted draw slots stands
    /// for: three slots are Normal, each special color has one.
    pub open spec fn of_slot(slot: int) -> Colors {
        if slot <= 2 {
            Colors::Normal
        } else if slot == 3 {
            Colors::Opal
        } else if slot == 4 {
            Colors::Sapphire
        } else if slot == 5 {
            Colors::Ruby
        } else if slot == 6 {
            Colors::Garnet
        } else {
            Colors::Emerald
        }
    }

    /// Whether a sphere of this color may yield catalog item `item`.
    /// Normal takes any item; each special color has a fixed membership.
    pub open spec fn eligible(self, item: int) -> bool {
        match self {
            Colors::Normal => in_range(item, 0, 200),
            Colors::Opal => in_range(item, 0, 24) || in_range(item, 120, 152),
            Colors::Sapphire => in_range(item, 24, 48) || in_range(item, 120, 128)
                || in_range(item, 152, 176),
            Colors::Ruby => in_range(item, 48, 72) || in_range(item, 128, 136)
                || in_range(item, 152, 160) || in_range(item, 176, 192),
            Colors::Garnet => in_range(item, 72, 96) || in_range(item, 136, 144)
                || in_range(item, 160, 168) || in_range(item, 176, 184)
                || in_range(item, 192, 200),
            Colors::Emerald => in_range(item, 96, 120) || in_range(item, 144, 152)
                || in_range(item, 168, 176) || in_range(item, 184, 200),
        }
    }

    /// Lower-case display name.
    pub open spec fn name(self) -> Seq<char> {
        match self {
            Colors::Normal => "normal"@,
            Colors::Opal => "opal"@,
            Colors::Sapphire => "sapphire"@,
            Colors::Ruby => "ruby"@,
            Colors::Garnet => "garnet"@,
            Colors::Emerald => "emerald"@,
        }
    }

    /// The color of draw slot `index` (0..8).
    pub fn from_index(index: u8) -> (r: Colors)
        requires
            index < 8,
        ensures
            r == Colors::of_slot(index as int),
    {
        match index {
            0 | 1 | 2 => Colors::Normal,
            3 => Colors::Opal,
            4 => Colors::Sapphire,
            5 => Colors::Ruby,
            6 => Colors::Garnet,
            _ => Colors::Emerald,
        }
    }

    /// Whether a sphere of this color may yield catalog item `*loot`.
    pub fn in_ts_pool(&self, loot: &usize) -> (r: bool)
        requires
            *loot < IT_COUNT,
        ensures
            r == self.eligible(*loot as int),
    {
        let i = *loot;
        match self {
            Colors::Normal => true,
            Colors::Opal => i < 24 || (120 <= i && i < 152),
            Colors::Sapphire => (24 <= i && i < 48) || (120 <= i && i < 128) || (152 <= i && i
                < 176),
            Colors::Ruby => (48 <= i && i < 72) || (128 <= i && i < 136) || (152 <= i && i < 160)
                || (176 <= i && i < 192),
            Colors::Garnet => (72 <= i && i < 96) || (136 <= i && i < 144) || (160 <= i && i
                < 168) || (176 <= i && i < 184) || 192 <= i,
            Colors::Emerald => (96 <= i && i < 120) || (144 <= i && i < 152) || (168 <= i && i
                < 176) || 184 <= i,
        }
    }

    /// Every catalog item a sphere of this color may yield, in ascending order.
    pub fn items_in_ts(&self) -> (r: Vec<usize>)
        ensures
            forall|a: int, b: int| 0 <= a < b < r@.len() ==> r@[a] < r@[b],
            forall|x: usize| #[trigger] r@.contains(x) <==> (x < IT_COUNT && self.eligible(x as int)),
    {
        let mut r: Vec<usize> = Vec::new();
        let mut i: usize = 0;
        while i < IT_COUNT
            invariant
                i <= IT_COUNT,
                forall|a: int, b: int| 0 <= a < b < r@.len() ==> r@[a] < r@[b],
                forall|a: int| 0 <= a < r@.len() ==> r@[a] < i,
                forall|x: usize| #[trigger] r@.contains(x) <==> (x < i && self.eligible(x as int)),
            decreases IT_COUNT - i,
        {
            let ghost prev = r@;
            if self.in_ts_pool(&i) {
                r.push(i);
                assert forall|x: usize| #[trigger] r@.contains(x) <==> (prev.contains(x) || x == i) by {
                    if x == i {
                        assert(r@[prev.len() as int] == i);
                    }
                    if prev.contains(x) {
                        let k = choose|k: int| 0 <= k < prev.len() && prev[k] == x;
                        assert(r@[k] == x);
                    }
                }
            }
            i = i + 1;
        }
        r
    }

    /// Lower-case display name of the color.
    pub fn to_string(&self) -> (r: String)
        ensures
            r@ == self.name(),
    {
        proof {
            reveal_strlit("normal");
            reveal_strlit("opal");
            reveal_strlit("sapphire");
            reveal_strlit("ruby");
            reveal_strlit("garnet");
            reveal_strlit("emerald");
        }
        match self {
            Colors::Normal => "normal".to_owned(),
            Colors::Opal => "opal".to_owned(),
            Colors::Sapphire => "sapphire".to_owned(),
            Colors::Ruby => "ruby".to_owned(),
            Colors::Garnet => "garnet".to_owned(),
            Colors::Emerald => "emerald".to_owned(),
        }
    }
}

} // verus!
