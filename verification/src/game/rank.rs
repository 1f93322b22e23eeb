//! The ranks of the pieces.

use vstd::prelude::*;
use vstd::std_specs::convert::TryFromSpecImpl;
use vstd::utf8::encode_utf8;
use vstd::utf8::encode_utf8_decode_utf8;

verus! {

/// The rank of a piece. The ten ranks from `Spy` to `Marshal` can move and
/// are ordered by strength, weakest first; `Bomb` and `Flag` never move;
/// `Unknown` stands for the rank of an opposing piece that has not been
/// revealed yet.
#[derive(PartialEq, Eq, Clone, Copy, Debug, Structural)]
pub enum Rank {
    Spy,
    Scout,
    Miner,
    Sergeant,
    Lieutenant,
    Captain,
    Major,
    Colonel,
    General,
    Marshal,
    Bomb,
    Flag,
    Unknown,
}

/// The pieces that each side starts with.
pub const STARTING_RANKS: [Rank; 8] = [
    Rank::Spy,
    Rank::Scout,
    Rank::Scout,
    Rank::Miner,
    Rank::General,
    Rank::Marshal,
    Rank::Bomb,
    Rank::Flag,
];

/// Whether two string slices hold the same text.
pub fn same_text(a: &str, b: &str) -> (r: bool)
    ensures
        r == (a@ == b@),
{
    let x = a.as_bytes();
    let y = b.as_bytes();
    proof {
        encode_utf8_decode_utf8(a@);
        encode_utf8_decode_utf8(b@);
    }
    if x.len() != y.len() {
        return false;
    }
    let mut i: usize = 0;
    while i < x.len()
        invariant
            i <= x.len(),
            x.len() == y.len(),
            x@ == encode_utf8(a@),
            y@ == encode_utf8(b@),
            forall|j: int| 0 <= j < i ==> x@[j] == y@[j],
        decreases x.len() - i,
    {
        if x[i] != y[i] {
            return false;
        }
        i += 1;
    }
    assert(x@ =~= y@);
    true
}

impl Rank {
    /// The place of the rank in the order of declaration, which is the order
    /// of strength among the ranks that fight.
    pub open spec fn strength(self) -> int {
        match self {
            Rank::Spy => 0,
            Rank::Scout => 1,
            Rank::Miner => 2,
            Rank::Sergeant => 3,
            Rank::Lieutenant => 4,
            Rank::Captain => 5,
            Rank::Major => 6,
            Rank::Colonel => 7,
            Rank::General => 8,
            Rank::Marshal => 9,
            Rank::Bomb => 10,
            Rank::Flag => 11,
            Rank::Unknown => 12,
        }
    }

    pub open spec fn spec_is_moveable(&self) -> bool {
        *self != Rank::Flag && *self != Rank::Bomb
    }

    /// The ranks that have a name on the wire: those of the starting set.
    pub open spec fn has_name(self) -> bool {
        self == Rank::Spy || self == Rank::Scout || self == Rank::Miner || self == Rank::General
            || self == Rank::Marshal || self == Rank::Bomb || self == Rank::Flag
    }

    /// The name of a rank that has one.
    pub open spec fn spec_name(self) -> Seq<char> {
        match self {
            Rank::Spy => "Spy"@,
            Rank::Scout => "Scout"@,
            Rank::Miner => "Miner"@,
            Rank::General => "General"@,
            Rank::Marshal => "Marshal"@,
            Rank::Bomb => "Bomb"@,
            _ => "Flag"@,
        }
    }

    /// The rank that a name stands for, if it is the name of a rank.
    pub open spec fn spec_from_str(s: Seq<char>) -> Option<Rank> {
        if s == "Spy"@ {
            Some(Rank::Spy)
        } else if s == "Scout"@ {
            Some(Rank::Scout)
        } else if s == "Miner"@ {
            Some(Rank::Miner)
        } else if s == "General"@ {
            Some(Rank::General)
        } else if s == "Marshal"@ {
            Some(Rank::Marshal)
        } else if s == "Bomb"@ {
            Some(Rank::Bomb)
        } else if s == "Flag"@ {
            Some(Rank::Flag)
        } else {
            None
        }
    }

    /// The strength as a machine integer.
    pub fn strength_value(self) -> (r: u8)
        ensures
            r == self.strength(),
    {
        match self {
            Rank::Spy => 0,
            Rank::Scout => 1,
            Rank::Miner => 2,
            Rank::Sergeant => 3,
            Rank::Lieutenant => 4,
            Rank::Captain => 5,
            Rank::Major => 6,
            Rank::Colonel => 7,
            Rank::General => 8,
            Rank::Marshal => 9,
            Rank::Bomb => 10,
            Rank::Flag => 11,
            Rank::Unknown => 12,
        }
    }

    /// Every rank but `Bomb` and `Flag` can move.
    #[verifier::when_used_as_spec(spec_is_moveable)]
    pub fn is_moveable(&self) -> (r: bool)
        ensures
            r == self.spec_is_moveable(),
    {
        !matches!(self, Rank::Flag | Rank::Bomb)
    }

    /// The rank with the name `s`, if `s` is the name of a starting rank.
    pub fn from_str(s: &str) -> (r: Option<Rank>)
        ensures
            r == Rank::spec_from_str(s@),
    {
        if same_text(s, "Spy") {
            Some(Rank::Spy)
        } else if same_text(s, "Scout") {
            Some(Rank::Scout)
        } else if same_text(s, "Miner") {
            Some(Rank::Miner)
        } else if same_text(s, "General") {
            Some(Rank::General)
        } else if same_text(s, "Marshal") {
            Some(Rank::Marshal)
        } else if same_text(s, "Bomb") {
            Some(Rank::Bomb)
        } else if same_text(s, "Flag") {
            Some(Rank::Flag)
        } else {
            None
        }
    }

    /// The name of a starting rank. The other ranks have no name.
    pub fn to_str(self) -> (r: &'static str)
        requires
            self.has_name(),
        ensures
            r@ == self.spec_name(),
    {
        match self {
            Rank::Spy => "Spy",
            Rank::Scout => "Scout",
            Rank::Miner => "Miner",
            Rank::General => "General",
            Rank::Marshal => "Marshal",
            Rank::Bomb => "Bomb",
            _ => "Flag",
        }
    }
}

impl TryFrom<&str> for Rank {
    type Error = &'static str;

    /// The rank with the name `s`, or an error that says that there is none.
    fn try_from(s: &str) -> (r: Result<Self, Self::Error>) {
        match Rank::from_str(s) {
            Some(rank) => Ok(rank),
            None => Err("String is not a Rank"),
        }
    }
}

impl TryFromSpecImpl<&str> for Rank {
    open spec fn obeys_try_from_spec() -> bool {
        true
    }

    open spec fn try_from_spec(s: &str) -> Result<Self, Self::Error> {
        match Rank::spec_from_str(s@) {
            Some(rank) => Ok(rank),
            None => Err("String is not a Rank"),
        }
    }
}

/// Reading the name of a rank gives the rank back.
pub proof fn lemma_name_round_trip(rank: Rank)
    requires
        rank.has_name(),
    ensures
        Rank::spec_from_str(rank.spec_name()) == Some(rank),
{
    reveal_strlit("Spy");
    reveal_strlit("Scout");
    reveal_strlit("Miner");
    reveal_strlit("General");
    reveal_strlit("Marshal");
    reveal_strlit("Bomb");
    reveal_strlit("Flag");
    assert("Spy"@.len() == 3);
    assert("Scout"@.len() == 5);
    assert("Miner"@.len() == 5);
    assert("General"@.len() == 7);
    assert("Marshal"@.len() == 7);
    assert("Bomb"@.len() == 4);
    assert("Flag"@.len() == 4);
    assert("Scout"@[0] == 'S' && "Miner"@[0] == 'M');
    assert("General"@[0] == 'G' && "Marshal"@[0] == 'M');
    assert("Bomb"@[0] == 'B' && "Flag"@[0] == 'F');
}

} // verus!
