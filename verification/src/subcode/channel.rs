//! The eight subchannels and their positions within a sector.

use vstd::prelude::*;

verus! {

/// The number of channels in a sector.
pub const CHANNEL_COUNT: usize = 8;

/// One of the eight subchannels. P and Q belong to the base standard; R to W
/// are the extended channels.
#[derive(Debug, Clone, Copy, PartialEq, Eq, Structural)]
pub enum SubcodeType {
    P,
    Q,
    R,
    S,
    T,
    U,
    V,
    W,
}

impl SubcodeType {
    /// The position of this channel's bytes within a sector, from 0 for P to
    /// 7 for W.
    pub open spec fn spec_index(self) -> int {
        match self {
            SubcodeType::P => 0,
            SubcodeType::Q => 1,
            SubcodeType::R => 2,
            SubcodeType::S => 3,
            SubcodeType::T => 4,
            SubcodeType::U => 5,
            SubcodeType::V => 6,
            SubcodeType::W => 7,
        }
    }

    /// The channel at a position, if the position names one.
    pub open spec fn spec_from_index(index: int) -> Option<SubcodeType> {
        if index == 0 {
            Some(SubcodeType::P)
        } else if index == 1 {
            Some(SubcodeType::Q)
        } else if index == 2 {
            Some(SubcodeType::R)
        } else if index == 3 {
            Some(SubcodeType::S)
        } else if index == 4 {
            Some(SubcodeType::T)
        } else if index == 5 {
            Some(SubcodeType::U)
        } else if index == 6 {
            Some(SubcodeType::V)
        } else if index == 7 {
            Some(SubcodeType::W)
        } else {
            None
        }
    }

    /// Whether this channel belongs to the base standard.
    pub open spec fn is_basic(self) -> bool {
        self == SubcodeType::P || self == SubcodeType::Q
    }

    /// The letter by which this channel is known.
    pub open spec fn letter(self) -> char {
        match self {
            SubcodeType::P => 'P',
            SubcodeType::Q => 'Q',
            SubcodeType::R => 'R',
            SubcodeType::S => 'S',
            SubcodeType::T => 'T',
            SubcodeType::U => 'U',
            SubcodeType::V => 'V',
            SubcodeType::W => 'W',
        }
    }

    /// The channel whose bytes stand at position `index` of a sector: `Some`
    /// for 0 to 7, `None` for every other number.
    pub fn from_index(index: usize) -> (channel: Option<SubcodeType>)
        ensures
            channel == Self::spec_from_index(index as int),
            channel is Some <==> index < CHANNEL_COUNT,
            channel is Some ==> channel.unwrap().spec_index() == index,
    {
        match index {
            0 => Some(SubcodeType::P),
            1 => Some(SubcodeType::Q),
            2 => Some(SubcodeType::R),
            3 => Some(SubcodeType::S),
            4 => Some(SubcodeType::T),
            5 => Some(SubcodeType::U),
            6 => Some(SubcodeType::V),
            7 => Some(SubcodeType::W),
            _ => None,
        }
    }

    /// The channel's name, a single capital letter.
    pub fn to_string(&self) -> (name: String)
        ensures
            name@ == seq![self.letter()],
    {
        proof {
            reveal_strlit("P");
            reveal_strlit("Q");
            reveal_strlit("R");
            reveal_strlit("S");
            reveal_strlit("T");
            reveal_strlit("U");
            reveal_strlit("V");
            reveal_strlit("W");
        }
        let name = match *self {
            SubcodeType::P => "P".to_owned(),
            SubcodeType::Q => "Q".to_owned(),
            SubcodeType::R => "R".to_owned(),
            SubcodeType::S => "S".to_owned(),
            SubcodeType::T => "T".to_owned(),
            SubcodeType::U => "U".to_owned(),
            SubcodeType::V => "V".to_owned(),
            SubcodeType::W => "W".to_owned(),
        };
        assert(name@ =~= seq![self.letter()]);
        name
    }
}

/// To every channel belongs a position, and that position names the channel
/// again.
pub proof fn lemma_index_of_channel(channel: SubcodeType)
    ensures
        0 <= channel.spec_index() < CHANNEL_COUNT,
        SubcodeType::spec_from_index(channel.spec_index()) == Some(channel),
{
}

/// A position names a channel exactly when it lies below `CHANNEL_COUNT`, and
/// the channel it names stands at that position: no two positions name the
/// same channel.
pub proof fn lemma_channel_of_index(index: int)
    ensures
        SubcodeType::spec_from_index(index) is Some <==> 0 <= index < CHANNEL_COUNT,
        SubcodeType::spec_from_index(index) is Some ==> SubcodeType::spec_from_index(
            index,
        ).unwrap().spec_index() == index,
{
}

} // verus!
