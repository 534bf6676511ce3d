//! One sector's subchannel data: eight channels of twelve bytes.

use vstd::prelude::*;
use crate::subcode::channel::{SubcodeType, CHANNEL_COUNT};
use crate::subcode::code::{Subcode, SubcodeView, CHANNEL_LEN};
use crate::subcode::error::InvalidDataError;

verus! {

/// The number of subchannel bytes in one sector.
pub const SECTOR_LEN: usize = 96;

/// The subchannel data of one sector: its channels, from P to W.
#[derive(Debug, Clone, PartialEq, Eq)]
pub struct Sector {
    pub codes: Vec<Subcode>,
}

/// The channel whose bytes stand at position `index` of a sector.
pub open spec fn channel_at(index: int) -> SubcodeType
    recommends
        0 <= index < CHANNEL_COUNT,
{
    SubcodeType::spec_from_index(index).unwrap()
}

/// The bytes of channel number `index` within a sector's bytes.
pub open spec fn channel_bytes(bytes: Seq<u8>, index: int) -> Seq<u8>
    recommends
        0 <= index < CHANNEL_COUNT,
        bytes.len() == SECTOR_LEN,
{
    bytes.subrange(index * CHANNEL_LEN, index * CHANNEL_LEN + CHANNEL_LEN)
}

/// The first `count` channels, in order.
pub open spec fn first_channels(count: nat) -> Seq<SubcodeType> {
    Seq::new(count, |i: int| channel_at(i))
}

/// The test that a channel passes when the code at its position carries data.
pub open spec fn carries_data(codes: Seq<SubcodeView>) -> spec_fn(SubcodeType) -> bool {
    |channel: SubcodeType| !codes[channel.spec_index()].is_empty()
}

impl View for Sector {
    type V = Seq<SubcodeView>;

    open spec fn view(&self) -> Seq<SubcodeView> {
        self.codes@.map_values(|code: Subcode| code@)
    }
}

impl Sector {
    /// The codes are those of a sector: eight of them, of twelve bytes each,
    /// the code at each position bearing the name of the channel that belongs
    /// there.
    pub open spec fn spec_wf(codes: Seq<SubcodeView>) -> bool {
        &&& codes.len() == CHANNEL_COUNT
        &&& forall|i: int|
            0 <= i < codes.len() ==> (#[trigger] codes[i]).channel == channel_at(i) && codes[i].wf()
    }

    /// The sector is as `parse` makes it.
    pub open spec fn wf(&self) -> bool {
        Self::spec_wf(self@)
    }

    /// The sector that a block of `SECTOR_LEN` bytes holds: channel number
    /// `i` has the `i`-th run of `CHANNEL_LEN` bytes.
    pub open spec fn spec_parse(bytes: Seq<u8>) -> Seq<SubcodeView>
        recommends
            bytes.len() == SECTOR_LEN,
    {
        Seq::new(
            CHANNEL_COUNT as nat,
            |i: int| SubcodeView { channel: channel_at(i), data: channel_bytes(bytes, i) },
        )
    }

    /// No code outside the channels P and Q carries data.
    pub open spec fn spec_basic_data_only(codes: Seq<SubcodeView>) -> bool {
        forall|i: int|
            0 <= i < codes.len() && !(#[trigger] codes[i]).channel.is_basic() ==> codes[i].is_empty()
    }

    /// The channels at whose position a code carries data, in channel order.
    pub open spec fn spec_channels_with_data(codes: Seq<SubcodeView>) -> Seq<SubcodeType>
        recommends
            codes.len() <= CHANNEL_COUNT,
    {
        first_channels(codes.len()).filter(carries_data(codes))
    }

    /// Splits a block of exactly `SECTOR_LEN` bytes into its eight channels.
    /// A block of any other length is refused, with its length.
    pub fn parse(data: Vec<u8>) -> (parsed: Result<Sector, InvalidDataError>)
        ensures
            data@.len() != SECTOR_LEN ==> parsed == Err::<Sector, InvalidDataError>(
                (InvalidDataError::InvalidSectorLength { length: data@.len() as usize }),
            ),
            data@.len() == SECTOR_LEN ==> parsed is Ok && parsed.unwrap().wf()
                && parsed.unwrap()@ == Self::spec_parse(data@),
            data@.len() == SECTOR_LEN ==> parsed.unwrap().codes@.len() == CHANNEL_COUNT,
            data@.len() == SECTOR_LEN ==> forall|i: int|
                0 <= i < CHANNEL_COUNT ==> (#[trigger] parsed.unwrap().codes@[i]).channel
                    == channel_at(i) && parsed.unwrap().codes@[i].data@ == channel_bytes(data@, i),
    {
        if data.len() != SECTOR_LEN {
            return Err(InvalidDataError::InvalidSectorLength { length: data.len() });
        }
        let chunks: usize = data.len() / CHANNEL_LEN;
        let mut codes: Vec<Subcode> = Vec::new();
        let mut i: usize = 0;
        while i < chunks
            invariant
                data@.len() == SECTOR_LEN,
                chunks == CHANNEL_COUNT,
                i <= chunks,
                codes@.len() == i,
                forall|j: int|
                    0 <= j < i ==> (#[trigger] codes@[j])@ == (SubcodeView {
                        channel: channel_at(j),
                        data: channel_bytes(data@, j),
                    }),
            decreases chunks - i,
        {
            let channel = match SubcodeType::from_index(i) {
                Some(channel) => channel,
                None => {
                    return Err(InvalidDataError::InvalidSubcodeIndex { index: i });
                },
            };
            let start: usize = i * CHANNEL_LEN;
            let mut bytes: Vec<u8> = Vec::new();
            bytes.extend_from_slice(&data.as_slice()[start..start + CHANNEL_LEN]);
            assert(bytes@ =~= channel_bytes(data@, i as int));
            codes.push(Subcode { channel, data: bytes });
            i += 1;
        }
        let sector = Sector { codes };
        assert(sector@ =~= Self::spec_parse(data@));
        assert forall|i: int| 0 <= i < CHANNEL_COUNT implies (#[trigger] sector.codes@[i]).channel
            == channel_at(i) && sector.codes@[i].data@ == channel_bytes(data@, i) by {
            assert(sector.codes@[i]@ == sector@[i]);
        }
        Ok(sector)
    }

    /// Whether the sector keeps to the base standard: true exactly when every
    /// code of a channel other than P and Q is empty. What P and Q hold does
    /// not matter.
    pub fn contains_basic_data_only(&self) -> (basic: bool)
        ensures
            basic == Self::spec_basic_data_only(self@),
    {
        let mut i: usize = 0;
        while i < self.codes.len()
            invariant
                i <= self.codes@.len(),
                forall|j: int|
                    0 <= j < i && !(#[trigger] self@[j]).channel.is_basic() ==> self@[j].is_empty(),
            decreases self.codes@.len() - i,
        {
            let code = &self.codes[i];
            let extended = match code.channel {
                SubcodeType::P | SubcodeType::Q => false,
                _ => true,
            };
            if extended && !code.is_empty() {
                assert(!self@[i as int].channel.is_basic() && !self@[i as int].is_empty());
                return false;
            }
            i += 1;
        }
        true
    }

    /// The channels in which the sector carries data, in channel order: the
    /// channel of each position at which the code is not empty. P and Q are
    /// listed like the others.
    pub fn contains_data_in_channels(&self) -> (channels: Vec<SubcodeType>)
        requires
            self.codes@.len() <= CHANNEL_COUNT,
        ensures
            channels@ == Self::spec_channels_with_data(self@),
    {
        let mut identities: Vec<SubcodeType> = Vec::new();
        let mut index: usize = 0;
        proof {
            reveal(Seq::filter);
            assert(first_channels(self@.len()).take(0).len() == 0);
        }
        while index < self.codes.len()
            invariant
                self.codes@.len() <= CHANNEL_COUNT,
                index <= self.codes@.len(),
                identities@ == first_channels(self@.len()).take(index as int).filter(
                    carries_data(self@),
                ),
            decreases self.codes@.len() - index,
        {
            let ghost seen = first_channels(self@.len()).take(index as int);
            let ghost next = first_channels(self@.len()).take(index + 1);
            proof {
                reveal(Seq::filter);
                assert(next.drop_last() =~= seen);
                assert(next.last() == channel_at(index as int));
                assert(channel_at(index as int).spec_index() == index);
                assert(carries_data(self@)(next.last()) == !self@[index as int].is_empty());
            }
            if !self.codes[index].is_empty() {
                identities.push(SubcodeType::from_index(index).unwrap());
            }
            index += 1;
        }
        assert(first_channels(self@.len()).take(index as int) =~= first_channels(self@.len()));
        identities
    }
}

} // verus!
