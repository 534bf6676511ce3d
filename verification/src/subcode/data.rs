//! The subchannel data of a run of sectors, such as a whole disc.

use vstd::prelude::*;
use crate::subcode::code::SubcodeView;
use crate::subcode::error::InvalidDataError;
use crate::subcode::sector::{Sector, SECTOR_LEN};

verus! {

/// The subchannel data of a run of sectors, in the order in which the sectors
/// stood in the buffer.
#[derive(Debug, Clone, PartialEq, Eq)]
pub struct SubcodeData {
    pub sectors: Vec<Sector>,
}

/// The bytes of sector number `index` within a buffer.
pub open spec fn sector_bytes(bytes: Seq<u8>, index: int) -> Seq<u8>
    recommends
        0 <= index,
        (index + 1) * SECTOR_LEN <= bytes.len(),
{
    bytes.subrange(index * SECTOR_LEN, index * SECTOR_LEN + SECTOR_LEN)
}

impl View for SubcodeData {
    type V = Seq<Seq<SubcodeView>>;

    open spec fn view(&self) -> Seq<Seq<SubcodeView>> {
        self.sectors@.map_values(|sector: Sector| sector@)
    }
}

impl SubcodeData {
    /// Every sector is as `Sector::parse` makes it.
    pub open spec fn spec_wf(sectors: Seq<Seq<SubcodeView>>) -> bool {
        forall|k: int| 0 <= k < sectors.len() ==> Sector::spec_wf(#[trigger] sectors[k])
    }

    /// The data is as `parse` makes it.
    pub open spec fn wf(&self) -> bool {
        Self::spec_wf(self@)
    }

    /// The sectors that a buffer holds whose length is a multiple of
    /// `SECTOR_LEN`: sector number `k` is made of the `k`-th run of
    /// `SECTOR_LEN` bytes.
    pub open spec fn spec_parse(bytes: Seq<u8>) -> Seq<Seq<SubcodeView>>
        recommends
            bytes.len() % (SECTOR_LEN as nat) == 0,
    {
        Seq::new(
            bytes.len() / (SECTOR_LEN as nat),
            |k: int| Sector::spec_parse(sector_bytes(bytes, k)),
        )
    }

    /// Every sector keeps to the base standard.
    pub open spec fn spec_basic_data_only(sectors: Seq<Seq<SubcodeView>>) -> bool {
        forall|k: int|
            0 <= k < sectors.len() ==> Sector::spec_basic_data_only(#[trigger] sectors[k])
    }

    /// Splits a buffer into sectors of `SECTOR_LEN` bytes and each sector into
    /// its channels. A buffer whose length is no multiple of `SECTOR_LEN` is
    /// refused, with its length; the empty buffer holds no sector.
    pub fn parse(data: Vec<u8>) -> (parsed: Result<SubcodeData, InvalidDataError>)
        ensures
            data@.len() % (SECTOR_LEN as nat) != 0 ==> parsed == Err::<SubcodeData, InvalidDataError>(
                (InvalidDataError::InvalidSubcodeDataLength { length: data@.len() as usize }),
            ),
            data@.len() % (SECTOR_LEN as nat) == 0 ==> parsed is Ok && parsed.unwrap().wf()
                && parsed.unwrap()@ == Self::spec_parse(data@),
            data@.len() % (SECTOR_LEN as nat) == 0 ==> parsed.unwrap().sectors@.len() == data@.len()
                / (SECTOR_LEN as nat),
            data@.len() % (SECTOR_LEN as nat) == 0 ==> forall|k: int|
                0 <= k < parsed.unwrap().sectors@.len() ==> (#[trigger] parsed.unwrap().sectors@[k]).wf()
                    && parsed.unwrap().sectors@[k]@ == Sector::spec_parse(sector_bytes(data@, k)),
    {
        if data.len() % SECTOR_LEN != 0 {
            return Err(InvalidDataError::InvalidSubcodeDataLength { length: data.len() });
        }
        let count: usize = data.len() / SECTOR_LEN;
        let mut sectors: Vec<Sector> = Vec::new();
        let mut k: usize = 0;
        while k < count
            invariant
                count * SECTOR_LEN == data@.len() <= usize::MAX,
                k <= count,
                sectors@.len() == k,
                forall|j: int|
                    0 <= j < k ==> (#[trigger] sectors@[j]).wf() && sectors@[j]@
                        == Sector::spec_parse(sector_bytes(data@, j)),
            decreases count - k,
        {
            let start: usize = k * SECTOR_LEN;
            let mut chunk: Vec<u8> = Vec::new();
            chunk.extend_from_slice(&data.as_slice()[start..start + SECTOR_LEN]);
            assert(chunk@ =~= sector_bytes(data@, k as int));
            match Sector::parse(chunk) {
                Ok(sector) => sectors.push(sector),
                Err(error) => {
                    return Err(error);
                },
            }
            k += 1;
        }
        let parsed = SubcodeData { sectors };
        assert(parsed@ =~= Self::spec_parse(data@));
        Ok(parsed)
    }

    /// Whether the whole run keeps to the base standard: true exactly when
    /// every sector does. With no sector at all it is true.
    pub fn contains_basic_data_only(&self) -> (basic: bool)
        ensures
            basic == Self::spec_basic_data_only(self@),
    {
        let mut k: usize = 0;
        while k < self.sectors.len()
            invariant
                k <= self.sectors@.len(),
                forall|j: int| 0 <= j < k ==> Sector::spec_basic_data_only(#[trigger] self@[j]),
            decreases self.sectors@.len() - k,
        {
            if !self.sectors[k].contains_basic_data_only() {
                assert(!Sector::spec_basic_data_only(self@[k as int]));
                return false;
            }
            k += 1;
        }
        true
    }
}

} // verus!
