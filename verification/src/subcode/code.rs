//! One channel's bytes within one sector.

use vstd::prelude::*;
use crate::subcode::channel::SubcodeType;

verus! {

/// The number of bytes that one channel holds in one sector.
pub const CHANNEL_LEN: usize = 12;

/// The bytes of one channel in one sector, with the channel's name.
#[derive(Debug, Clone, PartialEq, Eq)]
pub struct Subcode {
    pub channel: SubcodeType,
    pub data: Vec<u8>,
}

/// What a `Subcode` stands for: a channel and a sequence of bytes.
pub struct SubcodeView {
    pub channel: SubcodeType,
    pub data: Seq<u8>,
}

/// Every byte of the sequence is zero.
pub open spec fn all_zero(bytes: Seq<u8>) -> bool {
    forall|i: int| 0 <= i < bytes.len() ==> bytes[i] == 0
}

impl SubcodeView {
    /// The channel carries no data: all its bytes are zero.
    pub open spec fn is_empty(self) -> bool {
        all_zero(self.data)
    }

    /// The channel holds as many bytes as a sector gives it.
    pub open spec fn wf(self) -> bool {
        self.data.len() == CHANNEL_LEN
    }
}

impl View for Subcode {
    type V = SubcodeView;

    open spec fn view(&self) -> SubcodeView {
        SubcodeView { channel: self.channel, data: self.data@ }
    }
}

impl Subcode {
    /// The subcode holds as many bytes as a sector gives to a channel.
    pub open spec fn wf(&self) -> bool {
        self@.wf()
    }

    /// Whether the channel carries no data, that is, whether every byte of it
    /// is zero.
    pub fn is_empty(&self) -> (empty: bool)
        ensures
            empty == self@.is_empty(),
            empty <==> forall|i: int| 0 <= i < self.data@.len() ==> self.data@[i] == 0,
    {
        let mut i: usize = 0;
        while i < self.data.len()
            invariant
                i <= self.data@.len(),
                forall|j: int| 0 <= j < i ==> self.data@[j] == 0,
            decreases self.data@.len() - i,
        {
            if self.data[i] != 0 {
                return false;
            }
            i += 1;
        }
        true
    }
}

} // verus!
