//! What holds of parsing and classification taken together, proved from the
//! definitions that the contracts use.

use vstd::prelude::*;
use crate::subcode::channel::{SubcodeType, CHANNEL_COUNT};
use crate::subcode::code::{SubcodeView, CHANNEL_LEN};
use crate::subcode::data::{sector_bytes, SubcodeData};
use crate::subcode::sector::{carries_data, channel_at, first_channels, Sector, SECTOR_LEN};

verus! {

/// A block of `SECTOR_LEN` bytes parses to a well-formed sector: eight codes,
/// named P, Q, R, S, T, U, V, W in this order, and byte `j` of the code at
/// position `i` is byte `CHANNEL_LEN * i + j` of the block.
pub proof fn lemma_sector_layout(bytes: Seq<u8>)
    requires
        bytes.len() == SECTOR_LEN,
    ensures
        Sector::spec_wf(Sector::spec_parse(bytes)),
        Sector::spec_parse(bytes).len() == 8,
        Sector::spec_parse(bytes).map_values(|code: SubcodeView| code.channel) == seq![
            SubcodeType::P,
            SubcodeType::Q,
            SubcodeType::R,
            SubcodeType::S,
            SubcodeType::T,
            SubcodeType::U,
            SubcodeType::V,
            SubcodeType::W,
        ],
        forall|i: int, j: int|
            0 <= i < CHANNEL_COUNT && 0 <= j < CHANNEL_LEN ==> #[trigger] Sector::spec_parse(
                bytes,
            )[i].data[j] == bytes[CHANNEL_LEN * i + j],
{
    assert(Sector::spec_parse(bytes).map_values(|code: SubcodeView| code.channel) =~= seq![
        SubcodeType::P,
        SubcodeType::Q,
        SubcodeType::R,
        SubcodeType::S,
        SubcodeType::T,
        SubcodeType::U,
        SubcodeType::V,
        SubcodeType::W,
    ]);
}

/// A buffer whose length is a multiple of `SECTOR_LEN` parses to as many
/// well-formed sectors as it holds runs of `SECTOR_LEN` bytes, in the
/// buffer's order: byte `j` of the code at position `i` of sector `k` is byte
/// `SECTOR_LEN * k + CHANNEL_LEN * i + j` of the buffer.
pub proof fn lemma_data_layout(bytes: Seq<u8>)
    requires
        bytes.len() % (SECTOR_LEN as nat) == 0,
    ensures
        SubcodeData::spec_wf(SubcodeData::spec_parse(bytes)),
        SubcodeData::spec_parse(bytes).len() * SECTOR_LEN == bytes.len(),
        forall|k: int, i: int, j: int|
            0 <= k < SubcodeData::spec_parse(bytes).len() && 0 <= i < CHANNEL_COUNT && 0 <= j
                < CHANNEL_LEN ==> #[trigger] SubcodeData::spec_parse(bytes)[k][i].data[j]
                == bytes[SECTOR_LEN * k + CHANNEL_LEN * i + j],
{
    let sectors = SubcodeData::spec_parse(bytes);
    assert forall|k: int| 0 <= k < sectors.len() implies Sector::spec_wf(#[trigger] sectors[k])
        && forall|i: int, j: int|
        0 <= i < CHANNEL_COUNT && 0 <= j < CHANNEL_LEN ==> #[trigger] sectors[k][i].data[j]
            == bytes[SECTOR_LEN * k + CHANNEL_LEN * i + j] by {
        lemma_sector_layout(sector_bytes(bytes, k));
    }
}

/// A parsed sector keeps to the base standard exactly when every byte of the
/// block behind the channels P and Q is zero. What P and Q hold does not
/// matter.
pub proof fn lemma_basic_data_only_of_sector(bytes: Seq<u8>)
    requires
        bytes.len() == SECTOR_LEN,
    ensures
        Sector::spec_basic_data_only(Sector::spec_parse(bytes)) <==> forall|p: int|
            2 * CHANNEL_LEN <= p < SECTOR_LEN ==> bytes[p] == 0,
{
    let codes = Sector::spec_parse(bytes);
    if Sector::spec_basic_data_only(codes) {
        assert forall|p: int| 2 * CHANNEL_LEN <= p < SECTOR_LEN implies bytes[p] == 0 by {
            let i = p / 12;
            let j = p % 12;
            assert(!codes[i].channel.is_basic());
            assert(codes[i].is_empty());
            assert(codes[i].data[j] == bytes[p]);
        }
    }
    if forall|p: int| 2 * CHANNEL_LEN <= p < SECTOR_LEN ==> bytes[p] == 0 {
        assert forall|i: int|
            0 <= i < codes.len() && !(#[trigger] codes[i]).channel.is_basic() implies codes[i].is_empty() by {
            assert forall|j: int| 0 <= j < codes[i].data.len() implies codes[i].data[j] == 0 by {
                assert(codes[i].data[j] == bytes[12 * i + j]);
            }
        }
    }
}

/// A parsed buffer keeps to the base standard exactly when, in every run of
/// `SECTOR_LEN` bytes, every byte behind the channels P and Q is zero.
pub proof fn lemma_basic_data_only_of_buffer(bytes: Seq<u8>)
    requires
        bytes.len() % (SECTOR_LEN as nat) == 0,
    ensures
        SubcodeData::spec_basic_data_only(SubcodeData::spec_parse(bytes)) <==> forall|p: int|
            0 <= p < bytes.len() && p % (SECTOR_LEN as int) >= 2 * CHANNEL_LEN ==> bytes[p] == 0,
{
    let sectors = SubcodeData::spec_parse(bytes);
    if SubcodeData::spec_basic_data_only(sectors) {
        assert forall|p: int|
            0 <= p < bytes.len() && p % (SECTOR_LEN as int) >= 2 * CHANNEL_LEN implies bytes[p]
            == 0 by {
            let k = p / 96;
            let q = p % 96;
            lemma_basic_data_only_of_sector(sector_bytes(bytes, k));
            assert(Sector::spec_basic_data_only(sectors[k]));
            assert(sector_bytes(bytes, k)[q] == bytes[p]);
        }
    }
    if forall|p: int|
        0 <= p < bytes.len() && p % (SECTOR_LEN as int) >= 2 * CHANNEL_LEN ==> bytes[p] == 0 {
        assert forall|k: int| 0 <= k < sectors.len() implies Sector::spec_basic_data_only(
            #[trigger] sectors[k],
        ) by {
            lemma_basic_data_only_of_sector(sector_bytes(bytes, k));
            assert forall|q: int| 2 * CHANNEL_LEN <= q < SECTOR_LEN implies sector_bytes(
                bytes,
                k,
            )[q] == 0 by {
                assert((96 * k + q) % 96 == q);
                assert(sector_bytes(bytes, k)[q] == bytes[96 * k + q]);
            }
        }
    }
}

/// A run of sectors keeps to the base standard exactly when each of its
/// sectors does.
pub proof fn lemma_basic_data_only_of_data(data: SubcodeData)
    ensures
        SubcodeData::spec_basic_data_only(data@) <==> forall|k: int|
            0 <= k < data.sectors@.len() ==> Sector::spec_basic_data_only(
                (#[trigger] data.sectors@[k])@,
            ),
{
    if SubcodeData::spec_basic_data_only(data@) {
        assert forall|k: int| 0 <= k < data.sectors@.len() implies Sector::spec_basic_data_only(
            (#[trigger] data.sectors@[k])@,
        ) by {
            assert(data@[k] == data.sectors@[k]@);
        }
    }
    if forall|k: int|
        0 <= k < data.sectors@.len() ==> Sector::spec_basic_data_only(
            (#[trigger] data.sectors@[k])@,
        ) {
        assert forall|k: int| 0 <= k < data@.len() implies Sector::spec_basic_data_only(
            #[trigger] data@[k],
        ) by {
            assert(data@[k] == data.sectors@[k]@);
        }
    }
}

/// Of the first `count` channels, those that pass a test, in channel order:
/// a channel is among them exactly when it is one of the first `count` and
/// passes, and they stand in strictly rising order of position.
proof fn lemma_filtered_channels(count: nat, keep: spec_fn(SubcodeType) -> bool)
    requires
        count <= CHANNEL_COUNT,
    ensures
        forall|channel: SubcodeType|
            first_channels(count).filter(keep).contains(channel) <==> channel.spec_index() < count
                && keep(channel),
        forall|a: int, b: int|
            0 <= a < b < first_channels(count).filter(keep).len() ==> first_channels(count).filter(
                keep,
            )[a].spec_index() < first_channels(count).filter(keep)[b].spec_index(),
    decreases count,
{
    reveal(Seq::filter);
    let kept = first_channels(count).filter(keep);
    if count == 0 {
        assert(kept.len() == 0);
    } else {
        let before = first_channels((count - 1) as nat).filter(keep);
        let last = channel_at(count - 1);
        lemma_filtered_channels((count - 1) as nat, keep);
        assert(first_channels(count).drop_last() =~= first_channels((count - 1) as nat));
        assert(first_channels(count).last() == last);
        assert(last.spec_index() == count - 1);
        assert(kept == if keep(last) {
            before.push(last)
        } else {
            before
        });
        assert forall|channel: SubcodeType|
            kept.contains(channel) <==> channel.spec_index() < count && keep(channel) by {
            if kept.contains(channel) {
                let at = choose|at: int| 0 <= at < kept.len() && kept[at] == channel;
                if at < before.len() {
                    assert(before[at] == channel);
                    assert(before.contains(channel));
                }
            }
            if channel.spec_index() < count && keep(channel) {
                if channel.spec_index() == count - 1 {
                    assert(channel == last);
                    assert(kept[kept.len() - 1] == channel);
                } else {
                    assert(before.contains(channel));
                    let at = choose|at: int| 0 <= at < before.len() && before[at] == channel;
                    assert(kept[at] == channel);
                }
            }
        }
        assert forall|a: int, b: int| 0 <= a < b < kept.len() implies kept[a].spec_index()
            < kept[b].spec_index() by {
            if b == before.len() {
                assert(before.contains(before[a]));
            }
        }
    }
}

/// The channels reported for a sector are those at whose position the code
/// carries data, each once, in channel order.
pub proof fn lemma_channels_with_data(codes: Seq<SubcodeView>)
    requires
        codes.len() <= CHANNEL_COUNT,
    ensures
        forall|channel: SubcodeType|
            Sector::spec_channels_with_data(codes).contains(channel) <==> channel.spec_index()
                < codes.len() && !codes[channel.spec_index()].is_empty(),
        forall|a: int, b: int|
            0 <= a < b < Sector::spec_channels_with_data(codes).len()
                ==> Sector::spec_channels_with_data(codes)[a].spec_index()
                < Sector::spec_channels_with_data(codes)[b].spec_index(),
        Sector::spec_channels_with_data(codes).len() <= codes.len(),
{
    lemma_filtered_channels(codes.len(), carries_data(codes));
    first_channels(codes.len()).lemma_filter_len(carries_data(codes));
}

/// A sector with data in P and in Q and in no other channel reports exactly
/// P and Q.
pub proof fn lemma_channels_of_basic_sector(codes: Seq<SubcodeView>)
    requires
        codes.len() == CHANNEL_COUNT,
        !codes[0].is_empty(),
        !codes[1].is_empty(),
        forall|i: int| 2 <= i < CHANNEL_COUNT ==> (#[trigger] codes[i]).is_empty(),
    ensures
        Sector::spec_channels_with_data(codes) == seq![SubcodeType::P, SubcodeType::Q],
{
    let kept = Sector::spec_channels_with_data(codes);
    lemma_channels_with_data(codes);
    assert(kept.contains(SubcodeType::P));
    assert(kept.contains(SubcodeType::Q));
    assert forall|at: int| 0 <= at < kept.len() implies kept[at].spec_index() < 2 by {
        assert(kept.contains(kept[at]));
    }
    assert(kept.len() == 2) by {
        if kept.len() > 2 {
            assert(kept[0].spec_index() < kept[1].spec_index() < kept[2].spec_index());
        }
    }
    assert(kept[0].spec_index() < kept[1].spec_index());
    assert(kept =~= seq![SubcodeType::P, SubcodeType::Q]);
}

/// A sector with data in every channel reports all eight, from P to W.
pub proof fn lemma_channels_of_full_sector(codes: Seq<SubcodeView>)
    requires
        codes.len() == CHANNEL_COUNT,
        forall|i: int| 0 <= i < CHANNEL_COUNT ==> !(#[trigger] codes[i]).is_empty(),
    ensures
        Sector::spec_channels_with_data(codes) == seq![
            SubcodeType::P,
            SubcodeType::Q,
            SubcodeType::R,
            SubcodeType::S,
            SubcodeType::T,
            SubcodeType::U,
            SubcodeType::V,
            SubcodeType::W,
        ],
{
    lemma_every_channel_kept(codes, CHANNEL_COUNT as nat);
    assert(first_channels(8) =~= seq![
        SubcodeType::P,
        SubcodeType::Q,
        SubcodeType::R,
        SubcodeType::S,
        SubcodeType::T,
        SubcodeType::U,
        SubcodeType::V,
        SubcodeType::W,
    ]);
}

/// Where each of the first `count` codes carries data, none of the first
/// `count` channels is left out.
proof fn lemma_every_channel_kept(codes: Seq<SubcodeView>, count: nat)
    requires
        count <= codes.len() <= CHANNEL_COUNT,
        forall|i: int| 0 <= i < count ==> !(#[trigger] codes[i]).is_empty(),
    ensures
        first_channels(count).filter(carries_data(codes)) == first_channels(count),
    decreases count,
{
    reveal(Seq::filter);
    if count > 0 {
        lemma_every_channel_kept(codes, (count - 1) as nat);
        assert(first_channels(count).drop_last() =~= first_channels((count - 1) as nat));
        assert(first_channels(count).last().spec_index() == count - 1);
        assert(!codes[count - 1].is_empty());
        assert(first_channels((count - 1) as nat).push(first_channels(count).last())
            =~= first_channels(count));
    }
}

/// In a well-formed sector the channels reported are the names that the
/// codes with data bear.
pub proof fn lemma_channels_with_data_by_name(codes: Seq<SubcodeView>)
    requires
        Sector::spec_wf(codes),
    ensures
        forall|channel: SubcodeType|
            Sector::spec_channels_with_data(codes).contains(channel) <==> exists|i: int|
                0 <= i < codes.len() && (#[trigger] codes[i]).channel == channel
                    && !codes[i].is_empty(),
{
    lemma_channels_with_data(codes);
    assert forall|channel: SubcodeType|
        Sector::spec_channels_with_data(codes).contains(channel) <==> exists|i: int|
            0 <= i < codes.len() && (#[trigger] codes[i]).channel == channel
                && !codes[i].is_empty() by {
        if Sector::spec_channels_with_data(codes).contains(channel) {
            assert(codes[channel.spec_index()].channel == channel);
        }
    }
}

/// Parsing is a function of the bytes alone: two results of parsing one
/// buffer have the same number of sectors, and at every position of every
/// sector the same channel with the same bytes.
pub proof fn lemma_parse_repeatable(bytes: Seq<u8>, first: SubcodeData, second: SubcodeData)
    requires
        first@ == SubcodeData::spec_parse(bytes),
        second@ == SubcodeData::spec_parse(bytes),
    ensures
        first.sectors@.len() == second.sectors@.len(),
        forall|k: int|
            0 <= k < first.sectors@.len() ==> (#[trigger] first.sectors@[k]).codes@.len()
                == second.sectors@[k].codes@.len(),
        forall|k: int, i: int|
            0 <= k < first.sectors@.len() && 0 <= i < first.sectors@[k].codes@.len() ==> {
                &&& (#[trigger] first.sectors@[k].codes@[i]).channel
                    == second.sectors@[k].codes@[i].channel
                &&& first.sectors@[k].codes@[i].data@ == second.sectors@[k].codes@[i].data@
            },
{
    assert(first@.len() == second@.len());
    assert forall|k: int| 0 <= k < first.sectors@.len() implies (#[trigger] first.sectors@[k]).codes@.len()
        == second.sectors@[k].codes@.len() && forall|i: int|
        0 <= i < first.sectors@[k].codes@.len() ==> {
            &&& (#[trigger] first.sectors@[k].codes@[i]).channel
                == second.sectors@[k].codes@[i].channel
            &&& first.sectors@[k].codes@[i].data@ == second.sectors@[k].codes@[i].data@
        } by {
        assert(first@[k] == second@[k]);
        assert(first.sectors@[k]@.len() == second.sectors@[k]@.len());
        assert forall|i: int| 0 <= i < first.sectors@[k].codes@.len() implies {
            &&& (#[trigger] first.sectors@[k].codes@[i]).channel
                == second.sectors@[k].codes@[i].channel
            &&& first.sectors@[k].codes@[i].data@ == second.sectors@[k].codes@[i].data@
        } by {
            assert(first.sectors@[k]@[i] == second.sectors@[k]@[i]);
        }
    }
}

} // verus!
