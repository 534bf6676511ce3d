use subchannel::subcode::{
    InvalidDataError, Sector, Subcode, SubcodeData, SubcodeType, CHANNEL_COUNT, CHANNEL_LEN,
    SECTOR_LEN,
};

const CHANNELS: [SubcodeType; 8] = [
    SubcodeType::P,
    SubcodeType::Q,
    SubcodeType::R,
    SubcodeType::S,
    SubcodeType::T,
    SubcodeType::U,
    SubcodeType::V,
    SubcodeType::W,
];

/// Bytes that differ from place to place, so that a misplaced slice shows.
fn counting_bytes(len: usize) -> Vec<u8> {
    let mut data = Vec::with_capacity(len);
    for i in 0..len {
        data.push((i * 7 % 251) as u8);
    }
    data
}

#[test]
fn sizes_are_those_of_a_sector() {
    assert_eq!(CHANNEL_COUNT, 8);
    assert_eq!(CHANNEL_LEN, 12);
    assert_eq!(SECTOR_LEN, 96);
}

#[test]
fn data_of_a_length_that_is_no_multiple_of_a_sector_is_refused_with_its_length() {
    for len in [1usize, 5, 12, 95, 97, 191, 193, 959] {
        assert_eq!(
            SubcodeData::parse(vec![0; len]),
            Err(InvalidDataError::InvalidSubcodeDataLength { length: len })
        );
    }
}

#[test]
fn empty_data_parses_to_no_sector() {
    let data = SubcodeData::parse(vec![]).unwrap();
    assert_eq!(data.sectors.len(), 0);
    assert!(data.contains_basic_data_only());
}

#[test]
fn data_parses_to_one_sector_for_each_run_of_bytes() {
    for count in [1usize, 2, 3, 10] {
        let data = SubcodeData::parse(vec![0; count * 96]).unwrap();
        assert_eq!(data.sectors.len(), count);
    }
}

#[test]
fn data_keeps_the_order_of_sectors_and_their_bytes() {
    let bytes = counting_bytes(3 * 96);
    let data = SubcodeData::parse(bytes.clone()).unwrap();
    assert_eq!(data.sectors.len(), 3);
    for (k, sector) in data.sectors.iter().enumerate() {
        assert_eq!(sector.codes.len(), 8);
        for (i, code) in sector.codes.iter().enumerate() {
            let start = 96 * k + 12 * i;
            assert_eq!(code.channel, CHANNELS[i]);
            assert_eq!(code.data, bytes[start..start + 12].to_vec());
        }
    }
}

#[test]
fn second_sector_starts_at_byte_ninety_six() {
    let mut bytes = vec![0u8; 192];
    bytes[96] = 0xAB;
    bytes[191] = 0xCD;
    let data = SubcodeData::parse(bytes).unwrap();
    assert!(data.sectors[0].codes.iter().all(|code| code.is_empty()));
    assert_eq!(data.sectors[1].codes[0].data[0], 0xAB);
    assert_eq!(data.sectors[1].codes[7].data[11], 0xCD);
}

#[test]
fn sector_of_another_length_is_refused_with_its_length() {
    for len in [0usize, 1, 12, 95, 97, 192] {
        assert_eq!(
            Sector::parse(vec![0; len]),
            Err(InvalidDataError::InvalidSectorLength { length: len })
        );
    }
}

#[test]
fn sector_holds_eight_channels_in_order_with_their_bytes() {
    let bytes = counting_bytes(96);
    let sector = Sector::parse(bytes.clone()).unwrap();
    assert_eq!(sector.codes.len(), 8);
    for (i, code) in sector.codes.iter().enumerate() {
        assert_eq!(code.channel, CHANNELS[i]);
        assert_eq!(code.data.len(), 12);
        assert_eq!(code.data, bytes[12 * i..12 * i + 12].to_vec());
    }
    assert_eq!(sector.codes[2].data[0], (24 * 7 % 251) as u8);
}

#[test]
fn sector_of_sector_length_never_fails() {
    for fill in [0u8, 1, 0x7F, 0xFF] {
        assert!(Sector::parse(vec![fill; 96]).is_ok());
    }
}

#[test]
fn parsing_twice_gives_equal_results() {
    let bytes = counting_bytes(5 * 96);
    let first = SubcodeData::parse(bytes.clone()).unwrap();
    let second = SubcodeData::parse(bytes).unwrap();
    assert_eq!(first.sectors.len(), second.sectors.len());
    for (a, b) in first.sectors.iter().zip(second.sectors.iter()) {
        assert_eq!(a.codes.len(), b.codes.len());
        for (x, y) in a.codes.iter().zip(b.codes.iter()) {
            assert_eq!(x.channel, y.channel);
            assert_eq!(x.data, y.data);
        }
    }
    assert_eq!(first, second);
}

#[test]
fn refusing_twice_gives_equal_errors() {
    assert_eq!(SubcodeData::parse(vec![3; 100]), SubcodeData::parse(vec![3; 100]));
    assert_eq!(Sector::parse(vec![3; 100]), Sector::parse(vec![3; 100]));
}

#[test]
fn channel_of_each_position() {
    for (i, channel) in CHANNELS.iter().enumerate() {
        assert_eq!(SubcodeType::from_index(i), Some(*channel));
    }
}

#[test]
fn position_past_the_last_channel_names_none() {
    assert_eq!(SubcodeType::from_index(8), None);
    assert_eq!(SubcodeType::from_index(9), None);
    assert_eq!(SubcodeType::from_index(96), None);
    assert_eq!(SubcodeType::from_index(usize::MAX), None);
}

#[test]
fn every_channel_is_named_by_its_letter() {
    let names: Vec<String> = CHANNELS.iter().map(|channel| channel.to_string()).collect();
    assert_eq!(names, vec!["P", "Q", "R", "S", "T", "U", "V", "W"]);
}

#[test]
fn subcode_is_empty_only_when_every_byte_is_zero() {
    for at in 0..12 {
        let mut data = vec![0u8; 12];
        assert!(Subcode { channel: SubcodeType::R, data: data.clone() }.is_empty());
        data[at] = 1;
        assert!(!Subcode { channel: SubcodeType::R, data }.is_empty());
    }
    assert!(!Subcode { channel: SubcodeType::W, data: vec![0xFF; 12] }.is_empty());
}

#[test]
fn subcode_without_bytes_is_empty() {
    assert!(Subcode { channel: SubcodeType::P, data: vec![] }.is_empty());
}
