use subchannel::subcode::{Sector, Subcode, SubcodeData, SubcodeType};

/// A sector's bytes in which the channels at the given positions hold `fill`
/// and all others zero.
fn sector_bytes_with(channels: &[usize], fill: u8) -> Vec<u8> {
    let mut data = vec![0u8; 96];
    for &channel in channels {
        for byte in &mut data[12 * channel..12 * channel + 12] {
            *byte = fill;
        }
    }
    data
}

#[test]
fn sector_of_zeros_is_basic_and_has_no_data() {
    let sector = Sector::parse(vec![0; 96]).unwrap();
    assert!(sector.contains_basic_data_only());
    assert_eq!(sector.contains_data_in_channels(), vec![]);
}

#[test]
fn any_byte_behind_q_makes_a_sector_non_basic() {
    for at in 24..96 {
        for basic_fill in [0u8, 1] {
            let mut data = sector_bytes_with(&[0, 1], basic_fill);
            data[at] = 0x80;
            let sector = Sector::parse(data).unwrap();
            assert!(!sector.contains_basic_data_only());
        }
    }
}

#[test]
fn bytes_in_p_and_q_leave_a_sector_basic() {
    for at in 0..24 {
        let mut data = vec![0u8; 96];
        data[at] = 0xFF;
        let sector = Sector::parse(data).unwrap();
        assert!(sector.contains_basic_data_only());
    }
}

#[test]
fn sector_with_p_and_q_reports_exactly_these() {
    let sector = Sector::parse(sector_bytes_with(&[0, 1], 1)).unwrap();
    assert_eq!(sector.contains_data_in_channels(), vec![SubcodeType::P, SubcodeType::Q]);
}

#[test]
fn full_sector_reports_all_channels_in_order() {
    let sector = Sector::parse(vec![1; 96]).unwrap();
    assert_eq!(
        sector.contains_data_in_channels(),
        vec![
            SubcodeType::P,
            SubcodeType::Q,
            SubcodeType::R,
            SubcodeType::S,
            SubcodeType::T,
            SubcodeType::U,
            SubcodeType::V,
            SubcodeType::W,
        ]
    );
}

#[test]
fn channels_with_data_come_in_channel_order() {
    let sector = Sector::parse(sector_bytes_with(&[7, 2, 4], 9)).unwrap();
    assert_eq!(
        sector.contains_data_in_channels(),
        vec![SubcodeType::R, SubcodeType::T, SubcodeType::W]
    );
    assert!(!sector.contains_basic_data_only());
}

#[test]
fn single_byte_is_enough_for_a_channel_to_be_reported() {
    for channel in 0..8 {
        let mut data = vec![0u8; 96];
        data[12 * channel + 11] = 1;
        let sector = Sector::parse(data).unwrap();
        assert_eq!(
            sector.contains_data_in_channels(),
            vec![SubcodeType::from_index(channel).unwrap()]
        );
        assert_eq!(sector.contains_basic_data_only(), channel < 2);
    }
}

#[test]
fn sector_built_by_hand_is_judged_by_names_and_reported_by_position() {
    let sector = Sector {
        codes: vec![
            Subcode { channel: SubcodeType::Q, data: vec![5; 12] },
            Subcode { channel: SubcodeType::S, data: vec![0; 12] },
        ],
    };
    assert!(sector.contains_basic_data_only());
    assert_eq!(sector.contains_data_in_channels(), vec![SubcodeType::P]);

    let sector = Sector { codes: vec![Subcode { channel: SubcodeType::S, data: vec![0, 2] }] };
    assert!(!sector.contains_basic_data_only());
}

#[test]
fn sector_without_codes_is_basic() {
    let sector = Sector { codes: vec![] };
    assert!(sector.contains_basic_data_only());
    assert_eq!(sector.contains_data_in_channels(), vec![]);
}

#[test]
fn disc_is_basic_only_when_every_sector_is() {
    let basic = sector_bytes_with(&[0, 1], 1);
    let extended = sector_bytes_with(&[0, 1, 5], 1);
    for (sectors, expected) in [
        (vec![&basic, &basic, &basic], true),
        (vec![&extended, &basic, &basic], false),
        (vec![&basic, &extended, &basic], false),
        (vec![&basic, &basic, &extended], false),
        (vec![&extended, &extended], false),
    ] {
        let mut data = vec![];
        for sector in sectors {
            data.extend_from_slice(sector);
        }
        let disc = SubcodeData::parse(data).unwrap();
        assert_eq!(disc.contains_basic_data_only(), expected);
        assert_eq!(
            disc.contains_basic_data_only(),
            disc.sectors.iter().all(|sector| sector.contains_basic_data_only())
        );
    }
}

#[test]
fn disc_built_by_hand_without_sectors_is_basic() {
    assert!(SubcodeData { sectors: vec![] }.contains_basic_data_only());
}
