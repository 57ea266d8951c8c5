use multiqr::{
    capacity, per_chunk_data, plan_chunks, split_payload, EcLevel, MultiQrCode, SegmentError, Version,
    DEFAULT_EC_LEVEL, DEFAULT_QR_VERSION, MAX_CHUNKS, QR_DATA_LENGTHS, QR_VERSION_SLACK,
};
use qrcode::types::QrError;

const LEVELS: [EcLevel; 4] = [EcLevel::L, EcLevel::M, EcLevel::Q, EcLevel::H];

fn numbered(len: usize) -> Vec<u8> {
    (0..len).map(|i| (i % 251) as u8).collect()
}

#[test]
fn capacity_reads_the_table() {
    assert_eq!(capacity(Version::Normal(1), EcLevel::L), Ok(19));
    assert_eq!(capacity(Version::Normal(1), EcLevel::H), Ok(9));
    assert_eq!(capacity(Version::Normal(10), EcLevel::Q), Ok(154));
    assert_eq!(capacity(Version::Normal(40), EcLevel::L), Ok(2956));
    assert_eq!(capacity(Version::Normal(40), EcLevel::H), Ok(1276));
}

#[test]
fn capacity_rejects_bad_versions() {
    assert_eq!(capacity(Version::Normal(0), EcLevel::L), Err(SegmentError::InvalidSizeClass));
    assert_eq!(capacity(Version::Normal(41), EcLevel::M), Err(SegmentError::InvalidSizeClass));
    assert_eq!(capacity(Version::Normal(-3), EcLevel::M), Err(SegmentError::InvalidSizeClass));
    assert_eq!(capacity(Version::Micro(2), EcLevel::L), Err(SegmentError::UnsupportedSizeClass));
}

#[test]
fn capacity_table_is_ordered() {
    for v in 1..=40i16 {
        for (c, ec) in LEVELS.iter().enumerate() {
            let here = capacity(Version::Normal(v), *ec).unwrap();
            assert_eq!(here, QR_DATA_LENGTHS[(v - 1) as usize][c]);
            if v < 40 {
                assert!(here <= capacity(Version::Normal(v + 1), *ec).unwrap());
            }
            if c < 3 {
                assert!(capacity(Version::Normal(v), LEVELS[c + 1]).unwrap() <= here);
            }
        }
    }
}

#[test]
fn version_and_level_indices() {
    assert_eq!(Version::Normal(1).to_index(), Some(0));
    assert_eq!(Version::Normal(40).to_index(), Some(39));
    assert_eq!(Version::Micro(1).to_index(), Some(40));
    assert_eq!(Version::Micro(4).to_index(), Some(43));
    assert_eq!(Version::Normal(41).to_index(), None);
    assert_eq!(Version::Micro(5).to_index(), None);
    assert_eq!(EcLevel::L.to_index(), 0);
    assert_eq!(EcLevel::H.to_index(), 3);
}

#[test]
fn per_chunk_data_subtracts_index_and_slack() {
    assert_eq!(per_chunk_data(Version::Normal(1), EcLevel::L, 2), Ok(16));
    assert_eq!(per_chunk_data(Version::Normal(10), EcLevel::L, 3), Ok(270));
    assert_eq!(per_chunk_data(Version::Normal(1), EcLevel::L, 17), Ok(1));
    assert_eq!(per_chunk_data(Version::Normal(1), EcLevel::L, 18), Err(SegmentError::InsufficientCapacity));
    assert_eq!(per_chunk_data(Version::Normal(1), EcLevel::L, usize::MAX), Err(SegmentError::InsufficientCapacity));
}

#[test]
fn chunks_rejoin_to_the_payload() {
    let data = numbered(40);
    let chunks = plan_chunks(&data, Version::Normal(1), EcLevel::L, 2).unwrap();
    assert_eq!(chunks.len(), 3);
    let mut joined: Vec<u8> = Vec::new();
    for c in &chunks {
        joined.extend_from_slice(&c[1..]);
    }
    assert_eq!(joined, data);
    assert_eq!(chunks[2], [vec![2u8], data[32..40].to_vec()].concat());
}

#[test]
fn chunk_indices_count_up_from_zero() {
    let data = numbered(1000);
    let chunks = plan_chunks(&data, Version::Normal(2), EcLevel::M, 2).unwrap();
    // 28 bytes less 3 leave 25 per chunk.
    assert_eq!(chunks.len(), 40);
    for (i, c) in chunks.iter().enumerate() {
        assert_eq!(c[0] as usize, i);
    }
}

#[test]
fn chunks_fit_capacity_less_slack() {
    let data = numbered(777);
    for slack in 0..5usize {
        let chunks = plan_chunks(&data, Version::Normal(3), EcLevel::Q, slack).unwrap();
        for c in &chunks {
            assert!(c.len() <= 34 - slack);
        }
        assert_eq!(chunks[0].len(), 34 - slack);
    }
}

#[test]
fn empty_payload_gives_one_empty_chunk() {
    let chunks = plan_chunks(&[], Version::Normal(5), EcLevel::H, 3).unwrap();
    assert_eq!(chunks, vec![vec![0u8]]);
    let qr = MultiQrCode::new(&[], Version::Normal(5), EcLevel::H).unwrap();
    assert_eq!(qr.codes.len(), 1);
}

#[test]
fn hello_fits_one_smallest_symbol() {
    let data = "Hello world!".as_bytes();
    let chunks = plan_chunks(data, Version::Normal(1), EcLevel::L, QR_VERSION_SLACK[0]).unwrap();
    assert_eq!(chunks.len(), 1);
    assert_eq!(chunks[0][0], 0x00);
    assert_eq!(&chunks[0][1..], data);
    let qr = MultiQrCode::new(data, Version::Normal(1), EcLevel::L).unwrap();
    assert_eq!(qr.codes.len(), 1);
    assert_eq!(qr.codes[0].width(), 21);
}

#[test]
fn slack_past_capacity_is_insufficient() {
    let r = MultiQrCode::with_slack("Hello world!".as_bytes(), Version::Normal(1), EcLevel::L, 18);
    assert!(matches!(r, Err(SegmentError::InsufficientCapacity)));
    let r = MultiQrCode::with_slack(&[], Version::Normal(1), EcLevel::L, 50);
    assert!(matches!(r, Err(SegmentError::InsufficientCapacity)));
}

#[test]
fn too_many_chunks_is_refused() {
    // Version 1 at L with slack 2 holds 16 payload bytes per chunk.
    let most = numbered(16 * MAX_CHUNKS);
    assert_eq!(split_payload(&most, 16).unwrap().len(), 256);
    let over = numbered(16 * MAX_CHUNKS + 1);
    assert_eq!(split_payload(&over, 16), Err(SegmentError::TooManyChunks));
    let r = MultiQrCode::new(&over, Version::Normal(1), EcLevel::L);
    assert!(matches!(r, Err(SegmentError::TooManyChunks)));
}

#[test]
fn micro_versions_are_unsupported() {
    let r = MultiQrCode::new("abc".as_bytes(), Version::Micro(3), EcLevel::L);
    assert!(matches!(r, Err(SegmentError::UnsupportedSizeClass)));
    let r = MultiQrCode::with_slack("abc".as_bytes(), Version::Micro(1), EcLevel::L, 0);
    assert!(matches!(r, Err(SegmentError::UnsupportedSizeClass)));
    let r = MultiQrCode::new("abc".as_bytes(), Version::Normal(0), EcLevel::L);
    assert!(matches!(r, Err(SegmentError::InvalidSizeClass)));
}

#[test]
fn no_slack_overflows_the_encoder() {
    // 18 payload bytes and the index need 4 + 8 + 19 * 8 bits; version 1 at L holds 152.
    let r = MultiQrCode::with_slack(&numbered(30), Version::Normal(1), EcLevel::L, 0);
    assert_eq!(
        r.err(),
        Some(SegmentError::EncodingFailed { chunk_index: 0, cause: QrError::DataTooLong })
    );
}

#[test]
fn default_slack_is_enough_for_full_chunks() {
    for v in 1..=40i16 {
        let per = per_chunk_data(Version::Normal(v), EcLevel::L, QR_VERSION_SLACK[(v - 1) as usize]).unwrap();
        let data = vec![0xffu8; 2 * per];
        let qr = MultiQrCode::new(&data, Version::Normal(v), EcLevel::L).unwrap();
        assert_eq!(qr.codes.len(), 2);
    }
}

#[test]
fn one_byte_less_slack_can_overflow() {
    // At version 1 the default slack of 2 is the least that works.
    let data = vec![0xffu8; 17];
    let r = MultiQrCode::with_slack(&data, Version::Normal(1), EcLevel::L, 1);
    assert!(matches!(r, Err(SegmentError::EncodingFailed { chunk_index: 0, .. })));
}

#[test]
fn default_uses_largest_version_at_level_l() {
    assert_eq!(DEFAULT_QR_VERSION, 40);
    assert_eq!(DEFAULT_EC_LEVEL, EcLevel::L);
    let data = numbered(3000);
    let qr = MultiQrCode::default(&data).unwrap();
    // 2956 bytes less 3 of slack and 1 of index leave 2952 per chunk.
    assert_eq!(qr.codes.len(), 2);
    assert_eq!(qr.codes[0].width(), 177);
}
