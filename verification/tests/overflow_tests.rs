use sqlite_pager::errors::DBError;
use sqlite_pager::overflow::split_payload;
use sqlite_pager::pager::Pager;

const MAGIC: [u8; 16] = [
    0x53, 0x51, 0x4c, 0x69, 0x74, 0x65, 0x20, 0x66, 0x6f, 0x72, 0x6d, 0x61, 0x74, 0x20, 0x33,
    0x00,
];

fn blank_image(npages: usize) -> Vec<u8> {
    let mut image = vec![0u8; 512 * npages];
    image[..16].copy_from_slice(&MAGIC);
    image[16] = 0x02;
    image[17] = 0x00;
    image[59] = 1;
    image
}

#[test]
fn split_keeps_small_payloads_local() {
    let payload: Vec<u8> = (0..100u32).map(|i| i as u8).collect();
    let (local, chunks) = split_payload(&payload, 512);
    assert_eq!(local, payload);
    assert!(chunks.is_empty());
}

#[test]
fn split_follows_the_encoder_formula() {
    // usable 512: max_local = 477, min_local = (500 * 32) / 255 - 23 = 39.
    let payload: Vec<u8> = (0..1000u32).map(|i| (i % 251) as u8).collect();
    let (local, chunks) = split_payload(&payload, 512);
    assert_eq!(local.len(), 39);
    assert_eq!(local[..], payload[..39]);
    // Each overflow page holds at most usable - 4 = 508 bytes.
    assert_eq!(chunks.len(), 2);
    assert_eq!(chunks[0].len(), 508);
    assert_eq!(chunks[1].len(), 1000 - 39 - 508);
    let mut rebuilt = local.clone();
    for chunk in &chunks {
        rebuilt.extend_from_slice(chunk);
    }
    assert_eq!(rebuilt, payload);
}

#[test]
fn overflow_chain_reassembles_split_payload() {
    let payload: Vec<u8> = (0..1000u32).map(|i| (i % 251) as u8).collect();
    let (local, chunks) = split_payload(&payload, 512);
    assert_eq!(chunks.len(), 2);

    // Lay the chunks out on overflow pages 2 and 3.
    let mut image = blank_image(3);
    image[512..516].copy_from_slice(&3u32.to_be_bytes());
    image[516..516 + chunks[0].len()].copy_from_slice(&chunks[0]);
    image[1024..1028].copy_from_slice(&0u32.to_be_bytes());
    image[1028..1028 + chunks[1].len()].copy_from_slice(&chunks[1]);

    let pager = Pager::open(image).unwrap();
    let remaining = (payload.len() - local.len()) as u64;
    let rest = pager.read_overflow_chain(2, remaining).unwrap();
    let mut rebuilt = local.clone();
    rebuilt.extend_from_slice(&rest);
    assert_eq!(rebuilt, payload);
}

#[test]
fn overflow_chain_ending_early_is_truncated() {
    let image = blank_image(2);
    // Page 2 claims no successor; asking for more than one page holds
    // runs off the chain's end.
    let pager = Pager::open(image).unwrap();
    assert_eq!(
        pager.read_overflow_chain(2, 1000),
        Err(DBError::TruncatedOverflowChain)
    );
}

#[test]
fn overflow_chain_outside_image_is_truncated_file() {
    let image = blank_image(1);
    let pager = Pager::open(image).unwrap();
    assert_eq!(
        pager.read_overflow_chain(9, 10),
        Err(DBError::TruncatedFile)
    );
}
