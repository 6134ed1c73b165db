use swarm_cli::inflate::{inflate_raw, Huffman};
use swarm_cli::zip_archive::{crc32, read_zip_entry};

fn hex_bytes(value: &str) -> Vec<u8> {
    value
        .as_bytes()
        .chunks_exact(2)
        .map(|pair| {
            let high = (pair[0] as char).to_digit(16).unwrap();
            let low = (pair[1] as char).to_digit(16).unwrap();
            ((high << 4) | low) as u8
        })
        .collect()
}

fn stored_jar(name: &str, contents: &[u8]) -> Vec<u8> {
    let name = name.as_bytes();
    let crc = crc32(contents);
    let mut out = Vec::new();
    out.extend_from_slice(&0x0403_4b50u32.to_le_bytes());
    out.extend_from_slice(&20u16.to_le_bytes());
    out.extend_from_slice(&0u16.to_le_bytes());
    out.extend_from_slice(&0u16.to_le_bytes());
    out.extend_from_slice(&0u16.to_le_bytes());
    out.extend_from_slice(&0u16.to_le_bytes());
    out.extend_from_slice(&crc.to_le_bytes());
    out.extend_from_slice(&(contents.len() as u32).to_le_bytes());
    out.extend_from_slice(&(contents.len() as u32).to_le_bytes());
    out.extend_from_slice(&(name.len() as u16).to_le_bytes());
    out.extend_from_slice(&0u16.to_le_bytes());
    out.extend_from_slice(name);
    out.extend_from_slice(contents);

    let central_offset = out.len() as u32;
    out.extend_from_slice(&0x0201_4b50u32.to_le_bytes());
    out.extend_from_slice(&20u16.to_le_bytes());
    out.extend_from_slice(&20u16.to_le_bytes());
    out.extend_from_slice(&0u16.to_le_bytes());
    out.extend_from_slice(&0u16.to_le_bytes());
    out.extend_from_slice(&0u16.to_le_bytes());
    out.extend_from_slice(&0u16.to_le_bytes());
    out.extend_from_slice(&crc.to_le_bytes());
    out.extend_from_slice(&(contents.len() as u32).to_le_bytes());
    out.extend_from_slice(&(contents.len() as u32).to_le_bytes());
    out.extend_from_slice(&(name.len() as u16).to_le_bytes());
    out.extend_from_slice(&0u16.to_le_bytes());
    out.extend_from_slice(&0u16.to_le_bytes());
    out.extend_from_slice(&0u16.to_le_bytes());
    out.extend_from_slice(&0u16.to_le_bytes());
    out.extend_from_slice(&0u32.to_le_bytes());
    out.extend_from_slice(&0u32.to_le_bytes());
    out.extend_from_slice(name);
    let central_size = out.len() as u32 - central_offset;

    out.extend_from_slice(&0x0605_4b50u32.to_le_bytes());
    out.extend_from_slice(&0u16.to_le_bytes());
    out.extend_from_slice(&0u16.to_le_bytes());
    out.extend_from_slice(&1u16.to_le_bytes());
    out.extend_from_slice(&1u16.to_le_bytes());
    out.extend_from_slice(&central_size.to_le_bytes());
    out.extend_from_slice(&central_offset.to_le_bytes());
    out.extend_from_slice(&0u16.to_le_bytes());
    out
}

const DEFLATED_METADATA: &str = "ab562a4ece48cd4d0c4b2d2acecccf53b232d451ca4c51b252cac92cc9c82ccd55d2512a83492919e8199aea190085f2127353817c1fb89ad4bcb2cca2fcbcdcd4bc12a078716a115093522d00";

#[test]
fn dynamic_or_fixed_deflate_stream_expands_to_metadata() {
    let compressed = hex_bytes(DEFLATED_METADATA);
    let bytes = inflate_raw(&compressed, 93, 1024).unwrap();
    let text = String::from_utf8(bytes).unwrap();
    assert!(text.contains("\"id\":\"lithium\""));
    assert!(text.contains("\"version\":\"0.15.0\""));
}

#[test]
fn deflate_refuses_wrong_size_limits_and_truncation() {
    let compressed = hex_bytes(DEFLATED_METADATA);
    assert!(inflate_raw(&compressed, 92, 1024).is_err());
    assert!(inflate_raw(&compressed, 93, 92).is_err());
    assert!(inflate_raw(&compressed[..compressed.len() - 3], 93, 1024).is_err());
    assert!(inflate_raw(&[], 0, 10).is_err());
}

#[test]
fn stored_deflate_block_copies_bytes() {
    // final stored block, LEN = 3, NLEN = !3, then "abc".
    let stream = [0x01, 0x03, 0x00, 0xfc, 0xff, b'a', b'b', b'c'];
    assert_eq!(inflate_raw(&stream, 3, 10).unwrap(), b"abc".to_vec());
    let bad_nlen = [0x01, 0x03, 0x00, 0xfd, 0xff, b'a', b'b', b'c'];
    assert!(inflate_raw(&bad_nlen, 3, 10).is_err());
    // reserved block type 3
    assert!(inflate_raw(&[0x07], 0, 10).is_err());
}

#[test]
fn crc32_matches_reference_values() {
    assert_eq!(crc32(b""), 0);
    assert_eq!(crc32(b"123456789"), 0xcbf4_3926);
    assert_eq!(crc32(b"abc"), 0x3524_41c2);
}

#[test]
fn rejects_invalid_jar() {
    assert!(read_zip_entry(b"not a jar", "fabric.mod.json").is_err());
}

#[test]
fn stored_entry_is_read_back_from_a_jar() {
    let metadata = br#"{"schemaVersion":1,"id":"lithium","version":"0.15.0","environment":"server"}"#;
    let jar = stored_jar("fabric.mod.json", metadata);
    assert_eq!(read_zip_entry(&jar, "fabric.mod.json").unwrap(), metadata.to_vec());
    assert!(read_zip_entry(&jar, "other.json").is_err());
}

#[test]
fn corrupted_entry_fails_its_checksum() {
    let metadata = br#"{"schemaVersion":1}"#;
    let mut jar = stored_jar("fabric.mod.json", metadata);
    let data_offset = 30 + "fabric.mod.json".len();
    jar[data_offset] ^= 0x20;
    assert!(read_zip_entry(&jar, "fabric.mod.json").is_err());
}

#[test]
fn duplicate_entries_are_refused() {
    let metadata = br#"{}"#;
    let single = stored_jar("fabric.mod.json", metadata);
    // Build an archive whose central directory lists the same name twice.
    let local_len = 30 + "fabric.mod.json".len() + metadata.len();
    let central = single[local_len..single.len() - 22].to_vec();
    let mut jar = single[..local_len].to_vec();
    let central_offset = jar.len() as u32;
    jar.extend_from_slice(&central);
    jar.extend_from_slice(&central);
    let central_size = (central.len() * 2) as u32;
    jar.extend_from_slice(&0x0605_4b50u32.to_le_bytes());
    jar.extend_from_slice(&0u16.to_le_bytes());
    jar.extend_from_slice(&0u16.to_le_bytes());
    jar.extend_from_slice(&2u16.to_le_bytes());
    jar.extend_from_slice(&2u16.to_le_bytes());
    jar.extend_from_slice(&central_size.to_le_bytes());
    jar.extend_from_slice(&central_offset.to_le_bytes());
    jar.extend_from_slice(&0u16.to_le_bytes());
    assert!(read_zip_entry(&jar, "fabric.mod.json").is_err());
}

#[test]
fn huffman_lengths_follow_kraft_inequality() {
    assert!(Huffman::from_lengths(&[1, 1]).is_ok());
    assert!(Huffman::from_lengths(&[1, 1, 1]).is_err());
    assert!(Huffman::from_lengths(&[16]).is_err());
    assert!(Huffman::from_lengths(&[1, 2]).is_ok());
    assert!(Huffman::from_lengths(&[0, 0, 0]).is_ok());
    let long = vec![9u8; 400];
    assert!(Huffman::from_lengths(&long).is_ok());
    let too_many = vec![8u8; 257];
    assert!(Huffman::from_lengths(&too_many).is_err());
}
