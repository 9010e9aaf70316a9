use zipstore::builder::{Archiver, BuildError};
use zipstore::format::Entry;
use zipstore::parse::{parse_archive, ParseError};
use zipstore::pipeline::{extract_plan, zip_entries};

fn le16(v: &mut Vec<u8>, x: u16) {
    v.extend_from_slice(&x.to_le_bytes());
}

fn le32(v: &mut Vec<u8>, x: u32) {
    v.extend_from_slice(&x.to_le_bytes());
}

/// A hand-built single-entry container, for shapes the archiver never writes.
fn crafted(method: u16, name: &[u8], comp: &[u8], uncomp_size: u32, crc: u32) -> Vec<u8> {
    let mut v = Vec::new();
    v.extend_from_slice(&[0x50, 0x4B, 0x03, 0x04]);
    le16(&mut v, 20);
    le16(&mut v, 0);
    le16(&mut v, method);
    le16(&mut v, 0);
    le16(&mut v, 33);
    le32(&mut v, crc);
    le32(&mut v, comp.len() as u32);
    le32(&mut v, uncomp_size);
    le16(&mut v, name.len() as u16);
    le16(&mut v, 0);
    v.extend_from_slice(name);
    v.extend_from_slice(comp);
    let cd = v.len() as u32;
    v.extend_from_slice(&[0x50, 0x4B, 0x01, 0x02]);
    le16(&mut v, 20);
    le16(&mut v, 20);
    le16(&mut v, 0);
    le16(&mut v, method);
    le16(&mut v, 0);
    le16(&mut v, 33);
    le32(&mut v, crc);
    le32(&mut v, comp.len() as u32);
    le32(&mut v, uncomp_size);
    le16(&mut v, name.len() as u16);
    le16(&mut v, 0);
    le16(&mut v, 0);
    le16(&mut v, 0);
    le16(&mut v, 0);
    le32(&mut v, 0);
    le32(&mut v, 0);
    v.extend_from_slice(name);
    let cd_size = v.len() as u32 - cd;
    v.extend_from_slice(&[0x50, 0x4B, 0x05, 0x06]);
    le16(&mut v, 0);
    le16(&mut v, 0);
    le16(&mut v, 1);
    le16(&mut v, 1);
    le32(&mut v, cd_size);
    le32(&mut v, cd);
    le16(&mut v, 0);
    v
}

#[test]
fn round_trip_entries() {
    let entries = vec![
        Entry::Dir { name: b"d".to_vec() },
        Entry::File { name: b"d/a.txt".to_vec(), data: b"hello".to_vec() },
        Entry::File { name: b"b.bin".to_vec(), data: vec![0, 159, 146, 150, 255] },
        Entry::Dir { name: b"d/empty".to_vec() },
    ];
    let bytes = zip_entries(&entries).unwrap();
    let back = parse_archive(&bytes).unwrap();
    assert_eq!(back, entries);
}

#[test]
fn empty_dir_entry_preserved() {
    let entries = vec![Entry::Dir { name: b"only".to_vec() }];
    let bytes = zip_entries(&entries).unwrap();
    let back = parse_archive(&bytes).unwrap();
    assert_eq!(back.len(), 1);
    assert_eq!(back[0], Entry::Dir { name: b"only".to_vec() });
    let plan = extract_plan(&bytes).unwrap();
    assert_eq!(plan.len(), 1);
    assert!(plan[0].is_dir);
    assert_eq!(plan[0].segs, vec![b"only".to_vec()]);
    assert!(plan[0].data.is_empty());
}

#[test]
fn duplicate_name_overwrites_in_plan() {
    // The extraction plan carries no conflict check: a later entry at the
    // same destination is simply written after the earlier one.
    let entries = vec![
        Entry::File { name: b"x".to_vec(), data: b"old".to_vec() },
        Entry::File { name: b"x".to_vec(), data: b"new".to_vec() },
    ];
    let bytes = zip_entries(&entries).unwrap();
    let plan = extract_plan(&bytes).unwrap();
    assert_eq!(plan.len(), 2);
    assert_eq!(plan[0].segs, vec![b"x".to_vec()]);
    assert_eq!(plan[1].segs, vec![b"x".to_vec()]);
    assert_eq!(plan[0].data, b"old".to_vec());
    assert_eq!(plan[1].data, b"new".to_vec());
}

#[test]
fn stored_method_and_crc_bytes() {
    // One file "f" holding the standard check input: local record at 0,
    // central record at 40, end record at 87.
    let entries = vec![Entry::File { name: b"f".to_vec(), data: b"123456789".to_vec() }];
    let bytes = zip_entries(&entries).unwrap();
    assert_eq!(bytes.len(), 109);
    // Method fields say "stored" in both records.
    assert_eq!(&bytes[8..10], &[0, 0]);
    assert_eq!(&bytes[50..52], &[0, 0]);
    // The checksum field holds the well-known CRC-32 of "123456789".
    assert_eq!(&bytes[14..18], &[0x26, 0x39, 0xF4, 0xCB]);
    assert_eq!(&bytes[56..60], &[0x26, 0x39, 0xF4, 0xCB]);
}

#[test]
fn minimal_archive_is_empty() {
    let bytes = zip_entries(&vec![]).unwrap();
    assert_eq!(bytes.len(), 22);
    assert_eq!(&bytes[0..4], &[0x50, 0x4B, 0x05, 0x06]);
    assert!(bytes[4..].iter().all(|b| *b == 0));
    let back = parse_archive(&bytes).unwrap();
    assert!(back.is_empty());
    let plan = extract_plan(&bytes).unwrap();
    assert!(plan.is_empty());
}

#[test]
fn extract_plan_sanitizes_crafted_name() {
    let body = b"owned";
    let crc = crc32fast::hash(body);
    let bytes = crafted(0, b"../../etc/passwd", body, body.len() as u32, crc);
    let plan = extract_plan(&bytes).unwrap();
    assert_eq!(plan.len(), 1);
    assert!(!plan[0].is_dir);
    assert_eq!(plan[0].segs, vec![b"etc".to_vec(), b"passwd".to_vec()]);
    assert_eq!(plan[0].data, body.to_vec());

    let bytes = crafted(0, b"/abs\\mixed/..\\name", body, body.len() as u32, crc);
    let plan = extract_plan(&bytes).unwrap();
    assert_eq!(plan[0].segs, vec![b"abs".to_vec(), b"mixed".to_vec(), b"name".to_vec()]);
}

#[test]
fn deflate_entry_is_inflated() {
    // A raw DEFLATE stream of one stored block holding "abc".
    let comp = [0x01, 0x03, 0x00, 0xFC, 0xFF, b'a', b'b', b'c'];
    let crc = crc32fast::hash(b"abc");
    let bytes = crafted(8, b"a.txt", &comp, 3, crc);
    let back = parse_archive(&bytes).unwrap();
    assert_eq!(back.len(), 1);
    assert_eq!(back[0], Entry::File { name: b"a.txt".to_vec(), data: b"abc".to_vec() });
}

#[test]
fn wrong_checksum_rejected() {
    let body = b"abc";
    let bytes = crafted(0, b"a", body, 3, 0xDEADBEEF);
    assert_eq!(parse_archive(&bytes).unwrap_err(), ParseError::BadData);
}

#[test]
fn unknown_method_rejected() {
    let body = b"abc";
    let crc = crc32fast::hash(body);
    let bytes = crafted(9, b"a", body, 3, crc);
    assert_eq!(parse_archive(&bytes).unwrap_err(), ParseError::UnsupportedMethod);
}

#[test]
fn garbage_has_no_end_record() {
    assert_eq!(parse_archive(b"not a zip at all").unwrap_err(), ParseError::NoEndRecord);
    assert_eq!(parse_archive(b"").unwrap_err(), ParseError::NoEndRecord);
}

#[test]
fn multi_disk_rejected() {
    let mut bytes = zip_entries(&vec![]).unwrap();
    bytes[4] = 1;  // this-disk number
    assert_eq!(parse_archive(&bytes).unwrap_err(), ParseError::MultiDisk);
}

#[test]
fn trailing_comment_accepted() {
    let entries = vec![Entry::File { name: b"f".to_vec(), data: b"x".to_vec() }];
    let mut bytes = zip_entries(&entries).unwrap();
    let comment = b"written by hand";
    let n = bytes.len();
    bytes[n - 2] = comment.len() as u8;
    bytes.extend_from_slice(comment);
    let back = parse_archive(&bytes).unwrap();
    assert_eq!(back, entries);
}

#[test]
fn truncated_archive_rejected() {
    let entries = vec![Entry::File { name: b"f".to_vec(), data: b"payload".to_vec() }];
    let bytes = zip_entries(&entries).unwrap();
    let cut = &bytes[0..bytes.len() - 3];
    assert!(parse_archive(cut).is_err());
}

#[test]
fn oversized_name_rejected() {
    let entries = vec![Entry::File { name: vec![b'a'; 70000], data: b"x".to_vec() }];
    assert_eq!(zip_entries(&entries).unwrap_err(), BuildError::TooLarge);
    let entries = vec![Entry::Dir { name: vec![b'd'; 65535] }];
    assert_eq!(zip_entries(&entries).unwrap_err(), BuildError::TooLarge);
}

#[test]
fn incremental_builder_matches_one_shot() {
    let mut ar = Archiver::new();
    ar.add_dir(b"d").unwrap();
    ar.add_file(b"d/f", b"content").unwrap();
    let bytes = ar.finish();
    let entries = vec![
        Entry::Dir { name: b"d".to_vec() },
        Entry::File { name: b"d/f".to_vec(), data: b"content".to_vec() },
    ];
    assert_eq!(bytes, zip_entries(&entries).unwrap());
}
