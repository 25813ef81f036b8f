//! Tests of the group-icon directory parser.

use exelook::icon_group::{IconDirectoryEntry, IconGroupDirectory};

fn push_le16(v: &mut Vec<u8>, x: u16) {
    v.push((x & 0xff) as u8);
    v.push((x >> 8) as u8);
}

fn push_le32(v: &mut Vec<u8>, x: u32) {
    v.push((x & 0xff) as u8);
    v.push(((x >> 8) & 0xff) as u8);
    v.push(((x >> 16) & 0xff) as u8);
    v.push(((x >> 24) & 0xff) as u8);
}

/// A group-icon buffer with the given entries, each entry being
/// (width, height, color_count, planes, bit_count, byte_size, icon_id).
fn group_buffer(entries: &[(u8, u8, u8, u16, u16, u32, u16)]) -> Vec<u8> {
    let mut v = Vec::new();
    push_le16(&mut v, 0);
    push_le16(&mut v, 1);
    push_le16(&mut v, entries.len() as u16);
    for &(w, h, cc, planes, bc, size, id) in entries {
        v.push(w);
        v.push(h);
        v.push(cc);
        v.push(0);
        push_le16(&mut v, planes);
        push_le16(&mut v, bc);
        push_le32(&mut v, size);
        push_le16(&mut v, id);
    }
    v
}

#[test]
fn group_parses_empty_directory() {
    let buf = group_buffer(&[]);
    assert_eq!(buf.len(), 6);
    let dir = IconGroupDirectory::from_bytes(&buf).expect("a zero-entry group parses");
    assert_eq!(dir.num_entries(), 0);
    assert_eq!(dir.entries().len(), 0);
}

#[test]
fn group_parses_two_entries() {
    let buf = group_buffer(&[
        (16, 16, 0, 1, 32, 100, 1),
        (32, 32, 16, 1, 4, 744, 2),
    ]);
    assert_eq!(buf.len(), 6 + 14 * 2);
    let dir = IconGroupDirectory::from_bytes(&buf).expect("a two-entry group parses");
    assert_eq!(dir.num_entries(), 2);
    let entries = dir.entries();
    assert_eq!(entries.len(), 2);
    assert_eq!(entries[0].width(), 16);
    assert_eq!(entries[0].height(), 16);
    assert_eq!(entries[0].color_count(), 0);
    assert_eq!(entries[0].num_planes(), 1);
    assert_eq!(entries[0].bit_count(), 32);
    assert_eq!(entries[0].num_bytes(), 100);
    assert_eq!(entries[0].icon_id(), 1);
    assert_eq!(entries[1].width(), 32);
    assert_eq!(entries[1].color_count(), 16);
    assert_eq!(entries[1].bit_count(), 4);
    assert_eq!(entries[1].num_bytes(), 744);
    assert_eq!(entries[1].icon_id(), 2);
    let second = dir.entry_at(1);
    assert_eq!(second.icon_id(), 2);
}

#[test]
fn group_rejects_wrong_lengths() {
    let good = group_buffer(&[(16, 16, 0, 1, 32, 100, 1)]);
    assert_eq!(good.len(), 20);
    assert!(IconGroupDirectory::from_bytes(&good).is_some());

    let mut short = good.clone();
    short.pop();
    assert!(IconGroupDirectory::from_bytes(&short).is_none());

    let mut long = good.clone();
    long.push(0);
    assert!(IconGroupDirectory::from_bytes(&long).is_none());

    // a buffer shorter than its own header
    assert!(IconGroupDirectory::from_bytes(&[0u8, 0, 1, 0]).is_none());

    // the count field claims one entry more than the buffer holds
    let mut lying = group_buffer(&[(16, 16, 0, 1, 32, 100, 1)]);
    lying[4] = 2;
    assert!(IconGroupDirectory::from_bytes(&lying).is_none());
}

#[test]
fn entry_reads_its_fields_little_endian() {
    let bytes: Vec<u8> = vec![
        48, 48, 16, 0, // width, height, color count, reserved
        1, 0, // planes
        4, 0, // bit count
        0x28, 0x01, 0, 0, // byte size 0x128
        0x34, 0x12, // icon id 0x1234
    ];
    let e = IconDirectoryEntry::from_bytes(&bytes);
    assert_eq!(e.width(), 48);
    assert_eq!(e.height(), 48);
    assert_eq!(e.color_count(), 16);
    assert_eq!(e.num_planes(), 1);
    assert_eq!(e.bit_count(), 4);
    assert_eq!(e.num_bytes(), 0x128);
    assert_eq!(e.icon_id(), 0x1234);
}
