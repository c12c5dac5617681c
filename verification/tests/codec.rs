use aifs::codec::{
    read_stat, BufSerializer, CodecSerializer, CodecSerializerError, FileStatCodec, GidCodec,
    GroupCodec, UidCodec, UserCodec,
};
use aifs::meta::EntryMetaData;

fn sample_record() -> EntryMetaData {
    EntryMetaData {
        name: b"test.txt".to_vec(),
        parent: b"/".to_vec(),
        stats: FileStatCodec {
            st_dev: 2049,
            st_ino: 42,
            st_nlink: 1,
            st_mode: 0o100644,
            st_uid: 1000,
            st_gid: 1000,
            __pad0: 0,
            st_rdev: 0,
            st_size: 0,
            st_blksize: 4096,
            st_blocks: 0,
            st_atime: 1700000000,
            st_atime_nsec: 1,
            st_mtime: 1700000001,
            st_mtime_nsec: 2,
            st_ctime: 1700000002,
            st_ctime_nsec: 3,
            __unused: [0; 3],
        },
        owner: UserCodec {
            name: b"masud".to_vec(),
            passwd: b"x".to_vec(),
            uid: UidCodec(1000),
            gid: GidCodec(1000),
            gecos: b"".to_vec(),
            dir: b"/home/masud".to_vec(),
            shell: b"/bin/bash".to_vec(),
        },
        group: GroupCodec {
            name: b"masud".to_vec(),
            passwd: b"x".to_vec(),
            gid: GidCodec(1000),
            mem: vec![b"masud".to_vec(), b"wheel".to_vec()],
        },
        timestamp: 1700000003,
        xattrs: None,
    }
}

#[test]
fn file_stat_codec() {
    let stat = FileStatCodec {
        st_dev: 0,
        st_ino: 0,
        st_nlink: 0,
        st_mode: 0,
        st_uid: 0,
        st_gid: 0,
        __pad0: 0,
        st_rdev: 0,
        st_size: 0,
        st_blksize: 0,
        st_blocks: 0,
        st_atime: 0,
        st_atime_nsec: 0,
        st_mtime: 0,
        st_mtime_nsec: 0,
        st_ctime: 0,
        st_ctime_nsec: 0,
        __unused: [0; 3],
    };
    let mut ser = CodecSerializer::new(BufSerializer { buf: Vec::new() });
    ser.write_stat(&stat).unwrap();
    let buf: Vec<u8> = ser.into_inner().buf;
    let mut pos: usize = 0;
    let stat2 = read_stat(buf.as_slice(), &mut pos).unwrap();
    assert_eq!(stat2.st_atime_nsec, 0);
    assert_eq!(stat2.st_mtime_nsec, 0);
    assert_eq!(stat2.st_ctime_nsec, 0);
}

#[test]
fn record_round_trip_exact() {
    let m = sample_record();
    let bytes = m.to_bytes().unwrap();
    let m2 = EntryMetaData::from_bytes(bytes.as_slice()).unwrap();
    assert_eq!(m2, m);
}

#[test]
fn credentials_always_redacted() {
    let mut m = sample_record();
    m.owner.passwd = b"a-real-secret".to_vec();
    m.group.passwd = b"another-secret".to_vec();
    let bytes = m.to_bytes().unwrap();
    let m2 = EntryMetaData::from_bytes(bytes.as_slice()).unwrap();
    assert_eq!(m2.owner.passwd, b"x".to_vec());
    assert_eq!(m2.group.passwd, b"x".to_vec());
    assert_eq!(m2.owner.name, m.owner.name);
    assert_eq!(m2.group.name, m.group.name);
    assert_eq!(m2.group.mem, m.group.mem);
}

#[test]
fn scenario_mode_644_owner_masud() {
    let mut m = sample_record();
    m.timestamp = aifs::wrappers::now_seconds();
    assert_eq!(m.stats.st_size, 0);
    assert_eq!(m.owner.name, b"masud".to_vec());
    assert_eq!(m.owner.passwd, b"x".to_vec());
    let later = aifs::wrappers::now_seconds();
    assert!(later - m.timestamp <= 5);
    let bytes = m.to_bytes().unwrap();
    let m2 = EntryMetaData::from_bytes(bytes.as_slice()).unwrap();
    assert_eq!(m2.stats.st_size, 0);
    assert_eq!(m2.stats.st_mode & 0o777, 0o644);
    assert_eq!(m2.owner.name, b"masud".to_vec());
    assert_eq!(m2.owner.passwd, b"x".to_vec());
    assert_eq!(m2.group.passwd, b"x".to_vec());
    assert_eq!(m2, m);
}

#[test]
fn text_conversion_failure_is_einval() {
    let mut m = sample_record();
    m.owner.dir = vec![0xff, 0xfe, 0x00];
    assert_eq!(m.to_bytes().unwrap_err(), 22);
    let r = CodecSerializer::<BufSerializer>::encode(&m);
    assert!(matches!(r, Err(CodecSerializerError::AsStringError)));
}

#[test]
fn non_text_parent_fails_encoding() {
    let mut m = sample_record();
    m.parent = vec![0x2f, 0xc0];
    assert_eq!(m.to_bytes().unwrap_err(), 22);
}

#[test]
fn non_text_name_still_encodes() {
    let mut m = sample_record();
    m.name = vec![0xff, 0x00, 0x80, 0x2f];
    let bytes = m.to_bytes().unwrap();
    let m2 = EntryMetaData::from_bytes(bytes.as_slice()).unwrap();
    assert_eq!(m2.name, vec![0xff, 0x00, 0x80, 0x2f]);
}

#[test]
fn xattrs_some_empty_value_round_trips() {
    let mut m = sample_record();
    m.xattrs = Some(vec![(b"user.empty".to_vec(), Vec::new())]);
    let bytes = m.to_bytes().unwrap();
    let m2 = EntryMetaData::from_bytes(bytes.as_slice()).unwrap();
    assert_eq!(m2.xattrs, Some(vec![(b"user.empty".to_vec(), Vec::new())]));
}

#[test]
fn xattrs_none_round_trips_as_none() {
    let m = sample_record();
    let bytes = m.to_bytes().unwrap();
    let m2 = EntryMetaData::from_bytes(bytes.as_slice()).unwrap();
    assert_eq!(m2.xattrs, None);
}

#[test]
fn extreme_values_round_trip() {
    let mut m = sample_record();
    m.timestamp = u64::MAX;
    m.stats.st_size = i64::MIN;
    m.stats.st_atime_nsec = -1;
    m.stats.st_dev = u64::MAX;
    m.group.mem = Vec::new();
    let bytes = m.to_bytes().unwrap();
    let m2 = EntryMetaData::from_bytes(bytes.as_slice()).unwrap();
    assert_eq!(m2, m);
}

#[test]
fn truncated_buffer_fails_decode() {
    let m = sample_record();
    let bytes = m.to_bytes().unwrap();
    let cut = &bytes[0..bytes.len() - 1];
    assert!(EntryMetaData::from_bytes(cut).is_none());
}

#[test]
fn trailing_bytes_fail_decode() {
    let m = sample_record();
    let mut bytes = m.to_bytes().unwrap();
    bytes.push(0);
    assert!(EntryMetaData::from_bytes(bytes.as_slice()).is_none());
}

#[test]
fn serializer_position_tracks_written_bytes() {
    let mut ser = CodecSerializer::new(BufSerializer { buf: Vec::new() });
    assert_eq!(ser.pos(), 0);
    ser.write(&[1, 2, 3]).unwrap();
    assert_eq!(ser.pos(), 3);
    ser.write_u64(7).unwrap();
    assert_eq!(ser.pos(), 11);
    let inner = ser.into_inner();
    assert_eq!(inner.buf.len(), 11);
}

#[test]
fn u64_slots_are_little_endian() {
    let mut ser = CodecSerializer::new(BufSerializer { buf: Vec::new() });
    ser.write_u64(0x0102030405060708).unwrap();
    assert_eq!(ser.into_inner().buf, vec![8, 7, 6, 5, 4, 3, 2, 1]);
}

#[test]
fn blobs_are_length_prefixed() {
    let mut ser = CodecSerializer::new(BufSerializer { buf: Vec::new() });
    ser.write_blob(b"ab").unwrap();
    assert_eq!(ser.into_inner().buf, vec![2, 0, 0, 0, 0, 0, 0, 0, 97, 98]);
}
