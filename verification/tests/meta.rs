use aifs::codec::{FileStatCodec, GidCodec, GroupCodec, UidCodec, UserCodec};
use aifs::meta::{
    assemble_xattrs, resolve_group, resolve_user, EntryHash, EntryMetaData, MetaDataHistory,
};
use aifs::{join_bytes, AiFs, BackStore};

fn zero_stat() -> FileStatCodec {
    FileStatCodec {
        st_dev: 0,
        st_ino: 0,
        st_nlink: 0,
        st_mode: 0,
        st_uid: 0,
        st_gid: 0,
        __pad0: 0,
        st_rdev: 0,
        st_size: 0,
        st_blksize: 0,
        st_blocks: 0,
        st_atime: 0,
        st_atime_nsec: 0,
        st_mtime: 0,
        st_mtime_nsec: 0,
        st_ctime: 0,
        st_ctime_nsec: 0,
        __unused: [0; 3],
    }
}

fn tiny_record(timestamp: u64) -> EntryMetaData {
    EntryMetaData {
        name: b"n".to_vec(),
        parent: b"p".to_vec(),
        stats: zero_stat(),
        owner: UserCodec {
            name: b"u".to_vec(),
            passwd: b"x".to_vec(),
            uid: UidCodec(1),
            gid: GidCodec(1),
            gecos: Vec::new(),
            dir: Vec::new(),
            shell: Vec::new(),
        },
        group: GroupCodec {
            name: b"g".to_vec(),
            passwd: b"x".to_vec(),
            gid: GidCodec(1),
            mem: Vec::new(),
        },
        timestamp,
        xattrs: None,
    }
}

#[test]
fn graceful_identity_miss_user() {
    let u = resolve_user(4242, 99, None);
    assert_eq!(u.name, b"unknown".to_vec());
    assert_eq!(u.uid, UidCodec(4242));
    assert_eq!(u.gid, GidCodec(99));
    assert_eq!(u.passwd, Vec::<u8>::new());
    assert_eq!(u.dir, Vec::<u8>::new());
    assert_eq!(u.shell, Vec::<u8>::new());
    assert_eq!(u.gecos, Vec::<u8>::new());
}

#[test]
fn graceful_identity_miss_group() {
    let g = resolve_group(4242, None);
    assert_eq!(g.name, b"unknown".to_vec());
    assert_eq!(g.gid, GidCodec(4242));
    assert_eq!(g.mem, Vec::<Vec<u8>>::new());
}

#[test]
fn found_identity_is_kept() {
    let u = UserCodec {
        name: b"root".to_vec(),
        passwd: b"hash".to_vec(),
        uid: UidCodec(0),
        gid: GidCodec(0),
        gecos: b"root".to_vec(),
        dir: b"/root".to_vec(),
        shell: b"/bin/sh".to_vec(),
    };
    let r = resolve_user(0, 0, Some(u.clone()));
    assert_eq!(r, u);
}

#[test]
fn redaction_overwrites_any_credential() {
    let u = UserCodec {
        name: b"root".to_vec(),
        passwd: b"hash".to_vec(),
        uid: UidCodec(0),
        gid: GidCodec(0),
        gecos: Vec::new(),
        dir: Vec::new(),
        shell: Vec::new(),
    };
    let r = aifs::meta::redact_user_codec(u);
    assert_eq!(r.passwd, b"x".to_vec());
    assert_eq!(r.name, b"root".to_vec());
    let g = GroupCodec {
        name: b"adm".to_vec(),
        passwd: b"gsecret".to_vec(),
        gid: GidCodec(4),
        mem: vec![b"root".to_vec()],
    };
    let r = aifs::meta::redact_group_codec(g);
    assert_eq!(r.passwd, b"x".to_vec());
    assert_eq!(r.mem, vec![b"root".to_vec()]);
}

#[test]
fn zero_attributes_give_none() {
    assert_eq!(assemble_xattrs(Vec::new(), Vec::new()), None);
}

#[test]
fn one_attribute_with_empty_value_stays_present() {
    let names = vec![b"user.a".to_vec()];
    let values = vec![Vec::new()];
    let ps = assemble_xattrs(names, values).unwrap();
    assert_eq!(ps, vec![(b"user.a".to_vec(), Vec::new())]);
}

#[test]
fn attributes_keep_enumeration_order() {
    let names = vec![b"user.a".to_vec(), b"user.b".to_vec(), b"user.c".to_vec()];
    let values = vec![b"1".to_vec(), Vec::new(), b"3".to_vec()];
    let ps = assemble_xattrs(names, values).unwrap();
    assert_eq!(
        ps,
        vec![
            (b"user.a".to_vec(), b"1".to_vec()),
            (b"user.b".to_vec(), Vec::new()),
            (b"user.c".to_vec(), b"3".to_vec()),
        ]
    );
}

#[test]
fn history_appends_in_capture_order() {
    let mut h = MetaDataHistory {
        name: String::from("entry"),
        hash: EntryHash::SHA2([0u8; 32]),
        emd: Vec::new(),
    };
    h.push(tiny_record(10));
    h.push(tiny_record(10));
    h.push(tiny_record(25));
    assert_eq!(h.emd.len(), 3);
    assert_eq!(h.emd[0].timestamp, 10);
    assert_eq!(h.emd[1].timestamp, 10);
    assert_eq!(h.emd[2].timestamp, 25);
}

#[test]
fn join_appends_relative_paths() {
    assert_eq!(join_bytes(b"/tmp/foo/meta", b"a/b"), b"/tmp/foo/meta/a/b".to_vec());
    assert_eq!(join_bytes(b"/base", b""), b"/base/".to_vec());
}

#[test]
fn join_lets_absolute_partial_replace_base() {
    assert_eq!(join_bytes(b"/tmp/foo/meta", b"/etc/x"), b"/etc/x".to_vec());
}

#[test]
fn backstore_resolves_under_fixed_roots() {
    let fs = AiFs::new(b"/tmp/aifs", "/tmp/lower", None);
    assert_eq!(fs.root, b"/tmp/aifs".to_vec());
    assert_eq!(fs.metadir_path(b"a/b").unwrap(), b"/tmp/foo/meta/a/b".to_vec());
    assert_eq!(fs.highest_path(b"a/b").unwrap(), b"/tmp/foo/highest/a/b".to_vec());
    assert_eq!(fs.highest_path(b"/abs").unwrap(), b"/abs".to_vec());
}
