use aifs::codec::{FileStatCodec, GidCodec, GroupCodec, UidCodec, UserCodec};
use aifs::meta::EntryMetaData;
use aifs::{AiFs, BackStore};
use file_lock::{FileLock, FileOptions};

#[derive(Debug)]
struct FixedStore {
    highest: Result<Vec<u8>, i32>,
}

impl BackStore for FixedStore {
    fn metadir_path(&self, partial: &[u8]) -> Result<Vec<u8>, i32> {
        Ok(aifs::join_bytes(b"/tmp/foo/meta", partial))
    }

    fn highest_path(&self, _partial: &[u8]) -> Result<Vec<u8>, i32> {
        self.highest.clone()
    }
}

fn record_under(parent: &[u8], name: &[u8], timestamp: u64) -> EntryMetaData {
    EntryMetaData {
        name: name.to_vec(),
        parent: parent.to_vec(),
        stats: FileStatCodec {
            st_dev: 1,
            st_ino: 2,
            st_nlink: 1,
            st_mode: 0o100644,
            st_uid: 0,
            st_gid: 0,
            __pad0: 0,
            st_rdev: 0,
            st_size: 7,
            st_blksize: 4096,
            st_blocks: 1,
            st_atime: 1,
            st_atime_nsec: 0,
            st_mtime: 2,
            st_mtime_nsec: 0,
            st_ctime: 3,
            st_ctime_nsec: 0,
            __unused: [0; 3],
        },
        owner: UserCodec {
            name: b"root".to_vec(),
            passwd: b"x".to_vec(),
            uid: UidCodec(0),
            gid: GidCodec(0),
            gecos: Vec::new(),
            dir: b"/root".to_vec(),
            shell: b"/bin/sh".to_vec(),
        },
        group: GroupCodec {
            name: b"root".to_vec(),
            passwd: b"x".to_vec(),
            gid: GidCodec(0),
            mem: Vec::new(),
        },
        timestamp,
        xattrs: None,
    }
}

#[test]
fn capture_of_live_entry_succeeds() {
    let fs = FixedStore { highest: Ok(b"/tmp".to_vec()) };
    let m = EntryMetaData::new(&fs, b"some/parent", b"entry").unwrap();
    assert_eq!(m.parent, b"some/parent".to_vec());
    assert_eq!(m.name, b"entry".to_vec());
    assert_eq!(m.owner.passwd, b"x".to_vec());
    assert_eq!(m.group.passwd, b"x".to_vec());
    assert_eq!(m.stats.st_uid, 0);
    assert_eq!(m.owner.uid, UidCodec(0));
    assert_eq!(m.owner.name, b"root".to_vec());
    let later = aifs::wrappers::now_seconds();
    assert!(later - m.timestamp <= 5);
    let bytes = m.to_bytes().unwrap();
    let m2 = EntryMetaData::from_bytes(bytes.as_slice()).unwrap();
    assert_eq!(m2, m);
}

#[test]
fn capture_of_missing_entry_reports_enoent() {
    let fs = FixedStore { highest: Ok(b"/nonexistent-path-for-capture".to_vec()) };
    let r = EntryMetaData::new(&fs, b"p", b"n");
    assert_eq!(r.unwrap_err(), 2);
}

#[test]
fn capture_propagates_backstore_error() {
    let fs = FixedStore { highest: Err(-7) };
    let r = EntryMetaData::new(&fs, b"p", b"n");
    assert_eq!(r.unwrap_err(), -7);
}

#[test]
fn write_creates_directories_and_persists() {
    let fs = AiFs::new(b"/tmp/aifs", "/tmp/lower", None);
    let m = record_under(b"tmp-aifs-write", b"f.txt", 100);
    m.clone().write(&fs).unwrap();
    // A second snapshot for the same path succeeds once the lock is free.
    let m2 = record_under(b"tmp-aifs-write", b"f.txt", 101);
    m2.write(&fs).unwrap();
}

#[test]
fn write_rejects_non_text_parent() {
    let fs = AiFs::new(b"/tmp/aifs", "/tmp/lower", None);
    let mut m = record_under(b"tmp-aifs-badtext", b"f.txt", 100);
    m.parent = vec![0x74, 0xff];
    assert_eq!(m.write(&fs).unwrap_err(), 22);
}

#[test]
fn writers_take_and_release_the_lock() {
    // The store locks with POSIX record locks, which exclude other processes
    // but never the process that already holds them, so contention itself is
    // observable only across processes. Within one process this checks that
    // every write acquires the exclusive lock and releases it on return: the
    // lock file exists afterwards and can be locked again at once.
    let fs = AiFs::new(b"/tmp/aifs", "/tmp/lower", None);
    let lock_path = "/tmp/foo/meta/tmp-aifs-excl/g.txt/.metadata";
    record_under(b"tmp-aifs-excl", b"g.txt", 1).write(&fs).unwrap();
    record_under(b"tmp-aifs-excl", b"g.txt", 2).write(&fs).unwrap();
    let opts = FileOptions::new().write(true).create(true).read(true);
    let held = FileLock::lock(lock_path, false, opts).unwrap();
    drop(held);
}

#[test]
fn getxattr_of_missing_attribute_reports_enodata() {
    let r = aifs::wrappers::getxattr("/tmp", "user.aifs-definitely-missing");
    assert_eq!(r.unwrap_err(), 61);
}

#[test]
fn listxattr_of_plain_directory_succeeds() {
    let names = aifs::wrappers::listxattr("/tmp").unwrap();
    assert_eq!(names, Vec::<Vec<u8>>::new());
}

#[test]
fn xattr_calls_reject_embedded_terminator() {
    assert_eq!(aifs::wrappers::listxattr("tmp/a\u{0}b").unwrap_err(), 22);
    assert_eq!(aifs::wrappers::getxattr("/tmp", "user.a\u{0}b").unwrap_err(), 22);
    assert_eq!(aifs::wrappers::getxattr("/t\u{0}mp", "user.ok").unwrap_err(), 22);
}

#[test]
fn create_dir_all_tolerates_existing_directories() {
    assert_eq!(aifs::meta::create_dir_all(b"/tmp/aifs-cda/x/y"), Ok(()));
    assert_eq!(aifs::meta::create_dir_all(b"/tmp/aifs-cda/x/y"), Ok(()));
    assert_eq!(aifs::meta::create_dir_all(b"/tmp/aifs-cda/x"), Ok(()));
}

#[test]
fn write_appends_to_the_history_log() {
    let fs = AiFs::new(b"/tmp/aifs", "/tmp/lower", None);
    record_under(b"tmp-aifs-hist", b"h.txt", 1).write(&fs).unwrap();
    record_under(b"tmp-aifs-hist", b"h.txt", 2).write(&fs).unwrap();
    // Both the record file and the history log exist and are lockable once
    // the writers have released them.
    let opts = FileOptions::new().write(true).create(true).read(true);
    let l1 = FileLock::lock("/tmp/foo/meta/tmp-aifs-hist/h.txt/.metadata", false, opts).unwrap();
    drop(l1);
    let opts = FileOptions::new().write(true).create(true).read(true);
    let l2 =
        FileLock::lock("/tmp/foo/meta/tmp-aifs-hist/h.txt/.metadata.history", false, opts)
            .unwrap();
    drop(l2);
}
