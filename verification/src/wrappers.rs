//! Syscall boundary: safe wrappers around the OS calls that the capture and
//! store paths need.
//!
//! Every `external_body` item here is trusted: its contract states only what
//! the outside function it names is documented to do. Results that depend on
//! the machine's state (the filesystem, the identity database, the clock)
//! carry no stronger promise than what holds of every outcome.

use vstd::prelude::*;

use crate::codec::{FileStatCodec, GidCodec, GroupCodec, UidCodec, UserCodec};
use std::io::Write;
use vstd::string::StringSliceAdditionalSpecFns;

verus! {

/// The native file-lock guard; dropping it releases the lock.
#[verifier::external_type_specification]
#[verifier::external_body]
pub struct ExFileLock(file_lock::FileLock);

/// Relies on core::str::from_utf8, which succeeds exactly on the byte
/// sequences that are valid UTF-8 text.
#[verifier::external_body]
pub fn bytes_to_string(b: &[u8]) -> (r: Option<String>)
    ensures
        r is Some <==> vstd::utf8::valid_utf8(b@),
{
    core::str::from_utf8(b).ok().map(|s| s.to_string())
}

/// Relies on nix::sys::stat::stat (stat(2)): on success every informative
/// field of the returned shape is the corresponding field of the native
/// record, and the reserved fields are synthesized as zero; on failure the OS
/// error code.
#[verifier::external_body]
pub fn stat_raw(path: &[u8]) -> (r: Result<FileStatCodec, i32>)
    ensures
        r matches Ok(st) ==> st.__pad0 == 0 && st.__unused@ == seq![0i64, 0i64, 0i64],
{
    match nix::sys::stat::stat(path) {
        Ok(s) => Ok(FileStatCodec::new(
            s.st_dev, s.st_ino, s.st_nlink, s.st_mode, s.st_uid, s.st_gid, s.st_rdev, s.st_size,
            s.st_blksize, s.st_blocks, s.st_atime, s.st_atime_nsec, s.st_mtime, s.st_mtime_nsec,
            s.st_ctime, s.st_ctime_nsec,
        )),
        Err(e) => Err(e as i32),
    }
}

/// Relies on nix::unistd::User::from_uid (getpwuid_r(3)): `Ok(Some)` is the
/// identity record matching `uid`, whose numeric id is `uid` itself;
/// `Ok(None)` when the identity database has no record for it; `Err` the OS
/// error code.
#[verifier::external_body]
pub fn user_from_uid(uid: u32) -> (r: Result<Option<UserCodec>, i32>)
    ensures
        r matches Ok(Some(u)) ==> u.uid.0 == uid,
{
    match nix::unistd::User::from_uid(nix::unistd::Uid::from_raw(uid)) {
        Ok(Some(u)) => Ok(Some(UserCodec {
            name: u.name.into_bytes(),
            passwd: u.passwd.into_bytes(),
            uid: UidCodec(u.uid.as_raw()),
            gid: GidCodec(u.gid.as_raw()),
            gecos: u.gecos.into_bytes(),
            dir: u.dir.into_os_string().into_encoded_bytes(),
            shell: u.shell.into_os_string().into_encoded_bytes(),
        })),
        Ok(None) => Ok(None),
        Err(e) => Err(e as i32),
    }
}

/// Relies on nix::unistd::Group::from_gid (getgrgid_r(3)): `Ok(Some)` is the
/// group record matching `gid`, whose numeric id is `gid` itself; `Ok(None)`
/// when no record exists; `Err` the OS error code.
#[verifier::external_body]
pub fn group_from_gid(gid: u32) -> (r: Result<Option<GroupCodec>, i32>)
    ensures
        r matches Ok(Some(g)) ==> g.gid.0 == gid,
{
    match nix::unistd::Group::from_gid(nix::unistd::Gid::from_raw(gid)) {
        Ok(Some(g)) => Ok(Some(GroupCodec {
            name: g.name.into_bytes(),
            passwd: g.passwd.into_bytes(),
            gid: GidCodec(g.gid.as_raw()),
            mem: g.mem.into_iter().map(|m| m.into_bytes()).collect(),
        })),
        Ok(None) => Ok(None),
        Err(e) => Err(e as i32),
    }
}

/// Relies on xattr::list (listxattr(2)): the names of the entry's extended
/// attributes as raw bytes; on failure the OS error code when the failure
/// carries one.
#[verifier::external_body]
fn list_xattr_raw(path: &str) -> (r: Result<Vec<Vec<u8>>, Option<i32>>) {
    match xattr::list(path) {
        Ok(it) => Ok(it.map(|n| n.into_encoded_bytes()).collect()),
        Err(e) => Err(e.raw_os_error()),
    }
}

/// Relies on xattr::get (getxattr(2)): `Ok(Some)` is the attribute's raw
/// value, `Ok(None)` when the entry has no attribute of that name; on failure
/// the OS error code when the failure carries one.
#[verifier::external_body]
fn get_xattr_raw(path: &str, name: &str) -> (r: Result<Option<Vec<u8>>, Option<i32>>) {
    match xattr::get(path, name) {
        Ok(v) => Ok(v),
        Err(e) => Err(e.raw_os_error()),
    }
}

/// Relies on nix::unistd::mkdir (mkdir(2)): creates one directory with the
/// given mode bits; on failure the OS error code (`EEXIST` when the path
/// already exists).
#[verifier::external_body]
pub(crate) fn mkdir_raw(path: &[u8], mode: u32) -> (r: Result<(), i32>) {
    match nix::unistd::mkdir(path, nix::sys::stat::Mode::from_bits_truncate(mode)) {
        Ok(()) => Ok(()),
        Err(e) => Err(e as i32),
    }
}

/// Relies on file_lock::FileLock::lock (open(2), then an exclusive fcntl(2)
/// POSIX record lock): opens the file at `path` for read and write, creating
/// it if absent and in append mode when asked, and locks it. The record lock
/// excludes other processes, never callers within the holder's own process.
/// With `blocking` a held lock is waited for; without it a held lock fails at
/// once (`EAGAIN`/`EWOULDBLOCK` or `EACCES`, as the platform reports it). The
/// lock is released when the returned guard drops. On failure the OS error
/// code when the failure carries one.
#[verifier::external_body]
pub(crate) fn lock_exclusive(path: &str, blocking: bool, append: bool) -> (r: Result<
    file_lock::FileLock,
    Option<i32>,
>) {
    let opts =
        file_lock::FileOptions::new().write(true).create(true).append(append).read(true);
    match file_lock::FileLock::lock(path, blocking, opts) {
        Ok(l) => Ok(l),
        Err(e) => Err(e.raw_os_error()),
    }
}

/// Relies on File::set_len (ftruncate(2)) on the locked file: drops every
/// stored byte, so the write that follows replaces the old record instead of
/// overlaying it. Called only with the lock held; on failure the OS error
/// code when the failure carries one.
#[verifier::external_body]
pub(crate) fn truncate_locked(lock: &mut file_lock::FileLock) -> (r: Result<(), Option<i32>>) {
    match lock.file.set_len(0) {
        Ok(()) => Ok(()),
        Err(e) => Err(e.raw_os_error()),
    }
}

/// Relies on std::io::Write::write_all on the locked file: writes the whole
/// buffer, or fails with the OS error code when the failure carries one.
#[verifier::external_body]
pub(crate) fn write_locked(lock: &mut file_lock::FileLock, bytes: &[u8]) -> (r: Result<
    (),
    Option<i32>,
>) {
    match lock.file.write_all(bytes) {
        Ok(()) => Ok(()),
        Err(e) => Err(e.raw_os_error()),
    }
}

/// Relies on std::time::SystemTime::now: the wall-clock time as whole seconds
/// since the epoch (zero if the clock reads before the epoch).
#[verifier::external_body]
pub fn now_seconds() -> (r: u64) {
    std::time::SystemTime::now().duration_since(std::time::SystemTime::UNIX_EPOCH).map(
        |d| d.as_secs(),
    ).unwrap_or(0)
}

/// List the names of the extended attributes of the entry at `path`. A path
/// that cannot be represented as a platform-native byte string — one holding
/// an embedded terminator byte — is rejected with `EINVAL` before any
/// syscall. A failure that carries no OS code surfaces as `-1`, as the raw
/// syscall boundary reported it.
pub fn listxattr(path: &str) -> (r: Result<Vec<Vec<u8>>, i32>)
    ensures
        crate::has_nul(path.spec_bytes()) ==> (r matches Err(e) && e == crate::EINVAL),
{
    if crate::contains_nul(path.as_bytes()) {
        return Err(crate::EINVAL);
    }
    match list_xattr_raw(path) {
        Ok(names) => Ok(names),
        Err(Some(c)) => Err(c),
        Err(None) => Err(-1),
    }
}

/// Fetch the value of one extended attribute. A path or attribute name that
/// cannot be represented as a platform-native byte string — one holding an
/// embedded terminator byte — is rejected with `EINVAL` before any syscall.
/// An attribute the entry does not have surfaces as `ENODATA`, as the raw
/// syscall reported it; a failure without an OS code as `-1`.
pub fn getxattr(path: &str, name: &str) -> (r: Result<Vec<u8>, i32>)
    ensures
        crate::has_nul(path.spec_bytes()) || crate::has_nul(name.spec_bytes()) ==> (r matches Err(
            e,
        ) && e == crate::EINVAL),
{
    if crate::contains_nul(path.as_bytes()) || crate::contains_nul(name.as_bytes()) {
        return Err(crate::EINVAL);
    }
    match get_xattr_raw(path, name) {
        Ok(Some(v)) => Ok(v),
        Ok(None) => Err(crate::ENODATA),
        Err(Some(c)) => Err(c),
        Err(None) => Err(-1),
    }
}

} // verus!
