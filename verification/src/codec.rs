//! Structural codec: normalized shapes for the OS records that need
//! persistence, and a fallible byte encoder over them.
//!
//! The wire format is fixed-width and self-describing: every scalar is a
//! little-endian `u64` slot, every byte string is length-prefixed, every list
//! is count-prefixed. Reserved padding fields of the native inode-statistics
//! layout are synthesized as zero slots so that the native record can be
//! rebuilt from the normalized shape. Credential fields are never written
//! verbatim: the encoding carries the fixed placeholder in their place.

use vstd::bytes::*;
use vstd::prelude::*;
use vstd::slice::*;

verus! {

/// The fixed, non-secret token stored in place of any credential field:
/// the single byte `x`.
pub open spec fn placeholder_passwd() -> Seq<u8> {
    seq![120u8]
}

/// Upper bound (exclusive) on every length the format can carry: lengths
/// travel as `u64` slots.
pub open spec fn fits_u64(n: nat) -> bool {
    n < 0x1_0000_0000_0000_0000
}

// ---------------------------------------------------------------------------
// Primitive layer: u64 slots and length-prefixed blobs.
// ---------------------------------------------------------------------------
/// A scalar slot: eight little-endian bytes.
pub open spec fn enc_u64(x: u64) -> Seq<u8> {
    spec_u64_to_le_bytes(x)
}

/// Read one scalar slot from the front of `s`.
pub open spec fn dec_u64(s: Seq<u8>) -> Option<u64> {
    if s.len() >= 8 {
        Some(spec_u64_from_le_bytes(s.take(8)))
    } else {
        None
    }
}

/// A byte string: its length as a slot, then its bytes.
pub open spec fn enc_blob(b: Seq<u8>) -> Seq<u8> {
    enc_u64(b.len() as u64) + b
}

/// Read one byte string from the front of `s`; returns it with the number of
/// bytes consumed.
pub open spec fn dec_blob(s: Seq<u8>) -> Option<(Seq<u8>, int)> {
    match dec_u64(s) {
        Some(n) => if s.len() >= 8 + n {
            Some((s.subrange(8, 8 + n as int), 8 + n as int))
        } else {
            None
        },
        None => None,
    }
}

pub proof fn lemma_dec_enc_u64(x: u64, rest: Seq<u8>)
    ensures
        enc_u64(x).len() == 8,
        dec_u64(enc_u64(x) + rest) == Some(x),
{
    lemma_auto_spec_u64_to_from_le_bytes();
    assert((enc_u64(x) + rest).take(8) =~= enc_u64(x));
}

pub proof fn lemma_dec_enc_blob(b: Seq<u8>, rest: Seq<u8>)
    requires
        fits_u64(b.len()),
    ensures
        enc_blob(b).len() == 8 + b.len(),
        dec_blob(enc_blob(b) + rest) == Some((b, 8 + b.len() as int)),
        (enc_blob(b) + rest).skip(8 + b.len() as int) == rest,
{
    let s = enc_blob(b) + rest;
    lemma_dec_enc_u64(b.len() as u64, b + rest);
    assert(s =~= enc_u64(b.len() as u64) + (b + rest));
    assert(s.subrange(8, 8 + b.len() as int) =~= b);
    assert(s.skip(8 + b.len() as int) =~= rest);
}

// ---------------------------------------------------------------------------
// Lists: scalar lists, blob lists, and (name, value) pair lists.
// ---------------------------------------------------------------------------
pub open spec fn enc_u64s(xs: Seq<u64>) -> Seq<u8>
    decreases xs.len(),
{
    if xs.len() == 0 {
        Seq::empty()
    } else {
        enc_u64(xs[0]) + enc_u64s(xs.skip(1))
    }
}

pub open spec fn dec_u64s(s: Seq<u8>, n: nat) -> Option<(Seq<u64>, int)>
    decreases n,
{
    if n == 0 {
        Some((Seq::empty(), 0))
    } else {
        match dec_u64(s) {
            Some(x) => match dec_u64s(s.skip(8), (n - 1) as nat) {
                Some(q) => Some((seq![x] + q.0, 8 + q.1)),
                None => None,
            },
            None => None,
        }
    }
}

pub open spec fn enc_blobs(bs: Seq<Seq<u8>>) -> Seq<u8>
    decreases bs.len(),
{
    if bs.len() == 0 {
        Seq::empty()
    } else {
        enc_blob(bs[0]) + enc_blobs(bs.skip(1))
    }
}

pub open spec fn dec_blobs(s: Seq<u8>, n: nat) -> Option<(Seq<Seq<u8>>, int)>
    decreases n,
{
    if n == 0 {
        Some((Seq::empty(), 0))
    } else {
        match dec_blob(s) {
            Some(p) => match dec_blobs(s.skip(p.1), (n - 1) as nat) {
                Some(q) => Some((seq![p.0] + q.0, p.1 + q.1)),
                None => None,
            },
            None => None,
        }
    }
}

/// One extended attribute: its name, then its raw value.
pub open spec fn enc_pair(p: (Seq<u8>, Seq<u8>)) -> Seq<u8> {
    enc_blob(p.0) + enc_blob(p.1)
}

pub open spec fn dec_pair(s: Seq<u8>) -> Option<((Seq<u8>, Seq<u8>), int)> {
    match dec_blob(s) {
        Some((a, c1)) => match dec_blob(s.skip(c1)) {
            Some((b, c2)) => Some(((a, b), c1 + c2)),
            None => None,
        },
        None => None,
    }
}

pub open spec fn enc_pairs(ps: Seq<(Seq<u8>, Seq<u8>)>) -> Seq<u8>
    decreases ps.len(),
{
    if ps.len() == 0 {
        Seq::empty()
    } else {
        enc_pair(ps[0]) + enc_pairs(ps.skip(1))
    }
}

pub open spec fn dec_pairs(s: Seq<u8>, n: nat) -> Option<(Seq<(Seq<u8>, Seq<u8>)>, int)>
    decreases n,
{
    if n == 0 {
        Some((Seq::empty(), 0))
    } else {
        match dec_pair(s) {
            Some(p) => match dec_pairs(s.skip(p.1), (n - 1) as nat) {
                Some(q) => Some((seq![p.0] + q.0, p.1 + q.1)),
                None => None,
            },
            None => None,
        }
    }
}

pub open spec fn blobs_fit(bs: Seq<Seq<u8>>) -> bool {
    forall|i: int| 0 <= i < bs.len() ==> fits_u64((#[trigger] bs[i]).len())
}

pub open spec fn pairs_fit(ps: Seq<(Seq<u8>, Seq<u8>)>) -> bool {
    forall|i: int|
        0 <= i < ps.len() ==> fits_u64((#[trigger] ps[i]).0.len()) && fits_u64(ps[i].1.len())
}

pub proof fn lemma_dec_enc_u64s(xs: Seq<u64>, rest: Seq<u8>)
    ensures
        enc_u64s(xs).len() == 8 * xs.len(),
        dec_u64s(enc_u64s(xs) + rest, xs.len()) == Some((xs, enc_u64s(xs).len() as int)),
        (enc_u64s(xs) + rest).skip(enc_u64s(xs).len() as int) == rest,
    decreases xs.len(),
{
    lemma_auto_spec_u64_to_from_le_bytes();
    if xs.len() == 0 {
        assert(enc_u64s(xs) + rest =~= rest);
        assert(xs =~= Seq::<u64>::empty());
        assert((enc_u64s(xs) + rest).skip(0) =~= rest);
    } else {
        let x0 = xs[0];
        let tail = xs.skip(1);
        let rest2 = enc_u64s(tail) + rest;
        lemma_dec_enc_u64(x0, rest2);
        let s = enc_u64s(xs) + rest;
        assert(s =~= enc_u64(x0) + rest2);
        assert(s.skip(8) =~= rest2);
        lemma_dec_enc_u64s(tail, rest);
        assert(seq![x0] + tail =~= xs);
        assert(s.skip(enc_u64s(xs).len() as int) =~= rest2.skip(enc_u64s(tail).len() as int));
    }
}

pub proof fn lemma_dec_enc_blobs(bs: Seq<Seq<u8>>, rest: Seq<u8>)
    requires
        blobs_fit(bs),
    ensures
        dec_blobs(enc_blobs(bs) + rest, bs.len()) == Some((bs, enc_blobs(bs).len() as int)),
        (enc_blobs(bs) + rest).skip(enc_blobs(bs).len() as int) == rest,
    decreases bs.len(),
{
    if bs.len() == 0 {
        assert(enc_blobs(bs) + rest =~= rest);
        assert(bs =~= Seq::<Seq<u8>>::empty());
        assert((enc_blobs(bs) + rest).skip(0) =~= rest);
    } else {
        let b0 = bs[0];
        let tail = bs.skip(1);
        let rest2 = enc_blobs(tail) + rest;
        lemma_dec_enc_blob(b0, rest2);
        let s = enc_blobs(bs) + rest;
        assert(s =~= enc_blob(b0) + rest2);
        lemma_dec_enc_blobs(tail, rest);
        assert(seq![b0] + tail =~= bs);
        assert(s.skip(enc_blob(b0).len() as int) =~= rest2);
        assert(s.skip(enc_blobs(bs).len() as int) =~= rest2.skip(enc_blobs(tail).len() as int));
    }
}

pub proof fn lemma_dec_enc_pair(p: (Seq<u8>, Seq<u8>), rest: Seq<u8>)
    requires
        fits_u64(p.0.len()),
        fits_u64(p.1.len()),
    ensures
        enc_pair(p).len() == 16 + p.0.len() + p.1.len(),
        dec_pair(enc_pair(p) + rest) == Some((p, enc_pair(p).len() as int)),
        (enc_pair(p) + rest).skip(enc_pair(p).len() as int) == rest,
{
    let s = enc_pair(p) + rest;
    let rest2 = enc_blob(p.1) + rest;
    lemma_dec_enc_blob(p.0, rest2);
    assert(s =~= enc_blob(p.0) + rest2);
    lemma_dec_enc_blob(p.1, rest);
    assert(s.skip(8 + p.0.len() as int) =~= rest2);
    assert(s.skip(enc_pair(p).len() as int) =~= rest2.skip(enc_blob(p.1).len() as int));
}

pub proof fn lemma_dec_enc_pairs(ps: Seq<(Seq<u8>, Seq<u8>)>, rest: Seq<u8>)
    requires
        pairs_fit(ps),
    ensures
        dec_pairs(enc_pairs(ps) + rest, ps.len()) == Some((ps, enc_pairs(ps).len() as int)),
        (enc_pairs(ps) + rest).skip(enc_pairs(ps).len() as int) == rest,
    decreases ps.len(),
{
    if ps.len() == 0 {
        assert(enc_pairs(ps) + rest =~= rest);
        assert(ps =~= Seq::<(Seq<u8>, Seq<u8>)>::empty());
        assert((enc_pairs(ps) + rest).skip(0) =~= rest);
    } else {
        let p0 = ps[0];
        let tail = ps.skip(1);
        let rest2 = enc_pairs(tail) + rest;
        lemma_dec_enc_pair(p0, rest2);
        let s = enc_pairs(ps) + rest;
        assert(s =~= enc_pair(p0) + rest2);
        lemma_dec_enc_pairs(tail, rest);
        assert(seq![p0] + tail =~= ps);
        assert(s.skip(enc_pair(p0).len() as int) =~= rest2);
        assert(s.skip(enc_pairs(ps).len() as int) =~= rest2.skip(enc_pairs(tail).len() as int));
    }
}

// ---------------------------------------------------------------------------
// Normalized record shapes and their mathematical views.
// ---------------------------------------------------------------------------
/// Numeric user id, as a lightweight encodable shape.
#[derive(Debug, Clone, Copy, PartialEq, Eq)]
pub struct UidCodec(pub u32);

/// Numeric group id, as a lightweight encodable shape.
#[derive(Debug, Clone, Copy, PartialEq, Eq)]
pub struct GidCodec(pub u32);

/// Normalized shape of the native inode-statistics record, mirrored
/// field-for-field; the reserved fields `__pad0` and `__unused` are
/// synthesized as zero rather than carried through, so the native layout can
/// be rebuilt bit-for-bit.
#[derive(Debug, Clone, Copy, PartialEq, Eq)]
pub struct FileStatCodec {
    pub st_dev: u64,
    pub st_ino: u64,
    pub st_nlink: u64,
    pub st_mode: u32,
    pub st_uid: u32,
    pub st_gid: u32,
    pub __pad0: i32,
    pub st_rdev: u64,
    pub st_size: i64,
    pub st_blksize: i64,
    pub st_blocks: i64,
    pub st_atime: i64,
    pub st_atime_nsec: i64,
    pub st_mtime: i64,
    pub st_mtime_nsec: i64,
    pub st_ctime: i64,
    pub st_ctime_nsec: i64,
    pub __unused: [i64; 3],
}

/// Mathematical view of [`FileStatCodec`]: the sixteen informative fields.
/// The reserved fields are not part of the view; they are zero by
/// construction.
pub struct StatV {
    pub dev: u64,
    pub ino: u64,
    pub nlink: u64,
    pub mode: u32,
    pub uid: u32,
    pub gid: u32,
    pub rdev: u64,
    pub size: i64,
    pub blksize: i64,
    pub blocks: i64,
    pub atime: i64,
    pub atime_nsec: i64,
    pub mtime: i64,
    pub mtime_nsec: i64,
    pub ctime: i64,
    pub ctime_nsec: i64,
}

impl View for FileStatCodec {
    type V = StatV;

    open spec fn view(&self) -> StatV {
        StatV {
            dev: self.st_dev,
            ino: self.st_ino,
            nlink: self.st_nlink,
            mode: self.st_mode,
            uid: self.st_uid,
            gid: self.st_gid,
            rdev: self.st_rdev,
            size: self.st_size,
            blksize: self.st_blksize,
            blocks: self.st_blocks,
            atime: self.st_atime,
            atime_nsec: self.st_atime_nsec,
            mtime: self.st_mtime,
            mtime_nsec: self.st_mtime_nsec,
            ctime: self.st_ctime,
            ctime_nsec: self.st_ctime_nsec,
        }
    }
}

impl FileStatCodec {
    /// Build a normalized record from the informative fields of a native
    /// inode-statistics record; the reserved fields are synthesized as zero.
    pub fn new(
        st_dev: u64,
        st_ino: u64,
        st_nlink: u64,
        st_mode: u32,
        st_uid: u32,
        st_gid: u32,
        st_rdev: u64,
        st_size: i64,
        st_blksize: i64,
        st_blocks: i64,
        st_atime: i64,
        st_atime_nsec: i64,
        st_mtime: i64,
        st_mtime_nsec: i64,
        st_ctime: i64,
        st_ctime_nsec: i64,
    ) -> (r: Self)
        ensures
            r@ == (StatV {
                dev: st_dev,
                ino: st_ino,
                nlink: st_nlink,
                mode: st_mode,
                uid: st_uid,
                gid: st_gid,
                rdev: st_rdev,
                size: st_size,
                blksize: st_blksize,
                blocks: st_blocks,
                atime: st_atime,
                atime_nsec: st_atime_nsec,
                mtime: st_mtime,
                mtime_nsec: st_mtime_nsec,
                ctime: st_ctime,
                ctime_nsec: st_ctime_nsec,
            }),
            r.__pad0 == 0,
            r.__unused@ == seq![0i64, 0i64, 0i64],
    {
        let r = FileStatCodec {
            st_dev,
            st_ino,
            st_nlink,
            st_mode,
            st_uid,
            st_gid,
            __pad0: 0,
            st_rdev,
            st_size,
            st_blksize,
            st_blocks,
            st_atime,
            st_atime_nsec,
            st_mtime,
            st_mtime_nsec,
            st_ctime,
            st_ctime_nsec,
            __unused: [0i64, 0i64, 0i64],
        };
        proof {
            assert(r.__unused@ =~= seq![0i64, 0i64, 0i64]);
        }
        r
    }
}

/// Normalized shape of an owner identity record. Text-valued path fields
/// (`dir`, `shell`) are carried as bytes but must be text-representable at
/// encoding time.
#[derive(Debug, Clone, PartialEq, Eq)]
pub struct UserCodec {
    pub name: Vec<u8>,
    pub passwd: Vec<u8>,
    pub uid: UidCodec,
    pub gid: GidCodec,
    pub gecos: Vec<u8>,
    pub dir: Vec<u8>,
    pub shell: Vec<u8>,
}

/// Mathematical view of [`UserCodec`].
pub struct UserV {
    pub name: Seq<u8>,
    pub passwd: Seq<u8>,
    pub uid: u32,
    pub gid: u32,
    pub gecos: Seq<u8>,
    pub dir: Seq<u8>,
    pub shell: Seq<u8>,
}

impl View for UserCodec {
    type V = UserV;

    open spec fn view(&self) -> UserV {
        UserV {
            name: self.name@,
            passwd: self.passwd@,
            uid: self.uid.0,
            gid: self.gid.0,
            gecos: self.gecos@,
            dir: self.dir@,
            shell: self.shell@,
        }
    }
}

/// Normalized shape of a group identity record.
#[derive(Debug, Clone, PartialEq, Eq)]
pub struct GroupCodec {
    pub name: Vec<u8>,
    pub passwd: Vec<u8>,
    pub gid: GidCodec,
    pub mem: Vec<Vec<u8>>,
}

/// Mathematical view of [`GroupCodec`].
pub struct GroupV {
    pub name: Seq<u8>,
    pub passwd: Seq<u8>,
    pub gid: u32,
    pub mem: Seq<Seq<u8>>,
}

impl View for GroupCodec {
    type V = GroupV;

    open spec fn view(&self) -> GroupV {
        GroupV { name: self.name@, passwd: self.passwd@, gid: self.gid.0, mem: self.mem.deep_view() }
    }
}

/// Mathematical view of a whole metadata record.
pub struct RecordV {
    pub name: Seq<u8>,
    pub parent: Seq<u8>,
    pub stats: StatV,
    pub owner: UserV,
    pub group: GroupV,
    pub timestamp: u64,
    pub xattrs: Option<Seq<(Seq<u8>, Seq<u8>)>>,
}

// ---------------------------------------------------------------------------
// Structure-level encoding.
// ---------------------------------------------------------------------------
/// The twenty scalar slots of the inode-statistics layout: sixteen
/// informative fields plus the reserved slots, written as zero.
pub open spec fn stat_to_u64s(st: StatV) -> Seq<u64> {
    seq![
        st.dev, st.ino, st.nlink, st.mode as u64, st.uid as u64, st.gid as u64, 0u64, st.rdev,
        st.size as u64, st.blksize as u64, st.blocks as u64, st.atime as u64,
        st.atime_nsec as u64, st.mtime as u64, st.mtime_nsec as u64, st.ctime as u64,
        st.ctime_nsec as u64, 0u64, 0u64, 0u64,
    ]
}

pub open spec fn stat_from_u64s(v: Seq<u64>) -> StatV
    recommends
        v.len() == 20,
{
    StatV {
        dev: v[0],
        ino: v[1],
        nlink: v[2],
        mode: v[3] as u32,
        uid: v[4] as u32,
        gid: v[5] as u32,
        rdev: v[7],
        size: v[8] as i64,
        blksize: v[9] as i64,
        blocks: v[10] as i64,
        atime: v[11] as i64,
        atime_nsec: v[12] as i64,
        mtime: v[13] as i64,
        mtime_nsec: v[14] as i64,
        ctime: v[15] as i64,
        ctime_nsec: v[16] as i64,
    }
}

pub open spec fn enc_stat(st: StatV) -> Seq<u8> {
    enc_u64s(stat_to_u64s(st))
}

pub open spec fn dec_stat(s: Seq<u8>) -> Option<(StatV, int)> {
    match dec_u64s(s, 20) {
        Some((v, c)) => Some((stat_from_u64s(v), c)),
        None => None,
    }
}

proof fn lemma_cast_u32_round(x: u32)
    ensures
        (x as u64) as u32 == x,
{
}

proof fn lemma_cast_i64_round(x: i64)
    ensures
        (x as u64) as i64 == x,
{
    assert((x as u64) as i64 == x) by (bit_vector);
}

pub proof fn lemma_dec_enc_stat(st: StatV, rest: Seq<u8>)
    ensures
        enc_stat(st).len() == 160,
        dec_stat(enc_stat(st) + rest) == Some((st, 160int)),
        (enc_stat(st) + rest).skip(160) == rest,
{
    let xs = stat_to_u64s(st);
    lemma_dec_enc_u64s(xs, rest);
    lemma_cast_u32_round(st.mode);
    lemma_cast_u32_round(st.uid);
    lemma_cast_u32_round(st.gid);
    lemma_cast_i64_round(st.size);
    lemma_cast_i64_round(st.blksize);
    lemma_cast_i64_round(st.blocks);
    lemma_cast_i64_round(st.atime);
    lemma_cast_i64_round(st.atime_nsec);
    lemma_cast_i64_round(st.mtime);
    lemma_cast_i64_round(st.mtime_nsec);
    lemma_cast_i64_round(st.ctime);
    lemma_cast_i64_round(st.ctime_nsec);
    assert(stat_from_u64s(xs) == st);
}

/// Encoding of an owner identity: the credential slot always carries the
/// placeholder, never the record's own credential bytes.
pub open spec fn enc_user(u: UserV) -> Seq<u8> {
    enc_blob(u.name) + enc_blob(placeholder_passwd()) + enc_u64(u.uid as u64) + enc_u64(
        u.gid as u64,
    ) + enc_blob(u.gecos) + enc_blob(u.dir) + enc_blob(u.shell)
}

pub open spec fn dec_user(s: Seq<u8>) -> Option<(UserV, int)> {
    match dec_blob(s) {
        Some((name, c1)) => match dec_blob(s.skip(c1)) {
            Some((passwd, c2)) => match dec_u64(s.skip(c1 + c2)) {
                Some(uid) => match dec_u64(s.skip(c1 + c2 + 8)) {
                    Some(gid) => match dec_blob(s.skip(c1 + c2 + 16)) {
                        Some((gecos, c3)) => match dec_blob(s.skip(c1 + c2 + 16 + c3)) {
                            Some((dir, c4)) => match dec_blob(s.skip(c1 + c2 + 16 + c3 + c4)) {
                                Some((shell, c5)) => Some(
                                    (
                                        UserV {
                                            name,
                                            passwd,
                                            uid: uid as u32,
                                            gid: gid as u32,
                                            gecos,
                                            dir,
                                            shell,
                                        },
                                        c1 + c2 + 16 + c3 + c4 + c5,
                                    ),
                                ),
                                None => None,
                            },
                            None => None,
                        },
                        None => None,
                    },
                    None => None,
                },
                None => None,
            },
            None => None,
        },
        None => None,
    }
}

/// `u` with its credential field replaced by the placeholder.
pub open spec fn redact_user(u: UserV) -> UserV {
    UserV { passwd: placeholder_passwd(), ..u }
}

pub open spec fn user_fits(u: UserV) -> bool {
    fits_u64(u.name.len()) && fits_u64(u.gecos.len()) && fits_u64(u.dir.len()) && fits_u64(
        u.shell.len(),
    )
}

#[verifier::rlimit(100)]
#[verifier::spinoff_prover]
pub proof fn lemma_dec_enc_user(u: UserV, rest: Seq<u8>)
    requires
        user_fits(u),
    ensures
        dec_user(enc_user(u) + rest) == Some((redact_user(u), enc_user(u).len() as int)),
        (enc_user(u) + rest).skip(enc_user(u).len() as int) == rest,
{
    let s = enc_user(u) + rest;
    let r5 = enc_blob(u.gecos) + enc_blob(u.dir) + enc_blob(u.shell) + rest;
    let r4 = enc_u64(u.gid as u64) + r5;
    let r3 = enc_u64(u.uid as u64) + r4;
    let r2 = enc_blob(placeholder_passwd()) + r3;
    assert(s =~= enc_blob(u.name) + r2);
    lemma_dec_enc_blob(u.name, r2);
    let c1 = 8 + u.name.len() as int;
    assert(s.skip(c1) =~= r2);
    lemma_dec_enc_blob(placeholder_passwd(), r3);
    let c2 = 9int;
    assert(s.skip(c1 + c2) =~= r3);
    lemma_dec_enc_u64(u.uid as u64, r4);
    assert(s.skip(c1 + c2 + 8) =~= r4);
    lemma_dec_enc_u64(u.gid as u64, r5);
    assert(s.skip(c1 + c2 + 16) =~= r5);
    lemma_dec_enc_three_blobs(u.gecos, u.dir, u.shell, rest);
    let c3 = 8 + u.gecos.len() as int;
    let c4 = 8 + u.dir.len() as int;
    let c5 = 8 + u.shell.len() as int;
    assert(s.skip(c1 + c2 + 16 + c3) =~= r5.skip(c3));
    assert(s.skip(c1 + c2 + 16 + c3 + c4) =~= r5.skip(c3 + c4));
    assert(s.skip(c1 + c2 + 16 + c3 + c4 + c5) =~= r5.skip(c3 + c4 + c5));
    assert(enc_user(u).len() == c1 + c2 + 16 + c3 + c4 + c5);
}

/// Round trip of three consecutive byte strings.
#[verifier::rlimit(100)]
#[verifier::spinoff_prover]
proof fn lemma_dec_enc_three_blobs(a: Seq<u8>, b: Seq<u8>, c: Seq<u8>, rest: Seq<u8>)
    requires
        fits_u64(a.len()),
        fits_u64(b.len()),
        fits_u64(c.len()),
    ensures
        ({
            let s = enc_blob(a) + enc_blob(b) + enc_blob(c) + rest;
            let ca = 8 + a.len() as int;
            let cb = 8 + b.len() as int;
            let cc = 8 + c.len() as int;
            &&& dec_blob(s) == Some((a, ca))
            &&& dec_blob(s.skip(ca)) == Some((b, cb))
            &&& dec_blob(s.skip(ca + cb)) == Some((c, cc))
            &&& s.skip(ca + cb + cc) == rest
        }),
{
    let s = enc_blob(a) + enc_blob(b) + enc_blob(c) + rest;
    let r2 = enc_blob(b) + enc_blob(c) + rest;
    let r3 = enc_blob(c) + rest;
    assert(s =~= enc_blob(a) + r2);
    lemma_dec_enc_blob(a, r2);
    let ca = 8 + a.len() as int;
    assert(s.skip(ca) =~= r2);
    assert(r2 =~= enc_blob(b) + r3);
    lemma_dec_enc_blob(b, r3);
    let cb = 8 + b.len() as int;
    assert(s.skip(ca + cb) =~= r3);
    lemma_dec_enc_blob(c, rest);
    let cc = 8 + c.len() as int;
    assert(s.skip(ca + cb + cc) =~= rest);
}

/// Encoding of a group identity: credential slot redacted, members as a
/// count-prefixed blob list.
pub open spec fn enc_group(g: GroupV) -> Seq<u8> {
    enc_blob(g.name) + enc_blob(placeholder_passwd()) + enc_u64(g.gid as u64) + enc_u64(
        g.mem.len() as u64,
    ) + enc_blobs(g.mem)
}

pub open spec fn dec_group(s: Seq<u8>) -> Option<(GroupV, int)> {
    match dec_blob(s) {
        Some((name, c1)) => match dec_blob(s.skip(c1)) {
            Some((passwd, c2)) => match dec_u64(s.skip(c1 + c2)) {
                Some(gid) => match dec_u64(s.skip(c1 + c2 + 8)) {
                    Some(n) => match dec_blobs(s.skip(c1 + c2 + 16), n as nat) {
                        Some((mem, c3)) => Some(
                            (
                                GroupV { name, passwd, gid: gid as u32, mem },
                                c1 + c2 + 16 + c3,
                            ),
                        ),
                        None => None,
                    },
                    None => None,
                },
                None => None,
            },
            None => None,
        },
        None => None,
    }
}

pub open spec fn redact_group(g: GroupV) -> GroupV {
    GroupV { passwd: placeholder_passwd(), ..g }
}

pub open spec fn group_fits(g: GroupV) -> bool {
    fits_u64(g.name.len()) && fits_u64(g.mem.len()) && blobs_fit(g.mem)
}

#[verifier::rlimit(100)]
#[verifier::spinoff_prover]
pub proof fn lemma_dec_enc_group(g: GroupV, rest: Seq<u8>)
    requires
        group_fits(g),
    ensures
        dec_group(enc_group(g) + rest) == Some((redact_group(g), enc_group(g).len() as int)),
        (enc_group(g) + rest).skip(enc_group(g).len() as int) == rest,
{
    let s = enc_group(g) + rest;
    let r2 = enc_blob(placeholder_passwd()) + enc_u64(g.gid as u64) + enc_u64(g.mem.len() as u64)
        + enc_blobs(g.mem) + rest;
    let r3 = enc_u64(g.gid as u64) + enc_u64(g.mem.len() as u64) + enc_blobs(g.mem) + rest;
    let r4 = enc_u64(g.mem.len() as u64) + enc_blobs(g.mem) + rest;
    let r5 = enc_blobs(g.mem) + rest;
    assert(s =~= enc_blob(g.name) + r2);
    lemma_dec_enc_blob(g.name, r2);
    let c1 = 8 + g.name.len() as int;
    assert(s.skip(c1) =~= r2);
    assert(r2 =~= enc_blob(placeholder_passwd()) + r3);
    lemma_dec_enc_blob(placeholder_passwd(), r3);
    let c2 = 9int;
    assert(s.skip(c1 + c2) =~= r3);
    assert(r3 =~= enc_u64(g.gid as u64) + r4);
    lemma_dec_enc_u64(g.gid as u64, r4);
    assert(s.skip(c1 + c2 + 8) =~= r4);
    assert(r4 =~= enc_u64(g.mem.len() as u64) + r5);
    lemma_dec_enc_u64(g.mem.len() as u64, r5);
    assert(s.skip(c1 + c2 + 16) =~= r5);
    lemma_dec_enc_blobs(g.mem, rest);
    let c3 = enc_blobs(g.mem).len() as int;
    assert(s.skip(c1 + c2 + 16 + c3) =~= rest);
    assert(enc_group(g).len() == c1 + c2 + 16 + c3);
}

/// Encoding of the optional attribute list: a presence slot (0 for absent, 1
/// for present), then for a present list its count and its pairs. An entry
/// with zero attributes (`None`) is distinct from a present, empty list.
pub open spec fn enc_xattrs(x: Option<Seq<(Seq<u8>, Seq<u8>)>>) -> Seq<u8> {
    match x {
        None => enc_u64(0),
        Some(ps) => enc_u64(1) + enc_u64(ps.len() as u64) + enc_pairs(ps),
    }
}

pub open spec fn dec_xattrs(s: Seq<u8>) -> Option<(Option<Seq<(Seq<u8>, Seq<u8>)>>, int)> {
    match dec_u64(s) {
        Some(tag) => if tag == 0 {
            Some((None, 8))
        } else if tag == 1 {
            match dec_u64(s.skip(8)) {
                Some(n) => match dec_pairs(s.skip(16), n as nat) {
                    Some((ps, c)) => Some((Some(ps), 16 + c)),
                    None => None,
                },
                None => None,
            }
        } else {
            None
        },
        None => None,
    }
}

pub open spec fn xattrs_fit(x: Option<Seq<(Seq<u8>, Seq<u8>)>>) -> bool {
    match x {
        None => true,
        Some(ps) => fits_u64(ps.len()) && pairs_fit(ps),
    }
}

pub proof fn lemma_dec_enc_xattrs(x: Option<Seq<(Seq<u8>, Seq<u8>)>>, rest: Seq<u8>)
    requires
        xattrs_fit(x),
    ensures
        dec_xattrs(enc_xattrs(x) + rest) == Some((x, enc_xattrs(x).len() as int)),
        (enc_xattrs(x) + rest).skip(enc_xattrs(x).len() as int) == rest,
{
    let s = enc_xattrs(x) + rest;
    match x {
        None => {
            lemma_dec_enc_u64(0, rest);
            assert(s.skip(8) =~= rest);
        },
        Some(ps) => {
            let r2 = enc_u64(ps.len() as u64) + enc_pairs(ps) + rest;
            let r3 = enc_pairs(ps) + rest;
            assert(s =~= enc_u64(1) + r2);
            lemma_dec_enc_u64(1, r2);
            assert(s.skip(8) =~= r2);
            assert(r2 =~= enc_u64(ps.len() as u64) + r3);
            lemma_dec_enc_u64(ps.len() as u64, r3);
            assert(s.skip(16) =~= r3);
            lemma_dec_enc_pairs(ps, rest);
            let c = enc_pairs(ps).len() as int;
            assert(s.skip(16 + c) =~= rest);
        },
    }
}

// ---------------------------------------------------------------------------
// Whole-record encoding and the round-trip laws.
// ---------------------------------------------------------------------------
pub open spec fn enc_record(r: RecordV) -> Seq<u8> {
    enc_blob(r.name) + enc_blob(r.parent) + enc_stat(r.stats) + enc_user(r.owner) + enc_group(
        r.group,
    ) + enc_u64(r.timestamp) + enc_xattrs(r.xattrs)
}

/// Decode a whole record; the buffer must hold exactly one record.
pub open spec fn dec_record(s: Seq<u8>) -> Option<RecordV> {
    match dec_blob(s) {
        Some((name, c1)) => match dec_blob(s.skip(c1)) {
            Some((parent, c2)) => match dec_stat(s.skip(c1 + c2)) {
                Some((stats, c3)) => match dec_user(s.skip(c1 + c2 + c3)) {
                    Some((owner, c4)) => match dec_group(s.skip(c1 + c2 + c3 + c4)) {
                        Some((group, c5)) => match dec_u64(s.skip(c1 + c2 + c3 + c4 + c5)) {
                            Some(timestamp) => match dec_xattrs(
                                s.skip(c1 + c2 + c3 + c4 + c5 + 8),
                            ) {
                                Some((xattrs, c6)) => if s.len() == c1 + c2 + c3 + c4 + c5 + 8
                                    + c6 {
                                    Some(
                                        RecordV { name, parent, stats, owner, group, timestamp, xattrs },
                                    )
                                } else {
                                    None
                                },
                                None => None,
                            },
                            None => None,
                        },
                        None => None,
                    },
                    None => None,
                },
                None => None,
            },
            None => None,
        },
        None => None,
    }
}

/// `r` with both credential fields replaced by the placeholder: what any
/// persisted form of `r` decodes back to.
pub open spec fn redact_record(r: RecordV) -> RecordV {
    RecordV { owner: redact_user(r.owner), group: redact_group(r.group), ..r }
}

/// A record every machine-built value satisfies: every length the format
/// must carry fits in a `u64` slot.
pub open spec fn record_fits(r: RecordV) -> bool {
    fits_u64(r.name.len()) && fits_u64(r.parent.len()) && user_fits(r.owner) && group_fits(
        r.group,
    ) && xattrs_fit(r.xattrs)
}

/// Round-trip law: decoding an encoded record gives back the record exactly,
/// except the credential fields, which decode to the fixed placeholder.
#[verifier::rlimit(100)]
#[verifier::spinoff_prover]
pub proof fn lemma_record_round_trip(r: RecordV)
    requires
        record_fits(r),
    ensures
        dec_record(enc_record(r)) == Some(redact_record(r)),
{
    let s = enc_record(r);
    let t = enc_user(r.owner) + enc_group(r.group) + enc_u64(r.timestamp) + enc_xattrs(r.xattrs);
    let r2 = enc_blob(r.parent) + enc_stat(r.stats) + t;
    let r3 = enc_stat(r.stats) + t;
    assert(s =~= enc_blob(r.name) + r2);
    lemma_dec_enc_blob(r.name, r2);
    let c1 = 8 + r.name.len() as int;
    assert(s.skip(c1) =~= r2);
    assert(r2 =~= enc_blob(r.parent) + r3);
    lemma_dec_enc_blob(r.parent, r3);
    let c2 = 8 + r.parent.len() as int;
    assert(s.skip(c1 + c2) =~= r3);
    lemma_dec_enc_stat(r.stats, t);
    let c3 = 160int;
    assert(s.skip(c1 + c2 + c3) =~= t);
    lemma_round_trip_tail(r.owner, r.group, r.timestamp, r.xattrs);
    let c4 = enc_user(r.owner).len() as int;
    let c5 = enc_group(r.group).len() as int;
    let c6 = enc_xattrs(r.xattrs).len() as int;
    assert(s.skip(c1 + c2 + c3 + c4) =~= t.skip(c4));
    assert(s.skip(c1 + c2 + c3 + c4 + c5) =~= t.skip(c4 + c5));
    assert(s.skip(c1 + c2 + c3 + c4 + c5 + 8) =~= t.skip(c4 + c5 + 8));
    assert(s.len() == c1 + c2 + c3 + c4 + c5 + 8 + c6);
}

/// Round trip of the record tail, from the owner identity onwards.
#[verifier::rlimit(100)]
#[verifier::spinoff_prover]
proof fn lemma_round_trip_tail(
    o: UserV,
    g: GroupV,
    ts: u64,
    x: Option<Seq<(Seq<u8>, Seq<u8>)>>,
)
    requires
        user_fits(o),
        group_fits(g),
        xattrs_fit(x),
    ensures
        ({
            let t = enc_user(o) + enc_group(g) + enc_u64(ts) + enc_xattrs(x);
            let cu = enc_user(o).len() as int;
            let cg = enc_group(g).len() as int;
            let cx = enc_xattrs(x).len() as int;
            &&& dec_user(t) == Some((redact_user(o), cu))
            &&& dec_group(t.skip(cu)) == Some((redact_group(g), cg))
            &&& dec_u64(t.skip(cu + cg)) == Some(ts)
            &&& dec_xattrs(t.skip(cu + cg + 8)) == Some((x, cx))
            &&& t.len() == cu + cg + 8 + cx
        }),
{
    let t = enc_user(o) + enc_group(g) + enc_u64(ts) + enc_xattrs(x);
    let r5 = enc_group(g) + enc_u64(ts) + enc_xattrs(x);
    let r6 = enc_u64(ts) + enc_xattrs(x);
    let r7 = enc_xattrs(x);
    assert(t =~= enc_user(o) + r5);
    lemma_dec_enc_user(o, r5);
    let cu = enc_user(o).len() as int;
    assert(t.skip(cu) =~= r5);
    assert(r5 =~= enc_group(g) + r6);
    lemma_dec_enc_group(g, r6);
    let cg = enc_group(g).len() as int;
    assert(t.skip(cu + cg) =~= r6);
    lemma_dec_enc_u64(ts, r7);
    assert(t.skip(cu + cg + 8) =~= r7);
    lemma_dec_enc_xattrs(x, Seq::empty());
    assert(enc_xattrs(x) + Seq::<u8>::empty() =~= enc_xattrs(x));
}

/// Redaction law: whatever credential bytes a record holds, its encoded form
/// decodes with both credential fields equal to the placeholder.
pub proof fn lemma_encoded_credentials_redacted(r: RecordV)
    requires
        record_fits(r),
    ensures
        dec_record(enc_record(r)) is Some,
        dec_record(enc_record(r)).unwrap().owner.passwd == placeholder_passwd(),
        dec_record(enc_record(r)).unwrap().group.passwd == placeholder_passwd(),
{
    lemma_record_round_trip(r);
}

// ---------------------------------------------------------------------------
// The fallible encoder.
// ---------------------------------------------------------------------------
/// Failure of the underlying byte buffer.
#[derive(Debug, Clone, Copy, PartialEq, Eq)]
pub struct BufferError;

/// Error of the fallible encoder: either the inner buffer failed, or a field
/// that must be text could not be represented as text. The first kind may be
/// retried with more space; the second never should be, the input itself is
/// invalid.
#[derive(Debug)]
pub enum CodecSerializerError<E> {
    Inner(E),
    AsStringError,
}

/// Interface of an inner byte-buffer encoder: a current write position and an
/// append operation.
pub trait Serializer: Sized {
    /// The bytes written so far.
    spec fn out(&self) -> Seq<u8>;

    /// Whether this kind of buffer can never refuse an append: the growable
    /// in-memory buffer never does, a bounded one may.
    spec fn always_ok() -> bool;

    /// A fresh buffer with nothing written.
    fn empty() -> (r: Self)
        ensures
            r.out() == Seq::<u8>::empty(),
    ;

    /// Current write position: the number of bytes written so far.
    fn pos(&self) -> (r: usize)
        ensures
            r == self.out().len(),
    ;

    /// Append `bytes` at the write position; a refusal leaves the buffer as
    /// it was.
    fn write(&mut self, bytes: &[u8]) -> (r: Result<(), BufferError>)
        ensures
            r is Ok ==> final(self).out() == old(self).out() + bytes@,
            r is Err ==> final(self).out() == old(self).out(),
            Self::always_ok() ==> r is Ok,
    ;
}

/// The default inner encoder: a growable in-memory byte buffer, which never
/// fails to append.
pub struct BufSerializer {
    pub buf: Vec<u8>,
}

impl Serializer for BufSerializer {
    open spec fn out(&self) -> Seq<u8> {
        self.buf@
    }

    open spec fn always_ok() -> bool {
        true
    }

    fn empty() -> (r: Self) {
        BufSerializer { buf: Vec::new() }
    }

    fn pos(&self) -> (r: usize) {
        self.buf.len()
    }

    fn write(&mut self, bytes: &[u8]) -> (r: Result<(), BufferError>) {
        let mut v = slice_to_vec(bytes);
        self.buf.append(&mut v);
        Ok(())
    }
}

/// Fallible encoder over an inner byte-buffer encoder: forwards the position
/// and append operations and lifts inner failures into
/// [`CodecSerializerError`].
pub struct CodecSerializer<S> {
    pub inner: S,
}

impl<S: Serializer> Default for CodecSerializer<S> {
    /// A fresh encoder over a fresh inner buffer.
    fn default() -> (r: Self)
        ensures
            r.inner.out() == Seq::<u8>::empty(),
    {
        CodecSerializer { inner: S::empty() }
    }
}

impl<S: Serializer> CodecSerializer<S> {
    pub fn new(inner: S) -> (r: Self)
        ensures
            r.inner == inner,
    {
        CodecSerializer { inner }
    }

    pub fn into_inner(self) -> (r: S)
        ensures
            r == self.inner,
    {
        self.inner
    }

    /// Current write position of the inner encoder.
    pub fn pos(&self) -> (r: usize)
        ensures
            r == self.inner.out().len(),
    {
        self.inner.pos()
    }

    /// Append bytes, lifting an inner failure into `Inner`.
    pub fn write(&mut self, bytes: &[u8]) -> (r: Result<(), CodecSerializerError<BufferError>>)
        ensures
            r is Ok ==> final(self).inner.out() == old(self).inner.out() + bytes@,
            r is Err ==> final(self).inner.out() == old(self).inner.out() && r->Err_0 is Inner
                && !S::always_ok(),
            S::always_ok() ==> r is Ok,
    {
        match self.inner.write(bytes) {
            Ok(()) => Ok(()),
            Err(e) => Err(CodecSerializerError::Inner(e)),
        }
    }

    /// Append one scalar slot.
    pub fn write_u64(&mut self, x: u64) -> (r: Result<(), CodecSerializerError<BufferError>>)
        ensures
            r is Ok ==> final(self).inner.out() == old(self).inner.out() + enc_u64(x),
            r is Err ==> r->Err_0 is Inner && !S::always_ok(),
            S::always_ok() ==> r is Ok,
    {
        let v = u64_to_le_bytes(x);
        self.write(v.as_slice())
    }

    /// Append one length-prefixed byte string.
    pub fn write_blob(&mut self, b: &[u8]) -> (r: Result<(), CodecSerializerError<BufferError>>)
        ensures
            r is Ok ==> final(self).inner.out() == old(self).inner.out() + enc_blob(b@),
            r is Err ==> r->Err_0 is Inner && !S::always_ok(),
            S::always_ok() ==> r is Ok,
    {
        match self.write_u64(b.len() as u64) {
            Ok(()) => {},
            Err(e) => {
                return Err(e);
            },
        }
        match self.write(b) {
            Ok(()) => {},
            Err(e) => {
                return Err(e);
            },
        }
        proof {
            assert(old(self).inner.out() + enc_blob(b@) =~= old(self).inner.out() + enc_u64(
                b@.len() as u64,
            ) + b@);
        }
        Ok(())
    }

    /// Append the credential placeholder blob: credential bytes themselves
    /// are never written.
    pub fn write_placeholder(&mut self) -> (r: Result<(), CodecSerializerError<BufferError>>)
        ensures
            r is Ok ==> final(self).inner.out() == old(self).inner.out() + enc_blob(
                placeholder_passwd(),
            ),
            r is Err ==> r->Err_0 is Inner && !S::always_ok(),
            S::always_ok() ==> r is Ok,
    {
        let mut v: Vec<u8> = Vec::new();
        v.push(120);
        proof {
            assert(v@ =~= placeholder_passwd());
        }
        self.write_blob(v.as_slice())
    }

    /// Append a byte string that must be text-representable: fails with
    /// `AsStringError`, appending nothing, when `b` is not valid text.
    pub fn write_text(&mut self, b: &[u8]) -> (r: Result<
        (),
        CodecSerializerError<BufferError>,
    >)
        ensures
            r is Ok ==> vstd::utf8::valid_utf8(b@) && final(self).inner.out() == old(
                self,
            ).inner.out() + enc_blob(b@),
            r matches Err(e) ==> (e is AsStringError <==> !vstd::utf8::valid_utf8(b@)),
            r matches Err(e) && e is Inner ==> !S::always_ok(),
            S::always_ok() ==> (r is Ok <==> vstd::utf8::valid_utf8(b@)),
    {
        if crate::wrappers::bytes_to_string(b).is_some() {
            self.write_blob(b)
        } else {
            Err(CodecSerializerError::AsStringError)
        }
    }

    /// Append a list of scalar slots.
    pub fn write_u64s(&mut self, xs: &Vec<u64>) -> (r: Result<
        (),
        CodecSerializerError<BufferError>,
    >)
        ensures
            r is Ok ==> final(self).inner.out() == old(self).inner.out() + enc_u64s(xs@),
            r is Err ==> r->Err_0 is Inner && !S::always_ok(),
            S::always_ok() ==> r is Ok,
    {
        let ghost base = self.inner.out();
        let mut i: usize = 0;
        while i < xs.len()
            invariant
                i <= xs.len(),
                self.inner.out() == base + enc_u64s(xs@.take(i as int)),
            decreases xs.len() - i,
        {
            match self.write_u64(xs[i]) {
                Ok(()) => {},
                Err(e) => {
                    return Err(e);
                },
            }
            proof {
                lemma_enc_u64s_snoc(xs@.take(i as int), xs@[i as int]);
                assert(xs@.take(i + 1) =~= xs@.take(i as int).push(xs@[i as int]));
                assert(base + enc_u64s(xs@.take(i as int)) + enc_u64(xs@[i as int]) =~= base
                    + enc_u64s(xs@.take(i + 1)));
            }
            i += 1;
        }
        proof {
            assert(xs@.take(xs@.len() as int) =~= xs@);
        }
        Ok(())
    }

    /// Append a list of byte strings.
    pub fn write_blobs(&mut self, bs: &Vec<Vec<u8>>) -> (r: Result<
        (),
        CodecSerializerError<BufferError>,
    >)
        ensures
            r is Ok ==> final(self).inner.out() == old(self).inner.out() + enc_blobs(
                bs.deep_view(),
            ),
            r is Err ==> r->Err_0 is Inner && !S::always_ok(),
            S::always_ok() ==> r is Ok,
    {
        let ghost base = self.inner.out();
        let mut i: usize = 0;
        while i < bs.len()
            invariant
                i <= bs.len(),
                self.inner.out() == base + enc_blobs(bs.deep_view().take(i as int)),
            decreases bs.len() - i,
        {
            match self.write_blob(bs[i].as_slice()) {
                Ok(()) => {},
                Err(e) => {
                    return Err(e);
                },
            }
            proof {
                lemma_vec_u8_deep(&bs@[i as int]);
                lemma_enc_blobs_snoc(bs.deep_view().take(i as int), bs.deep_view()[i as int]);
                assert(bs.deep_view().take(i + 1) =~= bs.deep_view().take(i as int).push(
                    bs.deep_view()[i as int],
                ));
                assert(base + enc_blobs(bs.deep_view().take(i as int)) + enc_blob(bs@[i as int]@)
                    =~= base + enc_blobs(bs.deep_view().take(i + 1)));
            }
            i += 1;
        }
        proof {
            assert(bs.deep_view().take(bs@.len() as int) =~= bs.deep_view());
        }
        Ok(())
    }

    /// Append a list of (name, value) pairs.
    pub fn write_pairs(&mut self, ps: &Vec<(Vec<u8>, Vec<u8>)>) -> (r: Result<
        (),
        CodecSerializerError<BufferError>,
    >)
        ensures
            r is Ok ==> final(self).inner.out() == old(self).inner.out() + enc_pairs(
                ps.deep_view(),
            ),
            r is Err ==> r->Err_0 is Inner && !S::always_ok(),
            S::always_ok() ==> r is Ok,
    {
        let ghost base = self.inner.out();
        let mut i: usize = 0;
        while i < ps.len()
            invariant
                i <= ps.len(),
                self.inner.out() == base + enc_pairs(ps.deep_view().take(i as int)),
            decreases ps.len() - i,
        {
            let p = &ps[i];
            match self.write_blob(p.0.as_slice()) {
                Ok(()) => {},
                Err(e) => {
                    return Err(e);
                },
            }
            match self.write_blob(p.1.as_slice()) {
                Ok(()) => {},
                Err(e) => {
                    return Err(e);
                },
            }
            proof {
                lemma_vec_u8_deep(&ps@[i as int].0);
                lemma_vec_u8_deep(&ps@[i as int].1);
                lemma_enc_pairs_snoc(ps.deep_view().take(i as int), ps.deep_view()[i as int]);
                assert(ps.deep_view().take(i + 1) =~= ps.deep_view().take(i as int).push(
                    ps.deep_view()[i as int],
                ));
                assert(base + enc_pairs(ps.deep_view().take(i as int)) + enc_blob(
                    ps@[i as int].0@,
                ) + enc_blob(ps@[i as int].1@) =~= base + enc_pairs(ps.deep_view().take(i + 1)));
            }
            i += 1;
        }
        proof {
            assert(ps.deep_view().take(ps@.len() as int) =~= ps.deep_view());
        }
        Ok(())
    }

    /// Append the twenty scalar slots of an inode-statistics record.
    pub fn write_stat(&mut self, st: &FileStatCodec) -> (r: Result<
        (),
        CodecSerializerError<BufferError>,
    >)
        ensures
            r is Ok ==> final(self).inner.out() == old(self).inner.out() + enc_stat(st@),
            r is Err ==> r->Err_0 is Inner && !S::always_ok(),
            S::always_ok() ==> r is Ok,
    {
        let xs: Vec<u64> = vec![
            st.st_dev,
            st.st_ino,
            st.st_nlink,
            st.st_mode as u64,
            st.st_uid as u64,
            st.st_gid as u64,
            0u64,
            st.st_rdev,
            st.st_size as u64,
            st.st_blksize as u64,
            st.st_blocks as u64,
            st.st_atime as u64,
            st.st_atime_nsec as u64,
            st.st_mtime as u64,
            st.st_mtime_nsec as u64,
            st.st_ctime as u64,
            st.st_ctime_nsec as u64,
            0u64,
            0u64,
            0u64,
        ];
        proof {
            assert(xs@ =~= stat_to_u64s(st@));
        }
        self.write_u64s(&xs)
    }
}

// ---------------------------------------------------------------------------
// Decoding: cursor-style readers over a byte buffer. Each reader implements
// the corresponding `dec_*` parser on the suffix of the buffer at the cursor.
// ---------------------------------------------------------------------------
/// Read one scalar slot at `*pos`.
pub fn read_u64(b: &[u8], pos: &mut usize) -> (r: Option<u64>)
    requires
        *old(pos) <= b@.len(),
    ensures
        *final(pos) <= b@.len(),
        match r {
            Some(x) => dec_u64(b@.skip(*old(pos) as int)) == Some(x) && *final(pos) == *old(pos)
                + 8,
            None => dec_u64(b@.skip(*old(pos) as int)) is None && *final(pos) == *old(pos),
        },
{
    if b.len() - *pos >= 8 {
        let s = slice_subrange(b, *pos, *pos + 8);
        let x = u64_from_le_bytes(s);
        proof {
            assert(b@.skip(*pos as int).take(8) =~= b@.subrange(*pos as int, *pos as int + 8));
        }
        *pos = *pos + 8;
        Some(x)
    } else {
        None
    }
}

/// Read one length-prefixed byte string at `*pos`.
pub fn read_blob(b: &[u8], pos: &mut usize) -> (r: Option<Vec<u8>>)
    requires
        *old(pos) <= b@.len(),
    ensures
        *final(pos) <= b@.len(),
        match r {
            Some(v) => {
                &&& dec_blob(b@.skip(*old(pos) as int)) matches Some(p)
                &&& p.0 == v@
                &&& *final(pos) == *old(pos) + p.1
            },
            None => dec_blob(b@.skip(*old(pos) as int)) is None,
        },
{
    let start = *pos;
    let ghost sfx = b@.skip(start as int);
    match read_u64(b, pos) {
        None => None,
        Some(n) => {
            if n <= (b.len() - *pos) as u64 {
                let nn = n as usize;
                let s = slice_subrange(b, *pos, *pos + nn);
                let v = slice_to_vec(s);
                proof {
                    assert(sfx.subrange(8, 8 + n as int) =~= b@.subrange(
                        start + 8,
                        start + 8 + n as int,
                    ));
                }
                *pos = *pos + nn;
                Some(v)
            } else {
                None
            }
        },
    }
}

/// Read `n` scalar slots at `*pos`.
pub fn read_u64s(b: &[u8], pos: &mut usize, n: usize) -> (r: Option<Vec<u64>>)
    requires
        *old(pos) <= b@.len(),
    ensures
        *final(pos) <= b@.len(),
        match r {
            Some(v) => {
                &&& dec_u64s(b@.skip(*old(pos) as int), n as nat) matches Some(q)
                &&& q.0 == v@
                &&& *final(pos) == *old(pos) + q.1
                &&& v@.len() == n
            },
            None => dec_u64s(b@.skip(*old(pos) as int), n as nat) is None,
        },
    decreases n,
{
    if n == 0 {
        Some(Vec::new())
    } else {
        let start = *pos;
        let ghost sfx = b@.skip(start as int);
        match read_u64(b, pos) {
            None => None,
            Some(x) => {
                let mid = *pos;
                proof {
                    assert(b@.skip(mid as int) =~= sfx.skip(8));
                }
                match read_u64s(b, pos, n - 1) {
                    None => None,
                    Some(tail) => {
                        let mut v = tail;
                        v.insert(0, x);
                        proof {
                            let q = dec_u64s(sfx.skip(8), (n - 1) as nat).unwrap();
                            assert(v@ =~= seq![x] + q.0);
                        }
                        Some(v)
                    },
                }
            },
        }
    }
}

/// Read `n` length-prefixed byte strings at `*pos`.
pub fn read_blobs(b: &[u8], pos: &mut usize, n: u64) -> (r: Option<Vec<Vec<u8>>>)
    requires
        *old(pos) <= b@.len(),
    ensures
        *final(pos) <= b@.len(),
        match r {
            Some(v) => {
                &&& dec_blobs(b@.skip(*old(pos) as int), n as nat) matches Some(q)
                &&& q.0 == v.deep_view()
                &&& *final(pos) == *old(pos) + q.1
            },
            None => dec_blobs(b@.skip(*old(pos) as int), n as nat) is None,
        },
    decreases n,
{
    if n == 0 {
        Some(Vec::new())
    } else {
        let start = *pos;
        let ghost sfx = b@.skip(start as int);
        match read_blob(b, pos) {
            None => None,
            Some(head) => {
                let mid = *pos;
                proof {
                    let p = dec_blob(sfx).unwrap();
                    assert(b@.skip(mid as int) =~= sfx.skip(p.1));
                }
                match read_blobs(b, pos, n - 1) {
                    None => None,
                    Some(tail) => {
                        let mut v = tail;
                        v.insert(0, head);
                        proof {
                            let p = dec_blob(sfx).unwrap();
                            let q = dec_blobs(sfx.skip(p.1), (n - 1) as nat).unwrap();
                            lemma_vec_u8_deep(&v@[0]);
                            assert(v.deep_view() =~= seq![p.0] + q.0);
                        }
                        Some(v)
                    },
                }
            },
        }
    }
}

/// Read `n` (name, value) pairs at `*pos`.
pub fn read_pairs(b: &[u8], pos: &mut usize, n: u64) -> (r: Option<Vec<(Vec<u8>, Vec<u8>)>>)
    requires
        *old(pos) <= b@.len(),
    ensures
        *final(pos) <= b@.len(),
        match r {
            Some(v) => {
                &&& dec_pairs(b@.skip(*old(pos) as int), n as nat) matches Some(q)
                &&& q.0 == v.deep_view()
                &&& *final(pos) == *old(pos) + q.1
            },
            None => dec_pairs(b@.skip(*old(pos) as int), n as nat) is None,
        },
    decreases n,
{
    if n == 0 {
        Some(Vec::new())
    } else {
        let start = *pos;
        let ghost sfx = b@.skip(start as int);
        match read_blob(b, pos) {
            None => None,
            Some(name) => {
                let ghost c1 = dec_blob(sfx).unwrap().1;
                proof {
                    assert(b@.skip(start + c1) =~= sfx.skip(c1));
                }
                match read_blob(b, pos) {
                    None => None,
                    Some(value) => {
                        let mid = *pos;
                        proof {
                            let p = dec_pair(sfx).unwrap();
                            assert(b@.skip(mid as int) =~= sfx.skip(p.1));
                        }
                        match read_pairs(b, pos, n - 1) {
                            None => None,
                            Some(tail) => {
                                let mut v = tail;
                                v.insert(0, (name, value));
                                proof {
                                    let p = dec_pair(sfx).unwrap();
                                    let q = dec_pairs(sfx.skip(p.1), (n - 1) as nat).unwrap();
                                    lemma_vec_u8_deep(&v@[0].0);
                                    lemma_vec_u8_deep(&v@[0].1);
                                    assert(v.deep_view() =~= seq![p.0] + q.0);
                                }
                                Some(v)
                            },
                        }
                    },
                }
            },
        }
    }
}

/// Read one inode-statistics record at `*pos`; its reserved fields come back
/// as zero, as the normalized shape keeps them.
pub fn read_stat(b: &[u8], pos: &mut usize) -> (r: Option<FileStatCodec>)
    requires
        *old(pos) <= b@.len(),
    ensures
        *final(pos) <= b@.len(),
        match r {
            Some(st) => {
                &&& dec_stat(b@.skip(*old(pos) as int)) matches Some(q)
                &&& q.0 == st@
                &&& *final(pos) == *old(pos) + q.1
            },
            None => dec_stat(b@.skip(*old(pos) as int)) is None,
        },
{
    match read_u64s(b, pos, 20) {
        None => None,
        Some(v) => {
            let st = FileStatCodec::new(
                v[0],
                v[1],
                v[2],
                v[3] as u32,
                v[4] as u32,
                v[5] as u32,
                v[7],
                v[8] as i64,
                v[9] as i64,
                v[10] as i64,
                v[11] as i64,
                v[12] as i64,
                v[13] as i64,
                v[14] as i64,
                v[15] as i64,
                v[16] as i64,
            );
            Some(st)
        },
    }
}

proof fn lemma_vec_u8_deep(v: &Vec<u8>)
    ensures
        v.deep_view() == v@,
{
    assert(v.deep_view() =~= v@);
}

proof fn lemma_enc_u64s_snoc(xs: Seq<u64>, x: u64)
    ensures
        enc_u64s(xs.push(x)) == enc_u64s(xs) + enc_u64(x),
    decreases xs.len(),
{
    if xs.len() == 0 {
        reveal_with_fuel(enc_u64s, 2);
        assert(xs.push(x).skip(1) =~= Seq::<u64>::empty());
        assert(xs.push(x)[0] == x);
        assert(enc_u64s(xs.push(x)) =~= enc_u64(x));
        assert(enc_u64s(xs) + enc_u64(x) =~= enc_u64(x));
    } else {
        lemma_enc_u64s_snoc(xs.skip(1), x);
        assert(xs.push(x).skip(1) =~= xs.skip(1).push(x));
        assert(xs.push(x)[0] == xs[0]);
        assert(enc_u64(xs[0]) + (enc_u64s(xs.skip(1)) + enc_u64(x)) =~= enc_u64s(xs) + enc_u64(
            x,
        ));
    }
}

proof fn lemma_enc_blobs_snoc(bs: Seq<Seq<u8>>, b: Seq<u8>)
    ensures
        enc_blobs(bs.push(b)) == enc_blobs(bs) + enc_blob(b),
    decreases bs.len(),
{
    if bs.len() == 0 {
        reveal_with_fuel(enc_blobs, 2);
        assert(bs.push(b).skip(1) =~= Seq::<Seq<u8>>::empty());
        assert(bs.push(b)[0] == b);
        assert(enc_blobs(bs.push(b)) =~= enc_blob(b));
        assert(enc_blobs(bs) + enc_blob(b) =~= enc_blob(b));
    } else {
        lemma_enc_blobs_snoc(bs.skip(1), b);
        assert(bs.push(b).skip(1) =~= bs.skip(1).push(b));
        assert(bs.push(b)[0] == bs[0]);
        assert(enc_blob(bs[0]) + (enc_blobs(bs.skip(1)) + enc_blob(b)) =~= enc_blobs(bs)
            + enc_blob(b));
    }
}

proof fn lemma_enc_pairs_snoc(ps: Seq<(Seq<u8>, Seq<u8>)>, p: (Seq<u8>, Seq<u8>))
    ensures
        enc_pairs(ps.push(p)) == enc_pairs(ps) + enc_pair(p),
    decreases ps.len(),
{
    if ps.len() == 0 {
        reveal_with_fuel(enc_pairs, 2);
        assert(ps.push(p).skip(1) =~= Seq::<(Seq<u8>, Seq<u8>)>::empty());
        assert(ps.push(p)[0] == p);
        assert(enc_pairs(ps.push(p)) =~= enc_pair(p));
        assert(enc_pairs(ps) + enc_pair(p) =~= enc_pair(p));
    } else {
        lemma_enc_pairs_snoc(ps.skip(1), p);
        assert(ps.push(p).skip(1) =~= ps.skip(1).push(p));
        assert(ps.push(p)[0] == ps[0]);
        assert(enc_pair(ps[0]) + (enc_pairs(ps.skip(1)) + enc_pair(p)) =~= enc_pairs(ps)
            + enc_pair(p));
    }
}

/// The view of an optional attribute list held as executable vectors.
pub open spec fn xattrs_view(x: Option<Vec<(Vec<u8>, Vec<u8>)>>) -> Option<
    Seq<(Seq<u8>, Seq<u8>)>,
> {
    match x {
        Some(ps) => Some(ps.deep_view()),
        None => None,
    }
}

/// The text constraint the encoder enforces: the parent path and the owner's
/// path-valued fields must be valid text.
pub open spec fn texts_ok(r: RecordV) -> bool {
    vstd::utf8::valid_utf8(r.parent) && vstd::utf8::valid_utf8(r.owner.dir)
        && vstd::utf8::valid_utf8(r.owner.shell)
}

/// Read one owner identity record at `*pos`.
pub fn read_user(b: &[u8], pos: &mut usize) -> (r: Option<UserCodec>)
    requires
        *old(pos) <= b@.len(),
    ensures
        *final(pos) <= b@.len(),
        match r {
            Some(u) => {
                &&& dec_user(b@.skip(*old(pos) as int)) matches Some(q)
                &&& q.0 == u@
                &&& *final(pos) == *old(pos) + q.1
            },
            None => dec_user(b@.skip(*old(pos) as int)) is None,
        },
{
    let start = *pos;
    let ghost s = b@.skip(start as int);
    let name = match read_blob(b, pos) {
        Some(v) => v,
        None => {
            return None;
        },
    };
    let ghost c1 = dec_blob(s).unwrap().1;
    proof {
        assert(b@.skip(start + c1) =~= s.skip(c1));
    }
    let passwd = match read_blob(b, pos) {
        Some(v) => v,
        None => {
            return None;
        },
    };
    let ghost c2 = dec_blob(s.skip(c1)).unwrap().1;
    proof {
        assert(b@.skip(start + c1 + c2) =~= s.skip(c1 + c2));
    }
    let uid = match read_u64(b, pos) {
        Some(x) => x,
        None => {
            return None;
        },
    };
    proof {
        assert(b@.skip(start + c1 + c2 + 8) =~= s.skip(c1 + c2 + 8));
    }
    let gid = match read_u64(b, pos) {
        Some(x) => x,
        None => {
            return None;
        },
    };
    proof {
        assert(b@.skip(start + c1 + c2 + 16) =~= s.skip(c1 + c2 + 16));
    }
    let gecos = match read_blob(b, pos) {
        Some(v) => v,
        None => {
            return None;
        },
    };
    let ghost c3 = dec_blob(s.skip(c1 + c2 + 16)).unwrap().1;
    proof {
        assert(b@.skip(start + c1 + c2 + 16 + c3) =~= s.skip(c1 + c2 + 16 + c3));
    }
    let dir = match read_blob(b, pos) {
        Some(v) => v,
        None => {
            return None;
        },
    };
    let ghost c4 = dec_blob(s.skip(c1 + c2 + 16 + c3)).unwrap().1;
    proof {
        assert(b@.skip(start + c1 + c2 + 16 + c3 + c4) =~= s.skip(c1 + c2 + 16 + c3 + c4));
    }
    let shell = match read_blob(b, pos) {
        Some(v) => v,
        None => {
            return None;
        },
    };
    Some(
        UserCodec {
            name,
            passwd,
            uid: UidCodec(uid as u32),
            gid: GidCodec(gid as u32),
            gecos,
            dir,
            shell,
        },
    )
}

/// Read one group identity record at `*pos`.
pub fn read_group(b: &[u8], pos: &mut usize) -> (r: Option<GroupCodec>)
    requires
        *old(pos) <= b@.len(),
    ensures
        *final(pos) <= b@.len(),
        match r {
            Some(g) => {
                &&& dec_group(b@.skip(*old(pos) as int)) matches Some(q)
                &&& q.0 == g@
                &&& *final(pos) == *old(pos) + q.1
            },
            None => dec_group(b@.skip(*old(pos) as int)) is None,
        },
{
    let start = *pos;
    let ghost s = b@.skip(start as int);
    let name = match read_blob(b, pos) {
        Some(v) => v,
        None => {
            return None;
        },
    };
    let ghost c1 = dec_blob(s).unwrap().1;
    proof {
        assert(b@.skip(start + c1) =~= s.skip(c1));
    }
    let passwd = match read_blob(b, pos) {
        Some(v) => v,
        None => {
            return None;
        },
    };
    let ghost c2 = dec_blob(s.skip(c1)).unwrap().1;
    proof {
        assert(b@.skip(start + c1 + c2) =~= s.skip(c1 + c2));
    }
    let gid = match read_u64(b, pos) {
        Some(x) => x,
        None => {
            return None;
        },
    };
    proof {
        assert(b@.skip(start + c1 + c2 + 8) =~= s.skip(c1 + c2 + 8));
    }
    let n = match read_u64(b, pos) {
        Some(x) => x,
        None => {
            return None;
        },
    };
    proof {
        assert(b@.skip(start + c1 + c2 + 16) =~= s.skip(c1 + c2 + 16));
    }
    let mem = match read_blobs(b, pos, n) {
        Some(v) => v,
        None => {
            return None;
        },
    };
    Some(GroupCodec { name, passwd, gid: GidCodec(gid as u32), mem })
}

/// Read the optional attribute list at `*pos`; the outer `None` is a parse
/// failure, the inner option is the decoded presence.
pub fn read_xattrs(b: &[u8], pos: &mut usize) -> (r: Option<Option<Vec<(Vec<u8>, Vec<u8>)>>>)
    requires
        *old(pos) <= b@.len(),
    ensures
        *final(pos) <= b@.len(),
        match r {
            Some(x) => {
                &&& dec_xattrs(b@.skip(*old(pos) as int)) matches Some(q)
                &&& q.0 == xattrs_view(x)
                &&& *final(pos) == *old(pos) + q.1
            },
            None => dec_xattrs(b@.skip(*old(pos) as int)) is None,
        },
{
    let start = *pos;
    let ghost s = b@.skip(start as int);
    let tag = match read_u64(b, pos) {
        Some(x) => x,
        None => {
            return None;
        },
    };
    if tag == 0 {
        Some(None)
    } else if tag == 1 {
        proof {
            assert(b@.skip(start + 8) =~= s.skip(8));
        }
        let n = match read_u64(b, pos) {
            Some(x) => x,
            None => {
                return None;
            },
        };
        proof {
            assert(b@.skip(start + 16) =~= s.skip(16));
        }
        let ps = match read_pairs(b, pos, n) {
            Some(v) => v,
            None => {
                return None;
            },
        };
        Some(Some(ps))
    } else {
        None
    }
}

} // verus!
