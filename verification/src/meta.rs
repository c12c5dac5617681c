//! The metadata record: capture, encoding and persistence.
//!
//! A record is built once from a live filesystem entry, is immutable
//! thereafter, and is consumed exactly once by [`EntryMetaData::write`], so
//! one in-memory snapshot cannot be persisted twice.

use vstd::prelude::*;
use vstd::slice::{slice_subrange, slice_to_vec};

use crate::codec::{
    dec_blob, dec_record, dec_stat, dec_user, enc_record, placeholder_passwd, read_blob,
    read_stat, read_u64, read_user, read_xattrs, redact_group, redact_user, xattrs_view,
    BufSerializer, BufferError, CodecSerializer, CodecSerializerError, FileStatCodec, GidCodec,
    GroupCodec, GroupV, RecordV, Serializer, UidCodec, UserCodec, UserV,
};

verus! {

/// Identifies the hash algorithm content-addressing an entry in a history.
#[derive(Debug, Clone, PartialEq, Eq, Copy)]
pub enum EntryHash {
    SHA2([u8; 32]),
    SHA3([u8; 32]),
}

/// A point-in-time snapshot of one filesystem entry's metadata.
#[derive(Debug, Clone, PartialEq, Eq)]
pub struct EntryMetaData {
    /// Final path component of the entry; arbitrary bytes, round-trips
    /// exactly through the codec.
    pub name: Vec<u8>,
    /// Logical directory containing the entry; must be text-representable to
    /// encode.
    pub parent: Vec<u8>,
    /// Normalized inode statistics.
    pub stats: FileStatCodec,
    /// Resolved owner identity, credential field already redacted.
    pub owner: UserCodec,
    /// Resolved group identity, credential field already redacted.
    pub group: GroupCodec,
    /// Capture time, seconds since the epoch, assigned when the record is
    /// built.
    pub timestamp: u64,
    /// Extended attributes in enumeration order; `None` when the entry has
    /// none, distinct from attributes with empty values.
    pub xattrs: Option<Vec<(Vec<u8>, Vec<u8>)>>,
}

impl View for EntryMetaData {
    type V = RecordV;

    open spec fn view(&self) -> RecordV {
        RecordV {
            name: self.name@,
            parent: self.parent@,
            stats: self.stats@,
            owner: self.owner@,
            group: self.group@,
            timestamp: self.timestamp,
            xattrs: xattrs_view(self.xattrs),
        }
    }
}

/// The byte string `unknown`: the placeholder identity name.
pub open spec fn unknown_name() -> Seq<u8> {
    seq![117u8, 110u8, 107u8, 110u8, 111u8, 119u8, 110u8]
}

fn unknown_name_vec() -> (v: Vec<u8>)
    ensures
        v@ == unknown_name(),
{
    let mut v: Vec<u8> = Vec::new();
    v.push(117);
    v.push(110);
    v.push(107);
    v.push(110);
    v.push(111);
    v.push(119);
    v.push(110);
    proof {
        assert(v@ =~= unknown_name());
    }
    v
}

fn placeholder_vec() -> (v: Vec<u8>)
    ensures
        v@ == placeholder_passwd(),
{
    let mut v: Vec<u8> = Vec::new();
    v.push(120);
    proof {
        assert(v@ =~= placeholder_passwd());
    }
    v
}

/// Resolve an owner identity from a lookup result: a found record is taken
/// as it is; a missing one becomes the placeholder identity, the name
/// `unknown` with the numeric ids preserved and everything else empty — an
/// unresolvable identity never blocks a capture.
pub fn resolve_user(uid: u32, gid: u32, found: Option<UserCodec>) -> (r: UserCodec)
    ensures
        found matches Some(u) ==> r == u,
        found is None ==> r@ == (UserV {
            name: unknown_name(),
            passwd: Seq::empty(),
            uid,
            gid,
            gecos: Seq::empty(),
            dir: Seq::empty(),
            shell: Seq::empty(),
        }),
{
    match found {
        Some(u) => u,
        None => UserCodec {
            name: unknown_name_vec(),
            passwd: Vec::new(),
            uid: UidCodec(uid),
            gid: GidCodec(gid),
            gecos: Vec::new(),
            dir: Vec::new(),
            shell: Vec::new(),
        },
    }
}

/// Resolve a group identity from a lookup result; same policy as
/// [`resolve_user`].
pub fn resolve_group(gid: u32, found: Option<GroupCodec>) -> (r: GroupCodec)
    ensures
        found matches Some(g) ==> r == g,
        found is None ==> r@ == (GroupV {
            name: unknown_name(),
            passwd: Seq::empty(),
            gid,
            mem: Seq::empty(),
        }),
{
    match found {
        Some(g) => g,
        None => {
            let g = GroupCodec {
                name: unknown_name_vec(),
                passwd: Vec::new(),
                gid: GidCodec(gid),
                mem: Vec::new(),
            };
            proof {
                assert(g.mem.deep_view() =~= Seq::<Seq<u8>>::empty());
            }
            g
        },
    }
}

/// Overwrite the owner's credential field with the fixed placeholder,
/// unconditionally, whatever the identity database returned.
pub fn redact_user_codec(u: UserCodec) -> (r: UserCodec)
    ensures
        r@ == redact_user(u@),
{
    let mut r = u;
    r.passwd = placeholder_vec();
    r
}

/// Overwrite the group's credential field with the fixed placeholder.
pub fn redact_group_codec(g: GroupCodec) -> (r: GroupCodec)
    ensures
        r@ == redact_group(g@),
{
    let mut r = g;
    r.passwd = placeholder_vec();
    r
}

/// The pairing of attribute names with fetched values, index by index.
pub open spec fn zip_pairs(ns: Seq<Seq<u8>>, vs: Seq<Seq<u8>>) -> Seq<(Seq<u8>, Seq<u8>)> {
    Seq::new(ns.len(), |i: int| (ns[i], vs[i]))
}

/// Pair each discovered attribute name with its fetched value. Zero names
/// yield `None` — an entry with no extended attributes — and otherwise the
/// result holds exactly one pair per name, in enumeration order; an
/// attribute with an empty value stays present.
pub fn assemble_xattrs(names: Vec<Vec<u8>>, values: Vec<Vec<u8>>) -> (r: Option<
    Vec<(Vec<u8>, Vec<u8>)>,
>)
    requires
        names@.len() == values@.len(),
    ensures
        r is None <==> names@.len() == 0,
        r matches Some(ps) ==> ps.deep_view() == zip_pairs(names.deep_view(), values.deep_view()),
{
    if names.len() == 0 {
        return None;
    }
    let ghost zipped = zip_pairs(names.deep_view(), values.deep_view());
    let mut ns = names;
    let mut vs = values;
    let mut ps: Vec<(Vec<u8>, Vec<u8>)> = Vec::new();
    proof {
        assert(ns@ =~= names@.take(ns@.len() as int));
        assert(vs@ =~= values@.take(vs@.len() as int));
        assert(ps.deep_view() =~= zipped.skip(ns@.len() as int));
    }
    while ns.len() > 0
        invariant
            ns@.len() == vs@.len(),
            ns@.len() <= names@.len(),
            names@.len() == values@.len(),
            ns@ == names@.take(ns@.len() as int),
            vs@ == values@.take(vs@.len() as int),
            ps.deep_view() == zipped.skip(ns@.len() as int),
            zipped == zip_pairs(names.deep_view(), values.deep_view()),
        decreases ns.len(),
    {
        let ghost k = ns@.len() as int;
        let n = ns.pop().unwrap();
        let v = vs.pop().unwrap();
        proof {
            assert(n == names@[k - 1]);
            assert(v == values@[k - 1]);
            assert(names@[k - 1].deep_view() =~= names@[k - 1]@);
            assert(values@[k - 1].deep_view() =~= values@[k - 1]@);
        }
        let ghost old_ps = ps@;
        let ghost old_deep = ps.deep_view();
        ps.insert(0, (n, v));
        proof {
            assert(ps.deep_view().len() == ps@.len());
            assert forall|j: int| 0 <= j < ps.deep_view().len() implies ps.deep_view()[j] == (
            seq![(n.deep_view(), v.deep_view())] + old_deep)[j] by {
                if j == 0 {
                    assert(ps@[0] == (n, v));
                } else {
                    assert(ps@[j] == old_ps[j - 1]);
                    assert(old_deep[j - 1] == old_ps[j - 1].deep_view());
                }
            }
            assert(ps.deep_view() =~= seq![(n.deep_view(), v.deep_view())] + old_deep);
            assert(n.deep_view() =~= names@[k - 1]@);
            assert(v.deep_view() =~= values@[k - 1]@);
            assert(names.deep_view()[k - 1] =~= names@[k - 1]@);
            assert(values.deep_view()[k - 1] =~= values@[k - 1]@);
            assert(zipped[k - 1] == (n.deep_view(), v.deep_view()));
            assert(seq![zipped[k - 1]] + zipped.skip(k) =~= zipped.skip(k - 1));
            assert(ps.deep_view() == zipped.skip(k - 1));
            assert(ns@ =~= names@.take(ns@.len() as int));
            assert(vs@ =~= values@.take(vs@.len() as int));
        }
    }
    proof {
        assert(ps.deep_view() =~= zipped);
    }
    Some(ps)
}

/// Enumerate the extended attributes of the entry at `path`, best-effort:
/// an enumeration failure or a path that is not text yields `None`, and any
/// single attribute whose name is not text or whose fetch fails keeps an
/// empty value rather than aborting.
fn collect_xattrs(path: &[u8]) -> (r: Option<Vec<(Vec<u8>, Vec<u8>)>>)
    ensures
        r matches Some(ps) ==> ps@.len() > 0,
{
    let p = match crate::wrappers::bytes_to_string(path) {
        Some(s) => s,
        None => {
            return None;
        },
    };
    let names = match crate::wrappers::listxattr(p.as_str()) {
        Ok(ns) => ns,
        Err(_) => {
            return None;
        },
    };
    if names.len() == 0 {
        return None;
    }
    let mut values: Vec<Vec<u8>> = Vec::new();
    let mut i: usize = 0;
    while i < names.len()
        invariant
            i <= names@.len(),
            values@.len() == i,
        decreases names@.len() - i,
    {
        let value = match crate::wrappers::bytes_to_string(names[i].as_slice()) {
            Some(nm) => match crate::wrappers::getxattr(p.as_str(), nm.as_str()) {
                Ok(v) => v,
                Err(_) => Vec::new(),
            },
            None => Vec::new(),
        };
        values.push(value);
        i += 1;
    }
    let ghost nlen = names@.len();
    proof {
        assert(names.deep_view().len() == nlen);
    }
    let r = assemble_xattrs(names, values);
    proof {
        match &r {
            Some(ps) => {
                assert(ps.deep_view().len() == nlen);
                assert(ps@.len() == ps.deep_view().len());
            },
            None => {},
        }
    }
    r
}

impl<S: Serializer> CodecSerializer<S> {
    /// Encode a whole record onto a fresh inner buffer. `AsStringError`
    /// arises exactly when one of the text-constrained fields (the parent
    /// path, the owner's home directory or shell) is not text-representable;
    /// `Inner` only when the inner buffer itself can refuse an append, which
    /// the growable buffer never does.
    #[verifier::rlimit(100)]
    #[verifier::spinoff_prover]
    pub fn encode(value: &EntryMetaData) -> (r: Result<S, CodecSerializerError<BufferError>>)
        ensures
            r matches Ok(s) ==> s.out() == enc_record(value@) && crate::codec::texts_ok(value@),
            r matches Err(e) ==> (e is AsStringError ==> !crate::codec::texts_ok(value@)) && (
            e is Inner ==> !S::always_ok()),
            S::always_ok() ==> (r is Ok <==> crate::codec::texts_ok(value@)),
    {
        let mut ser = CodecSerializer::new(S::empty());
        match ser.write_blob(value.name.as_slice()) {
            Ok(()) => {},
            Err(e) => {
                return Err(e);
            },
        }
        match ser.write_text(value.parent.as_slice()) {
            Ok(()) => {},
            Err(e) => {
                return Err(e);
            },
        }
        match ser.write_stat(&value.stats) {
            Ok(()) => {},
            Err(e) => {
                return Err(e);
            },
        }
        let ghost head = ser.inner.out();
        match ser.write_blob(value.owner.name.as_slice()) {
            Ok(()) => {},
            Err(e) => {
                return Err(e);
            },
        }
        match ser.write_placeholder() {
            Ok(()) => {},
            Err(e) => {
                return Err(e);
            },
        }
        match ser.write_u64(value.owner.uid.0 as u64) {
            Ok(()) => {},
            Err(e) => {
                return Err(e);
            },
        }
        match ser.write_u64(value.owner.gid.0 as u64) {
            Ok(()) => {},
            Err(e) => {
                return Err(e);
            },
        }
        match ser.write_blob(value.owner.gecos.as_slice()) {
            Ok(()) => {},
            Err(e) => {
                return Err(e);
            },
        }
        match ser.write_text(value.owner.dir.as_slice()) {
            Ok(()) => {},
            Err(e) => {
                return Err(e);
            },
        }
        match ser.write_text(value.owner.shell.as_slice()) {
            Ok(()) => {},
            Err(e) => {
                return Err(e);
            },
        }
        proof {
            assert(ser.inner.out() =~= head + crate::codec::enc_user(value@.owner));
        }
        let ghost head2 = ser.inner.out();
        match ser.write_blob(value.group.name.as_slice()) {
            Ok(()) => {},
            Err(e) => {
                return Err(e);
            },
        }
        match ser.write_placeholder() {
            Ok(()) => {},
            Err(e) => {
                return Err(e);
            },
        }
        match ser.write_u64(value.group.gid.0 as u64) {
            Ok(()) => {},
            Err(e) => {
                return Err(e);
            },
        }
        match ser.write_u64(value.group.mem.len() as u64) {
            Ok(()) => {},
            Err(e) => {
                return Err(e);
            },
        }
        match ser.write_blobs(&value.group.mem) {
            Ok(()) => {},
            Err(e) => {
                return Err(e);
            },
        }
        proof {
            assert(ser.inner.out() =~= head2 + crate::codec::enc_group(value@.group));
        }
        match ser.write_u64(value.timestamp) {
            Ok(()) => {},
            Err(e) => {
                return Err(e);
            },
        }
        match &value.xattrs {
            None => {
                match ser.write_u64(0) {
                    Ok(()) => {},
                    Err(e) => {
                        return Err(e);
                            },
                }
            },
            Some(ps) => {
                match ser.write_u64(1) {
                    Ok(()) => {},
                    Err(e) => {
                        return Err(e);
                            },
                }
                match ser.write_u64(ps.len() as u64) {
                    Ok(()) => {},
                    Err(e) => {
                        return Err(e);
                            },
                }
                match ser.write_pairs(ps) {
                    Ok(()) => {},
                    Err(e) => {
                        return Err(e);
                            },
                }
            },
        }
        proof {
            assert(ser.inner.out() =~= enc_record(value@));
        }
        Ok(ser.into_inner())
    }
}

impl EntryMetaData {
    /// Capture a point-in-time snapshot of the entry `name` under `parent`:
    /// resolve the entry's current physical location through the back-store,
    /// stat it, resolve the owner and group identities (synthesizing a
    /// placeholder identity on a miss), redact their credential fields,
    /// enumerate extended attributes best-effort, and stamp the wall-clock
    /// capture time. Resolution and stat failures are fatal and surface as
    /// the reported OS error code.
    pub fn new<B: crate::BackStore>(fs: &B, parent: &[u8], name: &[u8]) -> (r: Result<
        EntryMetaData,
        i32,
    >)
        ensures
            r matches Ok(m) ==> {
                &&& m.name@ == name@
                &&& m.parent@ == parent@
                &&& m.owner.passwd@ == placeholder_passwd()
                &&& m.group.passwd@ == placeholder_passwd()
                &&& m.owner.uid.0 == m.stats.st_uid
                &&& m.group.gid.0 == m.stats.st_gid
                &&& (m.xattrs matches Some(ps) ==> ps@.len() > 0)
                &&& m.stats.__pad0 == 0
                &&& m.stats.__unused@ == seq![0i64, 0i64, 0i64]
            },
    {
        let path = crate::join_bytes(parent, name);
        let highest = match fs.highest_path(path.as_slice()) {
            Ok(p) => p,
            Err(e) => {
                return Err(e);
            },
        };
        let stats = match crate::wrappers::stat_raw(highest.as_slice()) {
            Ok(s) => s,
            Err(e) => {
                return Err(e);
            },
        };
        let found_user = match crate::wrappers::user_from_uid(stats.st_uid) {
            Ok(o) => o,
            Err(e) => {
                return Err(e);
            },
        };
        let owner = redact_user_codec(resolve_user(stats.st_uid, stats.st_gid, found_user));
        let found_group = match crate::wrappers::group_from_gid(stats.st_gid) {
            Ok(o) => o,
            Err(e) => {
                return Err(e);
            },
        };
        let group = redact_group_codec(resolve_group(stats.st_gid, found_group));
        let xattrs = collect_xattrs(highest.as_slice());
        let timestamp = crate::wrappers::now_seconds();
        Ok(
            EntryMetaData {
                name: slice_to_vec(name),
                parent: slice_to_vec(parent),
                stats,
                owner,
                group,
                timestamp,
                xattrs,
            },
        )
    }

    /// Encode this record into its persistent byte form. Succeeds exactly
    /// when every text-constrained field is text-representable; the
    /// text-conversion failure surfaces as `EINVAL`. A buffer failure would
    /// surface as `ENOMEM`, but the growable buffer used here never refuses
    /// an append, so `EINVAL` is the only error this call can return.
    pub fn to_bytes(&self) -> (r: Result<Vec<u8>, i32>)
        ensures
            r is Ok <==> crate::codec::texts_ok(self@),
            r matches Ok(v) ==> v@ == enc_record(self@),
            r matches Err(e) ==> e == crate::EINVAL,
    {
        match CodecSerializer::<BufSerializer>::encode(self) {
            Ok(s) => Ok(s.buf),
            Err(CodecSerializerError::AsStringError) => Err(crate::EINVAL),
            Err(CodecSerializerError::Inner(_)) => Err(crate::ENOMEM),
        }
    }

    /// Decode a buffer previously produced by `to_bytes`: validate it and
    /// produce an owned record holding every field the buffer carries.
    pub fn from_bytes(b: &[u8]) -> (r: Option<EntryMetaData>)
        ensures
            r is Some <==> dec_record(b@) is Some,
            r matches Some(m) ==> m@ == dec_record(b@).unwrap(),
    {
        let mut pos: usize = 0;
        proof {
            assert(b@.skip(0) =~= b@);
        }
        let name = match read_blob(b, &mut pos) {
            Some(v) => v,
            None => {
                return None;
            },
        };
        let ghost c1 = dec_blob(b@).unwrap().1;
        let parent = match read_blob(b, &mut pos) {
            Some(v) => v,
            None => {
                return None;
            },
        };
        let ghost c2 = dec_blob(b@.skip(c1)).unwrap().1;
        let stats = match read_stat(b, &mut pos) {
            Some(s) => s,
            None => {
                return None;
            },
        };
        let ghost c3 = dec_stat(b@.skip(c1 + c2)).unwrap().1;
        let owner = match read_user(b, &mut pos) {
            Some(u) => u,
            None => {
                return None;
            },
        };
        let ghost c4 = dec_user(b@.skip(c1 + c2 + c3)).unwrap().1;
        let group = match crate::codec::read_group(b, &mut pos) {
            Some(g) => g,
            None => {
                return None;
            },
        };
        let ghost c5 = crate::codec::dec_group(b@.skip(c1 + c2 + c3 + c4)).unwrap().1;
        let timestamp = match read_u64(b, &mut pos) {
            Some(t) => t,
            None => {
                return None;
            },
        };
        let xattrs = match read_xattrs(b, &mut pos) {
            Some(x) => x,
            None => {
                return None;
            },
        };
        if pos == b.len() {
            let m = EntryMetaData { name, parent, stats, owner, group, timestamp, xattrs };
            Some(m)
        } else {
            None
        }
    }

    /// Persist this record into the store: resolve the metadata directory
    /// for the record's logical path, create it as needed, take the
    /// exclusive per-path lock on the `.metadata` file inside it, and — with
    /// the lock held until the call returns — replace that file's content
    /// with the encoded bytes and append a length-prefixed copy of them to
    /// the sibling `.metadata.history` log. No content hash is computed: the
    /// store has no digest collaborator, so the history is ordered by append
    /// alone. The lock policy is fail-fast: a lock another writer holds is
    /// not waited for, the call fails at once with the OS's busy code (a
    /// lock failure that carries no OS code surfaces as `EBUSY`). Consumes
    /// the record, so one snapshot cannot be written twice.
    pub fn write<B: crate::BackStore>(self, fs: &B) -> (r: Result<(), i32>)
        ensures
            !crate::codec::texts_ok(self@) ==> r is Err,
    {
        let partial = crate::join_bytes(self.parent.as_slice(), self.name.as_slice());
        let path = match fs.metadir_path(partial.as_slice()) {
            Ok(p) => p,
            Err(e) => {
                return Err(e);
            },
        };
        let bytes = match self.to_bytes() {
            Ok(b) => b,
            Err(e) => {
                return Err(e);
            },
        };
        match create_dir_all(path.as_slice()) {
            Ok(()) => {},
            Err(e) => {
                return Err(e);
            },
        }
        let lock_name = metadata_name_vec();
        let lock_path_bytes = crate::join_bytes(path.as_slice(), lock_name.as_slice());
        let lock_path = match crate::wrappers::bytes_to_string(lock_path_bytes.as_slice()) {
            Some(s) => s,
            None => {
                return Err(crate::EINVAL);
            },
        };
        let mut lock = match crate::wrappers::lock_exclusive(lock_path.as_str(), false, false) {
            Ok(l) => l,
            Err(Some(c)) => {
                return Err(c);
            },
            Err(None) => {
                return Err(crate::EBUSY);
            },
        };
        match crate::wrappers::truncate_locked(&mut lock) {
            Ok(()) => {},
            Err(Some(c)) => {
                return Err(c);
            },
            Err(None) => {
                return Err(-1);
            },
        }
        match crate::wrappers::write_locked(&mut lock, bytes.as_slice()) {
            Ok(()) => {},
            Err(Some(c)) => {
                return Err(c);
            },
            Err(None) => {
                return Err(-1);
            },
        }
        let hist_name = history_name_vec();
        let hist_path_bytes = crate::join_bytes(path.as_slice(), hist_name.as_slice());
        let hist_path = match crate::wrappers::bytes_to_string(hist_path_bytes.as_slice()) {
            Some(p) => p,
            None => {
                return Err(crate::EINVAL);
            },
        };
        let mut framer = CodecSerializer::new(BufSerializer { buf: Vec::new() });
        match framer.write_blob(bytes.as_slice()) {
            Ok(()) => {},
            Err(_) => {
                return Err(crate::ENOMEM);
            },
        }
        let framed = framer.into_inner().buf;
        let mut hist_lock = match crate::wrappers::lock_exclusive(hist_path.as_str(), false, true)
            {
            Ok(l) => l,
            Err(Some(c)) => {
                return Err(c);
            },
            Err(None) => {
                return Err(crate::EBUSY);
            },
        };
        match crate::wrappers::write_locked(&mut hist_lock, framed.as_slice()) {
            Ok(()) => Ok(()),
            Err(Some(c)) => Err(c),
            Err(None) => Err(-1),
        }
    }
}

/// The byte string `.metadata`: the lock and record file inside a metadata
/// directory.
pub open spec fn metadata_name() -> Seq<u8> {
    seq![46u8, 109u8, 101u8, 116u8, 97u8, 100u8, 97u8, 116u8, 97u8]
}

fn metadata_name_vec() -> (v: Vec<u8>)
    ensures
        v@ == metadata_name(),
{
    let mut v: Vec<u8> = Vec::new();
    v.push(46);
    v.push(109);
    v.push(101);
    v.push(116);
    v.push(97);
    v.push(100);
    v.push(97);
    v.push(116);
    v.push(97);
    proof {
        assert(v@ =~= metadata_name());
    }
    v
}

/// The byte string `.metadata.history`: the append-only history log beside
/// the lock file.
pub open spec fn history_name() -> Seq<u8> {
    seq![
        46u8, 109u8, 101u8, 116u8, 97u8, 100u8, 97u8, 116u8, 97u8, 46u8, 104u8, 105u8, 115u8,
        116u8, 111u8, 114u8, 121u8,
    ]
}

fn history_name_vec() -> (v: Vec<u8>)
    ensures
        v@ == history_name(),
{
    let mut v: Vec<u8> = Vec::new();
    v.push(46);
    v.push(109);
    v.push(101);
    v.push(116);
    v.push(97);
    v.push(100);
    v.push(97);
    v.push(116);
    v.push(97);
    v.push(46);
    v.push(104);
    v.push(105);
    v.push(115);
    v.push(116);
    v.push(111);
    v.push(114);
    v.push(121);
    proof {
        assert(v@ =~= history_name());
    }
    v
}

/// Create the directory at `path` and every missing ancestor, as the store
/// needs before locking. A directory that already exists is not an error:
/// `EEXIST` is consumed along the way and never surfaced.
pub fn create_dir_all(path: &[u8]) -> (r: Result<(), i32>)
    ensures
        r matches Err(e) ==> e != crate::EEXIST,
{
    let mut i: usize = 1;
    while i < path.len()
        invariant
            1 <= i,
        decreases path@.len() - i,
    {
        if *vstd::slice::slice_index_get(path, i) == crate::SEP {
            let prefix = slice_subrange(path, 0, i);
            match crate::wrappers::mkdir_raw(prefix, 0o755) {
                Ok(()) => {},
                Err(e) => {
                    if e != crate::EEXIST {
                        return Err(e);
                    }
                },
            }
        }
        i += 1;
    }
    match crate::wrappers::mkdir_raw(path, 0o755) {
        Ok(()) => Ok(()),
        Err(e) => {
            if e == crate::EEXIST {
                Ok(())
            } else {
                Err(e)
            }
        },
    }
}

/// Per-logical-path history: an identifying name, the content hash
/// addressing the entry, and the captured records in append order.
#[derive(Debug, Clone)]
pub struct MetaDataHistory {
    pub name: String,
    pub hash: EntryHash,
    pub emd: Vec<EntryMetaData>,
}

impl MetaDataHistory {
    /// The history invariant: append order is capture order, so timestamps
    /// never decrease along the sequence.
    pub open spec fn wf(self) -> bool {
        forall|i: int, j: int|
            0 <= i <= j < self.emd@.len() ==> self.emd@[i].timestamp <= self.emd@[j].timestamp
    }

    /// Append a record captured no earlier than the newest one held;
    /// nothing is ever removed or changed in place.
    pub fn push(&mut self, rec: EntryMetaData)
        requires
            old(self).wf(),
            old(self).emd@.len() > 0 ==> old(self).emd@[old(self).emd@.len() - 1].timestamp
                <= rec.timestamp,
        ensures
            final(self).wf(),
            final(self).emd@ == old(self).emd@.push(rec),
            final(self).name == old(self).name,
            final(self).hash == old(self).hash,
    {
        proof {
            if old(self).emd@.len() > 0 {
                assert forall|i: int| 0 <= i < old(self).emd@.len() implies old(
                    self,
                ).emd@[i].timestamp <= rec.timestamp by {
                    assert(old(self).emd@[i].timestamp <= old(self).emd@[old(self).emd@.len()
                        - 1].timestamp);
                }
            }
        }
        self.emd.push(rec);
    }
}

/// Round-trip law at the record level: for a record whose lengths fit the
/// format, decoding its encoded form gives back every field exactly, except
/// the credential fields, which decode to the fixed placeholder.
pub proof fn lemma_to_from_bytes_round_trip(m: EntryMetaData)
    requires
        crate::codec::record_fits(m@),
    ensures
        dec_record(enc_record(m@)) == Some(crate::codec::redact_record(m@)),
{
    crate::codec::lemma_record_round_trip(m@);
}

} // verus!
