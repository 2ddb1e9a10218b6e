//! How the parts that records share are written as fields: optional values,
//! users, points in time and access levels.

use vstd::prelude::*;
use crate::obj::lock::LockAccess;
use crate::os::{unix, windows, Timestamp, User};
use crate::process::compress::copy_bytes;
use crate::process::format::{Field, FieldView};

verus! {

/// The field of an optional byte string.
pub open spec fn spec_opt_bytes(v: Option<Vec<u8>>) -> FieldView {
    match v {
        Some(b) => FieldView::Bytes(b@),
        None => FieldView::Null,
    }
}

/// The field of an optional number.
pub open spec fn spec_opt_u32(v: Option<u32>) -> FieldView {
    match v {
        Some(n) => FieldView::Uint(n as u64),
        None => FieldView::Null,
    }
}

/// The field of the seconds of a point in time: a number from 0 up as it
/// is, a number below 0 by its distance from -1.
pub open spec fn spec_secs(secs: i64) -> FieldView {
    if secs >= 0 {
        FieldView::Uint(secs as u64)
    } else {
        FieldView::Nint((-1 - secs) as u64)
    }
}

/// The field of an access level.
pub open spec fn spec_access(a: LockAccess) -> FieldView {
    match a {
        LockAccess::Idle => FieldView::Uint(0),
        LockAccess::Shared => FieldView::Uint(1),
        LockAccess::Exclusive => FieldView::Uint(2),
    }
}

/// The five fields of a user: the system, the host name, the user name,
/// and the two numeric ids, which only Unix has.
pub open spec fn spec_user_fields(u: User) -> Seq<FieldView> {
    match u {
        User::Unix(x) => seq![
            FieldView::Uint(0),
            spec_opt_bytes(x.hostname),
            spec_opt_bytes(x.username),
            spec_opt_u32(x.uid),
            spec_opt_u32(x.gid),
        ],
        User::Windows(x) => seq![
            FieldView::Uint(1),
            spec_opt_bytes(x.hostname),
            spec_opt_bytes(x.username),
            FieldView::Null,
            FieldView::Null,
        ],
    }
}

/// The two fields of a point in time: the seconds and the nanoseconds.
pub open spec fn spec_time_fields(t: Timestamp) -> Seq<FieldView> {
    seq![spec_secs(t.secs), FieldView::Uint(t.nanos as u64)]
}

pub open spec fn spec_is_opt_bytes(f: FieldView) -> bool {
    f is Bytes || f is Null
}

pub open spec fn spec_is_opt_u32(f: FieldView) -> bool {
    f is Null || (f matches FieldView::Uint(n) && n <= u32::MAX)
}

pub open spec fn spec_is_u32(f: FieldView) -> bool {
    f matches FieldView::Uint(n) && n <= u32::MAX
}

pub open spec fn spec_is_secs(f: FieldView) -> bool {
    (f matches FieldView::Uint(n) && n <= i64::MAX) || (f matches FieldView::Nint(n) && n
        <= i64::MAX)
}

pub open spec fn spec_is_access(f: FieldView) -> bool {
    f matches FieldView::Uint(n) && n <= 2
}

/// Whether the five fields from place `at` on are those of a user.
pub open spec fn spec_is_user_fields(fs: Seq<FieldView>, at: int) -> bool {
    &&& 0 <= at && at + 5 <= fs.len()
    &&& spec_is_opt_bytes(fs[at + 1])
    &&& spec_is_opt_bytes(fs[at + 2])
    &&& (fs[at] == FieldView::Uint(0) && spec_is_opt_u32(fs[at + 3]) && spec_is_opt_u32(fs[at + 4]))
        || (fs[at] == FieldView::Uint(1) && fs[at + 3] is Null && fs[at + 4] is Null)
}

/// Whether the two fields from place `at` on are those of a point in time.
pub open spec fn spec_is_time_fields(fs: Seq<FieldView>, at: int) -> bool {
    &&& 0 <= at && at + 2 <= fs.len()
    &&& spec_is_secs(fs[at])
    &&& spec_is_u32(fs[at + 1])
}

/// What is written of a user is read as the fields of a user; and so for a
/// point in time and an access level.
pub proof fn lemma_parts_valid(u: User, t: Timestamp, a: LockAccess)
    ensures
        spec_is_user_fields(spec_user_fields(u), 0),
        spec_is_time_fields(spec_time_fields(t), 0),
        spec_is_access(spec_access(a)),
{
}

pub fn opt_bytes_field(v: &Option<Vec<u8>>) -> (f: Field)
    ensures
        f@ == spec_opt_bytes(*v),
{
    match v {
        Some(b) => Field::Bytes(copy_bytes(b.as_slice())),
        None => Field::Null,
    }
}

pub fn opt_u32_field(v: Option<u32>) -> (f: Field)
    ensures
        f@ == spec_opt_u32(v),
{
    match v {
        Some(n) => Field::Uint(n as u64),
        None => Field::Null,
    }
}

pub fn secs_field(secs: i64) -> (f: Field)
    ensures
        f@ == spec_secs(secs),
{
    if secs >= 0 {
        Field::Uint(secs as u64)
    } else {
        Field::Nint((-1 - secs) as u64)
    }
}

pub fn access_field(a: LockAccess) -> (f: Field)
    ensures
        f@ == spec_access(a),
{
    match a {
        LockAccess::Idle => Field::Uint(0),
        LockAccess::Shared => Field::Uint(1),
        LockAccess::Exclusive => Field::Uint(2),
    }
}

pub fn bytes_field(b: &[u8]) -> (f: Field)
    ensures
        f@ == FieldView::Bytes(b@),
{
    Field::Bytes(copy_bytes(b))
}

/// Reads an optional byte string.
pub fn read_opt_bytes(f: &Field) -> (r: Option<Option<Vec<u8>>>)
    ensures
        r is Some <==> spec_is_opt_bytes(f@),
        r matches Some(v) ==> f@ == spec_opt_bytes(v),
{
    match f {
        Field::Bytes(b) => Some(Some(copy_bytes(b.as_slice()))),
        Field::Null => Some(None),
        _ => None,
    }
}

/// Reads a byte string.
pub fn read_bytes(f: &Field) -> (r: Option<Vec<u8>>)
    ensures
        r is Some <==> f@ is Bytes,
        r matches Some(v) ==> f@ == FieldView::Bytes(v@),
{
    match f {
        Field::Bytes(b) => Some(copy_bytes(b.as_slice())),
        _ => None,
    }
}

/// Reads an optional number of 32 bits.
pub fn read_opt_u32(f: &Field) -> (r: Option<Option<u32>>)
    ensures
        r is Some <==> spec_is_opt_u32(f@),
        r matches Some(v) ==> f@ == spec_opt_u32(v),
{
    match f {
        Field::Uint(n) => if *n <= u32::MAX as u64 {
            Some(Some(*n as u32))
        } else {
            None
        },
        Field::Null => Some(None),
        _ => None,
    }
}

/// Reads a number of 32 bits.
pub fn read_u32(f: &Field) -> (r: Option<u32>)
    ensures
        r is Some <==> spec_is_u32(f@),
        r matches Some(v) ==> f@ == FieldView::Uint(v as u64),
{
    match f {
        Field::Uint(n) => if *n <= u32::MAX as u64 {
            Some(*n as u32)
        } else {
            None
        },
        _ => None,
    }
}

/// Reads a number.
pub fn read_u64(f: &Field) -> (r: Option<u64>)
    ensures
        r is Some <==> f@ is Uint,
        r matches Some(v) ==> f@ == FieldView::Uint(v),
{
    match f {
        Field::Uint(n) => Some(*n),
        _ => None,
    }
}

/// Reads the seconds of a point in time.
pub fn read_secs(f: &Field) -> (r: Option<i64>)
    ensures
        r is Some <==> spec_is_secs(f@),
        r matches Some(v) ==> f@ == spec_secs(v),
{
    match f {
        Field::Uint(n) => if *n <= i64::MAX as u64 {
            Some(*n as i64)
        } else {
            None
        },
        Field::Nint(n) => if *n <= i64::MAX as u64 {
            Some(-1 - (*n as i64))
        } else {
            None
        },
        _ => None,
    }
}

/// Reads an access level.
pub fn read_access(f: &Field) -> (r: Option<LockAccess>)
    ensures
        r is Some <==> spec_is_access(f@),
        r matches Some(v) ==> f@ == spec_access(v),
{
    match f {
        Field::Uint(n) => if *n == 0 {
            Some(LockAccess::Idle)
        } else if *n == 1 {
            Some(LockAccess::Shared)
        } else if *n == 2 {
            Some(LockAccess::Exclusive)
        } else {
            None
        },
        _ => None,
    }
}

/// Appends the five fields of a user.
pub fn put_user(out: &mut Vec<Field>, u: &User)
    ensures
        crate::process::format::spec_views(final(out)@) == crate::process::format::spec_views(
            old(out)@,
        ) + spec_user_fields(*u),
{
    let ghost before = crate::process::format::spec_views(out@);
    match u {
        User::Unix(x) => {
            out.push(Field::Uint(0));
            out.push(opt_bytes_field(&x.hostname));
            out.push(opt_bytes_field(&x.username));
            out.push(opt_u32_field(x.uid));
            out.push(opt_u32_field(x.gid));
        },
        User::Windows(x) => {
            out.push(Field::Uint(1));
            out.push(opt_bytes_field(&x.hostname));
            out.push(opt_bytes_field(&x.username));
            out.push(Field::Null);
            out.push(Field::Null);
        },
    }
    assert(crate::process::format::spec_views(out@) =~= before + spec_user_fields(*u));
}

/// Appends the two fields of a point in time.
pub fn put_time(out: &mut Vec<Field>, t: &Timestamp)
    ensures
        crate::process::format::spec_views(final(out)@) == crate::process::format::spec_views(
            old(out)@,
        ) + spec_time_fields(*t),
{
    let ghost before = crate::process::format::spec_views(out@);
    out.push(secs_field(t.secs));
    out.push(Field::Uint(t.nanos as u64));
    assert(crate::process::format::spec_views(out@) =~= before + spec_time_fields(*t));
}

/// Reads the user whose five fields start at place `at`.
pub fn read_user(fields: &Vec<Field>, at: usize) -> (r: Option<User>)
    requires
        at + 5 <= fields@.len(),
    ensures
        r is Some <==> spec_is_user_fields(crate::process::format::spec_views(fields@), at as int),
        r matches Some(u) ==> crate::process::format::spec_views(fields@).subrange(
            at as int,
            at + 5,
        ) == spec_user_fields(u),
{
    let ghost fs = crate::process::format::spec_views(fields@);
    let len = fields.len();
    assert(at + 5 <= len);
    let tag = read_u64(&fields[at]);
    let hostname = read_opt_bytes(&fields[at + 1]);
    let username = read_opt_bytes(&fields[at + 2]);
    let uid = read_opt_u32(&fields[at + 3]);
    let gid = read_opt_u32(&fields[at + 4]);
    match (tag, hostname, username, uid, gid) {
        (Some(tag), Some(hostname), Some(username), Some(uid), Some(gid)) => {
            if tag == 0 {
                let u = User::Unix(unix::User { hostname, username, uid, gid });
                assert(fs.subrange(at as int, at + 5) =~= spec_user_fields(u));
                Some(u)
            } else if tag == 1 && uid.is_none() && gid.is_none() {
                let u = User::Windows(windows::User { hostname, username });
                assert(fs.subrange(at as int, at + 5) =~= spec_user_fields(u));
                Some(u)
            } else {
                None
            }
        },
        _ => None,
    }
}

/// Reads the point in time whose two fields start at place `at`.
pub fn read_time(fields: &Vec<Field>, at: usize) -> (r: Option<Timestamp>)
    requires
        at + 2 <= fields@.len(),
    ensures
        r is Some <==> spec_is_time_fields(crate::process::format::spec_views(fields@), at as int),
        r matches Some(t) ==> crate::process::format::spec_views(fields@).subrange(
            at as int,
            at + 2,
        ) == spec_time_fields(t),
{
    let ghost fs = crate::process::format::spec_views(fields@);
    let len = fields.len();
    assert(at + 2 <= len);
    let secs = read_secs(&fields[at]);
    let nanos = read_u32(&fields[at + 1]);
    match (secs, nanos) {
        (Some(secs), Some(nanos)) => {
            let t = Timestamp { secs, nanos };
            assert(fs.subrange(at as int, at + 2) =~= spec_time_fields(t));
            Some(t)
        },
        _ => None,
    }
}

} // verus!
