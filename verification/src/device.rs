//! The resolved device model, and how a decoded JSON document maps onto it.
//!
//! Every field besides `online_state` is optional and passes through with no
//! validation beyond its type shape: a present field of the wrong shape makes
//! the whole document fail to decode.  `online_state` is never optional in
//! the resolved model: it is `Online` exactly where the upstream record holds
//! the string `"Online"` under that key, and `Offline` everywhere else —
//! missing key, other string, or a value of another type (the pessimistic
//! default).  A document whose top-level `devices` key is absent resolves to
//! the empty device list, not to an error.

use vstd::prelude::*;
use crate::json::{Json, JsonV, ascii_of, ascii_bytes, bytes_eq, deep_members, deep_seq, spec_json,
    parse_json, lemma_deep_members, lemma_deep_seq};

verus! {

/// Whether a device is reachable.  Ambiguous upstream data resolves to
/// `Offline`: the dashboard would rather under-report availability than
/// over-report it.
#[derive(PartialEq, Eq, Structural, Clone, Copy, Debug)]
pub enum OnlineState {
    Online,
    Offline,
}

/// One remote-access endpoint record, resolved from an upstream response.
/// Textual fields keep the response's bytes.
pub struct Device {
    pub remotecontrol_id: Option<Vec<u8>>,
    pub device_id: Option<Vec<u8>>,
    pub userid: Option<Vec<u8>>,
    pub alias: Option<Vec<u8>>,
    pub groupid: Option<Vec<u8>>,
    pub description: Option<Vec<u8>>,
    pub online_state: OnlineState,
    pub policy_id: Option<Vec<u8>>,
    pub assigned_to: Option<bool>,
    pub supported_features: Option<Vec<u8>>,
    pub last_seen: Option<Vec<u8>>,
    pub teamviewer_id: Option<i64>,
}

/// The mathematical shape of a [`Device`].
pub struct DeviceV {
    pub remotecontrol_id: Option<Seq<u8>>,
    pub device_id: Option<Seq<u8>>,
    pub userid: Option<Seq<u8>>,
    pub alias: Option<Seq<u8>>,
    pub groupid: Option<Seq<u8>>,
    pub description: Option<Seq<u8>>,
    pub online_state: OnlineState,
    pub policy_id: Option<Seq<u8>>,
    pub assigned_to: Option<bool>,
    pub supported_features: Option<Seq<u8>>,
    pub last_seen: Option<Seq<u8>>,
    pub teamviewer_id: Option<i64>,
}

/// The view of an optional byte field.
pub open spec fn opt_bytes(o: Option<Vec<u8>>) -> Option<Seq<u8>> {
    match o {
        None => None,
        Some(v) => Some(v@),
    }
}

impl Device {
    /// The mathematical value of this record.
    pub open spec fn deep(self) -> DeviceV {
        DeviceV {
            remotecontrol_id: opt_bytes(self.remotecontrol_id),
            device_id: opt_bytes(self.device_id),
            userid: opt_bytes(self.userid),
            alias: opt_bytes(self.alias),
            groupid: opt_bytes(self.groupid),
            description: opt_bytes(self.description),
            online_state: self.online_state,
            policy_id: opt_bytes(self.policy_id),
            assigned_to: self.assigned_to,
            supported_features: opt_bytes(self.supported_features),
            last_seen: opt_bytes(self.last_seen),
            teamviewer_id: self.teamviewer_id,
        }
    }
}

/// The mathematical values of a sequence of records.
pub open spec fn deep_devices(v: Seq<Device>) -> Seq<DeviceV> {
    Seq::new(v.len(), |i: int| v[i].deep())
}

/// The value under `key` in an object's member list: the first member whose
/// key matches, as upstream object order is kept.
pub open spec fn obj_lookup(ms: Seq<(Seq<u8>, JsonV)>, key: Seq<u8>) -> Option<JsonV>
    decreases ms.len(),
{
    if ms.len() == 0 {
        None
    } else if ms[0].0 == key {
        Some(ms[0].1)
    } else {
        obj_lookup(ms.drop_first(), key)
    }
}

/// An optional string field: absent is fine, present with another shape is a
/// decode failure.
pub open spec fn spec_str_field(ms: Seq<(Seq<u8>, JsonV)>, key: Seq<u8>) -> Option<
    Option<Seq<u8>>,
> {
    match obj_lookup(ms, key) {
        None => Some(None),
        Some(JsonV::Str(s)) => Some(Some(s)),
        Some(_) => None,
    }
}

/// An optional boolean field: absent is fine, present with another shape is a
/// decode failure.
pub open spec fn spec_bool_field(ms: Seq<(Seq<u8>, JsonV)>, key: Seq<u8>) -> Option<Option<bool>> {
    match obj_lookup(ms, key) {
        None => Some(None),
        Some(JsonV::Bool(b)) => Some(Some(b)),
        Some(_) => None,
    }
}

/// The value of a run of decimal digit bytes.
pub open spec fn spec_dec_val(ds: Seq<u8>) -> int
    decreases ds.len(),
{
    if ds.len() == 0 {
        0
    } else {
        spec_dec_val(ds.take(ds.len() - 1)) * 10 + (ds[ds.len() - 1] - 48)
    }
}

/// Whether every byte is a decimal digit.
pub open spec fn all_digits(ds: Seq<u8>) -> bool {
    forall|i: int| 0 <= i < ds.len() ==> 48 <= #[trigger] ds[i] <= 57
}

/// The signed 64-bit integer a raw number token stands for: an optional minus
/// sign and digits, in range; anything else (a fraction, an exponent, an
/// out-of-range value) is `None`.
pub open spec fn spec_i64_of(raw: Seq<u8>) -> Option<i64> {
    if raw.len() > 0 && raw[0] == 45 {  // '-'
        let ds = raw.drop_first();
        if ds.len() > 0 && all_digits(ds) && -spec_dec_val(ds) >= i64::MIN {
            Some((-spec_dec_val(ds)) as i64)
        } else {
            None
        }
    } else {
        if raw.len() > 0 && all_digits(raw) && spec_dec_val(raw) <= i64::MAX {
            Some(spec_dec_val(raw) as i64)
        } else {
            None
        }
    }
}

/// An optional integer field: absent is fine, present as anything but an
/// in-range integer number is a decode failure.
pub open spec fn spec_i64_field(ms: Seq<(Seq<u8>, JsonV)>, key: Seq<u8>) -> Option<Option<i64>> {
    match obj_lookup(ms, key) {
        None => Some(None),
        Some(JsonV::Num(raw)) => match spec_i64_of(raw) {
            None => None,
            Some(n) => Some(Some(n)),
        },
        Some(_) => None,
    }
}

/// The resolved online state of a record: `Online` exactly where the record
/// holds the string `"Online"` under `online_state`; everything else — a
/// missing key, any other string, a value of another type — is `Offline`.
pub open spec fn spec_online(ms: Seq<(Seq<u8>, JsonV)>) -> OnlineState {
    if obj_lookup(ms, ascii_of("online_state"@)) == Some(
        JsonV::Str(ascii_of("Online"@)),
    ) {
        OnlineState::Online
    } else {
        OnlineState::Offline
    }
}

/// The device record a JSON value stands for, or `None` where the value is
/// not an object or a known field has the wrong shape.
pub open spec fn spec_device(j: JsonV) -> Option<DeviceV> {
    match j {
        JsonV::Obj(ms) => {
            let remotecontrol_id = spec_str_field(ms, ascii_of("remotecontrol_id"@));
            let device_id = spec_str_field(ms, ascii_of("device_id"@));
            let userid = spec_str_field(ms, ascii_of("userid"@));
            let alias = spec_str_field(ms, ascii_of("alias"@));
            let groupid = spec_str_field(ms, ascii_of("groupid"@));
            let description = spec_str_field(ms, ascii_of("description"@));
            let policy_id = spec_str_field(ms, ascii_of("policy_id"@));
            let assigned_to = spec_bool_field(ms, ascii_of("assigned_to"@));
            let supported_features = spec_str_field(ms, ascii_of("supported_features"@));
            let last_seen = spec_str_field(ms, ascii_of("last_seen"@));
            let teamviewer_id = spec_i64_field(ms, ascii_of("teamviewer_id"@));
            if remotecontrol_id is Some && device_id is Some && userid is Some && alias is Some
                && groupid is Some && description is Some && policy_id is Some && assigned_to
                is Some && supported_features is Some && last_seen is Some && teamviewer_id
                is Some {
                Some(
                    DeviceV {
                        remotecontrol_id: remotecontrol_id->Some_0,
                        device_id: device_id->Some_0,
                        userid: userid->Some_0,
                        alias: alias->Some_0,
                        groupid: groupid->Some_0,
                        description: description->Some_0,
                        online_state: spec_online(ms),
                        policy_id: policy_id->Some_0,
                        assigned_to: assigned_to->Some_0,
                        supported_features: supported_features->Some_0,
                        last_seen: last_seen->Some_0,
                        teamviewer_id: teamviewer_id->Some_0,
                    },
                )
            } else {
                None
            }
        },
        _ => None,
    }
}

/// The device records an array of JSON values stands for, in order.
pub open spec fn spec_device_list(els: Seq<JsonV>) -> Option<Seq<DeviceV>>
    decreases els.len(),
{
    if els.len() == 0 {
        Some(Seq::empty())
    } else {
        match spec_device(els[0]) {
            None => None,
            Some(d) => match spec_device_list(els.drop_first()) {
                None => None,
                Some(rest) => Some(seq![d] + rest),
            },
        }
    }
}

/// The device list a decoded document stands for.  The document must be an
/// object; a missing `devices` key is the empty list; a `devices` value of
/// any shape but an array of well-shaped records is `None`.
pub open spec fn spec_devices_of(doc: JsonV) -> Option<Seq<DeviceV>> {
    match doc {
        JsonV::Obj(ms) => match obj_lookup(ms, ascii_of("devices"@)) {
            None => Some(Seq::empty()),
            Some(JsonV::Arr(els)) => spec_device_list(els),
            Some(_) => None,
        },
        _ => None,
    }
}

/// The device list a response body stands for: `None` where the bytes are not
/// a JSON document of the expected shape.
pub open spec fn spec_decode(s: Seq<u8>) -> Option<Seq<DeviceV>> {
    match spec_json(s) {
        None => None,
        Some(doc) => spec_devices_of(doc),
    }
}

/// Law: the pessimistic default — a record lacking `online_state`, or holding
/// an unrecognized value under it (anything but the strings `"Online"` and
/// `"Offline"`), resolves to `Offline`; and a resolved record's online state
/// is always the resolution of its members.
pub proof fn lemma_pessimistic_default(ms: Seq<(Seq<u8>, JsonV)>)
    requires
        match obj_lookup(ms, ascii_of("online_state"@)) {
            None => true,
            Some(v) => v != JsonV::Str(ascii_of("Online"@)) && v != JsonV::Str(
                ascii_of("Offline"@),
            ),
        },
    ensures
        spec_online(ms) == OnlineState::Offline,
        spec_device(JsonV::Obj(ms)) is Some ==> spec_device(
            JsonV::Obj(ms),
        )->Some_0.online_state == OnlineState::Offline,
{
}

/// Law: a response object lacking a `devices` key resolves to the empty
/// device list, not to an error.
pub proof fn lemma_missing_devices_empty(ms: Seq<(Seq<u8>, JsonV)>)
    requires
        obj_lookup(ms, ascii_of("devices"@)) is None,
    ensures
        spec_devices_of(JsonV::Obj(ms)) == Some(Seq::<DeviceV>::empty()),
{
}

/// The value of a digit run is never negative.
pub proof fn lemma_dec_val_nonneg(ds: Seq<u8>)
    requires
        all_digits(ds),
    ensures
        spec_dec_val(ds) >= 0,
    decreases ds.len(),
{
    if ds.len() > 0 {
        assert(all_digits(ds.take(ds.len() - 1)));
        lemma_dec_val_nonneg(ds.take(ds.len() - 1));
    }
}

/// Appending digits never lowers the value of a digit run.
pub proof fn lemma_dec_val_mono(ds: Seq<u8>, m: int)
    requires
        all_digits(ds),
        0 <= m <= ds.len(),
    ensures
        spec_dec_val(ds) >= spec_dec_val(ds.take(m)),
    decreases ds.len() - m,
{
    if m == ds.len() {
        assert(ds.take(m) =~= ds);
    } else {
        lemma_dec_val_mono(ds, m + 1);
        assert(ds.take(m + 1).take(m) =~= ds.take(m));
        assert(spec_dec_val(ds.take(m + 1)) == spec_dec_val(ds.take(m)) * 10 + (ds[m] - 48));
        assert(all_digits(ds.take(m)));
        lemma_dec_val_nonneg(ds.take(m));
    }
}

/// Reads the signed 64-bit integer a raw number token stands for.
pub fn i64_of_raw(raw: &Vec<u8>) -> (r: Option<i64>)
    ensures
        r == spec_i64_of(raw@),
{
    if raw.len() == 0 {
        return None;
    }
    let neg = raw[0] == 45;
    let start: usize = if neg {
        1
    } else {
        0
    };
    let ghost ds = if neg {
        raw@.drop_first()
    } else {
        raw@
    };
    if raw.len() - start == 0 {
        return None;
    }
    let mut acc: u64 = 0;
    let mut k: usize = start;
    while k < raw.len()
        invariant
            start <= k <= raw@.len(),
            raw@.len() > 0,
            neg == (raw@[0] == 45),
            start == if neg {
                1int
            } else {
                0int
            },
            ds == if neg {
                raw@.drop_first()
            } else {
                raw@
            },
            ds.len() == raw@.len() - start,
            forall|i: int| 0 <= i < k - start ==> 48 <= #[trigger] ds[i] <= 57,
            acc as int == spec_dec_val(ds.take(k - start)),
            acc <= 9223372036854775809u64,
        decreases raw@.len() - k,
    {
        let d = raw[k];
        proof {
            assert(ds[k - start] == raw@[k as int]);
        }
        if !(48 <= d && d <= 57) {
            proof {
                assert(!all_digits(ds));
            }
            return None;
        }
        if acc > 922337203685477580u64 {
            proof {
                assert(ds.take(k - start + 1).take(k - start) =~= ds.take(k - start));
                assert(spec_dec_val(ds.take(k - start + 1)) == acc as int * 10 + (d - 48));
                assert(acc as int * 10 >= 9223372036854775810);
                if all_digits(ds) {
                    lemma_dec_val_mono(ds, k - start + 1);
                    assert(spec_dec_val(ds) > 0x8000000000000000);
                }
            }
            return None;
        }
        proof {
            assert(ds.take(k - start + 1).take(k - start) =~= ds.take(k - start));
            assert(spec_dec_val(ds.take(k - start + 1)) == acc as int * 10 + (d - 48));
        }
        acc = acc * 10 + ((d - 48) as u64);
        k = k + 1;
    }
    proof {
        assert(ds.take(k - start) =~= ds);
        assert(all_digits(ds));
    }
    if neg {
        if acc > 0x8000000000000000u64 {
            return None;
        }
        if acc == 0x8000000000000000u64 {
            Some(i64::MIN)
        } else {
            Some(-(acc as i64))
        }
    } else {
        if acc > 0x7fffffffffffffffu64 {
            return None;
        }
        Some(acc as i64)
    }
}

/// Copies a byte vector.
fn copy_bytes(src: &Vec<u8>) -> (r: Vec<u8>)
    ensures
        r@ == src@,
{
    vstd::slice::slice_to_vec(src.as_slice())
}

/// Finds the first member of an object holding `key`.
fn lookup<'a>(ms: &'a Vec<(Vec<u8>, Json)>, key: &[u8]) -> (r: Option<&'a Json>)
    ensures
        match r {
            None => obj_lookup(deep_members(ms@), key@) is None,
            Some(j) => obj_lookup(deep_members(ms@), key@) == Some(j.deep()),
        },
{
    proof {
        lemma_deep_members(ms@);
        assert(deep_members(ms@).skip(0) =~= deep_members(ms@));
    }
    let ghost dm = deep_members(ms@);
    let mut i: usize = 0;
    while i < ms.len()
        invariant
            i <= ms@.len(),
            dm == deep_members(ms@),
            dm.len() == ms@.len(),
            forall|k: int| 0 <= k < ms@.len() ==> dm[k] == (#[trigger] ms@[k].0@, ms@[k].1.deep()),
            obj_lookup(dm, key@) == obj_lookup(dm.skip(i as int), key@),
        decreases ms@.len() - i,
    {
        if bytes_eq(ms[i].0.as_slice(), key) {
            proof {
                assert(dm.skip(i as int)[0] == dm[i as int]);
            }
            return Some(&ms[i].1);
        }
        proof {
            assert(dm.skip(i as int)[0] == dm[i as int]);
            assert(dm.skip(i as int).drop_first() =~= dm.skip(i + 1));
        }
        i = i + 1;
    }
    proof {
        assert(dm.skip(i as int) =~= Seq::<(Seq<u8>, JsonV)>::empty());
    }
    None
}

/// Reads an optional string field of an object.
fn str_field(ms: &Vec<(Vec<u8>, Json)>, key: &[u8]) -> (r: Option<Option<Vec<u8>>>)
    ensures
        match r {
            None => spec_str_field(deep_members(ms@), key@) is None,
            Some(o) => spec_str_field(deep_members(ms@), key@) == Some(opt_bytes(o)),
        },
{
    match lookup(ms, key) {
        None => Some(None),
        Some(j) => match j {
            Json::Str(s) => Some(Some(copy_bytes(s))),
            Json::Null => None,
            Json::Bool(_) => None,
            Json::Num(_) => None,
            Json::Arr(_) => None,
            Json::Obj(_) => None,
        },
    }
}

/// Reads an optional boolean field of an object.
fn bool_field(ms: &Vec<(Vec<u8>, Json)>, key: &[u8]) -> (r: Option<Option<bool>>)
    ensures
        match r {
            None => spec_bool_field(deep_members(ms@), key@) is None,
            Some(o) => spec_bool_field(deep_members(ms@), key@) == Some(o),
        },
{
    match lookup(ms, key) {
        None => Some(None),
        Some(j) => match j {
            Json::Bool(b) => Some(Some(*b)),
            Json::Null => None,
            Json::Num(_) => None,
            Json::Str(_) => None,
            Json::Arr(_) => None,
            Json::Obj(_) => None,
        },
    }
}

/// Reads an optional integer field of an object.
fn i64_field(ms: &Vec<(Vec<u8>, Json)>, key: &[u8]) -> (r: Option<Option<i64>>)
    ensures
        match r {
            None => spec_i64_field(deep_members(ms@), key@) is None,
            Some(o) => spec_i64_field(deep_members(ms@), key@) == Some(o),
        },
{
    match lookup(ms, key) {
        None => Some(None),
        Some(j) => match j {
            Json::Num(raw) => match i64_of_raw(raw) {
                None => None,
                Some(n) => Some(Some(n)),
            },
            Json::Null => None,
            Json::Bool(_) => None,
            Json::Str(_) => None,
            Json::Arr(_) => None,
            Json::Obj(_) => None,
        },
    }
}

/// Resolves a record's online state, with the pessimistic default.
fn online_state_of(ms: &Vec<(Vec<u8>, Json)>) -> (r: OnlineState)
    ensures
        r == spec_online(deep_members(ms@)),
{
    proof {
        reveal_strlit("online_state");
        reveal_strlit("Online");
    }
    match lookup(ms, ascii_bytes("online_state")) {
        None => OnlineState::Offline,
        Some(j) => match j {
            Json::Str(s) => {
                if bytes_eq(s.as_slice(), ascii_bytes("Online")) {
                    OnlineState::Online
                } else {
                    OnlineState::Offline
                }
            },
            Json::Null => OnlineState::Offline,
            Json::Bool(_) => OnlineState::Offline,
            Json::Num(_) => OnlineState::Offline,
            Json::Arr(_) => OnlineState::Offline,
            Json::Obj(_) => OnlineState::Offline,
        },
    }
}

/// Resolves one JSON value into a device record.
pub fn device_of_json(j: &Json) -> (r: Option<Device>)
    ensures
        match r {
            None => spec_device(j.deep()) is None,
            Some(d) => spec_device(j.deep()) == Some(d.deep()),
        },
{
    proof {
        reveal_strlit("remotecontrol_id");
        reveal_strlit("device_id");
        reveal_strlit("userid");
        reveal_strlit("alias");
        reveal_strlit("groupid");
        reveal_strlit("description");
        reveal_strlit("policy_id");
        reveal_strlit("assigned_to");
        reveal_strlit("supported_features");
        reveal_strlit("last_seen");
        reveal_strlit("teamviewer_id");
    }
    match j {
        Json::Obj(fields) => {
            let remotecontrol_id = match str_field(fields, ascii_bytes("remotecontrol_id")) {
                None => return None,
                Some(o) => o,
            };
            let device_id = match str_field(fields, ascii_bytes("device_id")) {
                None => return None,
                Some(o) => o,
            };
            let userid = match str_field(fields, ascii_bytes("userid")) {
                None => return None,
                Some(o) => o,
            };
            let alias = match str_field(fields, ascii_bytes("alias")) {
                None => return None,
                Some(o) => o,
            };
            let groupid = match str_field(fields, ascii_bytes("groupid")) {
                None => return None,
                Some(o) => o,
            };
            let description = match str_field(fields, ascii_bytes("description")) {
                None => return None,
                Some(o) => o,
            };
            let policy_id = match str_field(fields, ascii_bytes("policy_id")) {
                None => return None,
                Some(o) => o,
            };
            let assigned_to = match bool_field(fields, ascii_bytes("assigned_to")) {
                None => return None,
                Some(o) => o,
            };
            let supported_features = match str_field(fields, ascii_bytes("supported_features")) {
                None => return None,
                Some(o) => o,
            };
            let last_seen = match str_field(fields, ascii_bytes("last_seen")) {
                None => return None,
                Some(o) => o,
            };
            let teamviewer_id = match i64_field(fields, ascii_bytes("teamviewer_id")) {
                None => return None,
                Some(o) => o,
            };
            let online_state = online_state_of(fields);
            Some(
                Device {
                    remotecontrol_id,
                    device_id,
                    userid,
                    alias,
                    groupid,
                    description,
                    online_state,
                    policy_id,
                    assigned_to,
                    supported_features,
                    last_seen,
                    teamviewer_id,
                },
            )
        },
        Json::Null => None,
        Json::Bool(_) => None,
        Json::Num(_) => None,
        Json::Str(_) => None,
        Json::Arr(_) => None,
    }
}

/// Resolves an array of JSON values into device records, keeping their order.
pub fn device_list(els: &Vec<Json>) -> (r: Option<Vec<Device>>)
    ensures
        match r {
            None => spec_device_list(deep_seq(els@)) is None,
            Some(ds) => spec_device_list(deep_seq(els@)) == Some(deep_devices(ds@)),
        },
{
    proof {
        lemma_deep_seq(els@);
        assert(deep_seq(els@).skip(0) =~= deep_seq(els@));
    }
    let ghost dsv = deep_seq(els@);
    let mut out: Vec<Device> = Vec::new();
    let mut i: usize = 0;
    while i < els.len()
        invariant
            i <= els@.len(),
            dsv == deep_seq(els@),
            dsv.len() == els@.len(),
            forall|k: int| 0 <= k < els@.len() ==> dsv[k] == #[trigger] els@[k].deep(),
            out@.len() == i,
            match spec_device_list(dsv.skip(i as int)) {
                None => spec_device_list(dsv) is None,
                Some(rest) => spec_device_list(dsv) == Some(deep_devices(out@) + rest),
            },
        decreases els@.len() - i,
    {
        proof {
            assert(dsv.skip(i as int)[0] == dsv[i as int]);
        }
        match device_of_json(&els[i]) {
            None => {
                return None;
            },
            Some(d) => {
                proof {
                    assert(dsv.skip(i as int).drop_first() =~= dsv.skip(i + 1));
                    let dd = d.deep();
                    if spec_device_list(dsv.skip(i + 1)) is Some {
                        let rest = spec_device_list(dsv.skip(i + 1))->Some_0;
                        assert(deep_devices(out@.push(d)) =~= deep_devices(out@) + seq![dd]);
                        assert((deep_devices(out@) + seq![dd]) + rest =~= deep_devices(out@) + (
                        seq![dd] + rest));
                    }
                }
                out.push(d);
                i = i + 1;
            },
        }
    }
    proof {
        assert(dsv.skip(i as int) =~= Seq::<JsonV>::empty());
        assert(deep_devices(out@) + Seq::<DeviceV>::empty() =~= deep_devices(out@));
    }
    Some(out)
}

/// Resolves a decoded document into its device list.
pub fn devices_of_json(doc: &Json) -> (r: Option<Vec<Device>>)
    ensures
        match r {
            None => spec_devices_of(doc.deep()) is None,
            Some(ds) => spec_devices_of(doc.deep()) == Some(deep_devices(ds@)),
        },
{
    proof {
        reveal_strlit("devices");
    }
    match doc {
        Json::Obj(fields) => match lookup(fields, ascii_bytes("devices")) {
            None => {
                let out: Vec<Device> = Vec::new();
                proof {
                    assert(deep_devices(out@) =~= Seq::<DeviceV>::empty());
                }
                Some(out)
            },
            Some(j) => match j {
                Json::Arr(els) => device_list(els),
                Json::Null => None,
                Json::Bool(_) => None,
                Json::Num(_) => None,
                Json::Str(_) => None,
                Json::Obj(_) => None,
            },
        },
        Json::Null => None,
        Json::Bool(_) => None,
        Json::Num(_) => None,
        Json::Str(_) => None,
        Json::Arr(_) => None,
    }
}

/// Decodes a response body into its device list: `None` where the bytes are
/// not a JSON document of the expected shape.
pub fn decode_body(body: &[u8]) -> (r: Option<Vec<Device>>)
    ensures
        match r {
            None => spec_decode(body@) is None,
            Some(ds) => spec_decode(body@) == Some(deep_devices(ds@)),
        },
{
    match parse_json(body) {
        None => None,
        Some(doc) => devices_of_json(&doc),
    }
}

} // verus!
