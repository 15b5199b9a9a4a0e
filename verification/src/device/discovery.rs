//! The devices seen on the local network, as their broadcast announcements reveal them.
use vstd::prelude::*;

verus! {

/// The text field `key` of the JSON object that `data` holds, if `data` is JSON, is an
/// object, and the field is a string.
pub uninterp spec fn json_str_field_of(data: Seq<u8>, key: Seq<char>) -> Option<Seq<char>>;

/// The field `key` of the JSON object that `data` holds, if `data` is JSON, is an object,
/// and the field is a number that fits a `u64`.
pub uninterp spec fn json_u64_field_of(data: Seq<u8>, key: Seq<char>) -> Option<u64>;

/// `serde_json::from_slice::<Value>`, then `Value::get(key)` and `Value::as_str`.
/// Claimed: the result is a function of the bytes and the key alone.
#[verifier::external_body]
fn json_str_field(data: &[u8], key: &str) -> (r: Option<String>)
    ensures
        match r {
            Some(v) => json_str_field_of(data@, key@) == Some(v@),
            None => json_str_field_of(data@, key@) is None,
        },
{
    serde_json::from_slice::<serde_json::Value>(data).ok()?.get(key)?.as_str().map(|v| v.to_string())
}

/// `serde_json::from_slice::<Value>`, then `Value::get(key)` and `Value::as_u64`.
/// Claimed: the result is a function of the bytes and the key alone.
#[verifier::external_body]
fn json_u64_field(data: &[u8], key: &str) -> (r: Option<u64>)
    ensures
        r == json_u64_field_of(data@, key@),
{
    serde_json::from_slice::<serde_json::Value>(data).ok()?.get(key)?.as_u64()
}

/// A device that announced itself.
#[derive(Debug, Clone, PartialEq, Eq)]
pub struct DeviceInfo {
    pub device_id: String,
    pub device_name: String,
    pub device_type: String,
    pub ip_address: String,
    pub tcp_port: u16,
    pub online: bool,
    pub last_seen: u64,
}

impl DeviceInfo {
    /// A copy of the entry.
    pub(crate) fn duplicate(&self) -> (r: DeviceInfo)
        ensures
            r == *self,
    {
        DeviceInfo {
            device_id: self.device_id.clone(),
            device_name: self.device_name.clone(),
            device_type: self.device_type.clone(),
            ip_address: self.ip_address.clone(),
            tcp_port: self.tcp_port,
            online: self.online,
            last_seen: self.last_seen,
        }
    }
}

/// No two devices of the list share an identifier.
pub open spec fn ids_distinct(devs: Seq<DeviceInfo>) -> bool {
    forall|i: int, j: int|
        0 <= i < devs.len() && 0 <= j < devs.len() && i != j ==> #[trigger] devs[i].device_id@
            != #[trigger] devs[j].device_id@
}

pub open spec fn has_id(devs: Seq<DeviceInfo>, id: Seq<char>) -> bool {
    exists|i: int| 0 <= i < devs.len() && #[trigger] devs[i].device_id@ == id
}

/// Position of the device with identifier `id`, or -1.
pub open spec fn index_of_id(devs: Seq<DeviceInfo>, id: Seq<char>) -> int {
    if has_id(devs, id) {
        choose|i: int| 0 <= i < devs.len() && #[trigger] devs[i].device_id@ == id
    } else {
        -1
    }
}

/// The device known under identifier `id`.
pub open spec fn device_with_id(devs: Seq<DeviceInfo>, id: Seq<char>) -> Option<DeviceInfo> {
    if has_id(devs, id) {
        Some(devs[index_of_id(devs, id)])
    } else {
        None
    }
}

/// The list after `info` is recorded: it replaces the entry with the same identifier, or
/// joins the end of the list.
pub open spec fn recorded(devs: Seq<DeviceInfo>, info: DeviceInfo) -> Seq<DeviceInfo> {
    if has_id(devs, info.device_id@) {
        devs.update(index_of_id(devs, info.device_id@), info)
    } else {
        devs.push(info)
    }
}

/// A device heard from less than ten seconds before `now`.
pub open spec fn is_fresh(d: DeviceInfo, now: u64) -> bool {
    now - d.last_seen < 10
}

/// The state of discovery on this device: who it announces itself as, whether it runs, and
/// the devices it has heard from, each once.
pub struct DeviceDiscovery {
    broadcast_port: u16,
    tcp_port: u16,
    device_id: String,
    device_name: String,
    device_type: String,
    devices: Vec<DeviceInfo>,
    running: bool,
}

impl DeviceDiscovery {
    #[verifier::type_invariant]
    spec fn wf(self) -> bool {
        ids_distinct(self.devices@)
    }

    /// The devices heard from, in the order they were first heard.
    pub closed spec fn known(&self) -> Seq<DeviceInfo> {
        self.devices@
    }

    pub closed spec fn spec_running(&self) -> bool {
        self.running
    }

    pub closed spec fn spec_device_name(&self) -> Seq<char> {
        self.device_name@
    }

    pub closed spec fn spec_device_id(&self) -> Seq<char> {
        self.device_id@
    }

    pub closed spec fn spec_device_type(&self) -> Seq<char> {
        self.device_type@
    }

    pub closed spec fn spec_tcp_port(&self) -> u16 {
        self.tcp_port
    }

    pub closed spec fn spec_broadcast_port(&self) -> u16 {
        self.broadcast_port
    }

    /// The announced identity other than the name: ports, identifier and device type.
    pub closed spec fn same_identity(&self, other: &DeviceDiscovery) -> bool {
        &&& self.broadcast_port == other.broadcast_port
        &&& self.tcp_port == other.tcp_port
        &&& self.device_id@ == other.device_id@
        &&& self.device_type@ == other.device_type@
    }

    pub fn new(
        broadcast_port: u16,
        tcp_port: u16,
        device_id: String,
        device_name: String,
        device_type: String,
    ) -> (d: Self)
        ensures
            d.known() == Seq::<DeviceInfo>::empty(),
            ids_distinct(d.known()),
            !d.spec_running(),
            d.spec_broadcast_port() == broadcast_port,
            d.spec_tcp_port() == tcp_port,
            d.spec_device_id() == device_id@,
            d.spec_device_name() == device_name@,
            d.spec_device_type() == device_type@,
    {
        DeviceDiscovery {
            broadcast_port,
            tcp_port,
            device_id,
            device_name,
            device_type,
            devices: Vec::new(),
            running: false,
        }
    }

    /// Marks discovery as running.
    pub fn start(&mut self)
        ensures
            final(self).spec_running(),
            final(self).known() == old(self).known(),
            ids_distinct(final(self).known()),
            final(self).spec_device_name() == old(self).spec_device_name(),
            final(self).same_identity(old(self)),
    {
        proof {
            use_type_invariant(&*self);
        }
        self.running = true;
    }

    /// Stops discovery and forgets every device heard from.
    pub fn stop(&mut self)
        ensures
            !final(self).spec_running(),
            final(self).known() == Seq::<DeviceInfo>::empty(),
            ids_distinct(final(self).known()),
            final(self).spec_device_name() == old(self).spec_device_name(),
            final(self).same_identity(old(self)),
    {
        proof {
            use_type_invariant(&*self);
        }
        self.running = false;
        self.devices = Vec::new();
    }

    pub fn is_running(&self) -> (r: bool)
        ensures
            r == self.spec_running(),
    {
        self.running
    }

    /// The name announced from now on.
    pub fn update_device_name(&mut self, new_name: String)
        ensures
            final(self).spec_device_name() == new_name@,
            final(self).known() == old(self).known(),
            ids_distinct(final(self).known()),
            final(self).spec_running() == old(self).spec_running(),
            final(self).same_identity(old(self)),
    {
        proof {
            use_type_invariant(&*self);
        }
        self.device_name = new_name;
    }

    pub fn device_id(&self) -> (s: &String)
        ensures
            s@ == self.spec_device_id(),
    {
        &self.device_id
    }

    pub fn device_name(&self) -> (s: &String)
        ensures
            s@ == self.spec_device_name(),
    {
        &self.device_name
    }

    pub fn device_type(&self) -> (s: &String)
        ensures
            s@ == self.spec_device_type(),
    {
        &self.device_type
    }

    pub fn tcp_port(&self) -> (p: u16)
        ensures
            p == self.spec_tcp_port(),
    {
        self.tcp_port
    }

    pub fn broadcast_port(&self) -> (p: u16)
        ensures
            p == self.spec_broadcast_port(),
    {
        self.broadcast_port
    }

    /// The devices heard from, without dropping stale ones.
    pub fn devices(&self) -> (v: &Vec<DeviceInfo>)
        ensures
            v@ == self.known(),
            ids_distinct(v@),
    {
        proof {
            use_type_invariant(self);
        }
        &self.devices
    }

    fn find(&self, id: &String) -> (r: Option<usize>)
        ensures
            match r {
                Some(i) => i < self.known().len() && self.known()[i as int].device_id@ == id@
                    && index_of_id(self.known(), id@) == i,
                None => !has_id(self.known(), id@),
            },
    {
        proof {
            use_type_invariant(self);
        }
        let mut i: usize = 0;
        while i < self.devices.len()
            invariant
                i <= self.devices@.len(),
                ids_distinct(self.devices@),
                forall|j: int| 0 <= j < i ==> self.devices@[j].device_id@ != id@,
            decreases self.devices@.len() - i,
        {
            if self.devices[i].device_id == *id {
                proof {
                    let k = index_of_id(self.devices@, id@);
                    assert(has_id(self.devices@, id@));
                    assert(self.devices@[k].device_id@ == id@);
                    if k != i {
                        assert(self.devices@[k].device_id@ != self.devices@[i as int].device_id@);
                    }
                }
                return Some(i);
            }
            i = i + 1;
        }
        None
    }

    /// Records an announcement received at time `now` from `ip_address`: the device is
    /// (re)entered as online, with the announced port cut to 16 bits.
    pub fn record_announcement(
        &mut self,
        device_id: String,
        device_name: String,
        device_type: String,
        ip_address: String,
        tcp_port: u64,
        now: u64,
    )
        ensures
            final(self).known() == recorded(
                old(self).known(),
                DeviceInfo {
                    device_id,
                    device_name,
                    device_type,
                    ip_address,
                    tcp_port: tcp_port as u16,
                    online: true,
                    last_seen: now,
                },
            ),
            ids_distinct(final(self).known()),
            final(self).spec_running() == old(self).spec_running(),
            final(self).spec_device_name() == old(self).spec_device_name(),
            final(self).same_identity(old(self)),
    {
        proof {
            use_type_invariant(&*self);
        }
        let ghost devs = self.devices@;
        let pos = self.find(&device_id);
        let info = DeviceInfo {
            device_id,
            device_name,
            device_type,
            ip_address,
            tcp_port: #[verifier::truncate] (tcp_port as u16),
            online: true,
            last_seen: now,
        };
        let mut devices: Vec<DeviceInfo> = Vec::new();
        std::mem::swap(&mut devices, &mut self.devices);
        assert(devices@ == devs);
        match pos {
            Some(i) => {
                devices.set(i, info);
            },
            None => {
                devices.push(info);
            },
        }
        proof {
            assert forall|a: int, b: int|
                0 <= a < devices@.len() && 0 <= b < devices@.len() && a != b implies #[trigger] devices@[a].device_id@
                    != #[trigger] devices@[b].device_id@ by {
                if a < devs.len() && b < devs.len() {
                    if pos.is_none() || (a != pos.unwrap() && b != pos.unwrap()) {
                        assert(devs[a].device_id@ != devs[b].device_id@);
                    } else if a == pos.unwrap() {
                        assert(devs[b].device_id@ != devs[a].device_id@);
                    } else {
                        assert(devs[a].device_id@ != devs[b].device_id@);
                    }
                } else if a == devs.len() {
                    assert(!has_id(devs, info.device_id@));
                    assert(devs[b].device_id@ != info.device_id@);
                } else {
                    assert(!has_id(devs, info.device_id@));
                    assert(devs[a].device_id@ != info.device_id@);
                }
            }
            assert(devices@ == recorded(devs, info));
        }
        self.devices = devices;
    }

    /// Records the announcement datagram `data` received at time `now` from `ip_address`:
    /// when it is a JSON object with the text fields `device_id`, `device_name` and
    /// `device_type` and the number `tcp_port`, the device is recorded as
    /// `record_announcement` does and the four fields are returned; otherwise nothing changes.
    pub fn record_datagram(&mut self, data: &[u8], ip_address: String, now: u64) -> (r: Option<(String, String, String, u64)>)
        ensures
            match r {
                Some((id, name, kind, port)) => {
                    &&& json_str_field_of(data@, "device_id"@) == Some(id@)
                    &&& json_str_field_of(data@, "device_name"@) == Some(name@)
                    &&& json_str_field_of(data@, "device_type"@) == Some(kind@)
                    &&& json_u64_field_of(data@, "tcp_port"@) == Some(port)
                    &&& final(self).known() == recorded(
                        old(self).known(),
                        DeviceInfo {
                            device_id: id,
                            device_name: name,
                            device_type: kind,
                            ip_address,
                            tcp_port: port as u16,
                            online: true,
                            last_seen: now,
                        },
                    )
                },
                None => {
                    &&& (json_str_field_of(data@, "device_id"@) is None
                        || json_str_field_of(data@, "device_name"@) is None
                        || json_str_field_of(data@, "device_type"@) is None
                        || json_u64_field_of(data@, "tcp_port"@) is None)
                    &&& final(self).known() == old(self).known()
                },
            },
            ids_distinct(final(self).known()),
            final(self).spec_running() == old(self).spec_running(),
            final(self).spec_device_name() == old(self).spec_device_name(),
            final(self).same_identity(old(self)),
    {
        proof {
            use_type_invariant(&*self);
        }
        let id = json_str_field(data, "device_id");
        let name = json_str_field(data, "device_name");
        let kind = json_str_field(data, "device_type");
        let port = json_u64_field(data, "tcp_port");
        match (id, name, kind, port) {
            (Some(id), Some(name), Some(kind), Some(port)) => {
                self.record_announcement(id.clone(), name.clone(), kind.clone(), ip_address, port, now);
                Some((id, name, kind, port))
            },
            _ => None,
        }
    }

    /// Drops the devices not heard from in the last ten seconds and lists the others.
    pub fn get_devices(&mut self, now: u64) -> (v: Vec<DeviceInfo>)
        requires
            forall|i: int| 0 <= i < old(self).known().len() ==> #[trigger] old(self).known()[i].last_seen <= now,
        ensures
            final(self).known() == old(self).known().filter(|d: DeviceInfo| is_fresh(d, now)),
            v@ == final(self).known(),
            ids_distinct(v@),
            final(self).spec_running() == old(self).spec_running(),
            final(self).spec_device_name() == old(self).spec_device_name(),
            final(self).same_identity(old(self)),
    {
        proof {
            use_type_invariant(&*self);
        }
        let ghost devs = self.devices@;
        let ghost fresh = |d: DeviceInfo| is_fresh(d, now);
        assert forall|k: int| 0 <= k < devs.len() implies #[trigger] devs[k].last_seen <= now by {
            assert(old(self).known()[k].last_seen <= now);
        }
        let mut kept: Vec<DeviceInfo> = Vec::new();
        let mut i: usize = 0;
        while i < self.devices.len()
            invariant
                devs == self.devices@,
                i <= devs.len(),
                forall|k: int| 0 <= k < devs.len() ==> #[trigger] devs[k].last_seen <= now,
                fresh == (|d: DeviceInfo| is_fresh(d, now)),
                kept@ == devs.take(i as int).filter(fresh),
            decreases devs.len() - i,
        {
            reveal(Seq::filter);
            assert(devs.take(i + 1).drop_last() =~= devs.take(i as int));
            if now - self.devices[i].last_seen < 10 {
                kept.push(self.devices[i].duplicate());
            }
            i = i + 1;
        }
        assert(devs.take(devs.len() as int) =~= devs);
        proof {
            assert forall|a: int, b: int|
                0 <= a < kept@.len() && 0 <= b < kept@.len() && a != b implies #[trigger] kept@[a].device_id@
                    != #[trigger] kept@[b].device_id@ by {
                lemma_filter_keeps_distinct(devs, fresh, a, b);
            }
        }
        let mut out: Vec<DeviceInfo> = Vec::new();
        let mut j: usize = 0;
        while j < kept.len()
            invariant
                j <= kept@.len(),
                out@ == kept@.take(j as int),
            decreases kept@.len() - j,
        {
            out.push(kept[j].duplicate());
            assert(kept@.take(j + 1) =~= kept@.take(j as int).push(kept@[j as int]));
            j = j + 1;
        }
        assert(kept@.take(kept@.len() as int) =~= kept@);
        self.devices = kept;
        out
    }
}

proof fn lemma_filter_keeps_distinct(devs: Seq<DeviceInfo>, pred: spec_fn(DeviceInfo) -> bool, a: int, b: int)
    requires
        ids_distinct(devs),
        0 <= a < devs.filter(pred).len(),
        0 <= b < devs.filter(pred).len(),
        a != b,
    ensures
        devs.filter(pred)[a].device_id@ != devs.filter(pred)[b].device_id@,
    decreases devs.len(),
{
    reveal(Seq::filter);
    if devs.len() > 0 {
        let init = devs.drop_last();
        assert(ids_distinct(init)) by {
            assert forall|i: int, j: int|
                0 <= i < init.len() && 0 <= j < init.len() && i != j implies #[trigger] init[i].device_id@
                    != #[trigger] init[j].device_id@ by {
                assert(init[i] == devs[i] && init[j] == devs[j]);
            }
        }
        let fi = init.filter(pred);
        if pred(devs.last()) {
            assert(devs.filter(pred) == fi.push(devs.last()));
            if a < fi.len() && b < fi.len() {
                lemma_filter_keeps_distinct(init, pred, a, b);
            } else {
                let k = if a < fi.len() { a } else { b };
                assert(fi.contains(fi[k]));
                init.lemma_filter_contains_rev(pred, fi[k]);
                let w = choose|w: int| 0 <= w < init.len() && init[w] == fi[k];
                assert(devs[w] == init[w]);
                assert(devs[w].device_id@ != devs[devs.len() - 1].device_id@);
            }
        } else {
            assert(devs.filter(pred) == fi);
            lemma_filter_keeps_distinct(init, pred, a, b);
        }
    }
}

/// Recording an announcement keeps identifiers distinct, makes the announced device the one
/// known under its identifier, and leaves every other identifier's device as it was.
pub proof fn lemma_lookup_after_record(devs: Seq<DeviceInfo>, info: DeviceInfo, other: Seq<char>)
    requires
        ids_distinct(devs),
        other != info.device_id@,
    ensures
        device_with_id(recorded(devs, info), info.device_id@) == Some(info),
        device_with_id(recorded(devs, info), other) == device_with_id(devs, other),
{
    let r = recorded(devs, info);
    let id = info.device_id@;
    if has_id(devs, id) {
        let k = index_of_id(devs, id);
        assert(r[k] == info);
        assert(has_id(r, id));
        let k2 = index_of_id(r, id);
        if k2 != k {
            assert(r[k2] == devs[k2]);
            assert(devs[k2].device_id@ != devs[k].device_id@);
        }
    } else {
        assert(r[devs.len() as int] == info);
        assert(has_id(r, id));
        let k2 = index_of_id(r, id);
        if k2 != devs.len() {
            assert(r[k2] == devs[k2]);
            assert(has_id(devs, id));
        }
    }
    if has_id(devs, other) {
        let k = index_of_id(devs, other);
        assert(r[k].device_id@ == other || r[k] == devs[k]);
        assert(r[k] == devs[k]);
        assert(has_id(r, other));
        let k2 = index_of_id(r, other);
        if k2 != k {
            if k2 < devs.len() {
                assert(r[k2] == devs[k2] || r[k2] == info);
                assert(devs[k2].device_id@ != devs[k].device_id@);
            }
        }
    } else {
        if has_id(r, other) {
            let k2 = index_of_id(r, other);
            assert(k2 < devs.len());
            assert(r[k2] == devs[k2]);
            assert(has_id(devs, other));
        }
    }
}

} // verus!
