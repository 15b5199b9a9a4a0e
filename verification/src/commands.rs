//! What the user interface is shown of devices.
use vstd::prelude::*;
use crate::device::discovery;
use crate::utils::config::AppConfig;

verus! {

/// A device as the device list shows it.
#[derive(Debug, Clone, PartialEq, Eq)]
pub struct DeviceInfo {
    pub device_id: String,
    pub device_name: String,
    pub device_type: String,
    pub ip_address: String,
    pub tcp_port: u16,
    pub online: bool,
}

/// This device, as the settings page shows it.
#[derive(Debug, Clone, PartialEq, Eq)]
pub struct MyDeviceInfo {
    pub device_id: String,
    pub device_name: String,
    pub device_type: String,
}

impl DeviceInfo {
    /// What the device list shows of a discovered device: everything but when it was last seen.
    pub fn from_discovered(d: discovery::DeviceInfo) -> (r: Self)
        ensures
            r.device_id == d.device_id,
            r.device_name == d.device_name,
            r.device_type == d.device_type,
            r.ip_address == d.ip_address,
            r.tcp_port == d.tcp_port,
            r.online == d.online,
    {
        DeviceInfo {
            device_id: d.device_id,
            device_name: d.device_name,
            device_type: d.device_type,
            ip_address: d.ip_address,
            tcp_port: d.tcp_port,
            online: d.online,
        }
    }
}

impl MyDeviceInfo {
    /// The identity part of the settings.
    pub fn from_config(config: &AppConfig) -> (r: Self)
        ensures
            r.device_id == config.device_id,
            r.device_name == config.device_name,
            r.device_type == config.device_type,
    {
        MyDeviceInfo {
            device_id: config.device_id.clone(),
            device_name: config.device_name.clone(),
            device_type: config.device_type.clone(),
        }
    }
}


/// Position of the first device of `devs`, from `from` on, whose identifier is `id`.
pub open spec fn first_with_id(devs: Seq<discovery::DeviceInfo>, id: Seq<char>, from: int) -> Option<int>
    decreases devs.len() - from,
{
    if from < 0 || from >= devs.len() {
        None
    } else if devs[from].device_id@ == id {
        Some(from)
    } else {
        first_with_id(devs, id, from + 1)
    }
}

/// The first device of the list with identifier `device_id`, as sending files looks up its
/// target ("Device not found" when there is none).
pub fn find_device(devices: &Vec<discovery::DeviceInfo>, device_id: &String) -> (r: Option<discovery::DeviceInfo>)
    ensures
        r == match first_with_id(devices@, device_id@, 0) {
            Some(i) => Some(devices@[i]),
            None => None,
        },
        r is Some <==> exists|k: int| 0 <= k < devices@.len() && #[trigger] devices@[k].device_id@ == device_id@,
        r matches Some(d) ==> d.device_id@ == device_id@,
{
    proof {
        lemma_find_device_first_match(devices@, device_id@);
    }
    let mut i: usize = 0;
    while i < devices.len()
        invariant
            i <= devices@.len(),
            first_with_id(devices@, device_id@, 0) == first_with_id(devices@, device_id@, i as int),
        decreases devices@.len() - i,
    {
        if devices[i].device_id == *device_id {
            return Some(devices[i].duplicate());
        }
        i = i + 1;
    }
    None
}

/// The lookup by identifier finds the first device that has it: from position `from` on,
/// it names a device with identifier `id` and none before it has that identifier; it names
/// none exactly when no device from `from` on has it.
pub proof fn lemma_first_with_id_finds_first(devs: Seq<discovery::DeviceInfo>, id: Seq<char>, from: int)
    requires
        0 <= from,
    ensures
        match first_with_id(devs, id, from) {
            Some(k) => from <= k < devs.len() && devs[k].device_id@ == id && forall|j: int|
                from <= j < k ==> #[trigger] devs[j].device_id@ != id,
            None => forall|j: int| from <= j < devs.len() ==> #[trigger] devs[j].device_id@ != id,
        },
    decreases devs.len() - from,
{
    if from < devs.len() && devs[from].device_id@ != id {
        lemma_first_with_id_finds_first(devs, id, from + 1);
    }
}

/// Looking a device up by identifier in a list finds one exactly when some device of the
/// list has that identifier, and then it is the first such device.
pub proof fn lemma_find_device_first_match(devs: Seq<discovery::DeviceInfo>, id: Seq<char>)
    ensures
        (exists|k: int| 0 <= k < devs.len() && #[trigger] devs[k].device_id@ == id) <==> first_with_id(devs, id, 0) is Some,
        match first_with_id(devs, id, 0) {
            Some(k) => 0 <= k < devs.len() && devs[k].device_id@ == id && forall|j: int|
                0 <= j < k ==> #[trigger] devs[j].device_id@ != id,
            None => true,
        },
{
    lemma_first_with_id_finds_first(devs, id, 0);
}

} // verus!
