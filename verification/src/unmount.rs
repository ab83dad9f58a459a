//! The unmount decisions: find a mounted device by its mapper name, work
//! out the teardown actions, and update the registry. Running the actions
//! (the mapper and loop-device tools) is the caller's business.

use vstd::prelude::*;

use crate::config::Config;
use crate::config::EntryModel;
use crate::config::model_has_key;
use crate::config::model_key_index;
use crate::error::no_unmount_device_message;
use crate::error::spec_no_unmount_device;
use crate::mount::device_name;
use crate::numbers::spec_dec;
use crate::text::str_eq;

verus! {

/// Whether a failure while detaching the backing image is reported or
/// swallowed; it is swallowed during cleanup of a failed mount.
pub enum ImageError {
    ShowError,
    HideError,
}

/// The teardown actions for one device: remove the mapper device of this
/// name, then detach this loop device. The backing image path rides along
/// so a caller whose teardown fails can restore the record.
#[derive(Debug)]
pub struct UnmountPlan {
    pub dm_name: String,
    pub image_location: String,
    pub image_file: String,
    pub entry: u32,
}

/// The first registry index whose record carries the given mapper name,
/// or -1 when none does.
pub open spec fn spec_find_dm(m: Seq<(u32, EntryModel)>, name: Seq<char>) -> int
    decreases m.len(),
{
    if m.len() == 0 {
        -1
    } else if m[0].1.dm_mount_point == name {
        0
    } else {
        let r = spec_find_dm(m.skip(1), name);
        if r == -1 {
            -1
        } else {
            r + 1
        }
    }
}

/// A scan that stops at the first matching record characterizes
/// `spec_find_dm`.
proof fn lemma_find_dm_char(m: Seq<(u32, EntryModel)>, name: Seq<char>, k: int)
    requires
        0 <= k <= m.len(),
        forall|j: int| 0 <= j < k ==> (#[trigger] m[j]).1.dm_mount_point != name,
        k < m.len() ==> m[k].1.dm_mount_point == name,
    ensures
        spec_find_dm(m, name) == if k < m.len() {
            k
        } else {
            -1
        },
    decreases k,
{
    if k == 0 {
    } else {
        assert(m[0].1.dm_mount_point != name);
        let tail = m.skip(1);
        assert forall|j: int| 0 <= j < k - 1 implies (#[trigger] tail[j]).1.dm_mount_point
            != name by {
            assert(tail[j] == m[j + 1]);
        }
        if k - 1 < tail.len() {
            assert(tail[k - 1] == m[k]);
        }
        lemma_find_dm_char(tail, name, k - 1);
    }
}

/// Unmounts by mapper name: the named device's record leaves the registry
/// and its teardown actions come back; a name no record carries is a
/// lookup error naming the device, and the registry stays as it was.
pub fn unmount(config: &mut Config, requested: &str) -> (r: Result<UnmountPlan, String>)
    requires
        old(config).wf(),
    ensures
        final(config).wf(),
        ({
            let idx = spec_find_dm(old(config)@, requested@);
            match r {
                Err(msg) => idx == -1 && msg@ == spec_no_unmount_device(requested@)
                    && final(config)@ == old(config)@,
                Ok(plan) => idx >= 0 && plan.entry == old(config)@[idx].0
                    && plan.image_location@ == old(config)@[idx].1.image_mount_point
                    && plan.image_file@ == old(config)@[idx].1.image_file
                    && plan.dm_name@ == "ddrm"@ + spec_dec(plan.entry as nat) && final(config)@
                    == old(config)@.remove(idx),
            }
        }),
{
    let ghost m0 = config@;
    let devices = config.devices();
    let n = devices.len();
    let mut i: usize = 0;
    while i < n
        invariant
            i <= n,
            n == m0.len(),
            n == devices@.len(),
            forall|j: int|
                0 <= j < n ==> {
                    let d = #[trigger] devices@[j];
                    &&& d.device_mount_point@ == m0[j].1.dm_mount_point
                    &&& d.entry == m0[j].0
                    &&& d.image_mount.image_path@ == m0[j].1.image_mount_point
                    &&& d.image_file_path@ == m0[j].1.image_file
                },
            forall|j: int| 0 <= j < i ==> (#[trigger] m0[j]).1.dm_mount_point != requested@,
            m0 == config@,
            m0 == old(config)@,
            config.wf(),
        decreases n - i,
    {
        if str_eq(devices[i].device_mount_point.as_str(), requested) {
            proof {
                lemma_find_dm_char(m0, requested@, i as int);
                assert(m0[i as int].0 == devices@[i as int].entry);
                assert(model_has_key(m0, devices@[i as int].entry));
            }
            let entry = devices[i].get_entry();
            let image_location = devices[i].get_image_location();
            let image_file = devices[i].image_file_path.clone();
            let dm_name = device_name(entry);
            let removed = config.remove_device(entry);
            proof {
                assert(removed is Ok);
                let j = model_key_index(m0, entry);
                assert(0 <= j < m0.len() && m0[j].0 == entry);
                if j < i as int {
                    assert(m0[j].0 != m0[i as int].0);
                }
                if (i as int) < j {
                    assert(m0[i as int].0 != m0[j].0);
                }
                assert(j == i as int);
            }
            return Ok(UnmountPlan { dm_name, image_location, image_file, entry });
        }
        i = i + 1;
    }
    proof {
        lemma_find_dm_char(m0, requested@, n as int);
    }
    Err(no_unmount_device_message(requested))
}

/// Unmounts everything: hands back the teardown actions of every mounted
/// device in registry order and empties the registry.
pub fn unmount_all(config: &mut Config) -> (r: Vec<UnmountPlan>)
    requires
        old(config).wf(),
    ensures
        final(config).wf(),
        final(config)@ == Seq::<(u32, EntryModel)>::empty(),
        r@.len() == old(config)@.len(),
        forall|i: int|
            0 <= i < r@.len() ==> {
                let p = #[trigger] r@[i];
                &&& p.entry == old(config)@[i].0
                &&& p.image_location@ == old(config)@[i].1.image_mount_point
                &&& p.image_file@ == old(config)@[i].1.image_file
                &&& p.dm_name@ == "ddrm"@ + spec_dec(old(config)@[i].0 as nat)
            },
{
    let ghost m0 = config@;
    let devices = config.devices();
    let n = devices.len();
    let mut plans: Vec<UnmountPlan> = Vec::new();
    let mut i: usize = 0;
    while i < n
        invariant
            i <= n,
            n == m0.len(),
            n == devices@.len(),
            forall|j: int|
                0 <= j < n ==> {
                    let d = #[trigger] devices@[j];
                    &&& d.device_mount_point@ == m0[j].1.dm_mount_point
                    &&& d.entry == m0[j].0
                    &&& d.image_mount.image_path@ == m0[j].1.image_mount_point
                    &&& d.image_file_path@ == m0[j].1.image_file
                },
            plans@.len() == i,
            forall|j: int|
                0 <= j < i ==> {
                    let p = #[trigger] plans@[j];
                    &&& p.entry == m0[j].0
                    &&& p.image_location@ == m0[j].1.image_mount_point
                    &&& p.image_file@ == m0[j].1.image_file
                    &&& p.dm_name@ == "ddrm"@ + spec_dec(m0[j].0 as nat)
                },
        decreases n - i,
    {
        let entry = devices[i].get_entry();
        let image_location = devices[i].get_image_location();
        let image_file = devices[i].image_file_path.clone();
        let dm_name = device_name(entry);
        plans.push(UnmountPlan { dm_name, image_location, image_file, entry });
        i = i + 1;
    }
    config.clear_devices();
    plans
}

} // verus!
