//! The device registry: an ordered mapping from slot numbers to device
//! records, with slot allocation, upsert, removal, snapshots for listing
//! and teardown, and the listing format. Slots are unique and never 0.

use vstd::prelude::*;
use vstd::pervasive::VecAdditionalExecFns;

use crate::diagnostics::display_width;
use crate::diagnostics::repeat_str;
use crate::diagnostics::spec_repeat_seq;
use crate::diagnostics::width_of;

verus! {

pub const DEVICE_NAME: &'static str = "ddrm";

pub const CONFIG_FOLDER: &'static str = "ddr-mount";

pub const DM_LOCATION: &'static str = "/dev/mapper/";

/// One registry record: the backing image, the image's mount point (the
/// loop device), and the mapper device name.
#[derive(Clone, Debug)]
pub struct ConfigEntry {
    pub image_file: String,
    pub image_mount_point: String,
    pub dm_mount_point: String,
}

/// The mathematical content of one record.
pub struct EntryModel {
    pub image_file: Seq<char>,
    pub image_mount_point: Seq<char>,
    pub dm_mount_point: Seq<char>,
}

impl View for ConfigEntry {
    type V = EntryModel;

    open spec fn view(&self) -> EntryModel {
        EntryModel {
            image_file: self.image_file@,
            image_mount_point: self.image_mount_point@,
            dm_mount_point: self.dm_mount_point@,
        }
    }
}

/// Whether a slot number is live in the model.
pub open spec fn model_has_key(m: Seq<(u32, EntryModel)>, k: u32) -> bool {
    exists|i: int| 0 <= i < m.len() && m[i].0 == k
}

/// The index of a live slot number in the model.
pub open spec fn model_key_index(m: Seq<(u32, EntryModel)>, k: u32) -> int {
    choose|i: int| 0 <= i < m.len() && m[i].0 == k
}

/// A well-formed registry: slots are pairwise distinct and never 0.
pub open spec fn wf_model(m: Seq<(u32, EntryModel)>) -> bool {
    (forall|i: int, j: int| 0 <= i < j < m.len() ==> (#[trigger] m[i]).0 != (#[trigger] m[j]).0)
        && (forall|i: int| 0 <= i < m.len() ==> (#[trigger] m[i]).0 != 0)
}

/// The registry of mounted devices, in insertion order.
#[derive(Debug)]
pub struct Config {
    entries: Vec<(u32, ConfigEntry)>,
}

impl View for Config {
    type V = Seq<(u32, EntryModel)>;

    closed spec fn view(&self) -> Seq<(u32, EntryModel)> {
        self.entries@.map_values(|p: (u32, ConfigEntry)| (p.0, p.1@))
    }
}

/// One mounted device as handed to callers: a copy, never a handle into
/// the registry.
pub struct Device {
    pub image_file_path: String,
    pub device_mount_point: String,
    pub entry: u32,
    pub image_mount: ImageLocation,
}

/// Where the backing image is mounted (the loop device path).
#[derive(Clone)]
pub struct ImageLocation {
    pub image_path: String,
}

impl Device {
    /// The slot number of this device.
    pub fn get_entry(&self) -> (r: u32)
        ensures
            r == self.entry,
    {
        self.entry
    }

    /// The loop device path the image is mounted at.
    pub fn get_image_location(&self) -> (r: String)
        ensures
            r@ == self.image_mount.image_path@,
    {
        self.image_mount.image_path.clone()
    }
}

impl Config {
    /// A registry's slots are pairwise distinct and never 0.
    pub open spec fn wf(&self) -> bool {
        wf_model(self@)
    }

    /// The empty registry, used when no registry file exists yet.
    pub fn new() -> (r: Config)
        ensures
            r@ == Seq::<(u32, EntryModel)>::empty(),
            r.wf(),
    {
        let r = Config { entries: Vec::new() };
        proof {
            assert(r@ =~= Seq::<(u32, EntryModel)>::empty());
        }
        r
    }

    /// Builds a registry from raw entries; exposed for the loader.
    pub(crate) fn from_entries(entries: Vec<(u32, ConfigEntry)>) -> (r: Config)
        ensures
            r@ == entries@.map_values(|p: (u32, ConfigEntry)| (p.0, p.1@)),
    {
        Config { entries }
    }

    /// Direct access to the entries; for the persistence code.
    pub(crate) fn entries_ref(&self) -> (r: &Vec<(u32, ConfigEntry)>)
        ensures
            r@.map_values(|p: (u32, ConfigEntry)| (p.0, p.1@)) == self@,
    {
        &self.entries
    }

    /// The position of a slot in the order, if it is live.
    fn key_position(&self, k: u32) -> (r: Option<usize>)
        ensures
            match r {
                Some(i) => i < self@.len() && self@[i as int].0 == k,
                None => !model_has_key(self@, k),
            },
    {
        let n = self.entries.len();
        let mut i: usize = 0;
        while i < n
            invariant
                i <= n,
                n == self.entries.len(),
                forall|j: int| 0 <= j < i ==> (#[trigger] self@[j]).0 != k,
            decreases n - i,
        {
            if self.entries[i].0 == k {
                proof {
                    assert(self@[i as int].0 == k);
                }
                return Some(i);
            }
            i = i + 1;
        }
        None
    }

    /// Whether a slot is live.
    pub fn contains_entry(&self, k: u32) -> (r: bool)
        ensures
            r == model_has_key(self@, k),
    {
        match self.key_position(k) {
            Some(i) => {
                proof {
                    assert(model_has_key(self@, k));
                }
                true
            },
            None => false,
        }
    }

    /// Inserts or overwrites the record of a slot. A live slot keeps its
    /// place in the order; a new one is appended. Slot 0 is reserved and
    /// never inserted.
    pub fn write_device(
        &mut self,
        image_path: String,
        entry: u32,
        image_mount: String,
        dm_mount_point: String,
    )
        requires
            old(self).wf(),
            entry != 0,
        ensures
            final(self).wf(),
            !model_has_key(old(self)@, entry) ==> final(self)@ == old(self)@.push(
                (
                    entry,
                    EntryModel {
                        image_file: image_path@,
                        image_mount_point: image_mount@,
                        dm_mount_point: dm_mount_point@,
                    },
                ),
            ),
            model_has_key(old(self)@, entry) ==> final(self)@ == old(self)@.update(
                model_key_index(old(self)@, entry),
                (
                    entry,
                    EntryModel {
                        image_file: image_path@,
                        image_mount_point: image_mount@,
                        dm_mount_point: dm_mount_point@,
                    },
                ),
            ),
    {
        let record = ConfigEntry {
            image_file: image_path,
            image_mount_point: image_mount,
            dm_mount_point,
        };
        let ghost rm = record@;
        let ghost m0 = self@;
        match self.key_position(entry) {
            Some(i) => {
                let ghost mi = i as int;
                proof {
                    assert(m0[mi].0 == entry);
                    assert(model_has_key(m0, entry));
                    let j = model_key_index(m0, entry);
                    assert(0 <= j < m0.len() && m0[j].0 == entry);
                    if j < mi {
                        assert(m0[j].0 != m0[mi].0);
                    }
                    if mi < j {
                        assert(m0[mi].0 != m0[j].0);
                    }
                    assert(j == mi);
                }
                let ghost e0 = self.entries@;
                let ghost recv = record;
                self.entries.set(i, (entry, record));
                proof {
                    assert(self.entries@ == e0.update(mi, (entry, recv)));
                    assert(self.entries@[mi] == (entry, recv));
                    assert(self@.len() == m0.len());
                    assert(self@[mi] == (entry, rm));
                    assert forall|k: int| 0 <= k < m0.len() && k != mi implies #[trigger] self@[k]
                        == m0[k] by {
                        assert(self.entries@[k] == e0[k]);
                    }
                    assert(self@ =~= m0.update(mi, (entry, rm)));
                    assert(forall|k: int|
                        0 <= k < self@.len() ==> (#[trigger] self@[k]).0 == m0[k].0);
                    assert(wf_model(self@));
                }
            },
            None => {
                self.entries.push((entry, record));
                proof {
                    assert(self@ =~= m0.push((entry, rm)));
                    assert(forall|k: int| 0 <= k < m0.len() ==> (#[trigger] self@[k]) == m0[k]);
                    assert(wf_model(self@));
                }
            },
        }
    }

    /// Removes a slot's record, keeping the order of the rest; an absent
    /// slot is a configuration-consistency fault reported to the caller.
    pub fn remove_device(&mut self, entry: u32) -> (r: Result<(), ()>)
        requires
            old(self).wf(),
        ensures
            final(self).wf(),
            model_has_key(old(self)@, entry) ==> r is Ok && final(self)@ == old(self)@.remove(
                model_key_index(old(self)@, entry),
            ),
            !model_has_key(old(self)@, entry) ==> r is Err && final(self)@ == old(self)@,
    {
        let ghost m0 = self@;
        match self.key_position(entry) {
            Some(i) => {
                let ghost mi = i as int;
                proof {
                    assert(m0[mi].0 == entry);
                    assert(model_has_key(m0, entry));
                    let j = model_key_index(m0, entry);
                    assert(0 <= j < m0.len() && m0[j].0 == entry);
                    if j < mi {
                        assert(m0[j].0 != m0[mi].0);
                    }
                    if mi < j {
                        assert(m0[mi].0 != m0[j].0);
                    }
                    assert(j == mi);
                }
                let ghost e0 = self.entries@;
                self.entries.remove(i);
                proof {
                    assert(self.entries@ == e0.remove(mi));
                    assert(self@ =~= m0.remove(mi));
                    assert forall|a: int, b: int|
                        0 <= a < b < self@.len() implies (#[trigger] self@[a]).0 != (
                    #[trigger] self@[b]).0 by {
                        let a0 = if a < mi {
                            a
                        } else {
                            a + 1
                        };
                        let b0 = if b < mi {
                            b
                        } else {
                            b + 1
                        };
                        assert(self@[a] == m0[a0]);
                        assert(self@[b] == m0[b0]);
                        assert(m0[a0].0 != m0[b0].0);
                    }
                    assert forall|k: int| 0 <= k < self@.len() implies (#[trigger] self@[k]).0
                        != 0 by {
                        let k0 = if k < mi {
                            k
                        } else {
                            k + 1
                        };
                        assert(self@[k] == m0[k0]);
                    }
                    assert(wf_model(self@));
                }
                Ok(())
            },
            None => Err(()),
        }
    }

    /// Forgets every record.
    pub fn clear_devices(&mut self)
        ensures
            final(self).wf(),
            final(self)@ == Seq::<(u32, EntryModel)>::empty(),
    {
        self.entries.clear();
        proof {
            assert(final(self)@ =~= Seq::<(u32, EntryModel)>::empty());
        }
    }

    /// An owned snapshot of every mounted device, in registry order; safe
    /// to walk while the registry itself is being changed.
    pub fn devices(&self) -> (r: Vec<Device>)
        ensures
            r@.len() == self@.len(),
            forall|i: int|
                0 <= i < r@.len() ==> {
                    let d = #[trigger] r@[i];
                    &&& d.image_file_path@ == self@[i].1.image_file
                    &&& d.device_mount_point@ == self@[i].1.dm_mount_point
                    &&& d.entry == self@[i].0
                    &&& d.image_mount.image_path@ == self@[i].1.image_mount_point
                },
    {
        let n = self.entries.len();
        let mut r: Vec<Device> = Vec::new();
        let mut i: usize = 0;
        while i < n
            invariant
                i <= n,
                n == self.entries.len(),
                r@.len() == i,
                forall|j: int|
                    0 <= j < i ==> {
                        let d = #[trigger] r@[j];
                        &&& d.image_file_path@ == self@[j].1.image_file
                        &&& d.device_mount_point@ == self@[j].1.dm_mount_point
                        &&& d.entry == self@[j].0
                        &&& d.image_mount.image_path@ == self@[j].1.image_mount_point
                    },
            decreases n - i,
        {
            let pair = &self.entries[i];
            r.push(
                Device {
                    image_file_path: pair.1.image_file.clone(),
                    device_mount_point: pair.1.dm_mount_point.clone(),
                    entry: pair.0,
                    image_mount: ImageLocation { image_path: pair.1.image_mount_point.clone() },
                },
            );
            i = i + 1;
        }
        r
    }
}

/// The lowest free slot: scanning up from 1, the first slot not live in
/// the registry; 0 only in the impossible event that every slot is taken.
pub fn get_next_devices(config: &Config) -> (r: u32)
    ensures
        r != 0 ==> !model_has_key(config@, r) && (forall|k: u32|
            1 <= k < r ==> model_has_key(config@, k)),
        r == 0 ==> forall|k: u32| k >= 1 ==> model_has_key(config@, k),
{
    let mut num: u32 = 1;
    loop
        invariant
            1 <= num,
            forall|k: u32| 1 <= k < num ==> model_has_key(config@, k),
        decreases u32::MAX - num,
    {
        if !config.contains_entry(num) {
            return num;
        }
        if num == u32::MAX {
            return 0;
        }
        num = num + 1;
    }
}

/// Width of the widest image path among the first `i` records.
pub open spec fn spec_max_width(m: Seq<(u32, EntryModel)>, i: int) -> nat
    decreases i,
{
    if i <= 0 {
        0
    } else {
        let w = width_of(m[i - 1].1.image_file);
        let rest = spec_max_width(m, i - 1);
        if w > rest {
            w
        } else {
            rest
        }
    }
}

proof fn lemma_max_width_ge(m: Seq<(u32, EntryModel)>, i: int, k: int)
    requires
        0 <= k < i,
    ensures
        width_of(m[k].1.image_file) <= spec_max_width(m, i),
    decreases i,
{
    if k < i - 1 {
        lemma_max_width_ge(m, i - 1, k);
    }
}

/// Spaces padding an image path one column past the widest one; the count
/// saturates at the machine word.
pub open spec fn spec_pad_count(maxw: nat, w: nat) -> nat {
    if maxw - w + 1 <= usize::MAX {
        (maxw - w + 1) as nat
    } else {
        usize::MAX as nat
    }
}

/// One listing line: the image path padded to a fixed column, an arrow,
/// and the mapper location of the device.
pub open spec fn spec_list_line(maxw: nat, e: EntryModel) -> Seq<char> {
    e.image_file + spec_repeat_seq(" "@, spec_pad_count(maxw, width_of(e.image_file)))
        + " => /dev/mapper/"@ + e.dm_mount_point
}

/// The listing of every mounted device, one line per record in registry
/// order, image paths padded to align the arrows.
pub fn list_devices(config: &Config) -> (r: Vec<String>)
    ensures
        r@.len() == config@.len(),
        forall|i: int|
            0 <= i < r@.len() ==> (#[trigger] r@[i])@ == spec_list_line(
                spec_max_width(config@, config@.len() as int),
                config@[i].1,
            ),
{
    let devs = config.devices();
    let n = devs.len();
    let ghost m = config@;
    let mut maxw: usize = 0;
    let mut i: usize = 0;
    while i < n
        invariant
            i <= n,
            n == devs.len(),
            n == m.len(),
            forall|j: int|
                0 <= j < n ==> (#[trigger] devs@[j]).image_file_path@ == m[j].1.image_file,
            maxw == spec_max_width(m, i as int),
        decreases n - i,
    {
        let w = display_width(devs[i].image_file_path.as_str());
        if w > maxw {
            maxw = w;
        }
        i = i + 1;
    }
    let mut r: Vec<String> = Vec::new();
    let mut i: usize = 0;
    while i < n
        invariant
            i <= n,
            n == devs.len(),
            n == m.len(),
            forall|j: int|
                0 <= j < n ==> (#[trigger] devs@[j]).image_file_path@ == m[j].1.image_file
                    && devs@[j].device_mount_point@ == m[j].1.dm_mount_point,
            maxw == spec_max_width(m, n as int),
            r@.len() == i,
            forall|j: int|
                0 <= j < i ==> (#[trigger] r@[j])@ == spec_list_line(
                    spec_max_width(m, n as int),
                    m[j].1,
                ),
        decreases n - i,
    {
        let w = display_width(devs[i].image_file_path.as_str());
        proof {
            lemma_max_width_ge(m, n as int, i as int);
        }
        let diff = maxw - w;
        let pad = if diff == usize::MAX {
            diff
        } else {
            diff + 1
        };
        let mut line = devs[i].image_file_path.clone();
        let padding = repeat_str(" ", pad);
        line.append(padding.as_str());
        line.append(" => /dev/mapper/");
        line.append(devs[i].device_mount_point.as_str());
        proof {
            assert(line@ =~= spec_list_line(spec_max_width(m, n as int), m[i as int].1));
        }
        r.push(line);
        i = i + 1;
    }
    r
}

/// Slot uniqueness: a well-formed registry — and every registry this
/// module hands out or mutates stays well-formed — has pairwise distinct,
/// non-zero slot numbers, so no two live devices share a slot and slot 0
/// never collides with a real device.
pub proof fn lemma_slot_uniqueness(m: Seq<(u32, EntryModel)>)
    requires
        wf_model(m),
    ensures
        forall|i: int, j: int|
            0 <= i < m.len() && 0 <= j < m.len() && i != j ==> (#[trigger] m[i]).0 != (
            #[trigger] m[j]).0,
        forall|i: int| 0 <= i < m.len() ==> (#[trigger] m[i]).0 != 0,
{
}

} // verus!
