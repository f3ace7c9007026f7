//! The device catalog: which drives of the host's disk inventory an image may
//! be written to, and how they are labelled.
use vstd::prelude::*;
use vstd::string::StringExecFns;

verus! {

/// How a drive is attached to the host.
#[derive(Clone, Copy, Debug, PartialEq, Eq, Structural)]
pub enum Bus {
    Usb,
    /// An SD/MMC card slot.
    Sdio,
    Other,
}

/// The bus that the disk-management service names `name`.
pub open spec fn bus_of(name: Seq<char>) -> Bus {
    if name == "usb"@ {
        Bus::Usb
    } else if name == "sdio"@ {
        Bus::Sdio
    } else {
        Bus::Other
    }
}

impl Bus {
    /// The bus that the disk-management service names `name`.
    pub fn from_name(name: &str) -> (r: Bus)
        ensures
            r == bus_of(name@),
    {
        let name = name.to_owned();
        if name == "usb".to_owned() {
            Bus::Usb
        } else if name == "sdio".to_owned() {
            Bus::Sdio
        } else {
            Bus::Other
        }
    }

    /// Whether a drive on this bus can be removed: USB, or an SD/MMC card.
    pub fn is_removable(&self) -> (r: bool)
        ensures
            r == (*self is Usb || *self is Sdio),
    {
        match self {
            Bus::Usb => true,
            Bus::Sdio => true,
            Bus::Other => false,
        }
    }
}

/// One drive of the host's disk inventory, as the disk-management service
/// reports it.
#[derive(Clone, Debug)]
pub struct DiskRecord {
    /// Stable identifier of the drive.
    pub id: String,
    pub vendor: String,
    pub model: String,
    /// The lowest-level device name, the device node.
    pub node: String,
    /// The path under which the privileged opener knows the drive.
    pub path: String,
    /// Size in bytes.
    pub size: u64,
    /// The name of the bus the drive is attached to.
    pub bus: String,
}

pub struct DiskRecordView {
    pub id: Seq<char>,
    pub vendor: Seq<char>,
    pub model: Seq<char>,
    pub node: Seq<char>,
    pub path: Seq<char>,
    pub size: u64,
    pub bus: Seq<char>,
}

impl View for DiskRecord {
    type V = DiskRecordView;

    open spec fn view(&self) -> DiskRecordView {
        DiskRecordView {
            id: self.id@,
            vendor: self.vendor@,
            model: self.model@,
            node: self.node@,
            path: self.path@,
            size: self.size,
            bus: self.bus@,
        }
    }
}

/// A removable drive that an image can be written to.
#[derive(Clone, Debug)]
pub struct Device {
    pub id: String,
    /// What the user is shown.
    pub label: String,
    /// The path under which the privileged opener knows the drive.
    pub path: String,
    /// The device node.
    pub node: String,
    /// Size in bytes.
    pub size: u64,
    pub bus: Bus,
}

pub struct DeviceView {
    pub id: Seq<char>,
    pub label: Seq<char>,
    pub path: Seq<char>,
    pub node: Seq<char>,
    pub size: u64,
    pub bus: Bus,
}

impl View for Device {
    type V = DeviceView;

    open spec fn view(&self) -> DeviceView {
        DeviceView {
            id: self.id@,
            label: self.label@,
            path: self.path@,
            node: self.node@,
            size: self.size,
            bus: self.bus,
        }
    }
}

impl Device {
    /// A copy of this device.
    pub fn duplicate(&self) -> (r: Device)
        ensures
            r@ == self@,
    {
        Device {
            id: self.id.clone(),
            label: self.label.clone(),
            path: self.path.clone(),
            node: self.node.clone(),
            size: self.size,
            bus: self.bus,
        }
    }
}

/// The views of `ds`, in order.
pub open spec fn views(ds: Seq<Device>) -> Seq<DeviceView> {
    ds.map_values(|d: Device| d@)
}

/// The label of a drive: `"{vendor} {model}"` when the vendor is known, else
/// the model, else the device node.
pub open spec fn label_of(vendor: Seq<char>, model: Seq<char>, node: Seq<char>) -> Seq<char> {
    if vendor.len() > 0 {
        vendor + seq![' '] + model
    } else if model.len() > 0 {
        model
    } else {
        node
    }
}

/// Whether an image may be written to the drive: it sits on a removable bus
/// and has a medium, so its size is not zero.
pub open spec fn eligible(r: DiskRecordView) -> bool {
    r.size > 0 && (bus_of(r.bus) is Usb || bus_of(r.bus) is Sdio)
}

/// The device that the catalog makes of an eligible drive.
pub open spec fn device_of(r: DiskRecordView) -> DeviceView {
    DeviceView {
        id: r.id,
        label: label_of(r.vendor, r.model, r.node),
        path: r.path,
        node: r.node,
        size: r.size,
        bus: bus_of(r.bus),
    }
}

/// Keeps the devices whose identifier is not `id`.
pub open spec fn other_id(id: Seq<char>) -> spec_fn(DeviceView) -> bool {
    |d: DeviceView| d.id != id
}

/// The catalog of an inventory: its eligible drives, keyed by identifier. A
/// later drive replaces an earlier one with the same identifier.
pub open spec fn catalog(records: Seq<DiskRecordView>) -> Seq<DeviceView>
    decreases records.len(),
{
    if records.len() == 0 {
        Seq::empty()
    } else {
        let before = catalog(records.drop_last());
        let r = records.last();
        if eligible(r) {
            before.filter(other_id(r.id)).push(device_of(r))
        } else {
            before
        }
    }
}

/// The label of a drive from its vendor, model and device node.
pub fn label(vendor: &String, model: &String, node: &String) -> (r: String)
    ensures
        r@ == label_of(vendor@, model@, node@),
{
    if !vendor.as_str().is_empty() {
        proof {
            reveal_strlit(" ");
        }
        let mut l = vendor.clone();
        l.append(" ");
        l.append(model.as_str());
        l
    } else if !model.as_str().is_empty() {
        model.clone()
    } else {
        node.clone()
    }
}

fn without_id(devices: &Vec<Device>, id: &String) -> (r: Vec<Device>)
    ensures
        views(r@) == views(devices@).filter(other_id(id@)),
{
    let mut kept: Vec<Device> = Vec::new();
    let mut j: usize = 0;
    while j < devices.len()
        invariant
            j <= devices.len(),
            views(kept@) == views(devices@).take(j as int).filter(other_id(id@)),
        decreases devices.len() - j,
    {
        let ghost before = kept@;
        if !(devices[j].id == *id) {
            kept.push(devices[j].duplicate());
            assert(views(kept@) =~= views(before).push(devices@[j as int]@));
        }
        proof {
            let t = views(devices@).take(j + 1);
            assert(t.drop_last() =~= views(devices@).take(j as int));
            assert(t.last() == devices@[j as int]@);
            reveal(Seq::filter);
        }
        j += 1;
    }
    assert(views(devices@).take(j as int) =~= views(devices@));
    kept
}


/// The views of `rs`, in order.
pub open spec fn record_views(rs: Seq<DiskRecord>) -> Seq<DiskRecordView> {
    rs.map_values(|r: DiskRecord| r@)
}

/// No two of `ds` share an identifier.
pub open spec fn distinct_ids(ds: Seq<DeviceView>) -> bool {
    forall|i: int, j: int| 0 <= i < j < ds.len() ==> #[trigger] ds[i].id != #[trigger] ds[j].id
}

/// The device has a medium and sits on a removable bus.
pub open spec fn writable(d: DeviceView) -> bool {
    d.size > 0 && (d.bus is Usb || d.bus is Sdio)
}

proof fn lemma_filter_within(s: Seq<DeviceView>, p: spec_fn(DeviceView) -> bool)
    ensures
        forall|i: int| 0 <= i < s.filter(p).len() ==> s.contains(#[trigger] s.filter(p)[i]),
        distinct_ids(s) ==> distinct_ids(s.filter(p)),
    decreases s.len(),
{
    reveal(Seq::filter);
    if s.len() > 0 {
        let d = s.drop_last();
        lemma_filter_within(d, p);
        let f = s.filter(p);
        let g = d.filter(p);
        assert forall|i: int| 0 <= i < f.len() implies s.contains(#[trigger] f[i]) by {
            if i < g.len() {
                assert(d.contains(g[i]));
                let k = choose|k: int| 0 <= k < d.len() && d[k] == g[i];
                assert(s[k] == d[k]);
            } else {
                assert(s[s.len() - 1] == f[i]);
            }
        }
        if distinct_ids(s) {
            assert forall|i: int, j: int| 0 <= i < j < d.len() implies #[trigger] d[i].id
                != #[trigger] d[j].id by {
                assert(s[i] == d[i] && s[j] == d[j]);
            }
            assert forall|i: int, j: int| 0 <= i < j < f.len() implies #[trigger] f[i].id
                != #[trigger] f[j].id by {
                assert(f[i] == g[i]);
                if j < g.len() {
                    assert(f[j] == g[j]);
                } else {
                    assert(d.contains(g[i]));
                    let k = choose|k: int| 0 <= k < d.len() && d[k] == g[i];
                    assert(s[k] == d[k]);
                    assert(f[j] == s[s.len() - 1]);
                }
            }
        }
    }
}

/// A catalog holds only writable devices, none twice under one identifier.
pub proof fn catalog_writable(records: Seq<DiskRecordView>)
    ensures
        forall|i: int| 0 <= i < catalog(records).len() ==> writable(#[trigger] catalog(records)[i]),
        distinct_ids(catalog(records)),
    decreases records.len(),
{
    if records.len() > 0 {
        let before = catalog(records.drop_last());
        let r = records.last();
        catalog_writable(records.drop_last());
        if eligible(r) {
            let f = before.filter(other_id(r.id));
            lemma_filter_within(before, other_id(r.id));
            assert forall|i: int| 0 <= i < f.len() implies writable(#[trigger] f[i]) by {
                assert(before.contains(f[i]));
            }
            assert forall|i: int| 0 <= i < f.len() implies #[trigger] f[i].id != r.id by {
                reveal(Seq::filter);
                before.lemma_filter_pred(other_id(r.id), i);
            }
            let c = f.push(device_of(r));
            assert forall|i: int| 0 <= i < c.len() implies writable(#[trigger] c[i]) by {
                if i < f.len() {
                    assert(c[i] == f[i]);
                }
            }
            assert forall|i: int, j: int| 0 <= i < j < c.len() implies #[trigger] c[i].id
                != #[trigger] c[j].id by {
                assert(c[i] == f[i]);
                if j < f.len() {
                    assert(c[j] == f[j]);
                }
            }
        }
    }
}

/// The catalog of the host's disk inventory `records`: the drives an image
/// can be written to, each under its own identifier.
pub fn list_devices(records: &Vec<DiskRecord>) -> (r: Vec<Device>)
    ensures
        views(r@) == catalog(record_views(records@)),
        forall|i: int| 0 <= i < r.len() ==> writable(#[trigger] r@[i]@),
        distinct_ids(views(r@)),
{
    let mut out: Vec<Device> = Vec::new();
    let mut i: usize = 0;
    while i < records.len()
        invariant
            i <= records.len(),
            views(out@) == catalog(record_views(records@).take(i as int)),
        decreases records.len() - i,
    {
        let rec = &records[i];
        let ghost before = out@;
        if rec.size > 0 && Bus::from_name(rec.bus.as_str()).is_removable() {
            let mut kept = without_id(&out, &rec.id);
            let dev = Device {
                id: rec.id.clone(),
                label: label(&rec.vendor, &rec.model, &rec.node),
                path: rec.path.clone(),
                node: rec.node.clone(),
                size: rec.size,
                bus: Bus::from_name(rec.bus.as_str()),
            };
            let ghost kv = kept@;
            kept.push(dev);
            assert(views(kept@) =~= views(kv).push(device_of(rec@)));
            out = kept;
        }
        proof {
            let t = record_views(records@).take(i + 1);
            assert(t.drop_last() =~= record_views(records@).take(i as int));
            assert(t.last() == rec@);
        }
        i += 1;
    }
    assert(record_views(records@).take(i as int) =~= record_views(records@));
    proof {
        catalog_writable(record_views(records@));
        assert forall|i: int| 0 <= i < out.len() implies writable(#[trigger] out@[i]@) by {
            assert(views(out@)[i] == out@[i]@);
        }
    }
    out
}

} // verus!
