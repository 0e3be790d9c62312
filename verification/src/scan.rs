//! LE scanning: the devices found, kept one per address in address order,
//! and the lines printed while scanning.

use vstd::prelude::*;
use std::collections::BTreeMap;
use vstd::laws_cmp::obeys_cmp;
use vstd::std_specs::btree::key_obeys_cmp_spec;
use crate::connection::{address_text, address_to_string, AddrType};
use crate::text::{lemma_increasing_unique, dec_str, int_str, push_dec, push_int, push_str};

verus! {

/// A device found by a scan.
#[derive(Debug)]
pub struct ScannedDevice {
    pub address: [u8; 6],
    pub addr_type: Option<AddrType>,
    pub name: Option<String>,
    pub rssi: Option<i16>,
}

/// The contents of a [`ScannedDevice`].
pub struct DevModel {
    pub address: Seq<u8>,
    pub addr_type: Option<AddrType>,
    pub name: Option<Seq<char>>,
    pub rssi: Option<i16>,
}

impl View for ScannedDevice {
    type V = DevModel;

    open spec fn view(&self) -> DevModel {
        DevModel {
            address: self.address@,
            addr_type: self.addr_type,
            name: match self.name {
                Some(n) => Some(n@),
                None => None,
            },
            rssi: self.rssi,
        }
    }
}

/// The address as a 48-bit number, first byte most significant: the order
/// of addresses.
pub open spec fn addr_key(a: Seq<u8>) -> nat {
    (((((a[0] * 256 + a[1]) * 256 + a[2]) * 256 + a[3]) * 256 + a[4]) * 256 + a[5]) as nat
}

/// The order key of an address.
pub fn address_key(a: [u8; 6]) -> (r: u64)
    ensures
        r == addr_key(a@),
{
    let mut k: u64 = a[0] as u64;
    k = k * 256 + a[1] as u64;
    k = k * 256 + a[2] as u64;
    k = k * 256 + a[3] as u64;
    k = k * 256 + a[4] as u64;
    k = k * 256 + a[5] as u64;
    k
}

/// Devices strictly ordered by address.
pub open spec fn by_address(s: Seq<DevModel>) -> bool {
    forall|i: int, j: int|
        0 <= i < j < s.len() ==> addr_key(#[trigger] s[i].address) < addr_key(#[trigger] s[j].address)
}

/// A map insertion on address-ordered devices: `d` replaces the device with
/// its address, or is placed in address order.
pub open spec fn insert_device(s: Seq<DevModel>, d: DevModel) -> Seq<DevModel>
    decreases s.len(),
{
    if s.len() == 0 {
        seq![d]
    } else if addr_key(s[0].address) == addr_key(d.address) {
        seq![d] + s.drop_first()
    } else if addr_key(s[0].address) > addr_key(d.address) {
        seq![d] + s
    } else {
        seq![s[0]] + insert_device(s.drop_first(), d)
    }
}

/// The map key of a recorded device: its address order key.
pub open spec fn dev_key(d: DevModel) -> u64 {
    addr_key(d.address) as u64
}

/// The keys of the devices, in order.
pub open spec fn dev_keys(s: Seq<DevModel>) -> Seq<u64> {
    s.map_values(|d: DevModel| dev_key(d))
}

/// Every recorded address has six bytes.
pub open spec fn six_byte_addresses(s: Seq<DevModel>) -> bool {
    forall|i: int| 0 <= i < s.len() ==> (#[trigger] s[i]).address.len() == 6
}

/// The map holds exactly the devices of `s`, each under its key.
pub open spec fn map_holds(m: Map<u64, ScannedDevice>, s: Seq<DevModel>) -> bool {
    &&& forall|i: int|
        0 <= i < s.len() ==> m.contains_key(#[trigger] dev_key(s[i])) && m[dev_key(s[i])]@ == s[i]
    &&& forall|k: u64| #[trigger] m.contains_key(k) ==> dev_keys(s).contains(k)
}

/// The devices found so far, one per address, in address order.
pub struct ScanResults {
    devices: BTreeMap<u64, ScannedDevice>,
    order: Ghost<Seq<DevModel>>,
}

impl View for ScanResults {
    type V = Seq<DevModel>;

    closed spec fn view(&self) -> Seq<DevModel> {
        self.order@
    }
}

proof fn lemma_addr_key_bound(a: Seq<u8>)
    requires
        a.len() == 6,
    ensures
        addr_key(a) < 0x1_0000_0000_0000,
{
    let k0 = a[0] as int;
    let k1 = k0 * 256 + a[1];
    let k2 = k1 * 256 + a[2];
    let k3 = k2 * 256 + a[3];
    let k4 = k3 * 256 + a[4];
    let k5 = k4 * 256 + a[5];
    assert(k0 < 0x100);
    assert(k1 < 0x1_0000);
    assert(k2 < 0x100_0000);
    assert(k3 < 0x1_0000_0000);
    assert(k4 < 0x100_0000_0000);
    assert(k5 < 0x1_0000_0000_0000);
}

proof fn lemma_dev_keys_increasing(s: Seq<DevModel>)
    requires
        by_address(s),
        six_byte_addresses(s),
    ensures
        forall|i: int, j: int| 0 <= i < j < s.len() ==> dev_keys(s)[i] < dev_keys(s)[j],
        forall|i: int| 0 <= i < s.len() ==> dev_keys(s)[i] == addr_key(#[trigger] s[i].address),
        dev_keys(s).len() == s.len(),
{
    assert forall|i: int| 0 <= i < s.len() implies dev_keys(s)[i] == addr_key(
        #[trigger] s[i].address,
    ) by {
        lemma_addr_key_bound(s[i].address);
    }
    assert forall|i: int, j: int| 0 <= i < j < s.len() implies dev_keys(s)[i] < dev_keys(s)[j] by {
        assert(dev_keys(s)[i] == addr_key(s[i].address));
        assert(dev_keys(s)[j] == addr_key(s[j].address));
    }
}

proof fn lemma_u64_map_keys()
    ensures
        obeys_cmp::<u64>(),
        obeys_cmp::<&u64>(),
        key_obeys_cmp_spec::<u64>(),
{
    broadcast use vstd::std_specs::btree::group_btree_axioms;
    broadcast use vstd::laws_cmp::group_laws_cmp;

}

/// The keys of a map, in increasing order.
fn sorted_keys(m: &BTreeMap<u64, ScannedDevice>) -> (r: Vec<u64>)
    ensures
        forall|x: u64| r@.contains(x) <==> m@.contains_key(x),
        forall|i: int, j: int| 0 <= i < j < r@.len() ==> r@[i] < r@[j],
{
    broadcast use vstd::std_specs::btree::group_btree_axioms;
    broadcast use vstd::laws_cmp::group_laws_cmp;

    let ghost rem = vstd::std_specs::iter::IteratorSpec::remaining(
        &vstd::std_specs::btree::spec_keys_iter(m),
    );
    let ghost full = rem.unref();
    let mut r: Vec<u64> = Vec::new();
    for k in it: m.keys()
        invariant
            it.seq().unref() == full,
            r@ == full.take(it.index()),
    {
        r.push(*k);
        assert(full.take(it.index() + 1) =~= r@);
    }
    assert(r@ =~= full);
    assert forall|x: u64| r@.contains(x) <==> m@.contains_key(x) by {
        assert(full.to_set().contains(x) == full.contains(x));
    }
    assert forall|i: int, j: int| 0 <= i < j < r@.len() implies r@[i] < r@[j] by {
        assert(vstd::std_specs::btree::increasing_seq(rem));
        assert(vstd::std_specs::cmp::OrdSpec::cmp_spec(&rem[i], &rem[j]) is Less);
    }
    r
}

impl ScanResults {
    /// Devices strictly ordered by address, each held in the map under its
    /// address key.
    pub closed spec fn wf(&self) -> bool {
        &&& by_address(self@)
        &&& six_byte_addresses(self@)
        &&& map_holds(self.devices@, self@)
    }

    /// No devices.
    pub fn new() -> (r: ScanResults)
        ensures
            r.wf(),
            r@ == Seq::<DevModel>::empty(),
    {
        let r = ScanResults { devices: BTreeMap::new(), order: Ghost(Seq::empty()) };
        assert forall|k: u64| #[trigger] r.devices@.contains_key(k) implies dev_keys(r@).contains(
            k,
        ) by {}
        r
    }

    /// Number of devices.
    pub fn len(&self) -> (r: usize)
        requires
            self.wf(),
        ensures
            r == self@.len(),
    {
        proof {
            lemma_u64_map_keys();
            let ks = dev_keys(self@);
            lemma_dev_keys_increasing(self@);
            assert(ks.no_duplicates()) by {
                assert forall|i: int, j: int| 0 <= i < ks.len() && 0 <= j < ks.len() && i != j
                    implies ks[i] != ks[j] by {
                    if i < j {
                        assert(ks[i] < ks[j]);
                    } else {
                        assert(ks[j] < ks[i]);
                    }
                }
            }
            ks.unique_seq_to_set();
            assert forall|k: u64| self.devices@.dom().contains(k) <==> ks.to_set().contains(k) by {
                if ks.contains(k) {
                    let i = choose|i: int| 0 <= i < ks.len() && ks[i] == k;
                    assert(dev_key(self@[i]) == k);
                }
            }
            assert(self.devices@.dom() =~= ks.to_set());
        }
        self.devices.len()
    }

    /// Records a device, replacing what was recorded for its address.
    pub fn insert(&mut self, dev: ScannedDevice)
        requires
            old(self).wf(),
        ensures
            final(self).wf(),
            final(self)@ == insert_device(old(self)@, dev@),
    {
        proof {
            lemma_u64_map_keys();
        }
        let ghost s = self@;
        let ghost v = dev@;
        let ghost m0 = self.devices@;
        let k = address_key(dev.address);
        proof {
            lemma_addr_key_bound(v.address);
            assert(dev_key(v) == k);
        }
        self.devices.insert(k, dev);
        self.order = Ghost(insert_device(s, v));
        proof {
            lemma_insert_device_keeps(s, v);
            let t = insert_device(s, v);
            let m1 = self.devices@;
            assert(m1 == m0.insert(k, dev));
            assert forall|i: int| 0 <= i < t.len() implies (#[trigger] t[i]).address.len() == 6 by {
                assert(t.contains(t[i]));
                if t[i] != v {
                    let j = choose|j: int| 0 <= j < s.len() && s[j] == t[i];
                    assert(s[j].address.len() == 6);
                }
            }
            assert forall|i: int| 0 <= i < t.len() implies m1.contains_key(
                #[trigger] dev_key(t[i]),
            ) && m1[dev_key(t[i])]@ == t[i] by {
                assert(t.contains(t[i]));
                if t[i] != v {
                    let j = choose|j: int| 0 <= j < s.len() && s[j] == t[i];
                    assert(dev_key(s[j]) == dev_key(t[i]));
                    lemma_addr_key_bound(s[j].address);
                    assert(addr_key(t[i].address) != addr_key(v.address));
                    assert(dev_key(t[i]) != k);
                }
            }
            assert forall|key: u64| #[trigger] m1.contains_key(key) implies dev_keys(t).contains(key)
                by {
                if key == k {
                    let p = choose|p: int| 0 <= p < t.len() && t[p] == v;
                    assert(dev_keys(t)[p] == key);
                } else {
                    assert(m0.contains_key(key));
                    assert(dev_keys(s).contains(key));
                    let j = choose|j: int| 0 <= j < dev_keys(s).len() && dev_keys(s)[j] == key;
                    assert(dev_key(s[j]) == key);
                    lemma_addr_key_bound(s[j].address);
                    lemma_addr_key_bound(v.address);
                    assert(addr_key(s[j].address) != addr_key(v.address));
                    assert(t.contains(s[j]));
                    let p = choose|p: int| 0 <= p < t.len() && t[p] == s[j];
                    assert(dev_keys(t)[p] == key);
                }
            }
        }
    }

    /// The devices, in address order.
    pub fn into_devices(self) -> (r: Vec<ScannedDevice>)
        requires
            self.wf(),
        ensures
            r@.map_values(|d: ScannedDevice| d@) == self@,
    {
        proof {
            lemma_u64_map_keys();
        }
        let ghost s = self@;
        let ghost m0 = self.devices@;
        let keys = sorted_keys(&self.devices);
        proof {
            lemma_dev_keys_increasing(s);
            assert forall|x: u64| keys@.contains(x) <==> dev_keys(s).contains(x) by {
                if dev_keys(s).contains(x) {
                    let i = choose|i: int| 0 <= i < dev_keys(s).len() && dev_keys(s)[i] == x;
                    assert(m0.contains_key(dev_key(s[i])));
                }
            }
            lemma_increasing_unique(keys@, dev_keys(s), |x: u64| x as int);
        }
        let mut devices = self.devices;
        let mut out: Vec<ScannedDevice> = Vec::new();
        let mut i: usize = 0;
        while i < keys.len()
            invariant
                i <= keys.len(),
                keys@ == dev_keys(s),
                keys@.len() == s.len(),
                forall|a: int, b: int| 0 <= a < b < keys@.len() ==> keys@[a] < keys@[b],
                forall|j: int| 0 <= j < s.len() ==> m0.contains_key(#[trigger] dev_key(s[j]))
                    && m0[dev_key(s[j])]@ == s[j],
                forall|j: int| i <= j < keys@.len() ==> devices@.contains_key(#[trigger] keys@[j])
                    && devices@[keys@[j]] == m0[keys@[j]],
                out@.map_values(|d: ScannedDevice| d@) == s.take(i as int),
            decreases keys.len() - i,
        {
            proof {
                lemma_u64_map_keys();
            }
            let ghost before = devices@;
            let k = keys[i];
            assert(devices@.contains_key(keys@[i as int]));
            let d = devices.remove(&k);
            match d {
                Some(d) => {
                    assert(d == m0[keys@[i as int]]);
                    assert(keys@[i as int] == dev_key(s[i as int]));
                    let ghost prev = out@.map_values(|d: ScannedDevice| d@);
                    out.push(d);
                    assert(out@.map_values(|d: ScannedDevice| d@) =~= prev.push(s[i as int]));
                    assert(s.take(i + 1) =~= s.take(i as int).push(s[i as int]));
                    assert forall|j: int| i + 1 <= j < keys@.len() implies devices@.contains_key(
                        #[trigger] keys@[j],
                    ) && devices@[keys@[j]] == m0[keys@[j]] by {
                        assert(keys@[j] != k);
                        assert(before.contains_key(keys@[j]));
                    }
                },
                None => {
                    assert(false);
                },
            }
            i += 1;
        }
        assert(s.take(s.len() as int) =~= s);
        out
    }
}

/// A recorded device shows up in the results under its address, and every
/// other address keeps its device: what a scan keeps is the last report of
/// each device.
pub proof fn lemma_insert_device_keeps(s: Seq<DevModel>, d: DevModel)
    requires
        by_address(s),
    ensures
        by_address(insert_device(s, d)),
        insert_device(s, d).contains(d),
        forall|i: int|
            0 <= i < s.len() && addr_key(s[i].address) != addr_key(d.address) ==> insert_device(
                s,
                d,
            ).contains(#[trigger] s[i]),
        forall|x: DevModel|
            #[trigger] insert_device(s, d).contains(x) ==> x == d || (s.contains(x) && addr_key(
                x.address,
            ) != addr_key(d.address)),
    decreases s.len(),
{
    if s.len() == 0 {
        assert(insert_device(s, d) =~= seq![d]);
        assert(seq![d][0] == d);
    } else if addr_key(s[0].address) == addr_key(d.address) {
        let r = seq![d] + s.drop_first();
        assert(r[0] == d);
        assert forall|i: int| 0 <= i < s.len() && addr_key(s[i].address) != addr_key(
            d.address,
        ) implies r.contains(#[trigger] s[i]) by {
            assert(i > 0);
            assert(r[i] == s[i]);
        }
        assert forall|x: DevModel| #[trigger] r.contains(x) implies x == d || (s.contains(x)
            && addr_key(x.address) != addr_key(d.address)) by {
            let k = choose|k: int| 0 <= k < r.len() && r[k] == x;
            if k > 0 {
                assert(r[k] == s[k]);
                assert(addr_key(s[0].address) < addr_key(s[k].address));
            }
        }
        assert forall|i: int, j: int| 0 <= i < j < r.len() implies addr_key(
            #[trigger] r[i].address,
        ) < addr_key(#[trigger] r[j].address) by {
            if i == 0 {
                assert(r[j] == s[j]);
            } else {
                assert(r[i] == s[i] && r[j] == s[j]);
            }
        }
    } else if addr_key(s[0].address) > addr_key(d.address) {
        let r = seq![d] + s;
        assert(r[0] == d);
        assert forall|i: int| 0 <= i < s.len() && addr_key(s[i].address) != addr_key(
            d.address,
        ) implies r.contains(#[trigger] s[i]) by {
            assert(r[i + 1] == s[i]);
        }
        assert forall|x: DevModel| #[trigger] r.contains(x) implies x == d || (s.contains(x)
            && addr_key(x.address) != addr_key(d.address)) by {
            let k = choose|k: int| 0 <= k < r.len() && r[k] == x;
            if k > 0 {
                assert(r[k] == s[k - 1]);
                if k - 1 > 0 {
                    assert(addr_key(s[0].address) < addr_key(s[k - 1].address));
                }
            }
        }
        assert forall|i: int, j: int| 0 <= i < j < r.len() implies addr_key(
            #[trigger] r[i].address,
        ) < addr_key(#[trigger] r[j].address) by {
            if i == 0 {
                assert(r[j] == s[j - 1]);
                if j - 1 > 0 {
                    assert(addr_key(s[0].address) < addr_key(s[j - 1].address));
                }
            } else {
                assert(r[i] == s[i - 1] && r[j] == s[j - 1]);
            }
        }
    } else {
        let t = s.drop_first();
        assert forall|i: int, j: int| 0 <= i < j < t.len() implies addr_key(
            #[trigger] t[i].address,
        ) < addr_key(#[trigger] t[j].address) by {
            assert(t[i] == s[i + 1] && t[j] == s[j + 1]);
        }
        lemma_insert_device_keeps(t, d);
        let rt = insert_device(t, d);
        let r = seq![s[0]] + rt;
        assert(r[0] == s[0]);
        assert(rt.contains(d));
        let kd = choose|k: int| 0 <= k < rt.len() && rt[k] == d;
        assert(r[kd + 1] == d);
        assert forall|i: int| 0 <= i < s.len() && addr_key(s[i].address) != addr_key(
            d.address,
        ) implies r.contains(#[trigger] s[i]) by {
            if i > 0 {
                assert(s[i] == t[i - 1]);
                assert(rt.contains(t[i - 1]));
                let k = choose|k: int| 0 <= k < rt.len() && rt[k] == t[i - 1];
                assert(r[k + 1] == s[i]);
            }
        }
        assert forall|x: DevModel| #[trigger] r.contains(x) implies x == d || (s.contains(x)
            && addr_key(x.address) != addr_key(d.address)) by {
            let k = choose|k: int| 0 <= k < r.len() && r[k] == x;
            if k > 0 {
                assert(rt[k - 1] == x);
                assert(rt.contains(x));
                if x != d {
                    assert(t.contains(x));
                    let m = choose|m: int| 0 <= m < t.len() && t[m] == x;
                    assert(s[m + 1] == x);
                }
            }
        }
        assert forall|i: int, j: int| 0 <= i < j < r.len() implies addr_key(
            #[trigger] r[i].address,
        ) < addr_key(#[trigger] r[j].address) by {
            if i == 0 {
                assert(r[j] == rt[j - 1]);
                assert(rt.contains(rt[j - 1]));
                if rt[j - 1] != d {
                    let m = choose|m: int| 0 <= m < t.len() && t[m] == rt[j - 1];
                    assert(s[m + 1] == t[m]);
                }
            } else {
                assert(r[i] == rt[i - 1] && r[j] == rt[j - 1]);
            }
        }
    }
}

/// `n/a` or the RSSI in dBm units, as the live scan line shows it.
pub open spec fn rssi_plain(r: Option<i16>) -> Seq<char> {
    match r {
        Some(x) => int_str(x as int),
        None => "n/a"@,
    }
}

/// The line printed when a device is found: address, name (or
/// `(unknown)`) and RSSI (or `n/a`).
pub open spec fn scan_line_text(d: DevModel) -> Seq<char> {
    address_text(d.address) + " "@ + match d.name {
        Some(n) => n,
        None => "(unknown)"@,
    } + " RSSI: "@ + rssi_plain(d.rssi)
}

/// The line printed when a device is found.
pub fn scan_line(dev: &ScannedDevice) -> (r: String)
    ensures
        r@ == scan_line_text(dev@),
{
    let mut s = address_to_string(dev.address);
    push_str(&mut s, " ");
    match &dev.name {
        Some(n) => push_str(&mut s, n.as_str()),
        None => push_str(&mut s, "(unknown)"),
    }
    push_str(&mut s, " RSSI: ");
    match dev.rssi {
        Some(x) => push_int(&mut s, x as i64),
        None => push_str(&mut s, "n/a"),
    }
    s
}

/// The line printed when a scan starts.
pub open spec fn scan_banner_text(adapter: Seq<char>, addr: Seq<u8>, secs: u64) -> Seq<char> {
    "LE Scan on "@ + adapter + " ["@ + address_text(addr) + "] for "@ + dec_str(secs as nat)
        + "s ..."@
}

/// The line printed when a scan starts: adapter, its address, duration.
pub fn scan_banner(adapter: &str, addr: [u8; 6], secs: u64) -> (r: String)
    ensures
        r@ == scan_banner_text(adapter@, addr@, secs),
{
    let mut s = String::new();
    push_str(&mut s, "LE Scan on ");
    push_str(&mut s, adapter);
    push_str(&mut s, " [");
    let a = address_to_string(addr);
    push_str(&mut s, a.as_str());
    push_str(&mut s, "] for ");
    push_dec(&mut s, secs);
    push_str(&mut s, "s ...");
    s
}


} // verus!
