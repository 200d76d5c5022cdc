//! LAN discovery of other bettercursor instances (`_bettercursor._tcp`).
//!
//! Browsing and announcing over mDNS is the caller's part; what the library
//! decides is the instance name it announces, which address of a resolved
//! service it connects to, and which devices it lists.
use vstd::prelude::*;

use crate::text::{self, trim};

verus! {

/// The mDNS service type.
pub open spec fn service_type() -> Seq<char> {
    "_bettercursor._tcp.local."@
}

/// One bettercursor instance found on the LAN.
#[derive(Debug)]
pub struct DiscoveredDevice {
    pub device_id: String,
    pub device_name: String,
    pub host: String,
    pub port: u16,
}

/// Model of a device.
pub struct DeviceV {
    pub device_id: Seq<char>,
    pub device_name: Seq<char>,
    pub host: Seq<char>,
    pub port: u16,
}

impl View for DiscoveredDevice {
    type V = DeviceV;

    open spec fn view(&self) -> DeviceV {
        DeviceV {
            device_id: self.device_id@,
            device_name: self.device_name@,
            host: self.host@,
            port: self.port,
        }
    }
}

impl Clone for DiscoveredDevice {
    fn clone(&self) -> (r: Self)
        ensures
            r@ == self@,
    {
        DiscoveredDevice {
            device_id: self.device_id.clone(),
            device_name: self.device_name.clone(),
            host: self.host.clone(),
            port: self.port,
        }
    }
}

/// The models of devices.
pub open spec fn device_views(s: Seq<DiscoveredDevice>) -> Seq<DeviceV> {
    s.map_values(|d: DiscoveredDevice| d@)
}

/// The instance name announced for a device: `bettercursor-` and the first
/// eight characters of its id, or `bettercursor` for an empty id.
pub open spec fn instance_name_spec(device_id: Seq<char>) -> Seq<char> {
    let short = device_id.take(if device_id.len() < 8 { device_id.len() as int } else { 8 });
    if short.len() == 0 {
        "bettercursor"@
    } else {
        "bettercursor-"@ + short
    }
}

/// `service_instance_name`: the mDNS instance name of the device.
pub fn service_instance_name(device_id: &str) -> (r: String)
    ensures
        r@ == instance_name_spec(device_id@),
{
    let cs = text::to_chars(device_id);
    let short = text::take_chars(&cs, 8);
    if short.len() == 0 {
        return text::owned("bettercursor");
    }
    let s = text::from_chars(&short);
    text::concat2("bettercursor-", &s)
}

/// `filter_out_self_device`: the devices other than this one; all of them
/// when this device's id is blank.
pub fn filter_out_self_device(devices: Vec<DiscoveredDevice>, self_device_id: &str) -> (r: Vec<
    DiscoveredDevice,
>)
    ensures
        trim(self_device_id@).len() == 0 ==> device_views(r@) == device_views(devices@),
        trim(self_device_id@).len() > 0 ==> device_views(r@) == device_views(devices@).filter(
            |d: DeviceV| d.device_id != self_device_id@,
        ),
{
    if text::str_is_blank(self_device_id) {
        return devices;
    }
    let ghost dv = device_views(devices@);
    let ghost f = |d: DeviceV| d.device_id != self_device_id@;
    let mut out: Vec<DiscoveredDevice> = Vec::new();
    let mut i: usize = 0;
    proof {
        if devices@.len() > 0 {
            text::lemma_filter_take_step(dv, f, 0);
        } else {
            reveal(Seq::filter);
            assert(dv.take(0) =~= dv);
        }
        assert(device_views(out@) =~= Seq::<DeviceV>::empty());
    }
    while i < devices.len()
        invariant
            i <= devices@.len(),
            dv == device_views(devices@),
            f == (|d: DeviceV| d.device_id != self_device_id@),
            device_views(out@) == dv.take(i as int).filter(f),
        decreases devices.len() - i,
    {
        proof {
            text::lemma_filter_take_step(dv, f, i as int);
            assert(dv[i as int] == devices@[i as int]@);
        }
        if !text::str_eq(devices[i].device_id.as_str(), self_device_id) {
            let c = devices[i].clone();
            let ghost before = out@;
            out.push(c);
            assert(device_views(out@) =~= device_views(before).push(c@));
        }
        i = i + 1;
    }
    proof {
        assert(dv.take(i as int) =~= dv);
    }
    out
}

/// One address of a resolved service, as the caller reads it.
#[derive(Debug)]
pub struct ServiceAddr {
    /// The address in its usual text form, without brackets.
    pub text: String,
    pub is_v4: bool,
    pub is_loopback: bool,
}

/// Model of an address.
pub struct AddrV {
    pub text: Seq<char>,
    pub is_v4: bool,
    pub is_loopback: bool,
}

impl View for ServiceAddr {
    type V = AddrV;

    open spec fn view(&self) -> AddrV {
        AddrV { text: self.text@, is_v4: self.is_v4, is_loopback: self.is_loopback }
    }
}

/// The first address of `s` that `p` admits.
pub open spec fn first_addr(s: Seq<AddrV>, p: spec_fn(AddrV) -> bool) -> Option<AddrV>
    decreases s.len(),
{
    if s.len() == 0 {
        None
    } else if p(s[0]) {
        Some(s[0])
    } else {
        first_addr(s.drop_first(), p)
    }
}

/// The three preferences among addresses: IPv4 and not loopback (`0`),
/// IPv4 (`1`), IPv6 and not loopback (any other `mode`).
pub open spec fn addr_pref(mode: u8) -> spec_fn(AddrV) -> bool {
    if mode == 0 {
        |x: AddrV| x.is_v4 && !x.is_loopback
    } else if mode == 1 {
        |x: AddrV| x.is_v4
    } else {
        |x: AddrV| !x.is_v4 && !x.is_loopback
    }
}

/// The address a resolved service is reached at: the first IPv4 address
/// that is not loopback, else the first IPv4 address, else the first IPv6
/// address that is not loopback, else the first address.
pub open spec fn chosen_addr(s: Seq<AddrV>) -> Option<AddrV> {
    let a = first_addr(s, addr_pref(0));
    let b = first_addr(s, addr_pref(1));
    let c = first_addr(s, addr_pref(2));
    if a is Some {
        a
    } else if b is Some {
        b
    } else if c is Some {
        c
    } else if s.len() > 0 {
        Some(s[0])
    } else {
        None
    }
}

fn find_addr(s: &Vec<ServiceAddr>, mode: u8) -> (r: Option<usize>)
    ensures
        ({
            let sv = s@.map_values(|a: ServiceAddr| a@);
            match r {
                Some(k) => k < s@.len() && first_addr(sv, addr_pref(mode)) == Some(sv[k as int]),
                None => first_addr(sv, addr_pref(mode)) is None,
            }
        }),
{
    let ghost p = addr_pref(mode);
    let ghost sv = s@.map_values(|a: ServiceAddr| a@);
    let mut i: usize = 0;
    assert(sv.skip(0) =~= sv);
    while i < s.len()
        invariant
            i <= s@.len() == sv.len(),
            sv == s@.map_values(|a: ServiceAddr| a@),
            p == addr_pref(mode),
            first_addr(sv, p) == first_addr(sv.skip(i as int), p),
        decreases s.len() - i,
    {
        assert(sv.skip(i as int).drop_first() =~= sv.skip(i + 1));
        assert(sv.skip(i as int)[0] == sv[i as int]);
        let a = &s[i];
        assert(sv[i as int] == a@);
        let ok = if mode == 0 {
            a.is_v4 && !a.is_loopback
        } else if mode == 1 {
            a.is_v4
        } else {
            !a.is_v4 && !a.is_loopback
        };
        assert(ok == p(a@));
        if ok {
            return Some(i);
        }
        i = i + 1;
    }
    None
}

/// The device a resolved service stands for (`resolved_device_from_info`):
/// reached at the chosen address (bracketed when IPv6), named by its
/// `device_id` and `device_name` properties (empty, and the service's full
/// name, where they are missing); `None` when it has no address.
pub fn resolved_device(
    addrs: &Vec<ServiceAddr>,
    device_id: Option<String>,
    device_name: Option<String>,
    fullname: &str,
    port: u16,
) -> (r: Option<DiscoveredDevice>)
    ensures
        ({
            let sv = addrs@.map_values(|a: ServiceAddr| a@);
            match chosen_addr(sv) {
                None => r is None,
                Some(a) => r is Some && r->0@ == DeviceV {
                    device_id: match device_id {
                        Some(s) => s@,
                        None => seq![],
                    },
                    device_name: match device_name {
                        Some(s) => s@,
                        None => fullname@,
                    },
                    host: if a.is_v4 {
                        a.text
                    } else {
                        "["@ + a.text + "]"@
                    },
                    port,
                },
            }
        }),
{
    let ghost sv = addrs@.map_values(|a: ServiceAddr| a@);
    let k = match find_addr(addrs, 0) {
        Some(k) => k,
        None => match find_addr(addrs, 1) {
            Some(k) => k,
            None => match find_addr(addrs, 2) {
                Some(k) => k,
                None => {
                    if addrs.len() == 0 {
                        return None;
                    }
                    0
                },
            },
        },
    };
    proof {
        assert(sv[k as int] == addrs@[k as int]@);
    }
    let a = &addrs[k];
    let host = if a.is_v4 {
        a.text.clone()
    } else {
        text::concat3("[", a.text.as_str(), "]")
    };
    let id = match device_id {
        Some(s) => s,
        None => String::new(),
    };
    let name = match device_name {
        Some(s) => s,
        None => text::owned(fullname),
    };
    Some(DiscoveredDevice { device_id: id, device_name: name, host, port })
}

} // verus!
