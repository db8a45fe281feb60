//! Picking the wireless IPv4 interfaces of a host, the address to be
//! reached at, and how each interface is shown.

use vstd::prelude::*;
use vstd::string::{StrSliceExecFns, StringExecFns};
use crate::text::{decimal, decimal_text};

verus! {

/// An interface's address as the system reports it.
#[allow(inconsistent_fields)]
#[derive(Clone, Copy, PartialEq, Eq, Structural, Debug)]
pub enum AddressKind {
    V4 { address: u32, netmask: Option<u32> },
    V6 { address: u128, netmask: Option<u128> },
    Mac,
}

/// A network interface: its name and one of its addresses.
pub struct InterfaceInfo {
    pub name: String,
    pub address: AddressKind,
}

pub open spec fn spec_is_ipv4(a: AddressKind) -> bool {
    a is V4
}

pub open spec fn spec_has_mask(a: AddressKind) -> bool {
    match a {
        AddressKind::V4 { netmask, .. } => netmask is Some,
        AddressKind::V6 { netmask, .. } => netmask is Some,
        AddressKind::Mac => false,
    }
}

pub open spec fn spec_is_wireless(name: Seq<char>) -> bool {
    name.len() >= 8 && name.subrange(0, 8) == "wireless"@
}

/// An interface that is kept: IPv4, with a netmask, named `wireless...`.
pub open spec fn kept(i: InterfaceInfo) -> bool {
    spec_is_ipv4(i.address) && spec_has_mask(i.address) && spec_is_wireless(i.name@)
}

/// The kept interfaces of `all`, in order.
pub open spec fn kept_of(all: Seq<InterfaceInfo>) -> Seq<InterfaceInfo>
    decreases all.len(),
{
    if all.len() == 0 {
        Seq::empty()
    } else if kept(all.last()) {
        kept_of(all.drop_last()).push(all.last())
    } else {
        kept_of(all.drop_last())
    }
}

impl InterfaceInfo {
    pub fn new(name: String, address: AddressKind) -> (i: Self)
        ensures
            i.name@ == name@,
            i.address == address,
    {
        InterfaceInfo { name, address }
    }

    /// A copy of this interface.
    pub fn duplicate(&self) -> (i: Self)
        ensures
            i.name@ == self.name@,
            i.address == self.address,
    {
        InterfaceInfo { name: self.name.clone(), address: self.address }
    }
}

pub fn is_ipv4(interface: &InterfaceInfo) -> (r: bool)
    ensures
        r == spec_is_ipv4(interface.address),
{
    match interface.address {
        AddressKind::V4 { .. } => true,
        _ => false,
    }
}

pub fn has_mask(interface: &InterfaceInfo) -> (r: bool)
    ensures
        r == spec_has_mask(interface.address),
{
    match interface.address {
        AddressKind::V4 { netmask, .. } => netmask.is_some(),
        AddressKind::V6 { netmask, .. } => netmask.is_some(),
        AddressKind::Mac => false,
    }
}

pub fn is_wireless(interface: &InterfaceInfo) -> (r: bool)
    ensures
        r == spec_is_wireless(interface.name@),
{
    let name = interface.name.as_str();
    if name.unicode_len() < 8 {
        return false;
    }
    crate::shell::str_eq(name.substring_char(0, 8), "wireless")
}

/// The wireless IPv4 interfaces with a netmask, in the order given.
pub fn wireless_interfaces(all: &[InterfaceInfo]) -> (out: Vec<InterfaceInfo>)
    ensures
        out@.len() == kept_of(all@).len(),
        forall|j: int|
            0 <= j < out@.len() ==> (#[trigger] out@[j]).name@ == kept_of(all@)[j].name@
                && out@[j].address == kept_of(all@)[j].address,
{
    let mut out: Vec<InterfaceInfo> = Vec::new();
    let mut i: usize = 0;
    while i < all.len()
        invariant
            i <= all@.len(),
            out@.len() == kept_of(all@.take(i as int)).len(),
            forall|j: int|
                0 <= j < out@.len() ==> (#[trigger] out@[j]).name@ == kept_of(all@.take(i as int))[j].name@
                    && out@[j].address == kept_of(all@.take(i as int))[j].address,
        decreases all@.len() - i,
    {
        proof {
            assert(all@.take(i + 1).drop_last() =~= all@.take(i as int));
        }
        let it = &all[i];
        let ghost before = out@;
        if is_ipv4(it) && has_mask(it) && is_wireless(it) {
            out.push(it.duplicate());
            proof {
                assert(kept_of(all@.take(i + 1)) == kept_of(all@.take(i as int)).push(all@[i as int]));
                assert forall|j: int| 0 <= j < out@.len() implies (#[trigger] out@[j]).name@ == kept_of(
                    all@.take(i + 1),
                )[j].name@ && out@[j].address == kept_of(all@.take(i + 1))[j].address by {
                    if j < before.len() {
                        assert(out@[j] == before[j]);
                    }
                }
            }
        } else {
            proof {
                assert(kept_of(all@.take(i + 1)) == kept_of(all@.take(i as int)));
            }
        }
        i = i + 1;
    }
    proof {
        assert(all@.take(i as int) =~= all@);
    }
    out
}

/// `x` as four decimal octets joined by dots.
pub open spec fn ipv4_text(x: u32) -> Seq<char> {
    decimal(x as nat / 16777216) + "."@ + decimal((x as nat / 65536) % 256) + "."@ + decimal(
        (x as nat / 256) % 256,
    ) + "."@ + decimal(x as nat % 256)
}

/// An IPv4 address in dotted decimal.
pub fn ipv4_to_string(x: u32) -> (s: String)
    ensures
        s@ == ipv4_text(x),
{
    let mut s = decimal_text((x / 16777216) as u128);
    s.append(".");
    let t = decimal_text(((x / 65536) % 256) as u128);
    s.append(t.as_str());
    s.append(".");
    let t = decimal_text(((x / 256) % 256) as u128);
    s.append(t.as_str());
    s.append(".");
    let t = decimal_text((x % 256) as u128);
    s.append(t.as_str());
    s
}

pub open spec fn text_or_unknown(value: Option<u32>) -> Seq<char> {
    match value {
        Some(x) => ipv4_text(x),
        None => "unknown"@,
    }
}

/// The address in dotted decimal, or `unknown`.
pub fn to_string_or_unknown(value: Option<u32>) -> (s: String)
    ensures
        s@ == text_or_unknown(value),
{
    match value {
        Some(x) => ipv4_to_string(x),
        None => String::from_str("unknown"),
    }
}

/// The IPv4 address of an address, if it is one.
pub open spec fn v4_address(a: AddressKind) -> Option<u32> {
    match a {
        AddressKind::V4 { address, .. } => Some(address),
        _ => None,
    }
}

/// The IPv4 netmask of an address, if it has one.
pub open spec fn v4_netmask(a: AddressKind) -> Option<u32> {
    match a {
        AddressKind::V4 { netmask, .. } => netmask,
        _ => None,
    }
}

/// How an interface is shown: its name, address and netmask, then an
/// empty line.
pub open spec fn interface_text(i: InterfaceInfo) -> Seq<char> {
    "Interface: "@ + i.name@ + "\n"@ + "  IP Address: "@ + text_or_unknown(v4_address(i.address))
        + "\n"@ + "  Netmask: "@ + text_or_unknown(v4_netmask(i.address)) + "\n"@ + "\n"@
}

pub fn show_interface(interface: &InterfaceInfo) -> (s: String)
    ensures
        s@ == interface_text(*interface),
{
    let (ip, mask) = match interface.address {
        AddressKind::V4 { address, netmask } => (Some(address), netmask),
        _ => (None, None),
    };
    let mut s = String::from_str("Interface: ");
    s.append(interface.name.as_str());
    s.append("\n");
    s.append("  IP Address: ");
    let t = to_string_or_unknown(ip);
    s.append(t.as_str());
    s.append("\n");
    s.append("  Netmask: ");
    let t = to_string_or_unknown(mask);
    s.append(t.as_str());
    s.append("\n");
    s.append("\n");
    s
}

/// The texts of `list`, one after another.
pub open spec fn interfaces_text(list: Seq<InterfaceInfo>) -> Seq<char>
    decreases list.len(),
{
    if list.len() == 0 {
        Seq::empty()
    } else {
        interfaces_text(list.drop_last()) + interface_text(list.last())
    }
}

/// What is shown of the wireless interfaces among `all`.
pub fn show_wireless_interfaces(all: &[InterfaceInfo]) -> (s: String)
    ensures
        s@ == interfaces_text(kept_of(all@)),
{
    let wireless = wireless_interfaces(all);
    let mut s = String::new();
    let mut i: usize = 0;
    proof {
        assert(kept_of(all@).take(0) =~= Seq::<InterfaceInfo>::empty());
    }
    while i < wireless.len()
        invariant
            i <= wireless@.len(),
            wireless@.len() == kept_of(all@).len(),
            forall|j: int|
                0 <= j < wireless@.len() ==> (#[trigger] wireless@[j]).name@ == kept_of(all@)[j].name@
                    && wireless@[j].address == kept_of(all@)[j].address,
            s@ == interfaces_text(kept_of(all@).take(i as int)),
        decreases wireless@.len() - i,
    {
        let t = show_interface(&wireless[i]);
        let ghost before = s@;
        s.append(t.as_str());
        proof {
            let k = kept_of(all@);
            assert(k.take(i + 1).drop_last() =~= k.take(i as int));
            assert(wireless@[i as int].name@ == k[i as int].name@);
            assert(interface_text(wireless@[i as int]) == interface_text(k[i as int]));
        }
        i = i + 1;
    }
    proof {
        assert(kept_of(all@).take(i as int) =~= kept_of(all@));
    }
    s
}

/// `i` is the last of `list` whose netmask is largest.
pub open spec fn last_widest(list: Seq<InterfaceInfo>, i: int) -> bool {
    &&& 0 <= i < list.len()
    &&& forall|j: int| 0 <= j < list.len() ==> mask_key(#[trigger] list[j].address) <= mask_key(list[i].address)
    &&& forall|j: int| i < j < list.len() ==> mask_key(#[trigger] list[j].address) < mask_key(list[i].address)
}

/// The netmask of an interface as a number to compare by (none counts
/// lowest).
pub open spec fn mask_key(a: AddressKind) -> int {
    match v4_netmask(a) {
        Some(m) => m as int,
        None => -1,
    }
}

/// The address to be reached at: the IPv4 address of the wireless
/// interface with the widest netmask (the last such one), with `port`;
/// `None` when there is no wireless interface.
pub fn my_address(all: &[InterfaceInfo], port: u16) -> (r: Option<(u32, u16)>)
    ensures
        r is None <==> kept_of(all@).len() == 0,
        r matches Some(p) ==> p.1 == port && exists|i: int| #[trigger]
            last_widest(kept_of(all@), i) && v4_address(kept_of(all@)[i].address) == Some(p.0),
{
    let wireless = wireless_interfaces(all);
    let ghost k = kept_of(all@);
    if wireless.len() == 0 {
        return None;
    }
    let mut best: usize = 0;
    let mut best_key: i64 = mask_of(&wireless[0]);
    proof {
        assert(wireless@[0].address == k[0].address);
    }
    let mut i: usize = 1;
    while i < wireless.len()
        invariant
            1 <= i <= wireless@.len(),
            wireless@.len() == k.len(),
            forall|j: int|
                0 <= j < wireless@.len() ==> (#[trigger] wireless@[j]).address == k[j].address,
            best < i,
            best_key == mask_key(k[best as int].address),
            forall|j: int| 0 <= j < i ==> mask_key(#[trigger] k[j].address) <= best_key,
            forall|j: int| best < j < i ==> mask_key(#[trigger] k[j].address) < best_key,
        decreases wireless@.len() - i,
    {
        let key = mask_of(&wireless[i]);
        proof {
            assert(wireless@[i as int].address == k[i as int].address);
        }
        if key >= best_key {
            best = i;
            best_key = key;
        }
        i = i + 1;
    }
    let address = match wireless[best].address {
        AddressKind::V4 { address, .. } => address,
        _ => 0,
    };
    proof {
        lemma_kept_of_kept(all@);
        assert(kept(k[best as int]));
        assert(wireless@[best as int].address == k[best as int].address);
        assert(last_widest(k, best as int) && v4_address(k[best as int].address) == Some(address));
    }
    Some((address, port))
}

proof fn lemma_kept_of_kept(all: Seq<InterfaceInfo>)
    ensures
        forall|j: int| 0 <= j < kept_of(all).len() ==> kept(#[trigger] kept_of(all)[j]),
    decreases all.len(),
{
    if all.len() > 0 {
        let p = all.drop_last();
        lemma_kept_of_kept(p);
        assert forall|j: int| 0 <= j < kept_of(all).len() implies kept(#[trigger] kept_of(all)[j]) by {
            if kept(all.last()) {
                if j < kept_of(p).len() {
                    assert(kept_of(all)[j] == kept_of(p)[j]);
                }
            } else {
                assert(kept_of(all)[j] == kept_of(p)[j]);
            }
        }
    }
}

/// The netmask of an interface as a number (none counts lowest).
fn mask_of(interface: &InterfaceInfo) -> (key: i64)
    ensures
        key == mask_key(interface.address),
{
    match interface.address {
        AddressKind::V4 { netmask: Some(m), .. } => m as i64,
        _ => -1,
    }
}

} // verus!
