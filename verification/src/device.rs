//! Speakers found on the network, and which of them are offered.
use vstd::prelude::*;
use vstd::string::StrSliceExecFns;

verus! {

/// A network address, as the number that its bytes spell.
#[derive(Clone, Copy, Debug, PartialEq, Eq, Structural)]
pub enum Address {
    V4(u32),
    V6(u128),
}

/// What a scan reports of a device, as far as a decision depends on it.
pub struct Device {
    pub name: String,
    pub model: String,
    pub supports_airplay2: bool,
    pub addresses: Vec<Address>,
}

/// How the model names of HomePods begin.
pub open spec fn homepod_prefix() -> Seq<char> {
    "AudioAccessory"@
}

/// Whether a device is a HomePod.
pub open spec fn is_homepod(d: Device) -> bool {
    homepod_prefix().is_prefix_of(d.model@)
}

/// The first IPv4 address of a list.
pub open spec fn first_v4(addresses: Seq<Address>) -> Option<Address>
    decreases addresses.len(),
{
    if addresses.len() == 0 {
        None
    } else if addresses[0] is V4 {
        Some(addresses[0])
    } else {
        first_v4(addresses.drop_first())
    }
}

/// Whether audio can be sent to a device: it speaks AirPlay 2 and has an IPv4 address.
pub open spec fn usable(d: Device) -> bool {
    d.supports_airplay2 && exists|i: int|
        0 <= i < d.addresses@.len() && (#[trigger] d.addresses@[i]) is V4
}

/// The places, among the first `n` devices of a scan, of the usable ones that are HomePods, or of
/// those that are not.
pub open spec fn picked(found: Seq<Device>, n: int, homepods: bool) -> Seq<usize>
    decreases n,
{
    if n <= 0 {
        Seq::empty()
    } else {
        let before = picked(found, n - 1, homepods);
        if usable(found[n - 1]) && is_homepod(found[n - 1]) == homepods {
            before.push((n - 1) as usize)
        } else {
            before
        }
    }
}

/// The places of the devices to offer, in the order to offer them: HomePods first.
pub open spec fn offered(found: Seq<Device>) -> Seq<usize> {
    picked(found, found.len() as int, true) + picked(found, found.len() as int, false)
}

/// Whether a text begins with another.
fn starts_with(text: &str, prefix: &str) -> (r: bool)
    ensures
        r == prefix@.is_prefix_of(text@),
{
    let n: usize = prefix.unicode_len();
    if text.unicode_len() < n {
        return false;
    }
    let mut i: usize = 0;
    while i < n
        invariant
            i <= n,
            n == prefix@.len(),
            n <= text@.len(),
            forall|j: int| 0 <= j < i ==> prefix@[j] == text@[j],
        decreases n - i,
    {
        if text.get_char(i) != prefix.get_char(i) {
            assert(prefix@[i as int] != text@.subrange(0, n as int)[i as int]);
            return false;
        }
        i = i + 1;
    }
    assert(prefix@ =~= text@.subrange(0, n as int));
    true
}

/// The first IPv4 address of a list has one somewhere in the list.
pub proof fn lemma_first_v4(addresses: Seq<Address>)
    ensures
        first_v4(addresses) is Some <==> exists|i: int|
            0 <= i < addresses.len() && (#[trigger] addresses[i]) is V4,
        first_v4(addresses) matches Some(a) ==> a is V4,
    decreases addresses.len(),
{
    if addresses.len() > 0 && !(addresses[0] is V4) {
        let rest = addresses.drop_first();
        lemma_first_v4(rest);
        if exists|i: int| 0 <= i < addresses.len() && (#[trigger] addresses[i]) is V4 {
            let i = choose|i: int| 0 <= i < addresses.len() && (#[trigger] addresses[i]) is V4;
            assert(rest[i - 1] is V4);
        }
        if exists|i: int| 0 <= i < rest.len() && (#[trigger] rest[i]) is V4 {
            let i = choose|i: int| 0 <= i < rest.len() && (#[trigger] rest[i]) is V4;
            assert(addresses[i + 1] is V4);
        }
    }
}

/// The first IPv4 address of a list, to connect to.
pub fn first_ipv4(addresses: &Vec<Address>) -> (r: Option<Address>)
    ensures
        r == first_v4(addresses@),
        r is None <==> forall|i: int| 0 <= i < addresses@.len() ==> (#[trigger] addresses@[i]) is V6,
        r matches Some(a) ==> exists|i: int|
            0 <= i < addresses@.len() && #[trigger] addresses@[i] == a && a is V4 && forall|j: int|
                0 <= j < i ==> (#[trigger] addresses@[j]) is V6,
{
    let mut i: usize = 0;
    assert(addresses@.skip(0) == addresses@);
    while i < addresses.len()
        invariant
            i <= addresses@.len(),
            first_v4(addresses@) == first_v4(addresses@.skip(i as int)),
            forall|j: int| 0 <= j < i ==> (#[trigger] addresses@[j]) is V6,
        decreases addresses@.len() - i,
    {
        let a: Address = addresses[i];
        assert(addresses@.skip(i as int).drop_first() == addresses@.skip(i + 1));
        match a {
            Address::V4(_) => {
                assert(addresses@[i as int] == a);
                return Some(a);
            },
            Address::V6(_) => {},
        }
        i = i + 1;
    }
    None
}

/// Adds the places of the usable devices that are HomePods, or of those that are not.
fn pick(found: &Vec<Device>, homepods: bool, places: &mut Vec<usize>)
    ensures
        final(places)@ == old(places)@ + picked(found@, found@.len() as int, homepods),
{
    let ghost before = places@;
    let mut i: usize = 0;
    assert(before + picked(found@, 0, homepods) =~= before);
    while i < found.len()
        invariant
            i <= found@.len(),
            places@ == before + picked(found@, i as int, homepods),
        decreases found@.len() - i,
    {
        let d: &Device = &found[i];
        proof {
            lemma_first_v4(d.addresses@);
        }
        if d.supports_airplay2 && first_ipv4(&d.addresses).is_some() && starts_with(
            d.model.as_str(),
            "AudioAccessory",
        ) == homepods {
            places.push(i);
        }
        assert(places@ =~= before + picked(found@, i + 1, homepods));
        i = i + 1;
    }
}

/// Picks, from what a scan found, the devices to offer and their order: those that audio can be
/// sent to, HomePods first, otherwise in the order of the scan. The result holds their places in
/// the scan.
pub fn discover(found: &Vec<Device>) -> (places: Vec<usize>)
    ensures
        places@ == offered(found@),
        forall|p: usize|
            #[trigger] places@.contains(p) <==> {
                &&& p < found@.len()
                &&& found@[p as int].supports_airplay2
                &&& exists|k: int|
                    0 <= k < found@[p as int].addresses@.len() && (
                    #[trigger] found@[p as int].addresses@[k]) is V4
            },
        forall|a: int, b: int|
            0 <= a < b < places@.len() ==> {
                let p = #[trigger] places@[a];
                let q = #[trigger] places@[b];
                let first = "AudioAccessory"@.is_prefix_of(found@[p as int].model@);
                let second = "AudioAccessory"@.is_prefix_of(found@[q as int].model@);
                first && !second || first == second && p < q
            },
{
    let mut places: Vec<usize> = Vec::new();
    pick(found, true, &mut places);
    pick(found, false, &mut places);
    assert(places@ =~= offered(found@));
    proof {
        assert(found@.len() == found.len());
        assert forall|p: usize|
            #[trigger] places@.contains(p) <==> {
                &&& p < found@.len()
                &&& found@[p as int].supports_airplay2
                &&& exists|k: int|
                    0 <= k < found@[p as int].addresses@.len() && (
                    #[trigger] found@[p as int].addresses@[k]) is V4
            } by {
            law_offers_exactly_those_with_an_ipv4_address(found@, p);
        }
        assert forall|a: int, b: int| 0 <= a < b < places@.len() implies {
            let p = #[trigger] places@[a];
            let q = #[trigger] places@[b];
            let first = "AudioAccessory"@.is_prefix_of(found@[p as int].model@);
            let second = "AudioAccessory"@.is_prefix_of(found@[q as int].model@);
            first && !second || first == second && p < q
        } by {
            law_homepods_first_then_scan_order(found@, a, b);
        }
    }
    places
}

/// The picked places ascend, and they are those of the usable devices of the kind.
proof fn lemma_picked(found: Seq<Device>, n: int, homepods: bool)
    requires
        0 <= n <= found.len() <= usize::MAX,
    ensures
        forall|k: int|
            0 <= k < picked(found, n, homepods).len() ==> {
                let p = #[trigger] picked(found, n, homepods)[k];
                p < n && usable(found[p as int]) && is_homepod(found[p as int]) == homepods
            },
        forall|a: int, b: int|
            0 <= a < b < picked(found, n, homepods).len() ==> (#[trigger] picked(
                found,
                n,
                homepods,
            )[a]) < #[trigger] picked(found, n, homepods)[b],
        forall|i: int|
            0 <= i < n && usable(#[trigger] found[i]) && is_homepod(found[i]) == homepods ==> picked(
                found,
                n,
                homepods,
            ).contains(i as usize),
    decreases n,
{
    if n > 0 {
        lemma_picked(found, n - 1, homepods);
        let before = picked(found, n - 1, homepods);
        let all = picked(found, n, homepods);
        assert forall|i: int|
            0 <= i < n && usable(#[trigger] found[i]) && is_homepod(found[i])
                == homepods implies all.contains(i as usize) by {
            if i < n - 1 {
                assert(before.contains(i as usize));
                let k = choose|k: int| 0 <= k < before.len() && before[k] == i as usize;
                assert(all[k] == i as usize);
            } else {
                assert(all[all.len() - 1] == i as usize);
            }
        }
    }
}

/// Exactly the usable devices of a scan are offered.
pub proof fn law_offers_exactly_the_usable(found: Seq<Device>, i: int)
    requires
        0 <= i < found.len() <= usize::MAX,
    ensures
        offered(found).contains(i as usize) <==> usable(found[i]),
{
    let n = found.len() as int;
    lemma_picked(found, n, true);
    lemma_picked(found, n, false);
    let first = picked(found, n, true);
    let second = picked(found, n, false);
    if usable(found[i]) {
        let part = picked(found, n, is_homepod(found[i]));
        assert(part.contains(i as usize));
        let k = choose|k: int| 0 <= k < part.len() && part[k] == i as usize;
        if is_homepod(found[i]) {
            assert(offered(found)[k] == i as usize);
        } else {
            assert(offered(found)[first.len() + k] == i as usize);
        }
    }
    if offered(found).contains(i as usize) {
        let k = choose|k: int| 0 <= k < offered(found).len() && offered(found)[k] == i as usize;
        if k < first.len() {
            assert(first[k] == i as usize);
        } else {
            assert(second[k - first.len()] == i as usize);
        }
    }
}

/// HomePods come before all others, and devices of one kind keep the order of the scan. So no
/// device is offered twice.
pub proof fn law_homepods_first_then_scan_order(found: Seq<Device>, a: int, b: int)
    requires
        found.len() <= usize::MAX,
        0 <= a < b < offered(found).len(),
    ensures
        is_homepod(found[offered(found)[b] as int]) ==> is_homepod(found[offered(found)[a] as int]),
        is_homepod(found[offered(found)[a] as int]) == is_homepod(found[offered(found)[b] as int])
            ==> offered(found)[a] < offered(found)[b],
        offered(found)[a] != offered(found)[b],
{
    let n = found.len() as int;
    lemma_picked(found, n, true);
    lemma_picked(found, n, false);
    let first = picked(found, n, true);
    let second = picked(found, n, false);
    if a < first.len() {
        assert(offered(found)[a] == first[a]);
    } else {
        assert(offered(found)[a] == second[a - first.len()]);
    }
    if b < first.len() {
        assert(offered(found)[b] == first[b]);
    } else {
        assert(offered(found)[b] == second[b - first.len()]);
    }
}

/// Whether a device of a scan is offered depends on nothing but these two: it speaks AirPlay 2, and
/// some address of its list, at whichever place, is IPv4. Nothing but devices of the scan is
/// offered.
pub proof fn law_offers_exactly_those_with_an_ipv4_address(found: Seq<Device>, p: usize)
    requires
        found.len() <= usize::MAX,
    ensures
        offered(found).contains(p) <==> {
            &&& p < found.len()
            &&& found[p as int].supports_airplay2
            &&& exists|k: int|
                0 <= k < found[p as int].addresses@.len() && (
                #[trigger] found[p as int].addresses@[k]) is V4
        },
{
    let n = found.len() as int;
    if p < n {
        law_offers_exactly_the_usable(found, p as int);
    } else if offered(found).contains(p) {
        lemma_picked(found, n, true);
        lemma_picked(found, n, false);
        let first = picked(found, n, true);
        let k = choose|k: int| 0 <= k < offered(found).len() && offered(found)[k] == p;
        if k < first.len() {
            assert(first[k] == p);
        } else {
            assert(picked(found, n, false)[k - first.len()] == p);
        }
    }
}

/// HomePods, by the beginning of their model name, come before all others; otherwise the order of
/// the scan stays.
pub proof fn law_models_named_audio_accessory_come_first(found: Seq<Device>, a: int, b: int)
    requires
        found.len() <= usize::MAX,
        0 <= a < b < offered(found).len(),
    ensures
        ({
            let p = offered(found)[a];
            let q = offered(found)[b];
            let first = "AudioAccessory"@.is_prefix_of(found[p as int].model@);
            let second = "AudioAccessory"@.is_prefix_of(found[q as int].model@);
            first && !second || first == second && p < q
        }),
{
    law_homepods_first_then_scan_order(found, a, b);
}

/// The address to connect to is an IPv4 address of the list with none before it, wherever in the
/// list it stands.
pub proof fn law_first_ipv4_address_counts(addresses: Seq<Address>, i: int)
    requires
        0 <= i < addresses.len(),
        addresses[i] is V4,
        forall|j: int| 0 <= j < i ==> (#[trigger] addresses[j]) is V6,
    ensures
        first_v4(addresses) == Some(addresses[i]),
    decreases addresses.len(),
{
    if i > 0 {
        let rest = addresses.drop_first();
        assert(addresses[0] is V6);
        assert forall|j: int| 0 <= j < i - 1 implies (#[trigger] rest[j]) is V6 by {
            assert(rest[j] == addresses[j + 1]);
        }
        assert(rest[i - 1] == addresses[i]);
        law_first_ipv4_address_counts(rest, i - 1);
    }
}

/// A device that speaks AirPlay 2 can be sent audio exactly if it has an address to connect to.
pub proof fn law_usable_means_connectable(d: Device)
    ensures
        d.supports_airplay2 && first_v4(d.addresses@) is Some <==> usable(d),
{
    lemma_first_v4(d.addresses@);
}

/// A device that audio cannot be sent to, found behind the others, changes nothing for them.
pub proof fn law_unusable_devices_change_nothing(found: Seq<Device>, d: Device)
    requires
        !(d.supports_airplay2 && exists|k: int|
            0 <= k < d.addresses@.len() && (#[trigger] d.addresses@[k]) is V4),
    ensures
        offered(found.push(d)) == offered(found),
{
    lemma_picked_by_prefix(found, d, found.len() as int, true);
    lemma_picked_by_prefix(found, d, found.len() as int, false);
}

/// Picking among the first devices does not look at what comes behind them.
proof fn lemma_picked_by_prefix(found: Seq<Device>, d: Device, n: int, homepods: bool)
    requires
        0 <= n <= found.len(),
    ensures
        picked(found.push(d), n, homepods) == picked(found, n, homepods),
    decreases n,
{
    if n > 0 {
        lemma_picked_by_prefix(found, d, n - 1, homepods);
        assert(found.push(d)[n - 1] == found[n - 1]);
    }
}

} // verus!
