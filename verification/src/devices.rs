//! Devices as `bluetoothctl devices` lists them, one per line:
//! `Device <address> <name>`.
use vstd::prelude::*;
use crate::text::{
    char_vecs_view, chars_of, chars_start_with, contains, has_char, law_contains_is_infix, law_split_once_unique, lemma_split_once, lines, split_once, lines_of, splitn3_space,
    splitn3_space_chars, starts_with, str_contains, string_of,
};

verus! {

/// A device as the views of its address and its name.
pub type DeviceView = (Seq<char>, Seq<char>);

/// The views of a sequence of `(address, name)` pairs.
pub open spec fn devices_view(v: Seq<(String, String)>) -> Seq<DeviceView> {
    v.map_values(|d: (String, String)| (d.0@, d.1@))
}

/// A line that begins with `"Device"` and has at least two spaces names a
/// device: the address stands between the first two spaces, the name is
/// everything after the second one.
pub open spec fn device_entry(line: Seq<char>) -> Option<DeviceView> {
    let parts = splitn3_space(line);
    if starts_with(line, "Device"@) && parts.len() == 3 {
        Some((parts[1], parts[2]))
    } else {
        None
    }
}

/// The devices that the lines `ls` name, in order.
pub open spec fn devices_in(ls: Seq<Seq<char>>) -> Seq<DeviceView>
    decreases ls.len(),
{
    if ls.len() == 0 {
        Seq::empty()
    } else {
        let before = devices_in(ls.drop_last());
        match device_entry(ls.last()) {
            Some(d) => before.push(d),
            None => before,
        }
    }
}

/// The devices that a `bluetoothctl devices` output names, in order.
pub open spec fn parsed_devices(output: Seq<char>) -> Seq<DeviceView> {
    devices_in(lines(output))
}

/// The devices that a `devices` run gives: none where the run failed.
pub open spec fn available_devices(listing: Result<String, String>) -> Seq<DeviceView> {
    match listing {
        Ok(o) => parsed_devices(o@),
        Err(_) => Seq::empty(),
    }
}

/// An `info` run reports the device as connected.
pub open spec fn reports_connected(info: Result<String, String>) -> bool {
    info matches Ok(o) && contains(o@, "Connected: yes"@)
}

/// `d` is, by address and name, one of `devices` whose `info` run (the
/// result at the same position of `infos`) succeeded with an output that
/// holds `Connected: yes`.
pub open spec fn listed_as_connected(
    devices: Seq<(String, String)>,
    infos: Seq<Result<String, String>>,
    d: DeviceView,
) -> bool {
    exists|i: int|
        0 <= i < devices.len() && i < infos.len() && infos[i] is Ok && contains(
            infos[i]->Ok_0@,
            "Connected: yes"@,
        ) && d == (#[trigger] devices[i].0@, devices[i].1@)
}

/// The devices of `ds` whose flag in `flags` is set, in order.
pub open spec fn keep_flagged(ds: Seq<DeviceView>, flags: Seq<bool>) -> Seq<DeviceView>
    decreases ds.len(),
{
    if ds.len() == 0 {
        Seq::empty()
    } else {
        let before = keep_flagged(ds.drop_last(), flags);
        if flags[ds.len() - 1] {
            before.push(ds.last())
        } else {
            before
        }
    }
}

/// `a` is the address of one of `known`.
pub open spec fn is_known_address(known: Seq<DeviceView>, a: Seq<char>) -> bool {
    exists|j: int| 0 <= j < known.len() && (#[trigger] known[j]).0 == a
}

/// The devices of `ds` whose address is none of those of `known`, in order.
pub open spec fn keep_unknown(ds: Seq<DeviceView>, known: Seq<DeviceView>) -> Seq<DeviceView>
    decreases ds.len(),
{
    if ds.len() == 0 {
        Seq::empty()
    } else {
        let before = keep_unknown(ds.drop_last(), known);
        if is_known_address(known, ds.last().0) {
            before
        } else {
            before.push(ds.last())
        }
    }
}

/// A `show` run reports the adapter as powered.
pub open spec fn reports_powered(show: Result<String, String>) -> bool {
    show matches Ok(o) && contains(o@, "Powered: yes"@)
}

/// The device that `line` names, if any.
fn device_entry_of(line: &[char], prefix: &[char]) -> (r: Option<(String, String)>)
    requires
        prefix@ == "Device"@,
    ensures
        r matches Some(d) ==> device_entry(line@) == Some((d.0@, d.1@)),
        r is None ==> device_entry(line@) is None,
{
    if !chars_start_with(line, prefix) {
        return None;
    }
    let mut parts = splitn3_space_chars(line);
    if parts.len() < 3 {
        return None;
    }
    let ghost whole = char_vecs_view(parts@);
    assert(whole.len() == 3);
    assert(whole[1] == parts@[1]@ && whole[2] == parts@[2]@);
    let name = parts.pop().unwrap();
    let address = parts.pop().unwrap();
    Some((string_of(address.as_slice()), string_of(name.as_slice())))
}

/// The devices that a `bluetoothctl devices` output names, in the order of
/// its lines: each line that begins with `"Device"` and has two spaces or
/// more gives `(address, name)`; the name keeps any further spaces.
pub fn parse_devices(output: &str) -> (r: Vec<(String, String)>)
    ensures
        devices_view(r@) == parsed_devices(output@),
{
    let text = chars_of(output);
    let ls = lines_of(text.as_slice());
    let prefix = chars_of("Device");
    let mut r: Vec<(String, String)> = Vec::new();
    let mut i: usize = 0;
    while i < ls.len()
        invariant
            i <= ls@.len(),
            prefix@ == "Device"@,
            char_vecs_view(ls@) == lines(output@),
            devices_view(r@) == devices_in(char_vecs_view(ls@).take(i as int)),
        decreases ls.len() - i,
    {
        let ghost lv = char_vecs_view(ls@);
        assert(lv.take(i + 1).drop_last() =~= lv.take(i as int));
        assert(lv.take(i + 1).last() == ls@[i as int]@);
        match device_entry_of(ls[i].as_slice(), prefix.as_slice()) {
            Some(d) => {
                let ghost before = r@;
                r.push(d);
                assert(devices_view(r@) =~= devices_view(before).push((d.0@, d.1@)));
            },
            None => {},
        }
        i += 1;
    }
    assert(char_vecs_view(ls@).take(ls@.len() as int) =~= char_vecs_view(ls@));
    r
}

/// All available (paired) devices, from the result of a `devices` run:
/// those that its output names, or none where the run failed.
pub fn get_available_devices(listing: &Result<String, String>) -> (r: Vec<(String, String)>)
    ensures
        devices_view(r@) == available_devices(*listing),
        listing is Ok ==> devices_view(r@) == parsed_devices(listing->Ok_0@),
        listing is Err ==> r@.len() == 0,
{
    match listing {
        Ok(output) => parse_devices(output.as_str()),
        Err(_) => {
            let r: Vec<(String, String)> = Vec::new();
            assert(devices_view(r@) =~= Seq::<DeviceView>::empty());
            r
        },
    }
}

/// Whether the result of an `info` run reports the device as connected.
pub fn info_reports_connected(info: &Result<String, String>) -> (r: bool)
    ensures
        r == reports_connected(*info),
        r == (*info matches Ok(o) && contains(o@, "Connected: yes"@)),
{
    match info {
        Ok(o) => str_contains(o.as_str(), "Connected: yes"),
        Err(_) => false,
    }
}

/// The connected devices among `devices`, in order, where `infos[i]` is the
/// result of the `info` run on the address of `devices[i]`.
pub fn get_connected_devices(
    devices: &Vec<(String, String)>,
    infos: &Vec<Result<String, String>>,
) -> (r: Vec<(String, String)>)
    requires
        infos@.len() == devices@.len(),
    ensures
        devices_view(r@) == keep_flagged(
            devices_view(devices@),
            infos@.map_values(|i: Result<String, String>| reports_connected(i)),
        ),
        forall|i: int|
            0 <= i < devices@.len() && (#[trigger] infos@[i] matches Ok(o) && contains(
                o@,
                "Connected: yes"@,
            )) ==> devices_view(r@).contains((devices@[i].0@, devices@[i].1@)),
        forall|k: int|
            0 <= k < r@.len() ==> listed_as_connected(
                devices@,
                infos@,
                #[trigger] devices_view(r@)[k],
            ),
{
    let ghost flags = infos@.map_values(|i: Result<String, String>| reports_connected(i));
    let ghost dv = devices_view(devices@);
    let mut r: Vec<(String, String)> = Vec::new();
    let mut i: usize = 0;
    while i < devices.len()
        invariant
            i <= devices@.len(),
            infos@.len() == devices@.len(),
            flags == infos@.map_values(|i: Result<String, String>| reports_connected(i)),
            dv == devices_view(devices@),
            devices_view(r@) == keep_flagged(dv.take(i as int), flags),
        decreases devices.len() - i,
    {
        assert(dv.take(i + 1).drop_last() =~= dv.take(i as int));
        let connected = info_reports_connected(&infos[i]);
        if connected {
            let ghost before = r@;
            let d = (devices[i].0.clone(), devices[i].1.clone());
            r.push(d);
            assert(devices_view(r@) =~= devices_view(before).push(dv[i as int]));
        }
        i += 1;
    }
    assert(dv.take(devices@.len() as int) =~= dv);
    proof {
        let m = flagged_indices(dv, flags);
        assert forall|i: int|
            0 <= i < devices@.len() && (#[trigger] infos@[i] matches Ok(o) && contains(
                o@,
                "Connected: yes"@,
            )) implies devices_view(r@).contains((devices@[i].0@, devices@[i].1@)) by {
            assert(flags[i] == reports_connected(infos@[i]));
            let k = choose|k: int| 0 <= k < m.len() && m[k] == i;
            assert(devices_view(r@)[k] == dv[i]);
        }
        assert forall|k: int| 0 <= k < r@.len() implies listed_as_connected(
            devices@,
            infos@,
            #[trigger] devices_view(r@)[k],
        ) by {
            let w = m[k];
            assert(flags[w] == reports_connected(infos@[w]));
            assert(devices_view(r@)[k] == dv[w]);
            assert(dv[w] == (devices@[w].0@, devices@[w].1@));
        }
    }
    r
}

/// Whether the adapter is powered, from the result of a `show` run: its
/// output reports `Powered: yes`; never where the run failed.
pub fn is_bluetooth_powered(show: &Result<String, String>) -> (r: bool)
    ensures
        r == reports_powered(*show),
        r == (*show matches Ok(o) && contains(o@, "Powered: yes"@)),
{
    match show {
        Ok(o) => str_contains(o.as_str(), "Powered: yes"),
        Err(_) => false,
    }
}

/// Whether `address` is the address of one of `known`.
fn address_is_known(known: &Vec<(String, String)>, address: &String) -> (r: bool)
    ensures
        r == is_known_address(devices_view(known@), address@),
        r == (exists|j: int| 0 <= j < known@.len() && (#[trigger] known@[j]).0@ == address@),
{
    let ghost kv = devices_view(known@);
    let mut j: usize = 0;
    while j < known.len()
        invariant
            j <= known@.len(),
            kv == devices_view(known@),
            forall|k: int| 0 <= k < j ==> kv[k].0 != address@,
        decreases known.len() - j,
    {
        if known[j].0 == *address {
            assert(kv[j as int].0 == address@);
            assert(known@[j as int].0@ == address@);
            return true;
        }
        j += 1;
    }
    assert forall|k: int| 0 <= k < known@.len() implies (#[trigger] known@[k]).0@ != address@ by {
        assert(kv[k].0 == known@[k].0@);
    }
    false
}

/// The devices that a `devices` output names after a scan and whose address
/// is not that of any device of `paired`, in order.
pub fn newly_discovered(paired: &Vec<(String, String)>, output: &str) -> (r: Vec<
    (String, String),
>)
    ensures
        devices_view(r@) == keep_unknown(parsed_devices(output@), devices_view(paired@)),
        forall|k: int|
            0 <= k < r@.len() ==> parsed_devices(output@).contains(
                #[trigger] devices_view(r@)[k],
            ) && !is_known_address(devices_view(paired@), devices_view(r@)[k].0),
        forall|i: int|
            0 <= i < parsed_devices(output@).len() && !is_known_address(
                devices_view(paired@),
                (#[trigger] parsed_devices(output@)[i]).0,
            ) ==> devices_view(r@).contains(parsed_devices(output@)[i]),
{
    let all = parse_devices(output);
    let ghost av = devices_view(all@);
    let ghost kv = devices_view(paired@);
    let mut r: Vec<(String, String)> = Vec::new();
    let mut i: usize = 0;
    while i < all.len()
        invariant
            i <= all@.len(),
            av == devices_view(all@),
            kv == devices_view(paired@),
            devices_view(r@) == keep_unknown(av.take(i as int), kv),
        decreases all.len() - i,
    {
        assert(av.take(i + 1).drop_last() =~= av.take(i as int));
        let known = address_is_known(paired, &all[i].0);
        if !known {
            let ghost before = r@;
            let d = (all[i].0.clone(), all[i].1.clone());
            r.push(d);
            assert(devices_view(r@) =~= devices_view(before).push(av[i as int]));
        }
        i += 1;
    }
    assert(av.take(all@.len() as int) =~= av);
    proof {
        let ds = parsed_devices(output@);
        law_discovered_are_new(ds, kv);
        assert forall|k: int| 0 <= k < r@.len() implies ds.contains(
            #[trigger] devices_view(r@)[k],
        ) && !is_known_address(kv, devices_view(r@)[k].0) by {
            assert(devices_view(r@)[k] == keep_unknown(ds, kv)[k]);
        }
    }
    r
}


// ---------------------------------------------------------------------------
// Laws
// ---------------------------------------------------------------------------

/// A line that names a device is the word that begins it, a space, the
/// address, a space and the name; the address holds no space.
#[verifier::rlimit(40)]
pub proof fn law_device_line_reassembles(line: Seq<char>)
    ensures
        device_entry(line) matches Some((address, name)) ==> {
            &&& !has_char(address, ' ')
            &&& starts_with(line, "Device"@)
            &&& line == splitn3_space(line)[0] + seq![' '] + address + seq![' '] + name
        },
{
    lemma_split_once(line, ' ');
    if let Some((a, rest)) = split_once(line, ' ') {
        lemma_split_once(rest, ' ');
        if let Some((b, c)) = split_once(rest, ' ') {
            assert(line =~= a + seq![' '] + b + seq![' '] + c);
        }
    }
}

/// The connected devices are available devices, and no more of them.
pub proof fn law_connected_are_available(ds: Seq<DeviceView>, flags: Seq<bool>)
    ensures
        keep_flagged(ds, flags).len() <= ds.len(),
        forall|k: int|
            0 <= k < keep_flagged(ds, flags).len() ==> ds.contains(
                #[trigger] keep_flagged(ds, flags)[k],
            ),
    decreases ds.len(),
{
    if ds.len() > 0 {
        law_connected_are_available(ds.drop_last(), flags);
        let before = keep_flagged(ds.drop_last(), flags);
        assert forall|k: int|
            0 <= k < keep_flagged(ds, flags).len() implies ds.contains(
            #[trigger] keep_flagged(ds, flags)[k],
        ) by {
            if k < before.len() {
                assert(keep_flagged(ds, flags)[k] == before[k]);
                let j = choose|j: int| 0 <= j < ds.drop_last().len() && ds.drop_last()[j] == before[k];
                assert(ds[j] == before[k]);
            } else {
                assert(ds[ds.len() - 1] == ds.last());
            }
        }
    }
}

/// The newly discovered devices are exactly the listed devices whose
/// address is not that of a paired device.
pub proof fn law_discovered_are_new(ds: Seq<DeviceView>, known: Seq<DeviceView>)
    ensures
        forall|k: int|
            0 <= k < keep_unknown(ds, known).len() ==> ds.contains(
                #[trigger] keep_unknown(ds, known)[k],
            ) && !is_known_address(known, keep_unknown(ds, known)[k].0),
        forall|j: int|
            0 <= j < ds.len() && !is_known_address(known, (#[trigger] ds[j]).0) ==> keep_unknown(
                ds,
                known,
            ).contains(ds[j]),
    decreases ds.len(),
{
    if ds.len() > 0 {
        law_discovered_are_new(ds.drop_last(), known);
        let before = keep_unknown(ds.drop_last(), known);
        let after = keep_unknown(ds, known);
        assert forall|k: int| 0 <= k < after.len() implies ds.contains(#[trigger] after[k])
            && !is_known_address(known, after[k].0) by {
            if k < before.len() {
                assert(after[k] == before[k]);
                let j = choose|j: int| 0 <= j < ds.drop_last().len() && ds.drop_last()[j] == before[k];
                assert(ds[j] == before[k]);
            } else {
                assert(ds[ds.len() - 1] == ds.last());
            }
        }
        assert forall|j: int| 0 <= j < ds.len() && !is_known_address(known, (#[trigger] ds[j]).0)
            implies after.contains(ds[j]) by {
            if j < ds.len() - 1 {
                assert(ds.drop_last()[j] == ds[j]);
                let k = choose|k: int| 0 <= k < before.len() && before[k] == ds.drop_last()[j];
                assert(after[k] == before[k]);
            } else {
                assert(after[after.len() - 1] == ds[j]);
            }
        }
    }
}


/// The positions in `ds` whose flag is set, in increasing order, as
/// `keep_flagged` takes them.
proof fn flagged_indices(ds: Seq<DeviceView>, flags: Seq<bool>) -> (m: Seq<int>)
    requires
        flags.len() >= ds.len(),
    ensures
        m.len() == keep_flagged(ds, flags).len(),
        forall|k: int|
            0 <= k < m.len() ==> 0 <= #[trigger] m[k] < ds.len() && flags[m[k]]
                && keep_flagged(ds, flags)[k] == ds[m[k]],
        forall|k: int, l: int| 0 <= k < l < m.len() ==> m[k] < m[l],
        forall|i: int| 0 <= i < ds.len() && flags[i] ==> exists|k: int| 0 <= k < m.len() && m[k] == i,
    decreases ds.len(),
{
    if ds.len() == 0 {
        Seq::empty()
    } else {
        let m0 = flagged_indices(ds.drop_last(), flags);
        let before = keep_flagged(ds.drop_last(), flags);
        let last = ds.len() - 1;
        if flags[last] {
            let m = m0.push(last);
            assert forall|k: int| 0 <= k < m.len() implies 0 <= #[trigger] m[k] < ds.len() && flags[m[k]]
                && keep_flagged(ds, flags)[k] == ds[m[k]] by {
                if k < m0.len() {
                    assert(m[k] == m0[k]);
                    assert(ds.drop_last()[m0[k]] == ds[m0[k]]);
                }
            }
            assert forall|i: int| 0 <= i < ds.len() && flags[i] implies exists|k: int|
                0 <= k < m.len() && m[k] == i by {
                if i < last {
                    let k = choose|k: int| 0 <= k < m0.len() && m0[k] == i;
                    assert(m[k] == i);
                } else {
                    assert(m[m.len() - 1] == i);
                }
            }
            m
        } else {
            assert forall|k: int| 0 <= k < m0.len() implies 0 <= #[trigger] m0[k] < ds.len() && flags[m0[k]]
                && keep_flagged(ds, flags)[k] == ds[m0[k]] by {
                assert(ds.drop_last()[m0[k]] == ds[m0[k]]);
            }
            m0
        }
    }
}

/// The connected devices are exactly the devices whose flag is set, each
/// once, in the order of the list: there is an increasing choice of
/// positions that picks the result out of the list, and it passes every
/// flagged position.
pub proof fn law_connected_devices_exactly(ds: Seq<DeviceView>, flags: Seq<bool>)
    requires
        flags.len() == ds.len(),
    ensures
        exists|m: Seq<int>|
            #![trigger m.len()]
            m.len() == keep_flagged(ds, flags).len() && (forall|k: int|
                0 <= k < m.len() ==> 0 <= #[trigger] m[k] < ds.len() && flags[m[k]]
                    && keep_flagged(ds, flags)[k] == ds[m[k]]) && (forall|k: int, l: int|
                0 <= k < l < m.len() ==> m[k] < m[l]) && (forall|i: int|
                0 <= i < ds.len() && flags[i] ==> exists|k: int| 0 <= k < m.len() && m[k] == i),
{
    let m = flagged_indices(ds, flags);
    assert(m.len() == keep_flagged(ds, flags).len());
}

/// A `show` run reports the adapter as powered exactly when it succeeded and
/// its output is some text, then `Powered: yes`, then some text.
pub proof fn law_powered_means_phrase(show: Result<String, String>)
    ensures
        reports_powered(show) <==> (show matches Ok(o) && exists|p: Seq<char>, q: Seq<char>|
            #[trigger] (p + "Powered: yes"@ + q) == o@),
{
    if let Ok(o) = show {
        law_contains_is_infix(o@, "Powered: yes"@);
    }
}

/// An `info` run reports the device as connected exactly when it succeeded
/// and its output is some text, then `Connected: yes`, then some text.
pub proof fn law_connected_means_phrase(info: Result<String, String>)
    ensures
        reports_connected(info) <==> (info matches Ok(o) && exists|p: Seq<char>, q: Seq<char>|
            #[trigger] (p + "Connected: yes"@ + q) == o@),
{
    if let Ok(o) = info {
        law_contains_is_infix(o@, "Connected: yes"@);
    }
}

/// An address is known exactly when it equals the address of a known device.
pub proof fn law_known_address_is_equality(known: Seq<DeviceView>, a: Seq<char>)
    ensures
        is_known_address(known, a) <==> exists|j: int| 0 <= j < known.len() && known[j].0 =~= a,
{
    if exists|j: int| 0 <= j < known.len() && known[j].0 =~= a {
        let j = choose|j: int| 0 <= j < known.len() && known[j].0 =~= a;
        assert(known[j].0 == a);
    }
}


/// A line that begins with `Device`, a word without spaces, a space, an
/// address without spaces, a space and a name, names that address and name.
pub proof fn law_device_line_is_read(w: Seq<char>, address: Seq<char>, name: Seq<char>)
    requires
        !has_char(w, ' '),
        !has_char(address, ' '),
        starts_with(w + seq![' '] + address + seq![' '] + name, "Device"@),
    ensures
        device_entry(w + seq![' '] + address + seq![' '] + name) == Some((address, name)),
{
    let line = w + seq![' '] + address + seq![' '] + name;
    let rest = address + seq![' '] + name;
    assert(line =~= w + seq![' '] + rest);
    law_split_once_unique(line, ' ', w, rest);
    law_split_once_unique(rest, ' ', address, name);
}

/// The positions of the lines that name a device, in increasing order, as
/// `devices_in` takes them.
proof fn entry_indices(ls: Seq<Seq<char>>) -> (m: Seq<int>)
    ensures
        m.len() == devices_in(ls).len(),
        forall|k: int|
            0 <= k < m.len() ==> 0 <= #[trigger] m[k] < ls.len() && device_entry(ls[m[k]])
                == Some(devices_in(ls)[k]),
        forall|k: int, l: int| 0 <= k < l < m.len() ==> m[k] < m[l],
        forall|i: int|
            0 <= i < ls.len() && device_entry(ls[i]) is Some ==> exists|k: int|
                0 <= k < m.len() && m[k] == i,
    decreases ls.len(),
{
    if ls.len() == 0 {
        Seq::empty()
    } else {
        let m0 = entry_indices(ls.drop_last());
        let last = ls.len() - 1;
        assert(ls[last] == ls.last());
        match device_entry(ls.last()) {
            Some(d) => {
                let m = m0.push(last);
                assert forall|k: int| 0 <= k < m.len() implies 0 <= #[trigger] m[k] < ls.len()
                    && device_entry(ls[m[k]]) == Some(devices_in(ls)[k]) by {
                    if k < m0.len() {
                        assert(m[k] == m0[k]);
                        assert(ls.drop_last()[m0[k]] == ls[m0[k]]);
                    }
                }
                assert forall|i: int| 0 <= i < ls.len() && device_entry(ls[i]) is Some implies exists|k: int|
                    0 <= k < m.len() && m[k] == i by {
                    if i < last {
                        assert(ls.drop_last()[i] == ls[i]);
                        let k = choose|k: int| 0 <= k < m0.len() && m0[k] == i;
                        assert(m[k] == i);
                    } else {
                        assert(m[m.len() - 1] == i);
                    }
                }
                m
            },
            None => {
                assert forall|k: int| 0 <= k < m0.len() implies 0 <= #[trigger] m0[k] < ls.len()
                    && device_entry(ls[m0[k]]) == Some(devices_in(ls)[k]) by {
                    assert(ls.drop_last()[m0[k]] == ls[m0[k]]);
                }
                assert forall|i: int| 0 <= i < ls.len() && device_entry(ls[i]) is Some implies exists|k: int|
                    0 <= k < m0.len() && m0[k] == i by {
                    assert(i < last);
                    assert(ls.drop_last()[i] == ls[i]);
                }
                m0
            },
        }
    }
}

/// The parsed devices are exactly those that the lines name, each once, in
/// the order of the lines: an increasing choice of line positions picks
/// each device from its line, and it passes every line that names one.
pub proof fn law_parsed_devices_exactly(ls: Seq<Seq<char>>)
    ensures
        exists|m: Seq<int>|
            #![trigger m.len()]
            m.len() == devices_in(ls).len() && (forall|k: int|
                0 <= k < m.len() ==> 0 <= #[trigger] m[k] < ls.len() && device_entry(ls[m[k]])
                    == Some(devices_in(ls)[k])) && (forall|k: int, l: int|
                0 <= k < l < m.len() ==> m[k] < m[l]) && (forall|i: int|
                0 <= i < ls.len() && device_entry(ls[i]) is Some ==> exists|k: int|
                    0 <= k < m.len() && m[k] == i),
{
    let m = entry_indices(ls);
    assert(m.len() == devices_in(ls).len());
}

/// Keeping the unknown devices is keeping those flagged as unknown.
proof fn lemma_keep_unknown_flagged(ds: Seq<DeviceView>, known: Seq<DeviceView>, flags: Seq<bool>)
    requires
        flags.len() >= ds.len(),
        forall|i: int| 0 <= i < ds.len() ==> flags[i] == !is_known_address(known, (#[trigger] ds[i]).0),
    ensures
        keep_unknown(ds, known) == keep_flagged(ds, flags),
    decreases ds.len(),
{
    if ds.len() > 0 {
        assert forall|i: int| 0 <= i < ds.drop_last().len() implies flags[i] == !is_known_address(
            known,
            (#[trigger] ds.drop_last()[i]).0,
        ) by {
            assert(ds.drop_last()[i] == ds[i]);
        }
        lemma_keep_unknown_flagged(ds.drop_last(), known, flags);
        assert(ds[ds.len() - 1] == ds.last());
    }
}

/// The newly discovered devices are exactly the listed devices whose
/// address is not that of a known device, each once, in the order of the
/// list.
pub proof fn law_discovered_exactly(ds: Seq<DeviceView>, known: Seq<DeviceView>)
    ensures
        exists|m: Seq<int>|
            #![trigger m.len()]
            m.len() == keep_unknown(ds, known).len() && (forall|k: int|
                0 <= k < m.len() ==> 0 <= #[trigger] m[k] < ds.len() && !is_known_address(
                    known,
                    ds[m[k]].0,
                ) && keep_unknown(ds, known)[k] == ds[m[k]]) && (forall|k: int, l: int|
                0 <= k < l < m.len() ==> m[k] < m[l]) && (forall|i: int|
                0 <= i < ds.len() && !is_known_address(known, ds[i].0) ==> exists|k: int|
                    0 <= k < m.len() && m[k] == i),
{
    let flags = Seq::new(ds.len(), |i: int| !is_known_address(known, ds[i].0));
    lemma_keep_unknown_flagged(ds, known, flags);
    let m = flagged_indices(ds, flags);
    assert(m.len() == keep_unknown(ds, known).len());
    assert forall|k: int| 0 <= k < m.len() implies 0 <= #[trigger] m[k] < ds.len() && !is_known_address(
        known,
        ds[m[k]].0,
    ) && keep_unknown(ds, known)[k] == ds[m[k]] by {
        assert(flags[m[k]]);
    }
    assert forall|i: int| 0 <= i < ds.len() && !is_known_address(known, ds[i].0) implies exists|k: int|
        0 <= k < m.len() && m[k] == i by {
        assert(flags[i]);
    }
}

} // verus!
