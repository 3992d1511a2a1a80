//! The lines the wrapper prints about a command and its outcome.
use vstd::prelude::*;
use crate::text::{
    append_chars, append_str, char_vecs_view, chars_of, chars_start_with, concat2, contains,
    has_char, law_split_once_unique, law_trim_idempotent, lemma_contains_trans, lemma_split_once, lines, lines_of, occurs_at, splitn3_space,
    splitn3_space_chars, starts_with, str_contains, strings_view, trim, trim_chars,
};
use crate::devices::{device_entry, devices_in, DeviceView};

verus! {

/// A command that acts on one device, given by its address.
#[derive(Clone, Copy, Debug, PartialEq, Eq, Structural)]
pub enum DeviceAction {
    Connect,
    Disconnect,
    Pair,
    Remove,
}

/// The phrase by which `bluetoothctl` reports that the command worked.
pub open spec fn success_phrase(a: DeviceAction) -> Seq<char> {
    match a {
        DeviceAction::Connect => "Connection successful"@,
        DeviceAction::Disconnect => "Disconnection successful"@,
        DeviceAction::Pair => "Pairing successful"@,
        DeviceAction::Remove => "Device has been removed"@,
    }
}

/// The output of the command shows that it worked.
pub open spec fn attempt_succeeded(a: DeviceAction, output: Seq<char>) -> bool {
    contains(output, "successful"@) || contains(output, success_phrase(a))
}

/// The line printed before the command runs.
pub open spec fn progress_text(a: DeviceAction, address: Seq<char>) -> Seq<char> {
    match a {
        DeviceAction::Connect => "Connecting to device "@ + address + "..."@,
        DeviceAction::Disconnect => "Disconnecting from device "@ + address + "..."@,
        DeviceAction::Pair => "Pairing with device "@ + address + "..."@,
        DeviceAction::Remove => "Removing paired device "@ + address + "..."@,
    }
}

/// The report on a command that ran: success, an unclear outcome that
/// quotes the output, or the error of a failed run.
pub open spec fn report_text(
    a: DeviceAction,
    address: Seq<char>,
    result: Result<String, String>,
) -> Seq<char> {
    match result {
        Ok(o) => if attempt_succeeded(a, o@) {
            match a {
                DeviceAction::Connect => "Successfully connected to device "@ + address,
                DeviceAction::Disconnect => "Successfully disconnected from device "@ + address,
                DeviceAction::Pair => "Successfully paired with device "@ + address,
                DeviceAction::Remove => "Successfully removed device "@ + address,
            }
        } else {
            (match a {
                DeviceAction::Connect => "Connection attempt completed, but success unclear.\nOutput: "@,
                DeviceAction::Disconnect => "Disconnection attempt completed, but success unclear.\nOutput: "@,
                DeviceAction::Pair => "Pairing attempt completed, but success unclear.\nOutput: "@,
                DeviceAction::Remove => "Remove attempt completed, but success unclear.\nOutput: "@,
            }) + o@
        },
        Err(e) => (match a {
            DeviceAction::Connect => "Error connecting to device: "@,
            DeviceAction::Disconnect => "Error disconnecting from device: "@,
            DeviceAction::Pair => "Error pairing with device: "@,
            DeviceAction::Remove => "Error removing device: "@,
        }) + e@,
    }
}

impl DeviceAction {
    /// The `bluetoothctl` command word.
    pub fn command_word(&self) -> (r: &'static str)
        ensures
            r@ == (match *self {
                DeviceAction::Connect => "connect"@,
                DeviceAction::Disconnect => "disconnect"@,
                DeviceAction::Pair => "pair"@,
                DeviceAction::Remove => "remove"@,
            }),
    {
        match self {
            DeviceAction::Connect => "connect",
            DeviceAction::Disconnect => "disconnect",
            DeviceAction::Pair => "pair",
            DeviceAction::Remove => "remove",
        }
    }

    /// The phrase by which `bluetoothctl` reports that the command worked.
    pub fn success_phrase(&self) -> (r: &'static str)
        ensures
            r@ == success_phrase(*self),
    {
        match self {
            DeviceAction::Connect => "Connection successful",
            DeviceAction::Disconnect => "Disconnection successful",
            DeviceAction::Pair => "Pairing successful",
            DeviceAction::Remove => "Device has been removed",
        }
    }
}

/// Whether the output of the command shows that it worked: it holds
/// `"successful"` or the command's own success phrase.
pub fn action_succeeded(a: DeviceAction, output: &str) -> (r: bool)
    ensures
        r == attempt_succeeded(a, output@),
{
    str_contains(output, "successful") || str_contains(output, a.success_phrase())
}

/// The line printed before the command runs on `address`.
pub fn action_progress(a: DeviceAction, address: &str) -> (r: String)
    ensures
        r@ == progress_text(a, address@),
{
    let mut r = match a {
        DeviceAction::Connect => concat2("Connecting to device ", address),
        DeviceAction::Disconnect => concat2("Disconnecting from device ", address),
        DeviceAction::Pair => concat2("Pairing with device ", address),
        DeviceAction::Remove => concat2("Removing paired device ", address),
    };
    append_str(&mut r, "...");
    r
}

/// The report on the command that ran on `address` with `result`.
pub fn action_report(a: DeviceAction, address: &str, result: &Result<String, String>) -> (r:
    String)
    ensures
        r@ == report_text(a, address@, *result),
{
    match result {
        Ok(o) => {
            if action_succeeded(a, o.as_str()) {
                match a {
                    DeviceAction::Connect => concat2("Successfully connected to device ", address),
                    DeviceAction::Disconnect => concat2(
                        "Successfully disconnected from device ",
                        address,
                    ),
                    DeviceAction::Pair => concat2("Successfully paired with device ", address),
                    DeviceAction::Remove => concat2("Successfully removed device ", address),
                }
            } else {
                let head = match a {
                    DeviceAction::Connect => "Connection attempt completed, but success unclear.\nOutput: ",
                    DeviceAction::Disconnect => "Disconnection attempt completed, but success unclear.\nOutput: ",
                    DeviceAction::Pair => "Pairing attempt completed, but success unclear.\nOutput: ",
                    DeviceAction::Remove => "Remove attempt completed, but success unclear.\nOutput: ",
                };
                concat2(head, o.as_str())
            }
        },
        Err(e) => {
            let head = match a {
                DeviceAction::Connect => "Error connecting to device: ",
                DeviceAction::Disconnect => "Error disconnecting from device: ",
                DeviceAction::Pair => "Error pairing with device: ",
                DeviceAction::Remove => "Error removing device: ",
            };
            concat2(head, e.as_str())
        },
    }
}

/// The line printed before the adapter is turned on (`on`) or off.
pub fn power_progress(on: bool) -> (r: String)
    ensures
        r@ == (if on {
            "Turning Bluetooth on..."@
        } else {
            "Turning Bluetooth off..."@
        }),
{
    if on {
        "Turning Bluetooth on...".to_owned()
    } else {
        "Turning Bluetooth off...".to_owned()
    }
}

/// The report on turning the adapter on (`on`) or off with `result`.
pub fn power_report(on: bool, result: &Result<String, String>) -> (r: String)
    ensures
        r@ == (match *result {
            Ok(_) => if on {
                "Bluetooth turned on successfully."@
            } else {
                "Bluetooth turned off successfully."@
            },
            Err(e) => (if on {
                "Error turning Bluetooth on: "@
            } else {
                "Error turning Bluetooth off: "@
            }) + e@,
        }),
{
    match result {
        Ok(_) => if on {
            "Bluetooth turned on successfully.".to_owned()
        } else {
            "Bluetooth turned off successfully.".to_owned()
        },
        Err(e) => if on {
            concat2("Error turning Bluetooth on: ", e.as_str())
        } else {
            concat2("Error turning Bluetooth off: ", e.as_str())
        },
    }
}

/// The adapter information to print: each line of `lines`, trimmed and
/// indented by two spaces, leaving out the lines that are blank.
pub open spec fn info_lines(ls: Seq<Seq<char>>) -> Seq<Seq<char>>
    decreases ls.len(),
{
    if ls.len() == 0 {
        Seq::empty()
    } else {
        let before = info_lines(ls.drop_last());
        if trim(ls.last()).len() == 0 {
            before
        } else {
            before.push("  "@ + trim(ls.last()))
        }
    }
}

/// The lines that show the adapter information of a `show` output.
pub fn adapter_info_lines(output: &str) -> (r: Vec<String>)
    ensures
        strings_view(r@) == info_lines(lines(output@)),
{
    let text = chars_of(output);
    let ls = lines_of(text.as_slice());
    let mut r: Vec<String> = Vec::new();
    let mut i: usize = 0;
    while i < ls.len()
        invariant
            i <= ls@.len(),
            char_vecs_view(ls@) == lines(output@),
            strings_view(r@) == info_lines(char_vecs_view(ls@).take(i as int)),
        decreases ls.len() - i,
    {
        let ghost lv = char_vecs_view(ls@);
        assert(lv.take(i + 1).drop_last() =~= lv.take(i as int));
        assert(lv.take(i + 1).last() == ls@[i as int]@);
        let t = trim_chars(ls[i].as_slice());
        if t.len() > 0 {
            let mut line = "  ".to_owned();
            append_chars(&mut line, t.as_slice());
            let ghost before = r@;
            r.push(line);
            assert(strings_view(r@) =~= strings_view(before).push(line@));
        }
        i += 1;
    }
    assert(char_vecs_view(ls@).take(ls@.len() as int) =~= char_vecs_view(ls@));
    r
}

/// The listing line for a line of a `devices` output, if it names a device:
/// `"  <address> - <name>"`, or `"  <address>"` for a line with one space.
pub open spec fn listing_line(line: Seq<char>) -> Option<Seq<char>> {
    let parts = splitn3_space(line);
    if starts_with(line, "Device"@) {
        if parts.len() >= 3 {
            Some("  "@ + parts[1] + " - "@ + parts[2])
        } else {
            Some("  "@ + parts[1])
        }
    } else {
        None
    }
}

/// Every line of `output` that begins with `"Device"` has a space: the
/// listing can show it (else it names no address to show).
pub open spec fn listing_printable(output: Seq<char>) -> bool {
    forall|i: int|
        0 <= i < lines(output).len() && starts_with(#[trigger] lines(output)[i], "Device"@)
            ==> splitn3_space(lines(output)[i]).len() >= 2
}

/// The listing lines for `ls`, in order.
pub open spec fn listing_lines(ls: Seq<Seq<char>>) -> Seq<Seq<char>>
    decreases ls.len(),
{
    if ls.len() == 0 {
        Seq::empty()
    } else {
        let before = listing_lines(ls.drop_last());
        match listing_line(ls.last()) {
            Some(l) => before.push(l),
            None => before,
        }
    }
}

/// Whether every line of `output` that begins with `"Device"` has a space.
pub fn listing_is_printable(output: &str) -> (r: bool)
    ensures
        r == listing_printable(output@),
{
    let text = chars_of(output);
    let ls = lines_of(text.as_slice());
    let prefix = chars_of("Device");
    let ghost lv = char_vecs_view(ls@);
    let mut i: usize = 0;
    while i < ls.len()
        invariant
            i <= ls@.len(),
            prefix@ == "Device"@,
            lv == char_vecs_view(ls@),
            lv == lines(output@),
            forall|j: int|
                0 <= j < i && starts_with(#[trigger] lv[j], "Device"@) ==> splitn3_space(
                    lv[j],
                ).len() >= 2,
        decreases ls.len() - i,
    {
        assert(lv[i as int] == ls@[i as int]@);
        if chars_start_with(ls[i].as_slice(), prefix.as_slice()) {
            let parts = splitn3_space_chars(ls[i].as_slice());
            if parts.len() < 2 {
                assert(char_vecs_view(parts@).len() == parts@.len());
                return false;
            }
        }
        i += 1;
    }
    true
}

/// The lines that list the devices of a `devices` output, in order.
pub fn device_listing(output: &str) -> (r: Vec<String>)
    requires
        listing_printable(output@),
    ensures
        strings_view(r@) == listing_lines(lines(output@)),
{
    let text = chars_of(output);
    let ls = lines_of(text.as_slice());
    let prefix = chars_of("Device");
    let ghost lv = char_vecs_view(ls@);
    let mut r: Vec<String> = Vec::new();
    let mut i: usize = 0;
    while i < ls.len()
        invariant
            i <= ls@.len(),
            prefix@ == "Device"@,
            lv == char_vecs_view(ls@),
            lv == lines(output@),
            listing_printable(output@),
            strings_view(r@) == listing_lines(lv.take(i as int)),
        decreases ls.len() - i,
    {
        assert(lv.take(i + 1).drop_last() =~= lv.take(i as int));
        assert(lv.take(i + 1).last() == ls@[i as int]@);
        if chars_start_with(ls[i].as_slice(), prefix.as_slice()) {
            let parts = splitn3_space_chars(ls[i].as_slice());
            let ghost pv = char_vecs_view(parts@);
            assert(starts_with(lv[i as int], "Device"@));
            assert(pv.len() >= 2);
            let mut line = "  ".to_owned();
            append_chars(&mut line, parts[1].as_slice());
            assert(pv[1] == parts@[1]@);
            if parts.len() >= 3 {
                assert(pv[2] == parts@[2]@);
                append_str(&mut line, " - ");
                append_chars(&mut line, parts[2].as_slice());
            }
            let ghost before = r@;
            r.push(line);
            assert(strings_view(r@) =~= strings_view(before).push(line@));
        }
        i += 1;
    }
    assert(lv.take(ls@.len() as int) =~= lv);
    r
}

/// The lines that report a `devices` output: `when_empty` alone for an
/// empty output, otherwise the listing.
pub fn listing_report(output: &str, when_empty: &str) -> (r: Vec<String>)
    requires
        listing_printable(output@),
    ensures
        strings_view(r@) == (if output@.len() == 0 {
            seq![when_empty@]
        } else {
            listing_lines(lines(output@))
        }),
{
    if output.is_empty() {
        let mut r: Vec<String> = Vec::new();
        r.push(when_empty.to_owned());
        assert(strings_view(r@) =~= seq![when_empty@]);
        r
    } else {
        device_listing(output)
    }
}


// ---------------------------------------------------------------------------
// Laws
// ---------------------------------------------------------------------------

/// For connecting, disconnecting and pairing, the command's own success
/// phrase holds `"successful"`: success means the output holds
/// `"successful"`. (Removal reports `"Device has been removed"`, which
/// counts besides.)
pub proof fn law_success_is_successful(a: DeviceAction, output: Seq<char>)
    requires
        a != DeviceAction::Remove,
    ensures
        attempt_succeeded(a, output) <==> contains(output, "successful"@),
{
    reveal_strlit("successful");
    if contains(output, success_phrase(a)) {
        match a {
            DeviceAction::Connect => {
                reveal_strlit("Connection successful");
                assert("Connection successful"@.subrange(11, 21) =~= "successful"@);
                assert(occurs_at("Connection successful"@, "successful"@, 11));
            },
            DeviceAction::Disconnect => {
                reveal_strlit("Disconnection successful");
                assert("Disconnection successful"@.subrange(14, 24) =~= "successful"@);
                assert(occurs_at("Disconnection successful"@, "successful"@, 14));
            },
            DeviceAction::Pair => {
                reveal_strlit("Pairing successful");
                assert("Pairing successful"@.subrange(8, 18) =~= "successful"@);
                assert(occurs_at("Pairing successful"@, "successful"@, 8));
            },
            DeviceAction::Remove => {},
        }
        lemma_contains_trans(output, success_phrase(a), "successful"@);
    }
}

/// Every line of adapter information is two spaces before a non-empty
/// text that trimming leaves as it is.
pub proof fn law_info_lines_are_trimmed(ls: Seq<Seq<char>>)
    ensures
        forall|k: int|
            0 <= k < info_lines(ls).len() ==> exists|t: Seq<char>|
                #[trigger] info_lines(ls)[k] == "  "@ + t && t.len() > 0 && trim(t) == t,
    decreases ls.len(),
{
    if ls.len() > 0 {
        law_info_lines_are_trimmed(ls.drop_last());
        let before = info_lines(ls.drop_last());
        law_trim_idempotent(ls.last());
        assert forall|k: int| 0 <= k < info_lines(ls).len() implies exists|t: Seq<char>|
            #[trigger] info_lines(ls)[k] == "  "@ + t && t.len() > 0 && trim(t) == t by {
            if k < before.len() {
                assert(info_lines(ls)[k] == before[k]);
            } else {
                let t = trim(ls.last());
                assert(info_lines(ls)[k] == "  "@ + t);
            }
        }
    }
}

/// Where every `"Device"` line has two spaces, the listing shows exactly
/// the devices that the same output names, as `"  <address> - <name>"`.
pub proof fn law_listing_shows_devices(ls: Seq<Seq<char>>)
    requires
        forall|i: int|
            0 <= i < ls.len() && starts_with(#[trigger] ls[i], "Device"@) ==> splitn3_space(
                ls[i],
            ).len() == 3,
    ensures
        listing_lines(ls) == devices_in(ls).map_values(
            |d: DeviceView| "  "@ + d.0 + " - "@ + d.1,
        ),
    decreases ls.len(),
{
    if ls.len() > 0 {
        assert forall|i: int|
            0 <= i < ls.drop_last().len() && starts_with(
                #[trigger] ls.drop_last()[i],
                "Device"@,
            ) implies splitn3_space(ls.drop_last()[i]).len() == 3 by {
            assert(ls.drop_last()[i] == ls[i]);
        }
        law_listing_shows_devices(ls.drop_last());
        assert(ls[ls.len() - 1] == ls.last());
        let f = |d: DeviceView| "  "@ + d.0 + " - "@ + d.1;
        let before = devices_in(ls.drop_last());
        match device_entry(ls.last()) {
            Some(d) => {
                assert(before.push(d).map_values(f) =~= before.map_values(f).push(f(d)));
            },
            None => {},
        }
    }
}


/// `t` ends with `e`.
pub open spec fn ends_with(t: Seq<char>, e: Seq<char>) -> bool {
    e.len() <= t.len() && t.subrange(t.len() - e.len(), t.len() as int) == e
}

/// The reports quote what they are about: a failed run's report ends with
/// its error, a successful attempt's report ends with the address, an
/// unclear attempt's report ends with the output; and the line before a
/// command ends with the address and `...`.
pub proof fn law_reports_quote(a: DeviceAction, address: Seq<char>, o: String, e: String)
    ensures
        ends_with(report_text(a, address, Err(e)), e@),
        attempt_succeeded(a, o@) ==> ends_with(report_text(a, address, Ok(o)), address),
        !attempt_succeeded(a, o@) ==> ends_with(report_text(a, address, Ok(o)), o@),
        ends_with(progress_text(a, address), address + "..."@),
{
    let t = report_text(a, address, Err(e));
    assert(t.subrange(t.len() - e@.len(), t.len() as int) =~= e@);
    let u = report_text(a, address, Ok(o));
    if attempt_succeeded(a, o@) {
        assert(u.subrange(u.len() - address.len(), u.len() as int) =~= address);
    } else {
        assert(u.subrange(u.len() - o@.len(), u.len() as int) =~= o@);
    }
    let p = progress_text(a, address);
    let tail = address + "..."@;
    assert(p.subrange(p.len() - tail.len(), p.len() as int) =~= tail);
}

/// Removal succeeds exactly when the output holds `successful` or
/// `Device has been removed`.
pub proof fn law_remove_success(output: Seq<char>)
    ensures
        attempt_succeeded(DeviceAction::Remove, output) <==> (contains(output, "successful"@)
            || contains(output, "Device has been removed"@)),
{
}

/// The positions of the non-blank lines, in increasing order.
proof fn nonblank_indices(ls: Seq<Seq<char>>) -> (m: Seq<int>)
    ensures
        m.len() == info_lines(ls).len(),
        forall|k: int|
            0 <= k < m.len() ==> 0 <= #[trigger] m[k] < ls.len() && trim(ls[m[k]]).len() > 0
                && info_lines(ls)[k] == "  "@ + trim(ls[m[k]]),
        forall|k: int, l: int| 0 <= k < l < m.len() ==> m[k] < m[l],
        forall|i: int|
            0 <= i < ls.len() && trim(ls[i]).len() > 0 ==> exists|k: int| 0 <= k < m.len() && m[k] == i,
    decreases ls.len(),
{
    if ls.len() == 0 {
        Seq::empty()
    } else {
        let m0 = nonblank_indices(ls.drop_last());
        let last = ls.len() - 1;
        assert(ls[last] == ls.last());
        if trim(ls.last()).len() > 0 {
            let m = m0.push(last);
            assert forall|k: int| 0 <= k < m.len() implies 0 <= #[trigger] m[k] < ls.len() && trim(
                ls[m[k]],
            ).len() > 0 && info_lines(ls)[k] == "  "@ + trim(ls[m[k]]) by {
                if k < m0.len() {
                    assert(m[k] == m0[k]);
                    assert(ls.drop_last()[m0[k]] == ls[m0[k]]);
                }
            }
            assert forall|i: int| 0 <= i < ls.len() && trim(ls[i]).len() > 0 implies exists|k: int|
                0 <= k < m.len() && m[k] == i by {
                if i < last {
                    assert(ls.drop_last()[i] == ls[i]);
                    let k = choose|k: int| 0 <= k < m0.len() && m0[k] == i;
                    assert(m[k] == i);
                } else {
                    assert(m[m.len() - 1] == i);
                }
            }
            m
        } else {
            assert forall|k: int| 0 <= k < m0.len() implies 0 <= #[trigger] m0[k] < ls.len() && trim(
                ls[m0[k]],
            ).len() > 0 && info_lines(ls)[k] == "  "@ + trim(ls[m0[k]]) by {
                assert(ls.drop_last()[m0[k]] == ls[m0[k]]);
            }
            assert forall|i: int| 0 <= i < ls.len() && trim(ls[i]).len() > 0 implies exists|k: int|
                0 <= k < m0.len() && m0[k] == i by {
                assert(i < last);
                assert(ls.drop_last()[i] == ls[i]);
            }
            m0
        }
    }
}

/// The adapter information shows exactly the non-blank lines, each once,
/// trimmed and indented by two spaces, in order.
pub proof fn law_info_lines_exactly(ls: Seq<Seq<char>>)
    ensures
        exists|m: Seq<int>|
            #![trigger m.len()]
            m.len() == info_lines(ls).len() && (forall|k: int|
                0 <= k < m.len() ==> 0 <= #[trigger] m[k] < ls.len() && trim(ls[m[k]]).len() > 0
                    && info_lines(ls)[k] == "  "@ + trim(ls[m[k]])) && (forall|k: int, l: int|
                0 <= k < l < m.len() ==> m[k] < m[l]) && (forall|i: int|
                0 <= i < ls.len() && trim(ls[i]).len() > 0 ==> exists|k: int|
                    0 <= k < m.len() && m[k] == i),
{
    let m = nonblank_indices(ls);
    assert(m.len() == info_lines(ls).len());
}


/// How a line of a `devices` output is listed: a `Device` line with a word,
/// a space, an address and nothing more shows `"  <address>"`; with a
/// further space and a name it shows `"  <address> - <name>"`; a line that
/// does not begin with `Device` is not listed.
pub proof fn law_listing_line(w: Seq<char>, address: Seq<char>, name: Seq<char>, other: Seq<char>)
    requires
        !has_char(w, ' '),
        !has_char(address, ' '),
    ensures
        starts_with(w + seq![' '] + address, "Device"@) ==> listing_line(w + seq![' '] + address)
            == Some("  "@ + address),
        starts_with(w + seq![' '] + address + seq![' '] + name, "Device"@) ==> listing_line(
            w + seq![' '] + address + seq![' '] + name,
        ) == Some("  "@ + address + " - "@ + name),
        !starts_with(other, "Device"@) ==> listing_line(other) is None,
{
    law_split_once_unique(w + seq![' '] + address, ' ', w, address);
    lemma_split_once(address, ' ');
    let line = w + seq![' '] + address + seq![' '] + name;
    let rest = address + seq![' '] + name;
    assert(line =~= w + seq![' '] + rest);
    law_split_once_unique(line, ' ', w, rest);
    law_split_once_unique(rest, ' ', address, name);
}

} // verus!
