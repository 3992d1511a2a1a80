//! The interactive menu: which options it offers, what a key press asks
//! for, and which device a typed choice selects.
use vstd::prelude::*;
use crate::text::{char_digit, digit_value, is_digit, parse_usize, parse_usize_chars, chars_of, trim, trim_chars};

verus! {

/// What a key press in the main menu asks for.
#[derive(Clone, Copy, Debug, PartialEq, Eq, Structural)]
pub enum MenuAction {
    /// Turn the adapter off.
    PowerOff,
    /// Turn the adapter on.
    PowerOn,
    /// Disconnect the one connected device.
    DisconnectOnlyDevice,
    /// Ask which of the connected devices to disconnect.
    ChooseDeviceToDisconnect,
    /// Show the menu that connects a paired device.
    ConnectMenu,
    /// Scan for devices and offer to pair a new one.
    Scan,
    /// Block the adapter at hardware level.
    TerminateAdapter,
    /// Block, then unblock the adapter at hardware level.
    RestartAdapter,
    /// Leave the menu.
    Quit,
    /// A known key that does nothing in this state: show the menu again.
    Ignore,
    /// An unknown key: say so and wait for Enter.
    Invalid,
}

/// What pressing `choice` asks for, with the adapter `powered` and
/// `connected` devices connected.
pub open spec fn menu_action(powered: bool, connected: nat, choice: char) -> MenuAction {
    if choice == 'q' || choice == 'Q' {
        MenuAction::Quit
    } else if !powered {
        if choice == '1' {
            MenuAction::PowerOn
        } else {
            MenuAction::Invalid
        }
    } else if choice == '1' {
        MenuAction::PowerOff
    } else if choice == '2' {
        if connected == 0 {
            MenuAction::ConnectMenu
        } else if connected == 1 {
            MenuAction::DisconnectOnlyDevice
        } else {
            MenuAction::ChooseDeviceToDisconnect
        }
    } else if choice == '3' {
        if connected == 0 {
            MenuAction::Ignore
        } else {
            MenuAction::ConnectMenu
        }
    } else if choice == '6' {
        MenuAction::Scan
    } else if choice == 't' {
        MenuAction::TerminateAdapter
    } else if choice == 'r' {
        MenuAction::RestartAdapter
    } else if choice == 's' || choice == 'S' {
        MenuAction::Ignore
    } else {
        MenuAction::Invalid
    }
}

/// What pressing `choice` asks for, with the adapter `powered` and
/// `connected` devices connected.
pub fn main_menu_action(powered: bool, connected: usize, choice: char) -> (r: MenuAction)
    ensures
        r == menu_action(powered, connected as nat, choice),
        (choice == 'q' || choice == 'Q') ==> r == MenuAction::Quit,
        !powered && choice == '1' ==> r == MenuAction::PowerOn,
        !powered && choice != '1' && choice != 'q' && choice != 'Q' ==> r == MenuAction::Invalid,
        powered && choice == '1' ==> r == MenuAction::PowerOff,
        powered && choice == '2' && connected == 0 ==> r == MenuAction::ConnectMenu,
        powered && choice == '2' && connected == 1 ==> r == MenuAction::DisconnectOnlyDevice,
        powered && choice == '2' && connected >= 2 ==> r == MenuAction::ChooseDeviceToDisconnect,
        powered && choice == '3' && connected == 0 ==> r == MenuAction::Ignore,
        powered && choice == '3' && connected >= 1 ==> r == MenuAction::ConnectMenu,
        powered && choice == '6' ==> r == MenuAction::Scan,
        powered && choice == 't' ==> r == MenuAction::TerminateAdapter,
        powered && choice == 'r' ==> r == MenuAction::RestartAdapter,
        powered && (choice == 's' || choice == 'S') ==> r == MenuAction::Ignore,
        powered && !(choice == '1' || choice == '2' || choice == '3' || choice == '6' || choice
            == 't' || choice == 'r' || choice == 's' || choice == 'S' || choice == 'q' || choice
            == 'Q') ==> r == MenuAction::Invalid,
{
    if choice == 'q' || choice == 'Q' {
        return MenuAction::Quit;
    }
    if !powered {
        return if choice == '1' {
            MenuAction::PowerOn
        } else {
            MenuAction::Invalid
        };
    }
    match choice {
        '1' => MenuAction::PowerOff,
        '2' => if connected == 0 {
            MenuAction::ConnectMenu
        } else if connected == 1 {
            MenuAction::DisconnectOnlyDevice
        } else {
            MenuAction::ChooseDeviceToDisconnect
        },
        '3' => if connected == 0 {
            MenuAction::Ignore
        } else {
            MenuAction::ConnectMenu
        },
        '6' => MenuAction::Scan,
        't' => MenuAction::TerminateAdapter,
        'r' => MenuAction::RestartAdapter,
        's' | 'S' => MenuAction::Ignore,
        _ => MenuAction::Invalid,
    }
}

/// An option that the main menu lists.
#[derive(Clone, Copy, Debug, PartialEq, Eq, Structural)]
pub enum MenuOption {
    TurnOff,
    TurnOn,
    Disconnect,
    ConnectAnother,
    Connect,
    Scan,
    Terminate,
    Restart,
    Quit,
}

/// The key that selects an option.
pub open spec fn option_key(o: MenuOption) -> char {
    match o {
        MenuOption::TurnOff => '1',
        MenuOption::TurnOn => '1',
        MenuOption::Disconnect => '2',
        MenuOption::ConnectAnother => '3',
        MenuOption::Connect => '2',
        MenuOption::Scan => '6',
        MenuOption::Terminate => 't',
        MenuOption::Restart => 'r',
        MenuOption::Quit => 'q',
    }
}

/// The options the main menu lists, in order.
pub open spec fn menu_options_spec(powered: bool, any_connected: bool) -> Seq<MenuOption> {
    if powered {
        (if any_connected {
            seq![MenuOption::TurnOff, MenuOption::Disconnect, MenuOption::ConnectAnother]
        } else {
            seq![MenuOption::TurnOff, MenuOption::Connect]
        }) + seq![
            MenuOption::Scan,
            MenuOption::Terminate,
            MenuOption::Restart,
            MenuOption::Quit,
        ]
    } else {
        seq![MenuOption::TurnOn, MenuOption::Quit]
    }
}

impl MenuOption {
    /// The key that selects this option.
    pub fn key(&self) -> (r: char)
        ensures
            r == option_key(*self),
    {
        match self {
            MenuOption::TurnOff => '1',
            MenuOption::TurnOn => '1',
            MenuOption::Disconnect => '2',
            MenuOption::ConnectAnother => '3',
            MenuOption::Connect => '2',
            MenuOption::Scan => '6',
            MenuOption::Terminate => 't',
            MenuOption::Restart => 'r',
            MenuOption::Quit => 'q',
        }
    }

    /// The text of this option.
    pub fn label(&self) -> (r: &'static str)
        ensures
            r@ == (match *self {
                MenuOption::TurnOff => "Turn Bluetooth OFF"@,
                MenuOption::TurnOn => "Turn Bluetooth ON"@,
                MenuOption::Disconnect => "Disconnect from device"@,
                MenuOption::ConnectAnother => "Connect to another device"@,
                MenuOption::Connect => "Connect to a device"@,
                MenuOption::Scan => "Scan for devices"@,
                MenuOption::Terminate => "Terminate Bluetooth adapter (hardware)"@,
                MenuOption::Restart => "Restart Bluetooth adapter (hardware)"@,
                MenuOption::Quit => "Quit"@,
            }),
    {
        match self {
            MenuOption::TurnOff => "Turn Bluetooth OFF",
            MenuOption::TurnOn => "Turn Bluetooth ON",
            MenuOption::Disconnect => "Disconnect from device",
            MenuOption::ConnectAnother => "Connect to another device",
            MenuOption::Connect => "Connect to a device",
            MenuOption::Scan => "Scan for devices",
            MenuOption::Terminate => "Terminate Bluetooth adapter (hardware)",
            MenuOption::Restart => "Restart Bluetooth adapter (hardware)",
            MenuOption::Quit => "Quit",
        }
    }
}

/// The options the main menu lists, in order, with the adapter `powered`
/// and `any_connected` telling whether a device is connected.
pub fn menu_options(powered: bool, any_connected: bool) -> (r: Vec<MenuOption>)
    ensures
        r@ == menu_options_spec(powered, any_connected),
{
    let mut r: Vec<MenuOption> = Vec::new();
    if powered {
        r.push(MenuOption::TurnOff);
        if any_connected {
            r.push(MenuOption::Disconnect);
            r.push(MenuOption::ConnectAnother);
        } else {
            r.push(MenuOption::Connect);
        }
        r.push(MenuOption::Scan);
        r.push(MenuOption::Terminate);
        r.push(MenuOption::Restart);
        r.push(MenuOption::Quit);
    } else {
        r.push(MenuOption::TurnOn);
        r.push(MenuOption::Quit);
    }
    assert(r@ =~= menu_options_spec(powered, any_connected));
    r
}

/// What a single key press picks from a numbered list of devices.
#[derive(Clone, Copy, Debug, PartialEq, Eq, Structural)]
pub enum Selection {
    /// `q` or `Q`: leave the list.
    Cancel,
    /// The device at this position of the list.
    Pick(usize),
    /// Any other key.
    Invalid,
}

/// The position that the digit key `choice` names in a list of `count`
/// devices numbered from 1, if it names one.
pub open spec fn digit_pick(choice: char, count: nat) -> Option<nat> {
    if is_digit(choice) && 1 <= digit_value(choice) <= count {
        Some((digit_value(choice) - 1) as nat)
    } else {
        None
    }
}

/// What the key `choice` picks from a list of `count` devices numbered
/// from 1: `q` or `Q` cancels, a digit from 1 to `count` picks that device.
pub fn device_choice(choice: char, count: usize) -> (r: Selection)
    ensures
        (choice == 'q' || choice == 'Q') ==> r == Selection::Cancel,
        !(choice == 'q' || choice == 'Q') ==> match digit_pick(choice, count as nat) {
            Some(i) => r == Selection::Pick(i as usize),
            None => r == Selection::Invalid,
        },
        r matches Selection::Pick(i) ==> i < count,
{
    if choice == 'q' || choice == 'Q' {
        return Selection::Cancel;
    }
    match char_digit(choice) {
        Some(d) => if d > 0 && d <= count {
            Selection::Pick(d - 1)
        } else {
            Selection::Invalid
        },
        None => Selection::Invalid,
    }
}

/// Whether the key `choice` answers yes (`y` or `Y`).
pub fn answers_yes(choice: char) -> (r: bool)
    ensures
        r == (choice == 'y' || choice == 'Y'),
{
    choice == 'y' || choice == 'Y'
}

/// The position that a typed number names in a list of `count` devices
/// numbered from 1, if it names one.
pub open spec fn number_pick(input: Seq<char>, count: nat) -> Option<nat> {
    match parse_usize(trim(input)) {
        Some(k) => if 1 <= k <= count {
            Some((k - 1) as nat)
        } else {
            None
        },
        None => None,
    }
}

/// The position that the typed `input` names in a list of `count` devices
/// numbered from 1: the trimmed input must read as a number from 1 to
/// `count`.
pub fn select_by_number(input: &str, count: usize) -> (r: Option<usize>)
    ensures
        r matches Some(i) ==> number_pick(input@, count as nat) == Some(i as nat) && i < count,
        r is None ==> number_pick(input@, count as nat) is None,
{
    let v = chars_of(input);
    let t = trim_chars(v.as_slice());
    match parse_usize_chars(t.as_slice()) {
        Some(k) => if k > 0 && k <= count {
            Some(k - 1)
        } else {
            None
        },
        None => None,
    }
}


/// The options listed with the adapter `powered` and `connected` devices
/// connected.
pub open spec fn offered_options(powered: bool, connected: nat) -> Seq<MenuOption> {
    menu_options_spec(powered, connected > 0)
}

/// Every option that the menu lists is taken up when its key is pressed in
/// the same state: none of them is refused or ignored.
pub proof fn law_listed_options_are_accepted(powered: bool, connected: nat)
    ensures
        forall|k: int|
            0 <= k < offered_options(powered, connected).len() ==> {
                let a = menu_action(
                    powered,
                    connected,
                    option_key(#[trigger] offered_options(powered, connected)[k]),
                );
                a != MenuAction::Invalid && a != MenuAction::Ignore
            },
{
    let opts = offered_options(powered, connected);
    if powered {
        if connected > 0 {
            assert(opts =~= seq![
                MenuOption::TurnOff,
                MenuOption::Disconnect,
                MenuOption::ConnectAnother,
                MenuOption::Scan,
                MenuOption::Terminate,
                MenuOption::Restart,
                MenuOption::Quit,
            ]);
        } else {
            assert(opts =~= seq![
                MenuOption::TurnOff,
                MenuOption::Connect,
                MenuOption::Scan,
                MenuOption::Terminate,
                MenuOption::Restart,
                MenuOption::Quit,
            ]);
        }
    }
}

/// `q` and `Q` always leave the menu; with the adapter off, a key either
/// turns it on, leaves, or is refused.
pub proof fn law_quit_and_powered_off(powered: bool, connected: nat, choice: char)
    ensures
        (choice == 'q' || choice == 'Q') ==> menu_action(powered, connected, choice)
            == MenuAction::Quit,
        !powered ==> (menu_action(powered, connected, choice) == MenuAction::PowerOn
            || menu_action(powered, connected, choice) == MenuAction::Quit || menu_action(
            powered,
            connected,
            choice,
        ) == MenuAction::Invalid),
{
}

/// A device is picked only from within the list, whether by key or by a
/// typed number.
pub proof fn law_picks_are_in_range(choice: char, input: Seq<char>, count: nat)
    ensures
        digit_pick(choice, count) matches Some(i) ==> i < count,
        number_pick(input, count) matches Some(i) ==> i < count,
{
}


/// Each action comes from exactly these key presses and states: turning off
/// from `1` while on, turning on from `1` while off, disconnecting the only
/// device from `2` with exactly one connected, asking which device to
/// disconnect from `2` with two or more connected, the connect menu from `2`
/// with none connected or `3` with some connected, scanning from `6`,
/// blocking from `t`, restarting from `r` (all while on), quitting from `q`
/// or `Q`.
pub proof fn law_menu_action_sources(powered: bool, connected: nat, choice: char)
    ensures
        menu_action(powered, connected, choice) == MenuAction::PowerOff <==> powered && choice
            == '1',
        menu_action(powered, connected, choice) == MenuAction::PowerOn <==> !powered && choice
            == '1',
        menu_action(powered, connected, choice) == MenuAction::DisconnectOnlyDevice <==> powered
            && choice == '2' && connected == 1,
        menu_action(powered, connected, choice) == MenuAction::ChooseDeviceToDisconnect
            <==> powered && choice == '2' && connected >= 2,
        menu_action(powered, connected, choice) == MenuAction::ConnectMenu <==> powered && ((
        choice == '2' && connected == 0) || (choice == '3' && connected >= 1)),
        menu_action(powered, connected, choice) == MenuAction::Scan <==> powered && choice == '6',
        menu_action(powered, connected, choice) == MenuAction::TerminateAdapter <==> powered
            && choice == 't',
        menu_action(powered, connected, choice) == MenuAction::RestartAdapter <==> powered
            && choice == 'r',
        menu_action(powered, connected, choice) == MenuAction::Quit <==> (choice == 'q' || choice
            == 'Q'),
        menu_action(powered, connected, choice) == MenuAction::Ignore <==> powered && ((choice
            == '3' && connected == 0) || choice == 's' || choice == 'S'),
{
}


/// Every key that the menu takes up (other than `Q`, the second key for
/// quitting) is the key of a listed option: the menu hides no action.
pub proof fn law_accepted_keys_are_listed(powered: bool, connected: nat, choice: char)
    requires
        menu_action(powered, connected, choice) != MenuAction::Invalid,
        menu_action(powered, connected, choice) != MenuAction::Ignore,
        choice != 'Q',
    ensures
        exists|k: int|
            0 <= k < offered_options(powered, connected).len() && option_key(
                #[trigger] offered_options(powered, connected)[k],
            ) == choice,
{
    let opts = offered_options(powered, connected);
    if powered {
        if connected > 0 {
            assert(opts =~= seq![
                MenuOption::TurnOff,
                MenuOption::Disconnect,
                MenuOption::ConnectAnother,
                MenuOption::Scan,
                MenuOption::Terminate,
                MenuOption::Restart,
                MenuOption::Quit,
            ]);
            if choice == '1' { assert(option_key(opts[0]) == choice); }
            else if choice == '2' { assert(option_key(opts[1]) == choice); }
            else if choice == '3' { assert(option_key(opts[2]) == choice); }
            else if choice == '6' { assert(option_key(opts[3]) == choice); }
            else if choice == 't' { assert(option_key(opts[4]) == choice); }
            else if choice == 'r' { assert(option_key(opts[5]) == choice); }
            else { assert(option_key(opts[6]) == choice); }
        } else {
            assert(opts =~= seq![
                MenuOption::TurnOff,
                MenuOption::Connect,
                MenuOption::Scan,
                MenuOption::Terminate,
                MenuOption::Restart,
                MenuOption::Quit,
            ]);
            if choice == '1' { assert(option_key(opts[0]) == choice); }
            else if choice == '2' { assert(option_key(opts[1]) == choice); }
            else if choice == '6' { assert(option_key(opts[2]) == choice); }
            else if choice == 't' { assert(option_key(opts[3]) == choice); }
            else if choice == 'r' { assert(option_key(opts[4]) == choice); }
            else { assert(option_key(opts[5]) == choice); }
        }
    } else {
        assert(opts =~= seq![MenuOption::TurnOn, MenuOption::Quit]);
        if choice == '1' { assert(option_key(opts[0]) == choice); }
        else { assert(option_key(opts[1]) == choice); }
    }
}

/// A key picks position `i` exactly when it is the digit for `i + 1` and
/// `i` is within the list; a typed input picks `i` exactly when, trimmed,
/// it reads as the number `i + 1` and `i` is within the list.
pub proof fn law_picks_by_number(choice: char, input: Seq<char>, count: nat, i: nat)
    ensures
        digit_pick(choice, count) == Some(i) <==> (i < count && i < 9 && choice as u32 == '1' as u32
            + i),
        number_pick(input, count) == Some(i) <==> (i < count && parse_usize(trim(input)) is Some
            && parse_usize(trim(input))->Some_0 == i + 1),
{
}

} // verus!
