use vstd::prelude::*;

use crate::engine::{Engine, MouseDevice};
use crate::text::{decimal, decimal_string};

verus! {

/// Command ID of the "exit" menu item.
pub const CMD_EXIT: usize = 1;

/// Command ID of the "open config file" menu item.
pub const CMD_OPEN_CONFIG: usize = 2;

/// Command ID of the first device's menu item; the device at position `i` has
/// `CMD_DEVICE_BASE + i`.
pub const CMD_DEVICE_BASE: usize = 100;

/// Tray icon notification of a left-button release.
pub const WM_LBUTTONUP: u32 = 0x0202;

/// Tray icon notification of a right-button release.
pub const WM_RBUTTONUP: u32 = 0x0205;

/// One device in the tray menu: its path, its name, and whether scrolling is on for it.
pub struct MenuItem {
    pub path: String,
    pub name: String,
    pub enabled: bool,
}

/// What a chosen tray menu command asks for.
pub enum MenuCommand {
    /// Quit the tool.
    Exit,
    /// Open the settings file.
    OpenConfig,
    /// Flip whether scrolling is on for the device at this position of the menu.
    ToggleDevice(usize),
    /// Nothing (the menu was dismissed, or the command is unknown).
    Nothing,
}

/// The command that menu ID `cmd` stands for in a menu of `n_items` devices.
pub open spec fn spec_menu_command(cmd: usize, n_items: usize) -> MenuCommand {
    if cmd == CMD_EXIT {
        MenuCommand::Exit
    } else if cmd == CMD_OPEN_CONFIG {
        MenuCommand::OpenConfig
    } else if CMD_DEVICE_BASE <= cmd < CMD_DEVICE_BASE + n_items {
        MenuCommand::ToggleDevice((cmd - CMD_DEVICE_BASE) as usize)
    } else {
        MenuCommand::Nothing
    }
}

/// Decodes the ID of the chosen tray menu command.
pub fn decode_menu_command(cmd: usize, n_items: usize) -> (r: MenuCommand)
    ensures
        r == spec_menu_command(cmd, n_items),
{
    if cmd == CMD_EXIT {
        MenuCommand::Exit
    } else if cmd == CMD_OPEN_CONFIG {
        MenuCommand::OpenConfig
    } else if cmd >= CMD_DEVICE_BASE && cmd - CMD_DEVICE_BASE < n_items {
        MenuCommand::ToggleDevice(cmd - CMD_DEVICE_BASE)
    } else {
        MenuCommand::Nothing
    }
}

/// The menu ID of the device at position `i`.
pub fn device_command_id(i: usize) -> (r: usize)
    requires
        i <= usize::MAX - CMD_DEVICE_BASE,
    ensures
        r == CMD_DEVICE_BASE + i,
{
    CMD_DEVICE_BASE + i
}

/// Whether a tray icon notification opens the menu: a left or right button release.
pub fn opens_menu(event: u32) -> (r: bool)
    ensures
        r == (event == WM_LBUTTONUP || event == WM_RBUTTONUP),
{
    event == WM_LBUTTONUP || event == WM_RBUTTONUP
}

/// How many of `names` equal `n`.
pub open spec fn count_name(names: Seq<Seq<char>>, n: Seq<char>) -> nat
    decreases names.len(),
{
    if names.len() == 0 {
        0
    } else {
        count_name(names.drop_last(), n) + if names.last() == n {
            1nat
        } else {
            0nat
        }
    }
}

/// The menu label of the device at position `i`: its name, and where another device
/// has the same name, ` #` and the number of devices with that name up to this one.
pub open spec fn spec_label(names: Seq<Seq<char>>, i: int) -> Seq<char> {
    let name = names[i];
    if count_name(names, name) > 1 {
        name + seq![' ', '#'] + decimal(count_name(names.take(i + 1), name))
    } else {
        name
    }
}

/// The characters of each name.
pub open spec fn name_views(names: Seq<String>) -> Seq<Seq<char>> {
    names.map_values(|s: String| s@)
}

/// How many of the first `upto` names equal `target`.
fn count_equal(names: &Vec<String>, upto: usize, target: &String) -> (r: usize)
    requires
        upto <= names@.len(),
    ensures
        r == count_name(name_views(names@).take(upto as int), target@),
{
    let mut c: usize = 0;
    let mut j: usize = 0;
    while j < upto
        invariant
            upto <= names@.len(),
            j <= upto,
            c <= j,
            c == count_name(name_views(names@).take(j as int), target@),
        decreases upto - j,
    {
        let ghost v = name_views(names@);
        assert(v.take(j + 1).drop_last() =~= v.take(j as int));
        if names[j] == *target {
            c += 1;
        }
        j += 1;
    }
    c
}

/// The menu labels of devices with these names; devices that share a name are numbered.
pub fn menu_labels(names: &Vec<String>) -> (r: Vec<String>)
    ensures
        r@.len() == names@.len(),
        forall|i: int| 0 <= i < r@.len() ==> #[trigger] r@[i]@ == spec_label(name_views(names@), i),
{
    let n = names.len();
    let mut labels: Vec<String> = Vec::new();
    let mut i: usize = 0;
    while i < n
        invariant
            n == names@.len(),
            i <= n,
            labels@.len() == i,
            forall|k: int| 0 <= k < i ==> #[trigger] labels@[k]@ == spec_label(name_views(names@), k),
        decreases n - i,
    {
        let ghost v = name_views(names@);
        assert(v.take(n as int) =~= v);
        let total = count_equal(names, n, &names[i]);
        if total > 1 {
            let nth = count_equal(names, i + 1, &names[i]);
            let mut label = names[i].clone();
            label.append(" #");
            label.append(decimal_string(nth).as_str());
            proof {
                reveal_strlit(" #");
            }
            assert(label@ =~= spec_label(v, i as int));
            labels.push(label);
        } else {
            labels.push(names[i].clone());
        }
        i += 1;
    }
    labels
}

/// The menu entry of one device, given the settings.
pub open spec fn spec_menu_item(
    cfg: Map<Seq<char>, (bool, Seq<char>)>,
    d: MouseDevice,
) -> (Seq<char>, Seq<char>, bool) {
    (d.path@, d.name@, cfg.contains_key(d.path@) && cfg[d.path@].0)
}

impl Engine {
    /// The connected devices as the tray menu lists them, in order: path, name, and
    /// whether scrolling is on for the path.
    pub fn menu_items(&self) -> (r: Vec<MenuItem>)
        ensures
            r@.len() == self.connected().len(),
            forall|i: int|
                0 <= i < r@.len() ==> (#[trigger] r@[i].path@, r@[i].name@, r@[i].enabled)
                    == spec_menu_item(self.configuration().devices@, self.connected()[i]),
    {
        let devices = self.devices();
        let config = self.config();
        let n = devices.len();
        let mut items: Vec<MenuItem> = Vec::new();
        let mut i: usize = 0;
        while i < n
            invariant
                n == devices@.len(),
                devices@ == self.connected(),
                *config == self.configuration(),
                i <= n,
                items@.len() == i,
                forall|k: int|
                    0 <= k < i ==> (#[trigger] items@[k].path@, items@[k].name@, items@[k].enabled)
                        == spec_menu_item(self.configuration().devices@, self.connected()[k]),
            decreases n - i,
        {
            let d = &devices[i];
            let enabled = match config.devices.get(d.path.as_str()) {
                Some(c) => c.enabled,
                None => false,
            };
            items.push(MenuItem { path: d.path.clone(), name: d.name.clone(), enabled });
            i += 1;
        }
        items
    }
}

} // verus!
