//! Canonical key tables.
//!
//! The names are exactly the ones the settings file stores; from each name come
//! the virtual-key that the keyboard hook compares and the scancode that the
//! engine sends (the game reads scancodes; virtual-keys never reach it).

use vstd::prelude::*;
use crate::data::Dir;
use crate::text;

verus! {

/// Win32 virtual-key.
pub type Vk = u16;

/// A set-1 scancode, as `SendInput` needs it.
#[derive(Debug, Clone, Copy, PartialEq, Eq, Structural)]
pub struct Scan {
    pub code: u16,
    /// Keys of the extended block need `KEYEVENTF_EXTENDEDKEY`.
    pub extended: bool,
}

impl Scan {
    pub fn plain(code: u16) -> (s: Scan)
        ensures
            s == (Scan { code, extended: false }),
    {
        Scan { code, extended: false }
    }

    pub fn ext(code: u16) -> (s: Scan)
        ensures
            s == (Scan { code, extended: true }),
    {
        Scan { code, extended: true }
    }
}

/// Esc is not bindable: it cancels the shortcut capture.
pub const VK_ESCAPE: Vk = 0x1B;

/// Pure-modifier virtual-keys, which the capture ignores and the hook never fires on.
pub open spec fn modifier_vks() -> Seq<Vk> {
    seq![0x10u16, 0x11, 0x12, 0x5B, 0x5C, 0xA0, 0xA1, 0xA2, 0xA3, 0xA4, 0xA5]
}

/// Canonical name to virtual-key. Names and virtual-keys are both unique.
pub open spec fn key_table() -> Seq<(Seq<char>, Vk)> {
    seq![
        (seq!['F', '1'], 0x70),
        (seq!['F', '2'], 0x71),
        (seq!['F', '3'], 0x72),
        (seq!['F', '4'], 0x73),
        (seq!['F', '5'], 0x74),
        (seq!['F', '6'], 0x75),
        (seq!['F', '7'], 0x76),
        (seq!['F', '8'], 0x77),
        (seq!['F', '9'], 0x78),
        (seq!['F', '1', '0'], 0x79),
        (seq!['F', '1', '1'], 0x7A),
        (seq!['F', '1', '2'], 0x7B),
        (seq!['0'], 0x30),
        (seq!['1'], 0x31),
        (seq!['2'], 0x32),
        (seq!['3'], 0x33),
        (seq!['4'], 0x34),
        (seq!['5'], 0x35),
        (seq!['6'], 0x36),
        (seq!['7'], 0x37),
        (seq!['8'], 0x38),
        (seq!['9'], 0x39),
        (seq!['A'], 0x41),
        (seq!['B'], 0x42),
        (seq!['C'], 0x43),
        (seq!['D'], 0x44),
        (seq!['E'], 0x45),
        (seq!['F'], 0x46),
        (seq!['G'], 0x47),
        (seq!['H'], 0x48),
        (seq!['I'], 0x49),
        (seq!['J'], 0x4A),
        (seq!['K'], 0x4B),
        (seq!['L'], 0x4C),
        (seq!['M'], 0x4D),
        (seq!['N'], 0x4E),
        (seq!['O'], 0x4F),
        (seq!['P'], 0x50),
        (seq!['Q'], 0x51),
        (seq!['R'], 0x52),
        (seq!['S'], 0x53),
        (seq!['T'], 0x54),
        (seq!['U'], 0x55),
        (seq!['V'], 0x56),
        (seq!['W'], 0x57),
        (seq!['X'], 0x58),
        (seq!['Y'], 0x59),
        (seq!['Z'], 0x5A),
        (seq!['N', 'u', 'm', 'p', 'a', 'd', '0'], 0x60),
        (seq!['N', 'u', 'm', 'p', 'a', 'd', '1'], 0x61),
        (seq!['N', 'u', 'm', 'p', 'a', 'd', '2'], 0x62),
        (seq!['N', 'u', 'm', 'p', 'a', 'd', '3'], 0x63),
        (seq!['N', 'u', 'm', 'p', 'a', 'd', '4'], 0x64),
        (seq!['N', 'u', 'm', 'p', 'a', 'd', '5'], 0x65),
        (seq!['N', 'u', 'm', 'p', 'a', 'd', '6'], 0x66),
        (seq!['N', 'u', 'm', 'p', 'a', 'd', '7'], 0x67),
        (seq!['N', 'u', 'm', 'p', 'a', 'd', '8'], 0x68),
        (seq!['N', 'u', 'm', 'p', 'a', 'd', '9'], 0x69),
        (seq!['U', 'p'], 0x26),
        (seq!['D', 'o', 'w', 'n'], 0x28),
        (seq!['L', 'e', 'f', 't'], 0x25),
        (seq!['R', 'i', 'g', 'h', 't'], 0x27),
        (seq!['S', 'p', 'a', 'c', 'e'], 0x20),
        (seq!['T', 'a', 'b'], 0x09),
        (seq!['B', 'a', 'c', 'k', 's', 'p', 'a', 'c', 'e'], 0x08),
        (seq!['D', 'e', 'l', 'e', 't', 'e'], 0x2E),
        (seq!['H', 'o', 'm', 'e'], 0x24),
        (seq!['E', 'n', 'd'], 0x23),
        (seq!['I', 'n', 's', 'e', 'r', 't'], 0x2D),
        (seq!['P', 'a', 'g', 'e', 'U', 'p'], 0x21),
        (seq!['P', 'a', 'g', 'e', 'D', 'o', 'w', 'n'], 0x22),
        (seq!['L', 'e', 'f', 't', 'S', 'h', 'i', 'f', 't'], 0xA0),
        (seq!['L', 'e', 'f', 't', 'C', 'o', 'n', 't', 'r', 'o', 'l'], 0xA2),
        (seq!['L', 'e', 'f', 't', 'A', 'l', 't'], 0xA4),
        (seq!['E', 'q', 'u', 'a', 'l'], 0xBB),
        (seq!['M', 'i', 'n', 'u', 's'], 0xBD),
    ]
}

/// The table that the lookups walk, in the same order as [`key_table`].
pub fn keys() -> (t: Vec<(&'static str, Vk)>)
    ensures
        t@.len() == key_table().len(),
        forall|i: int| 0 <= i < t@.len() ==> (#[trigger] t@[i]).0@ == key_table()[i].0 && t@[i].1 == key_table()[i].1,
{
    let t = vec![
        ("F1", 0x70),
        ("F2", 0x71),
        ("F3", 0x72),
        ("F4", 0x73),
        ("F5", 0x74),
        ("F6", 0x75),
        ("F7", 0x76),
        ("F8", 0x77),
        ("F9", 0x78),
        ("F10", 0x79),
        ("F11", 0x7A),
        ("F12", 0x7B),
        ("0", 0x30),
        ("1", 0x31),
        ("2", 0x32),
        ("3", 0x33),
        ("4", 0x34),
        ("5", 0x35),
        ("6", 0x36),
        ("7", 0x37),
        ("8", 0x38),
        ("9", 0x39),
        ("A", 0x41),
        ("B", 0x42),
        ("C", 0x43),
        ("D", 0x44),
        ("E", 0x45),
        ("F", 0x46),
        ("G", 0x47),
        ("H", 0x48),
        ("I", 0x49),
        ("J", 0x4A),
        ("K", 0x4B),
        ("L", 0x4C),
        ("M", 0x4D),
        ("N", 0x4E),
        ("O", 0x4F),
        ("P", 0x50),
        ("Q", 0x51),
        ("R", 0x52),
        ("S", 0x53),
        ("T", 0x54),
        ("U", 0x55),
        ("V", 0x56),
        ("W", 0x57),
        ("X", 0x58),
        ("Y", 0x59),
        ("Z", 0x5A),
        ("Numpad0", 0x60),
        ("Numpad1", 0x61),
        ("Numpad2", 0x62),
        ("Numpad3", 0x63),
        ("Numpad4", 0x64),
        ("Numpad5", 0x65),
        ("Numpad6", 0x66),
        ("Numpad7", 0x67),
        ("Numpad8", 0x68),
        ("Numpad9", 0x69),
        ("Up", 0x26),
        ("Down", 0x28),
        ("Left", 0x25),
        ("Right", 0x27),
        ("Space", 0x20),
        ("Tab", 0x09),
        ("Backspace", 0x08),
        ("Delete", 0x2E),
        ("Home", 0x24),
        ("End", 0x23),
        ("Insert", 0x2D),
        ("PageUp", 0x21),
        ("PageDown", 0x22),
        ("LeftShift", 0xA0),
        ("LeftControl", 0xA2),
        ("LeftAlt", 0xA4),
        ("Equal", 0xBB),
        ("Minus", 0xBD),
    ];
    proof {
        reveal_strlit("F1");
        reveal_strlit("F2");
        reveal_strlit("F3");
        reveal_strlit("F4");
        reveal_strlit("F5");
        reveal_strlit("F6");
        reveal_strlit("F7");
        reveal_strlit("F8");
        reveal_strlit("F9");
        reveal_strlit("F10");
        reveal_strlit("F11");
        reveal_strlit("F12");
        reveal_strlit("0");
        reveal_strlit("1");
        reveal_strlit("2");
        reveal_strlit("3");
        reveal_strlit("4");
        reveal_strlit("5");
        reveal_strlit("6");
        reveal_strlit("7");
        reveal_strlit("8");
        reveal_strlit("9");
        reveal_strlit("A");
        reveal_strlit("B");
        reveal_strlit("C");
        reveal_strlit("D");
        reveal_strlit("E");
        reveal_strlit("F");
        reveal_strlit("G");
        reveal_strlit("H");
        reveal_strlit("I");
        reveal_strlit("J");
        reveal_strlit("K");
        reveal_strlit("L");
        reveal_strlit("M");
        reveal_strlit("N");
        reveal_strlit("O");
        reveal_strlit("P");
        reveal_strlit("Q");
        reveal_strlit("R");
        reveal_strlit("S");
        reveal_strlit("T");
        reveal_strlit("U");
        reveal_strlit("V");
        reveal_strlit("W");
        reveal_strlit("X");
        reveal_strlit("Y");
        reveal_strlit("Z");
        reveal_strlit("Numpad0");
        reveal_strlit("Numpad1");
        reveal_strlit("Numpad2");
        reveal_strlit("Numpad3");
        reveal_strlit("Numpad4");
        reveal_strlit("Numpad5");
        reveal_strlit("Numpad6");
        reveal_strlit("Numpad7");
        reveal_strlit("Numpad8");
        reveal_strlit("Numpad9");
        reveal_strlit("Up");
        reveal_strlit("Down");
        reveal_strlit("Left");
        reveal_strlit("Right");
        reveal_strlit("Space");
        reveal_strlit("Tab");
        reveal_strlit("Backspace");
        reveal_strlit("Delete");
        reveal_strlit("Home");
        reveal_strlit("End");
        reveal_strlit("Insert");
        reveal_strlit("PageUp");
        reveal_strlit("PageDown");
        reveal_strlit("LeftShift");
        reveal_strlit("LeftControl");
        reveal_strlit("LeftAlt");
        reveal_strlit("Equal");
        reveal_strlit("Minus");
    }
    t
}

/// Virtual-key of the first entry of `t` named `name`.
pub open spec fn find_vk(t: Seq<(Seq<char>, Vk)>, name: Seq<char>) -> Option<Vk>
    decreases t.len(),
{
    if t.len() == 0 {
        None
    } else if t[0].0 == name {
        Some(t[0].1)
    } else {
        find_vk(t.drop_first(), name)
    }
}

/// Name of the first entry of `t` whose virtual-key is `vk`.
pub open spec fn find_name(t: Seq<(Seq<char>, Vk)>, vk: Vk) -> Option<Seq<char>>
    decreases t.len(),
{
    if t.len() == 0 {
        None
    } else if t[0].1 == vk {
        Some(t[0].0)
    } else {
        find_name(t.drop_first(), vk)
    }
}

/// Virtual-key of a canonical name.
pub open spec fn spec_vk_from_name(name: Seq<char>) -> Option<Vk> {
    find_vk(key_table(), name)
}

/// Canonical name of a virtual-key.
pub open spec fn spec_name_from_vk(vk: Vk) -> Option<Seq<char>> {
    find_name(key_table(), vk)
}

/// Virtual-key of a canonical name.
pub fn vk_from_name(name: &str) -> (r: Option<Vk>)
    ensures
        r == spec_vk_from_name(name@),
{
    let t = keys();
    let mut i: usize = 0;
    assert(key_table().skip(0) =~= key_table());
    while i < t.len()
        invariant
            i <= t@.len(),
            t@.len() == key_table().len(),
            forall|k: int| 0 <= k < t@.len() ==> (#[trigger] t@[k]).0@ == key_table()[k].0 && t@[k].1 == key_table()[k].1,
            spec_vk_from_name(name@) == find_vk(key_table().skip(i as int), name@),
        decreases t.len() - i,
    {
        assert(key_table().skip(i as int).drop_first() =~= key_table().skip(i + 1));
        if text::str_eq(t[i].0, name) {
            return Some(t[i].1);
        }
        i += 1;
    }
    None
}

/// Canonical name of a virtual-key.
pub fn name_from_vk(vk: Vk) -> (r: Option<&'static str>)
    ensures
        r matches Some(n) ==> spec_name_from_vk(vk) == Some(n@),
        r is None ==> spec_name_from_vk(vk) is None,
{
    let t = keys();
    let mut i: usize = 0;
    assert(key_table().skip(0) =~= key_table());
    while i < t.len()
        invariant
            i <= t@.len(),
            t@.len() == key_table().len(),
            forall|k: int| 0 <= k < t@.len() ==> (#[trigger] t@[k]).0@ == key_table()[k].0 && t@[k].1 == key_table()[k].1,
            spec_name_from_vk(vk) == find_name(key_table().skip(i as int), vk),
        decreases t.len() - i,
    {
        assert(key_table().skip(i as int).drop_first() =~= key_table().skip(i + 1));
        if t[i].1 == vk {
            return Some(t[i].0);
        }
        i += 1;
    }
    None
}

/// Pure modifiers never become shortcuts: the capture ignores them.
pub fn is_modifier_vk(vk: Vk) -> (r: bool)
    ensures
        r == modifier_vks().contains(vk),
{
    let m: [Vk; 11] = [0x10, 0x11, 0x12, 0x5B, 0x5C, 0xA0, 0xA1, 0xA2, 0xA3, 0xA4, 0xA5];
    assert(m@ =~= modifier_vks());
    let mut i: usize = 0;
    while i < 11
        invariant
            i <= 11,
            m@ == modifier_vks(),
            forall|k: int| 0 <= k < i ==> m@[k] != vk,
        decreases 11 - i,
    {
        if m[i] == vk {
            assert(m@[i as int] == vk);
            return true;
        }
        i += 1;
    }
    false
}

/// In-game modifier scancode of a modifier name; an unknown name falls back to
/// the game default (Ctrl).
pub open spec fn spec_modifier_scan(name: Seq<char>) -> Scan {
    if name == seq!['L', 'e', 'f', 't', 'A', 'l', 't'] {
        Scan { code: 0x38, extended: false }
    } else if name == seq!['E', 'q', 'u', 'a', 'l'] {
        Scan { code: 0x0D, extended: false }
    } else if name == seq!['M', 'i', 'n', 'u', 's'] {
        Scan { code: 0x0C, extended: false }
    } else {
        Scan { code: 0x1D, extended: false }
    }
}

/// Stratagem menu keys the game accepts, in the order the UI shows them.
pub fn modifier_keys() -> (r: [&'static str; 4])
    ensures
        r@[0]@ == seq!['L', 'e', 'f', 't', 'C', 'o', 'n', 't', 'r', 'o', 'l'],
        r@[1]@ == seq!['L', 'e', 'f', 't', 'A', 'l', 't'],
        r@[2]@ == seq!['E', 'q', 'u', 'a', 'l'],
        r@[3]@ == seq!['M', 'i', 'n', 'u', 's'],
{
    proof {
        reveal_strlit("LeftControl");
        reveal_strlit("LeftAlt");
        reveal_strlit("Equal");
        reveal_strlit("Minus");
    }
    ["LeftControl", "LeftAlt", "Equal", "Minus"]
}

/// Scancode of the in-game modifier. An invalid name falls back to the game default (Ctrl).
pub fn modifier_scan(name: &str) -> (s: Scan)
    ensures
        s == spec_modifier_scan(name@),
{
    proof {
        reveal_strlit("LeftAlt");
        reveal_strlit("Equal");
        reveal_strlit("Minus");
        assert("LeftAlt"@ =~= seq!['L', 'e', 'f', 't', 'A', 'l', 't']);
        assert("Equal"@ =~= seq!['E', 'q', 'u', 'a', 'l']);
        assert("Minus"@ =~= seq!['M', 'i', 'n', 'u', 's']);
    }
    if text::str_eq(name, "LeftAlt") {
        Scan::plain(0x38)
    } else if text::str_eq(name, "Equal") {
        Scan::plain(0x0D)
    } else if text::str_eq(name, "Minus") {
        Scan::plain(0x0C)
    } else {
        Scan::plain(0x1D)
    }
}

/// W S A D scancodes, indexed by [`Dir`].
pub open spec fn spec_wasd() -> Seq<Scan> {
    seq![
        Scan { code: 0x11, extended: false },
        Scan { code: 0x1F, extended: false },
        Scan { code: 0x1E, extended: false },
        Scan { code: 0x20, extended: false },
    ]
}

/// Arrow scancodes of the extended block, indexed by [`Dir`].
pub open spec fn spec_arrows() -> Seq<Scan> {
    seq![
        Scan { code: 0x48, extended: true },
        Scan { code: 0x50, extended: true },
        Scan { code: 0x4B, extended: true },
        Scan { code: 0x4D, extended: true },
    ]
}

pub fn wasd() -> (r: [Scan; 4])
    ensures
        r@ == spec_wasd(),
{
    let r = [Scan::plain(0x11), Scan::plain(0x1F), Scan::plain(0x1E), Scan::plain(0x20)];
    assert(r@ =~= spec_wasd());
    r
}

pub fn arrows() -> (r: [Scan; 4])
    ensures
        r@ == spec_arrows(),
{
    let r = [Scan::ext(0x48), Scan::ext(0x50), Scan::ext(0x4B), Scan::ext(0x4D)];
    assert(r@ =~= spec_arrows());
    r
}

/// Scancode of a codex step, following the user's arrow mode.
pub open spec fn spec_direction_scan(dir: Dir, use_arrows: bool) -> Scan {
    if use_arrows {
        spec_arrows()[dir.spec_index() as int]
    } else {
        spec_wasd()[dir.spec_index() as int]
    }
}

/// Scancode of a codex step, following the user's arrow mode.
pub fn direction_scan(dir: Dir, use_arrows: bool) -> (s: Scan)
    ensures
        s == spec_direction_scan(dir, use_arrows),
{
    if use_arrows {
        arrows()[dir.index()]
    } else {
        wasd()[dir.index()]
    }
}


// --- The round trip of names and virtual-keys ---

/// Place of a virtual-key in [`key_table`], or -1.
pub open spec fn vk_slot(v: Vk) -> int {
    if v == 0x70u16 { 0 } else if v == 0x71u16 { 1 } else if v == 0x72u16 { 2 } else if v == 0x73u16 { 3 } else if v == 0x74u16 { 4 } else if v == 0x75u16 { 5 } else if v == 0x76u16 { 6 } else if v == 0x77u16 { 7 } else if v == 0x78u16 { 8 } else if v == 0x79u16 { 9 } else if v == 0x7Au16 { 10 } else if v == 0x7Bu16 { 11 } else if v == 0x30u16 { 12 } else if v == 0x31u16 { 13 } else if v == 0x32u16 { 14 } else if v == 0x33u16 { 15 } else if v == 0x34u16 { 16 } else if v == 0x35u16 { 17 } else if v == 0x36u16 { 18 } else if v == 0x37u16 { 19 } else if v == 0x38u16 { 20 } else if v == 0x39u16 { 21 } else if v == 0x41u16 { 22 } else if v == 0x42u16 { 23 } else if v == 0x43u16 { 24 } else if v == 0x44u16 { 25 } else if v == 0x45u16 { 26 } else if v == 0x46u16 { 27 } else if v == 0x47u16 { 28 } else if v == 0x48u16 { 29 } else if v == 0x49u16 { 30 } else if v == 0x4Au16 { 31 } else if v == 0x4Bu16 { 32 } else if v == 0x4Cu16 { 33 } else if v == 0x4Du16 { 34 } else if v == 0x4Eu16 { 35 } else if v == 0x4Fu16 { 36 } else if v == 0x50u16 { 37 } else if v == 0x51u16 { 38 } else if v == 0x52u16 { 39 } else if v == 0x53u16 { 40 } else if v == 0x54u16 { 41 } else if v == 0x55u16 { 42 } else if v == 0x56u16 { 43 } else if v == 0x57u16 { 44 } else if v == 0x58u16 { 45 } else if v == 0x59u16 { 46 } else if v == 0x5Au16 { 47 } else if v == 0x60u16 { 48 } else if v == 0x61u16 { 49 } else if v == 0x62u16 { 50 } else if v == 0x63u16 { 51 } else if v == 0x64u16 { 52 } else if v == 0x65u16 { 53 } else if v == 0x66u16 { 54 } else if v == 0x67u16 { 55 } else if v == 0x68u16 { 56 } else if v == 0x69u16 { 57 } else if v == 0x26u16 { 58 } else if v == 0x28u16 { 59 } else if v == 0x25u16 { 60 } else if v == 0x27u16 { 61 } else if v == 0x20u16 { 62 } else if v == 0x09u16 { 63 } else if v == 0x08u16 { 64 } else if v == 0x2Eu16 { 65 } else if v == 0x24u16 { 66 } else if v == 0x23u16 { 67 } else if v == 0x2Du16 { 68 } else if v == 0x21u16 { 69 } else if v == 0x22u16 { 70 } else if v == 0xA0u16 { 71 } else if v == 0xA2u16 { 72 } else if v == 0xA4u16 { 73 } else if v == 0xBBu16 { 74 } else if v == 0xBDu16 { 75 } else { -1 }
}

/// Place of a name in [`key_table`], or -1.
pub open spec fn name_slot(n: Seq<char>) -> int {
    if n.len() == 2 && n[0] == 'F' && n[1] == '1' { 0 } else if n.len() == 2 && n[0] == 'F' && n[1] == '2' { 1 } else if n.len() == 2 && n[0] == 'F' && n[1] == '3' { 2 } else if n.len() == 2 && n[0] == 'F' && n[1] == '4' { 3 } else if n.len() == 2 && n[0] == 'F' && n[1] == '5' { 4 } else if n.len() == 2 && n[0] == 'F' && n[1] == '6' { 5 } else if n.len() == 2 && n[0] == 'F' && n[1] == '7' { 6 } else if n.len() == 2 && n[0] == 'F' && n[1] == '8' { 7 } else if n.len() == 2 && n[0] == 'F' && n[1] == '9' { 8 } else if n.len() == 3 && n[0] == 'F' && n[1] == '1' && n[2] == '0' { 9 } else if n.len() == 3 && n[0] == 'F' && n[1] == '1' && n[2] == '1' { 10 } else if n.len() == 3 && n[0] == 'F' && n[1] == '1' && n[2] == '2' { 11 } else if n.len() == 1 && n[0] == '0' { 12 } else if n.len() == 1 && n[0] == '1' { 13 } else if n.len() == 1 && n[0] == '2' { 14 } else if n.len() == 1 && n[0] == '3' { 15 } else if n.len() == 1 && n[0] == '4' { 16 } else if n.len() == 1 && n[0] == '5' { 17 } else if n.len() == 1 && n[0] == '6' { 18 } else if n.len() == 1 && n[0] == '7' { 19 } else if n.len() == 1 && n[0] == '8' { 20 } else if n.len() == 1 && n[0] == '9' { 21 } else if n.len() == 1 && n[0] == 'A' { 22 } else if n.len() == 1 && n[0] == 'B' { 23 } else if n.len() == 1 && n[0] == 'C' { 24 } else if n.len() == 1 && n[0] == 'D' { 25 } else if n.len() == 1 && n[0] == 'E' { 26 } else if n.len() == 1 && n[0] == 'F' { 27 } else if n.len() == 1 && n[0] == 'G' { 28 } else if n.len() == 1 && n[0] == 'H' { 29 } else if n.len() == 1 && n[0] == 'I' { 30 } else if n.len() == 1 && n[0] == 'J' { 31 } else if n.len() == 1 && n[0] == 'K' { 32 } else if n.len() == 1 && n[0] == 'L' { 33 } else if n.len() == 1 && n[0] == 'M' { 34 } else if n.len() == 1 && n[0] == 'N' { 35 } else if n.len() == 1 && n[0] == 'O' { 36 } else if n.len() == 1 && n[0] == 'P' { 37 } else if n.len() == 1 && n[0] == 'Q' { 38 } else if n.len() == 1 && n[0] == 'R' { 39 } else if n.len() == 1 && n[0] == 'S' { 40 } else if n.len() == 1 && n[0] == 'T' { 41 } else if n.len() == 1 && n[0] == 'U' { 42 } else if n.len() == 1 && n[0] == 'V' { 43 } else if n.len() == 1 && n[0] == 'W' { 44 } else if n.len() == 1 && n[0] == 'X' { 45 } else if n.len() == 1 && n[0] == 'Y' { 46 } else if n.len() == 1 && n[0] == 'Z' { 47 } else if n.len() == 7 && n[0] == 'N' && n[1] == 'u' && n[2] == 'm' && n[3] == 'p' && n[4] == 'a' && n[5] == 'd' && n[6] == '0' { 48 } else if n.len() == 7 && n[0] == 'N' && n[1] == 'u' && n[2] == 'm' && n[3] == 'p' && n[4] == 'a' && n[5] == 'd' && n[6] == '1' { 49 } else if n.len() == 7 && n[0] == 'N' && n[1] == 'u' && n[2] == 'm' && n[3] == 'p' && n[4] == 'a' && n[5] == 'd' && n[6] == '2' { 50 } else if n.len() == 7 && n[0] == 'N' && n[1] == 'u' && n[2] == 'm' && n[3] == 'p' && n[4] == 'a' && n[5] == 'd' && n[6] == '3' { 51 } else if n.len() == 7 && n[0] == 'N' && n[1] == 'u' && n[2] == 'm' && n[3] == 'p' && n[4] == 'a' && n[5] == 'd' && n[6] == '4' { 52 } else if n.len() == 7 && n[0] == 'N' && n[1] == 'u' && n[2] == 'm' && n[3] == 'p' && n[4] == 'a' && n[5] == 'd' && n[6] == '5' { 53 } else if n.len() == 7 && n[0] == 'N' && n[1] == 'u' && n[2] == 'm' && n[3] == 'p' && n[4] == 'a' && n[5] == 'd' && n[6] == '6' { 54 } else if n.len() == 7 && n[0] == 'N' && n[1] == 'u' && n[2] == 'm' && n[3] == 'p' && n[4] == 'a' && n[5] == 'd' && n[6] == '7' { 55 } else if n.len() == 7 && n[0] == 'N' && n[1] == 'u' && n[2] == 'm' && n[3] == 'p' && n[4] == 'a' && n[5] == 'd' && n[6] == '8' { 56 } else if n.len() == 7 && n[0] == 'N' && n[1] == 'u' && n[2] == 'm' && n[3] == 'p' && n[4] == 'a' && n[5] == 'd' && n[6] == '9' { 57 } else if n.len() == 2 && n[0] == 'U' && n[1] == 'p' { 58 } else if n.len() == 4 && n[0] == 'D' && n[1] == 'o' && n[2] == 'w' && n[3] == 'n' { 59 } else if n.len() == 4 && n[0] == 'L' && n[1] == 'e' && n[2] == 'f' && n[3] == 't' { 60 } else if n.len() == 5 && n[0] == 'R' && n[1] == 'i' && n[2] == 'g' && n[3] == 'h' && n[4] == 't' { 61 } else if n.len() == 5 && n[0] == 'S' && n[1] == 'p' && n[2] == 'a' && n[3] == 'c' && n[4] == 'e' { 62 } else if n.len() == 3 && n[0] == 'T' && n[1] == 'a' && n[2] == 'b' { 63 } else if n.len() == 9 && n[0] == 'B' && n[1] == 'a' && n[2] == 'c' && n[3] == 'k' && n[4] == 's' && n[5] == 'p' && n[6] == 'a' && n[7] == 'c' && n[8] == 'e' { 64 } else if n.len() == 6 && n[0] == 'D' && n[1] == 'e' && n[2] == 'l' && n[3] == 'e' && n[4] == 't' && n[5] == 'e' { 65 } else if n.len() == 4 && n[0] == 'H' && n[1] == 'o' && n[2] == 'm' && n[3] == 'e' { 66 } else if n.len() == 3 && n[0] == 'E' && n[1] == 'n' && n[2] == 'd' { 67 } else if n.len() == 6 && n[0] == 'I' && n[1] == 'n' && n[2] == 's' && n[3] == 'e' && n[4] == 'r' && n[5] == 't' { 68 } else if n.len() == 6 && n[0] == 'P' && n[1] == 'a' && n[2] == 'g' && n[3] == 'e' && n[4] == 'U' && n[5] == 'p' { 69 } else if n.len() == 8 && n[0] == 'P' && n[1] == 'a' && n[2] == 'g' && n[3] == 'e' && n[4] == 'D' && n[5] == 'o' && n[6] == 'w' && n[7] == 'n' { 70 } else if n.len() == 9 && n[0] == 'L' && n[1] == 'e' && n[2] == 'f' && n[3] == 't' && n[4] == 'S' && n[5] == 'h' && n[6] == 'i' && n[7] == 'f' && n[8] == 't' { 71 } else if n.len() == 11 && n[0] == 'L' && n[1] == 'e' && n[2] == 'f' && n[3] == 't' && n[4] == 'C' && n[5] == 'o' && n[6] == 'n' && n[7] == 't' && n[8] == 'r' && n[9] == 'o' && n[10] == 'l' { 72 } else if n.len() == 7 && n[0] == 'L' && n[1] == 'e' && n[2] == 'f' && n[3] == 't' && n[4] == 'A' && n[5] == 'l' && n[6] == 't' { 73 } else if n.len() == 5 && n[0] == 'E' && n[1] == 'q' && n[2] == 'u' && n[3] == 'a' && n[4] == 'l' { 74 } else if n.len() == 5 && n[0] == 'M' && n[1] == 'i' && n[2] == 'n' && n[3] == 'u' && n[4] == 's' { 75 } else { -1 }
}

proof fn lemma_slots_0()
    ensures
        forall|k: int| 0 <= k < 8 ==> vk_slot(#[trigger] key_table()[k].1) == k && name_slot(key_table()[k].0) == k,
{
    assert forall|k: int| 0 <= k < 8 implies vk_slot(#[trigger] key_table()[k].1) == k && name_slot(key_table()[k].0) == k by {
        if k == 0 {} else if k == 1 {} else if k == 2 {} else if k == 3 {} else if k == 4 {} else if k == 5 {} else if k == 6 {} else if k == 7 {}
    }
}

proof fn lemma_slots_8()
    ensures
        forall|k: int| 8 <= k < 16 ==> vk_slot(#[trigger] key_table()[k].1) == k && name_slot(key_table()[k].0) == k,
{
    assert forall|k: int| 8 <= k < 16 implies vk_slot(#[trigger] key_table()[k].1) == k && name_slot(key_table()[k].0) == k by {
        if k == 8 {} else if k == 9 {} else if k == 10 {} else if k == 11 {} else if k == 12 {} else if k == 13 {} else if k == 14 {} else if k == 15 {}
    }
}

proof fn lemma_slots_16()
    ensures
        forall|k: int| 16 <= k < 24 ==> vk_slot(#[trigger] key_table()[k].1) == k && name_slot(key_table()[k].0) == k,
{
    assert forall|k: int| 16 <= k < 24 implies vk_slot(#[trigger] key_table()[k].1) == k && name_slot(key_table()[k].0) == k by {
        if k == 16 {} else if k == 17 {} else if k == 18 {} else if k == 19 {} else if k == 20 {} else if k == 21 {} else if k == 22 {} else if k == 23 {}
    }
}

proof fn lemma_slots_24()
    ensures
        forall|k: int| 24 <= k < 32 ==> vk_slot(#[trigger] key_table()[k].1) == k && name_slot(key_table()[k].0) == k,
{
    assert forall|k: int| 24 <= k < 32 implies vk_slot(#[trigger] key_table()[k].1) == k && name_slot(key_table()[k].0) == k by {
        if k == 24 {} else if k == 25 {} else if k == 26 {} else if k == 27 {} else if k == 28 {} else if k == 29 {} else if k == 30 {} else if k == 31 {}
    }
}

proof fn lemma_slots_32()
    ensures
        forall|k: int| 32 <= k < 40 ==> vk_slot(#[trigger] key_table()[k].1) == k && name_slot(key_table()[k].0) == k,
{
    assert forall|k: int| 32 <= k < 40 implies vk_slot(#[trigger] key_table()[k].1) == k && name_slot(key_table()[k].0) == k by {
        if k == 32 {} else if k == 33 {} else if k == 34 {} else if k == 35 {} else if k == 36 {} else if k == 37 {} else if k == 38 {} else if k == 39 {}
    }
}

proof fn lemma_slots_40()
    ensures
        forall|k: int| 40 <= k < 48 ==> vk_slot(#[trigger] key_table()[k].1) == k && name_slot(key_table()[k].0) == k,
{
    assert forall|k: int| 40 <= k < 48 implies vk_slot(#[trigger] key_table()[k].1) == k && name_slot(key_table()[k].0) == k by {
        if k == 40 {} else if k == 41 {} else if k == 42 {} else if k == 43 {} else if k == 44 {} else if k == 45 {} else if k == 46 {} else if k == 47 {}
    }
}

proof fn lemma_slots_48()
    ensures
        forall|k: int| 48 <= k < 56 ==> vk_slot(#[trigger] key_table()[k].1) == k && name_slot(key_table()[k].0) == k,
{
    assert forall|k: int| 48 <= k < 56 implies vk_slot(#[trigger] key_table()[k].1) == k && name_slot(key_table()[k].0) == k by {
        if k == 48 {} else if k == 49 {} else if k == 50 {} else if k == 51 {} else if k == 52 {} else if k == 53 {} else if k == 54 {} else if k == 55 {}
    }
}

proof fn lemma_slots_56()
    ensures
        forall|k: int| 56 <= k < 64 ==> vk_slot(#[trigger] key_table()[k].1) == k && name_slot(key_table()[k].0) == k,
{
    assert forall|k: int| 56 <= k < 64 implies vk_slot(#[trigger] key_table()[k].1) == k && name_slot(key_table()[k].0) == k by {
        if k == 56 {} else if k == 57 {} else if k == 58 {} else if k == 59 {} else if k == 60 {} else if k == 61 {} else if k == 62 {} else if k == 63 {}
    }
}

proof fn lemma_slots_64()
    ensures
        forall|k: int| 64 <= k < 72 ==> vk_slot(#[trigger] key_table()[k].1) == k && name_slot(key_table()[k].0) == k,
{
    assert forall|k: int| 64 <= k < 72 implies vk_slot(#[trigger] key_table()[k].1) == k && name_slot(key_table()[k].0) == k by {
        if k == 64 {} else if k == 65 {} else if k == 66 {} else if k == 67 {} else if k == 68 {} else if k == 69 {} else if k == 70 {} else if k == 71 {}
    }
}

proof fn lemma_slots_72()
    ensures
        forall|k: int| 72 <= k < 76 ==> vk_slot(#[trigger] key_table()[k].1) == k && name_slot(key_table()[k].0) == k,
{
    assert forall|k: int| 72 <= k < 76 implies vk_slot(#[trigger] key_table()[k].1) == k && name_slot(key_table()[k].0) == k by {
        if k == 72 {} else if k == 73 {} else if k == 74 {} else if k == 75 {}
    }
}

/// Each entry of the table is found again by its own name and by its own
/// virtual-key: names and virtual-keys are both unique.
proof fn lemma_slots()
    ensures
        key_table().len() == 76,
        forall|k: int| 0 <= k < 76 ==> vk_slot(#[trigger] key_table()[k].1) == k && name_slot(key_table()[k].0) == k,
{
    lemma_slots_0();
    lemma_slots_8();
    lemma_slots_16();
    lemma_slots_24();
    lemma_slots_32();
    lemma_slots_40();
    lemma_slots_48();
    lemma_slots_56();
    lemma_slots_64();
    lemma_slots_72();
}

proof fn lemma_find_vk_entry(t: Seq<(Seq<char>, Vk)>, n: Seq<char>)
    ensures
        find_vk(t, n) matches Some(v) ==> exists|k: int| 0 <= k < t.len() && #[trigger] t[k].0 == n && t[k].1 == v,
    decreases t.len(),
{
    if t.len() > 0 && t[0].0 != n {
        lemma_find_vk_entry(t.drop_first(), n);
        if let Some(v) = find_vk(t, n) {
            let k = choose|k: int| 0 <= k < t.drop_first().len() && #[trigger] t.drop_first()[k].0 == n && t.drop_first()[k].1 == v;
            assert(t[k + 1] == t.drop_first()[k]);
        }
    }
}

proof fn lemma_find_name_entry(t: Seq<(Seq<char>, Vk)>, v: Vk)
    ensures
        find_name(t, v) matches Some(n) ==> exists|k: int| 0 <= k < t.len() && #[trigger] t[k].0 == n && t[k].1 == v,
    decreases t.len(),
{
    if t.len() > 0 && t[0].1 != v {
        lemma_find_name_entry(t.drop_first(), v);
        if let Some(n) = find_name(t, v) {
            let k = choose|k: int| 0 <= k < t.drop_first().len() && #[trigger] t.drop_first()[k].0 == n && t.drop_first()[k].1 == v;
            assert(t[k + 1] == t.drop_first()[k]);
        }
    }
}

proof fn lemma_find_name_at(t: Seq<(Seq<char>, Vk)>, k: int)
    requires
        0 <= k < t.len(),
        forall|i: int| 0 <= i < k ==> (#[trigger] t[i]).1 != t[k].1,
    ensures
        find_name(t, t[k].1) == Some(t[k].0),
    decreases k,
{
    if k > 0 {
        let r = t.drop_first();
        assert forall|i: int| 0 <= i < k - 1 implies (#[trigger] r[i]).1 != r[k - 1].1 by {
            assert(r[i] == t[i + 1]);
        }
        lemma_find_name_at(r, k - 1);
    }
}

proof fn lemma_find_vk_at(t: Seq<(Seq<char>, Vk)>, k: int)
    requires
        0 <= k < t.len(),
        forall|i: int| 0 <= i < k ==> (#[trigger] t[i]).0 != t[k].0,
    ensures
        find_vk(t, t[k].0) == Some(t[k].1),
    decreases k,
{
    if k > 0 {
        let r = t.drop_first();
        assert forall|i: int| 0 <= i < k - 1 implies (#[trigger] r[i]).0 != r[k - 1].0 by {
            assert(r[i] == t[i + 1]);
        }
        lemma_find_vk_at(r, k - 1);
    }
}

/// A name's virtual-key gives the name back, and a virtual-key's name gives
/// the virtual-key back: the table is a one-to-one pairing.
pub proof fn law_names_and_vks_round_trip(n: Seq<char>, v: Vk)
    ensures
        spec_vk_from_name(n) == Some(v) <==> spec_name_from_vk(v) == Some(n),
{
    let t = key_table();
    lemma_slots();
    if spec_vk_from_name(n) == Some(v) {
        lemma_find_vk_entry(t, n);
        let k = choose|k: int| 0 <= k < t.len() && #[trigger] t[k].0 == n && t[k].1 == v;
        assert forall|i: int| 0 <= i < k implies (#[trigger] t[i]).1 != t[k].1 by {
            assert(vk_slot(t[i].1) == i && vk_slot(t[k].1) == k);
        }
        lemma_find_name_at(t, k);
    }
    if spec_name_from_vk(v) == Some(n) {
        lemma_find_name_entry(t, v);
        let k = choose|k: int| 0 <= k < t.len() && #[trigger] t[k].0 == n && t[k].1 == v;
        assert forall|i: int| 0 <= i < k implies (#[trigger] t[i]).0 != t[k].0 by {
            assert(name_slot(t[i].0) == i && name_slot(t[k].0) == k);
        }
        lemma_find_vk_at(t, k);
    }
}

} // verus!
