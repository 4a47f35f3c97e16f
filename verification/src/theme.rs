//! Per-distribution theming: the color palettes keyed by the OS identifier
//! found in `/etc/os-release` (or the kernel name on macOS), the stock logo
//! chosen for each identifier, and the human-readable chassis type labels.

use vstd::prelude::*;
use crate::text::str_eq;

verus! {

/// A terminal foreground color. The binary maps these onto whatever color
/// mechanism the platform offers; the palette tables below pick them.
#[derive(Clone, Copy, PartialEq, Eq, Structural, Debug)]
pub enum Color {
    Black,
    Blue,
    Green,
    Red,
    Cyan,
    Magenta,
    Yellow,
    White,
    Ansi256(u8),
    Rgb(u8, u8, u8),
}

/// The palette associated with an OS identifier, if one is on file.
pub open spec fn os_palette_spec(id: Seq<char>) -> Option<Seq<Color>> {
    if id == "fedora"@ {
        Some(seq![Color::Ansi256(12), Color::White, Color::Blue, Color::Green])
    } else if id == "ubuntu"@ {
        Some(seq![Color::Rgb(255, 69, 0), Color::White, Color::Red, Color::Green])
    } else if id == "bazzite"@ {
        Some(seq![Color::Rgb(8, 83, 174), Color::White, Color::Rgb(186, 43, 226), Color::Green])
    } else if id == "Macos"@ {
        Some(
            seq![
                Color::Green,
                Color::White,
                Color::Yellow,
                Color::Red,
                Color::Magenta,
                Color::Cyan,
            ],
        )
    } else if id == "zorin"@ {
        Some(seq![Color::Cyan, Color::White, Color::Cyan, Color::Green])
    } else if id == "arch"@ {
        Some(seq![Color::Blue, Color::White, Color::Blue, Color::Green])
    } else if id == "debian"@ {
        Some(seq![Color::Red, Color::White, Color::Red, Color::Green])
    } else if id == "linuxmint"@ {
        Some(seq![Color::Ansi256(10), Color::White, Color::Green, Color::Green])
    } else if id == "endeavouros"@ {
        Some(seq![Color::Ansi256(9), Color::White, Color::Magenta, Color::Ansi256(12)])
    } else {
        None
    }
}

/// Looks up the palette for an OS identifier.
pub fn os_palette(id: &str) -> (r: Option<Vec<Color>>)
    ensures
        r is Some <==> os_palette_spec(id@) is Some,
        r is Some ==> r->Some_0@ == os_palette_spec(id@)->Some_0,
{
    let v: Vec<Color> = if str_eq(id, "fedora") {
        vec![Color::Ansi256(12), Color::White, Color::Blue, Color::Green]
    } else if str_eq(id, "ubuntu") {
        vec![Color::Rgb(255, 69, 0), Color::White, Color::Red, Color::Green]
    } else if str_eq(id, "bazzite") {
        vec![Color::Rgb(8, 83, 174), Color::White, Color::Rgb(186, 43, 226), Color::Green]
    } else if str_eq(id, "Macos") {
        vec![Color::Green, Color::White, Color::Yellow, Color::Red, Color::Magenta, Color::Cyan]
    } else if str_eq(id, "zorin") {
        vec![Color::Cyan, Color::White, Color::Cyan, Color::Green]
    } else if str_eq(id, "arch") {
        vec![Color::Blue, Color::White, Color::Blue, Color::Green]
    } else if str_eq(id, "debian") {
        vec![Color::Red, Color::White, Color::Red, Color::Green]
    } else if str_eq(id, "linuxmint") {
        vec![Color::Ansi256(10), Color::White, Color::Green, Color::Green]
    } else if str_eq(id, "endeavouros") {
        vec![Color::Ansi256(9), Color::White, Color::Magenta, Color::Ansi256(12)]
    } else {
        proof {
            assert(os_palette_spec(id@) is None);
        }
        return None;
    };
    proof {
        assert(v@ =~= os_palette_spec(id@)->Some_0);
    }
    Some(v)
}

/// The single neutral color used when no palette can be resolved.
pub fn default_palette() -> (r: Vec<Color>)
    ensures
        r@ == seq![Color::White],
{
    let v = vec![Color::White];
    proof {
        assert(v@ =~= seq![Color::White]);
    }
    v
}

/// The stock logo name for an OS identifier, if one is on file.
pub open spec fn os_logo_name_spec(id: Seq<char>) -> Option<Seq<char>> {
    if id == "fedora"@ {
        Some("fedora"@)
    } else if id == "ubuntu"@ {
        Some("ubuntu"@)
    } else if id == "bazzite"@ {
        Some("bazzite_full"@)
    } else if id == "Darwin"@ {
        Some("macos"@)
    } else if id == "zorin"@ {
        Some("zorin"@)
    } else if id == "arch"@ {
        Some("arch"@)
    } else if id == "debian"@ {
        Some("debian"@)
    } else if id == "linuxmint"@ {
        Some("linuxmint"@)
    } else if id == "endeavouros"@ {
        Some("endeavouros"@)
    } else {
        None
    }
}

/// Looks up the stock logo name for an OS identifier.
pub fn os_logo_name(id: &str) -> (r: Option<String>)
    ensures
        r is Some <==> os_logo_name_spec(id@) is Some,
        r is Some ==> r->Some_0@ == os_logo_name_spec(id@)->Some_0,
{
    if str_eq(id, "fedora") {
        Some("fedora".to_owned())
    } else if str_eq(id, "ubuntu") {
        Some("ubuntu".to_owned())
    } else if str_eq(id, "bazzite") {
        Some("bazzite_full".to_owned())
    } else if str_eq(id, "Darwin") {
        Some("macos".to_owned())
    } else if str_eq(id, "zorin") {
        Some("zorin".to_owned())
    } else if str_eq(id, "arch") {
        Some("arch".to_owned())
    } else if str_eq(id, "debian") {
        Some("debian".to_owned())
    } else if str_eq(id, "linuxmint") {
        Some("linuxmint".to_owned())
    } else if str_eq(id, "endeavouros") {
        Some("endeavouros".to_owned())
    } else {
        None
    }
}


/// The human-readable label of an SMBIOS chassis-type code; unknown codes
/// get an explicit placeholder.
pub open spec fn chassis_label_spec(code: Seq<char>) -> Seq<char> {
    if code == "1"@ {
        "Other"@
    } else if code == "2"@ {
        "Unknown"@
    } else if code == "3"@ {
        "Desktop"@
    } else if code == "4"@ {
        "Low Profile Desktop"@
    } else if code == "5"@ {
        "Pizza Box"@
    } else if code == "6"@ {
        "Mini Tower"@
    } else if code == "7"@ {
        "Tower"@
    } else if code == "8"@ {
        "Portable"@
    } else if code == "9"@ {
        "Laptop"@
    } else if code == "10"@ {
        "Notebook"@
    } else if code == "11"@ {
        "Handheld"@
    } else if code == "12"@ {
        "Docking Station"@
    } else if code == "13"@ {
        "All in One"@
    } else if code == "14"@ {
        "Sub Notebook"@
    } else if code == "15"@ {
        "Space-saving"@
    } else if code == "16"@ {
        "Lunch Box"@
    } else if code == "17"@ {
        "Main System Chassis"@
    } else if code == "18"@ {
        "Expansion Chassis"@
    } else if code == "19"@ {
        "SubChassis"@
    } else if code == "20"@ {
        "Bus Expansion Chassis"@
    } else if code == "21"@ {
        "Periferal Chassis"@
    } else if code == "22"@ {
        "Storage Chassis"@
    } else if code == "23"@ {
        "Rack Mount Chassis"@
    } else if code == "24"@ {
        "Sealed-Case PC"@
    } else if code == "25"@ {
        "Multi-system Chassis"@
    } else if code == "26"@ {
        "Compact PCI"@
    } else if code == "27"@ {
        "Advanced TCA"@
    } else if code == "28"@ {
        "Blade"@
    } else if code == "29"@ {
        "Blade Enclosure"@
    } else if code == "30"@ {
        "Tablet"@
    } else if code == "31"@ {
        "Convertible"@
    } else if code == "32"@ {
        "Detachable"@
    } else if code == "33"@ {
        "IoT Gateway"@
    } else if code == "34"@ {
        "Embedded PC"@
    } else if code == "35"@ {
        "Mini PC"@
    } else if code == "36"@ {
        "Stick PC"@
    } else if code == "Unknown"@ {
        "Unknown"@
    } else {
        "Unknown chassis code"@
    }
}

/// Looks up the label of a chassis-type code.
pub fn chassis_label(code: &str) -> (r: String)
    ensures
        r@ == chassis_label_spec(code@),
{
    if str_eq(code, "1") {
        "Other".to_owned()
    } else if str_eq(code, "2") {
        "Unknown".to_owned()
    } else if str_eq(code, "3") {
        "Desktop".to_owned()
    } else if str_eq(code, "4") {
        "Low Profile Desktop".to_owned()
    } else if str_eq(code, "5") {
        "Pizza Box".to_owned()
    } else if str_eq(code, "6") {
        "Mini Tower".to_owned()
    } else if str_eq(code, "7") {
        "Tower".to_owned()
    } else if str_eq(code, "8") {
        "Portable".to_owned()
    } else if str_eq(code, "9") {
        "Laptop".to_owned()
    } else if str_eq(code, "10") {
        "Notebook".to_owned()
    } else if str_eq(code, "11") {
        "Handheld".to_owned()
    } else if str_eq(code, "12") {
        "Docking Station".to_owned()
    } else if str_eq(code, "13") {
        "All in One".to_owned()
    } else if str_eq(code, "14") {
        "Sub Notebook".to_owned()
    } else if str_eq(code, "15") {
        "Space-saving".to_owned()
    } else if str_eq(code, "16") {
        "Lunch Box".to_owned()
    } else if str_eq(code, "17") {
        "Main System Chassis".to_owned()
    } else if str_eq(code, "18") {
        "Expansion Chassis".to_owned()
    } else if str_eq(code, "19") {
        "SubChassis".to_owned()
    } else if str_eq(code, "20") {
        "Bus Expansion Chassis".to_owned()
    } else if str_eq(code, "21") {
        "Periferal Chassis".to_owned()
    } else if str_eq(code, "22") {
        "Storage Chassis".to_owned()
    } else if str_eq(code, "23") {
        "Rack Mount Chassis".to_owned()
    } else if str_eq(code, "24") {
        "Sealed-Case PC".to_owned()
    } else if str_eq(code, "25") {
        "Multi-system Chassis".to_owned()
    } else if str_eq(code, "26") {
        "Compact PCI".to_owned()
    } else if str_eq(code, "27") {
        "Advanced TCA".to_owned()
    } else if str_eq(code, "28") {
        "Blade".to_owned()
    } else if str_eq(code, "29") {
        "Blade Enclosure".to_owned()
    } else if str_eq(code, "30") {
        "Tablet".to_owned()
    } else if str_eq(code, "31") {
        "Convertible".to_owned()
    } else if str_eq(code, "32") {
        "Detachable".to_owned()
    } else if str_eq(code, "33") {
        "IoT Gateway".to_owned()
    } else if str_eq(code, "34") {
        "Embedded PC".to_owned()
    } else if str_eq(code, "35") {
        "Mini PC".to_owned()
    } else if str_eq(code, "36") {
        "Stick PC".to_owned()
    } else if str_eq(code, "Unknown") {
        "Unknown".to_owned()
    } else {
        "Unknown chassis code".to_owned()
    }
}

} // verus!
