//! The module registry and the configured module list: which module names
//! exist, which module each name denotes, and how the request list is read
//! out of the configuration. Also the uptime formatter shared by the uptime
//! provider.

use vstd::prelude::*;
use crate::text::{str_eq, u64_to_string, dec_str};

verus! {

/// One fact-gathering module. Each variant stands for one provider the
/// binary knows how to run; the registry binds the configurable names to
/// these.
#[derive(Clone, Copy, PartialEq, Eq, Structural, Debug)]
pub enum ModuleKind {
    Title,
    Separator,
    Os,
    Kernel,
    Uptime,
    Memory,
    Shell,
    Cpu,
    CpuUsage,
    Swap,
    Disks,
    Terminal,
    Colors,
    Bios,
    Editor,
    Platform,
    Chassis,
}

/// The module a request name denotes, if the name is registered.
pub open spec fn module_for_name(name: Seq<char>) -> Option<ModuleKind> {
    if name == "title"@ {
        Some(ModuleKind::Title)
    } else if name == "separator"@ {
        Some(ModuleKind::Separator)
    } else if name == "os"@ {
        Some(ModuleKind::Os)
    } else if name == "kernel"@ {
        Some(ModuleKind::Kernel)
    } else if name == "uptime"@ {
        Some(ModuleKind::Uptime)
    } else if name == "memory"@ {
        Some(ModuleKind::Memory)
    } else if name == "shell"@ {
        Some(ModuleKind::Shell)
    } else if name == "cpu"@ {
        Some(ModuleKind::Cpu)
    } else if name == "cpu_usage"@ {
        Some(ModuleKind::CpuUsage)
    } else if name == "swap"@ {
        Some(ModuleKind::Swap)
    } else if name == "disks"@ {
        Some(ModuleKind::Disks)
    } else if name == "terminal"@ {
        Some(ModuleKind::Terminal)
    } else if name == "colors"@ {
        Some(ModuleKind::Colors)
    } else if name == "bios"@ {
        Some(ModuleKind::Bios)
    } else if name == "editor"@ {
        Some(ModuleKind::Editor)
    } else if name == "platform"@ {
        Some(ModuleKind::Platform)
    } else if name == "chassis"@ {
        Some(ModuleKind::Chassis)
    } else {
        None
    }
}

/// The provider registry: the mapping from module names to modules. The
/// binding itself is the function `module_for_name`; the registry value is
/// what callers pass around to resolve request lists against it. The binary
/// supplies the asynchronous provider behind each `ModuleKind`.
pub struct ModuleRegistry {}

impl ModuleRegistry {
    /// Resolves one request name.
    pub fn get(&self, name: &str) -> (r: Option<ModuleKind>)
        ensures
            r == module_for_name(name@),
    {
        if str_eq(name, "title") {
            Some(ModuleKind::Title)
        } else if str_eq(name, "separator") {
            Some(ModuleKind::Separator)
        } else if str_eq(name, "os") {
            Some(ModuleKind::Os)
        } else if str_eq(name, "kernel") {
            Some(ModuleKind::Kernel)
        } else if str_eq(name, "uptime") {
            Some(ModuleKind::Uptime)
        } else if str_eq(name, "memory") {
            Some(ModuleKind::Memory)
        } else if str_eq(name, "shell") {
            Some(ModuleKind::Shell)
        } else if str_eq(name, "cpu") {
            Some(ModuleKind::Cpu)
        } else if str_eq(name, "cpu_usage") {
            Some(ModuleKind::CpuUsage)
        } else if str_eq(name, "swap") {
            Some(ModuleKind::Swap)
        } else if str_eq(name, "disks") {
            Some(ModuleKind::Disks)
        } else if str_eq(name, "terminal") {
            Some(ModuleKind::Terminal)
        } else if str_eq(name, "colors") {
            Some(ModuleKind::Colors)
        } else if str_eq(name, "bios") {
            Some(ModuleKind::Bios)
        } else if str_eq(name, "editor") {
            Some(ModuleKind::Editor)
        } else if str_eq(name, "platform") {
            Some(ModuleKind::Platform)
        } else if str_eq(name, "chassis") {
            Some(ModuleKind::Chassis)
        } else {
            None
        }
    }
}

/// Builds the registry binding every known module name to its module. The
/// binding is stated by `ModuleRegistry::get`: exactly the names of the
/// `ModuleKind` variants, written in snake case, are registered.
pub fn get_module_functions() -> (r: ModuleRegistry) {
    ModuleRegistry {  }
}

/// One entry of the configured module list: a string naming a module, or a
/// configuration value of any other type, which requests nothing.
#[derive(Debug, Clone)]
pub enum ConfigEntry {
    Text(String),
    Other,
}

/// The whole configuration, as far as the core reads it: the value under its
/// module-list key, or `None` when that key is absent or is not an array.
pub struct Config {
    pub modules: Option<Vec<ConfigEntry>>,
}

/// Why a configuration yields no module list.
#[derive(Clone, Copy, PartialEq, Eq, Structural, Debug)]
pub enum ConfigError {
    /// The module-list key is absent, or its value is not an array.
    ModulesMissing,
}

/// The names requested by a configured module list: its string entries, in
/// order; entries of other types are passed over.
pub open spec fn module_names_of(entries: Seq<ConfigEntry>) -> Seq<Seq<char>>
    decreases entries.len(),
{
    if entries.len() == 0 {
        Seq::empty()
    } else {
        let rest = module_names_of(entries.drop_first());
        match entries[0] {
            ConfigEntry::Text(t) => seq![t@] + rest,
            ConfigEntry::Other => rest,
        }
    }
}

proof fn lemma_module_names_push(entries: Seq<ConfigEntry>, x: ConfigEntry)
    ensures
        module_names_of(entries.push(x)) == module_names_of(entries) + (match x {
            ConfigEntry::Text(t) => seq![t@],
            ConfigEntry::Other => Seq::<Seq<char>>::empty(),
        }),
    decreases entries.len(),
{
    let tail = (match x {
        ConfigEntry::Text(t) => seq![t@],
        ConfigEntry::Other => Seq::<Seq<char>>::empty(),
    });
    if entries.len() == 0 {
        assert(entries.push(x).drop_first() =~= Seq::<ConfigEntry>::empty());
        assert(entries.push(x)[0] == x);
        assert(module_names_of(Seq::<ConfigEntry>::empty()) == Seq::<Seq<char>>::empty());
        assert(module_names_of(entries.push(x)) =~~= module_names_of(entries) + tail);
    } else {
        lemma_module_names_push(entries.drop_first(), x);
        assert(entries.push(x).drop_first() =~= entries.drop_first().push(x));
        assert(entries.push(x)[0] == entries[0]);
        assert(module_names_of(entries.push(x)) =~~= module_names_of(entries) + tail);
    }
}

/// Reads the requested module names out of the configuration: the string
/// entries of the module list, in their configured order. A configuration
/// without a usable module list is rejected, never treated as empty.
pub fn get_modules(config: &Config) -> (r: Result<Vec<String>, ConfigError>)
    ensures
        r is Ok <==> config.modules is Some,
        r is Ok ==> r->Ok_0@.map_values(|t: String| t@) == module_names_of(
            config.modules->Some_0@,
        ),
        r is Err ==> r->Err_0 == ConfigError::ModulesMissing,
{
    match &config.modules {
        None => Err(ConfigError::ModulesMissing),
        Some(entries) => {
            let ghost ge = entries@;
            let mut out: Vec<String> = Vec::new();
            let mut i: usize = 0;
            proof {
                assert(ge.take(0) =~= Seq::<ConfigEntry>::empty());
            }
            while i < entries.len()
                invariant
                    ge == entries@,
                    i <= ge.len(),
                    out@.map_values(|t: String| t@) == module_names_of(ge.take(i as int)),
                decreases ge.len() - i,
            {
                let ghost old_out = out@;
                match &entries[i] {
                    ConfigEntry::Text(t) => {
                        out.push(t.clone());
                    },
                    ConfigEntry::Other => {},
                }
                proof {
                    assert(ge.take(i + 1) =~= ge.take(i as int).push(ge[i as int]));
                    lemma_module_names_push(ge.take(i as int), ge[i as int]);
                    assert(out@.map_values(|t: String| t@) =~~= module_names_of(ge.take(i + 1)));
                }
                i = i + 1;
            }
            proof {
                assert(ge.take(ge.len() as int) =~= ge);
            }
            Ok(out)
        },
    }
}

/// One unit's worth of the uptime line: the markup-wrapped number and unit
/// letter, as in `$25$3h$2`.
pub open spec fn time_part(v: nat, unit: Seq<char>) -> Seq<char> {
    "$2"@ + dec_str(v) + "$3"@ + unit + "$2"@
}

/// An uptime in seconds written as hours, minutes and seconds: hours shown
/// only when nonzero, minutes shown when nonzero or when hours are shown,
/// seconds always, the shown parts separated by single spaces.
pub open spec fn format_time_spec(s: nat) -> Seq<char> {
    let h = s / 3600;
    let m = (s % 3600) / 60;
    let sec = (s % 3600) % 60;
    if h > 0 {
        time_part(h, "h"@) + " "@ + time_part(m, "m"@) + " "@ + time_part(sec, "s"@)
    } else if m > 0 {
        time_part(m, "m"@) + " "@ + time_part(sec, "s"@)
    } else {
        time_part(sec, "s"@)
    }
}

fn push_time_part(out: &mut String, v: u64, unit: &str)
    ensures
        final(out)@ == old(out)@ + time_part(v as nat, unit@),
{
    out.append("$2");
    let num = u64_to_string(v);
    out.append(num.as_str());
    out.append("$3");
    out.append(unit);
    out.append("$2");
    proof {
        assert(out@ =~= old(out)@ + time_part(v as nat, unit@));
    }
}

/// Writes an uptime, given in seconds, the way the uptime module shows it.
pub fn format_time(seconds: u64) -> (r: String)
    ensures
        r@ == format_time_spec(seconds as nat),
{
    let hours = seconds / 3600;
    let rem = seconds % 3600;
    let minutes = rem / 60;
    let secs = rem % 60;
    let mut out = String::new();
    if hours > 0 {
        push_time_part(&mut out, hours, "h");
        out.append(" ");
        push_time_part(&mut out, minutes, "m");
        out.append(" ");
        push_time_part(&mut out, secs, "s");
    } else if minutes > 0 {
        push_time_part(&mut out, minutes, "m");
        out.append(" ");
        push_time_part(&mut out, secs, "s");
    } else {
        push_time_part(&mut out, secs, "s");
    }
    proof {
        assert(out@ =~= format_time_spec(seconds as nat));
    }
    out
}

} // verus!
