//! The pure decision logic of the fact providers: given the plain values the
//! binary reads from the system (environment variables, file contents, system
//! queries), these functions build the marked-up display line of each module.
//! The reading itself — files, environment, system calls — stays outside.

use vstd::prelude::*;
use crate::text::{str_eq, u64_to_string, dec_str};
use crate::modules::{format_time, format_time_spec};

verus! {

/// A present value's characters, or `Unknown` for an absent one.
pub open spec fn or_unknown(v: Option<String>) -> Seq<char> {
    match v {
        Some(t) => t@,
        None => "Unknown"@,
    }
}

fn append_or_unknown(out: &mut String, v: &Option<String>)
    ensures
        final(out)@ == old(out)@ + or_unknown(*v),
{
    match v {
        Some(t) => out.append(t.as_str()),
        None => out.append("Unknown"),
    }
}

/// The title line: `user@hostname`, each name in the first palette color and
/// the `@` in the second, preceded by a blank line. A name the environment
/// does not give is shown as `Unknown`.
pub fn fetch_title(user: &Option<String>, hostname: &Option<String>) -> (r: String)
    ensures
        r@ == "\n$1"@ + or_unknown(*user) + "$2@$1"@ + or_unknown(*hostname) + "$2"@,
{
    let mut out = String::new();
    out.append("\n$1");
    append_or_unknown(&mut out, user);
    out.append("$2@$1");
    append_or_unknown(&mut out, hostname);
    out.append("$2");
    proof {
        assert(out@ =~= "\n$1"@ + or_unknown(*user) + "$2@$1"@ + or_unknown(*hostname) + "$2"@);
    }
    out
}

/// The separator line shown between the title and the facts.
pub fn fetch_separator() -> (r: String)
    ensures
        r@ == "$2-----------$1"@,
{
    "$2-----------$1".to_owned()
}

/// The OS line for a distribution name.
pub fn fetch_os(distro: &str) -> (r: String)
    ensures
        r@ == "$3OS:$2 "@ + distro@,
{
    let mut out = String::new();
    out.append("$3OS:$2 ");
    out.append(distro);
    proof {
        assert(out@ =~= "$3OS:$2 "@ + distro@);
    }
    out
}

/// The uptime line for an uptime in seconds.
pub fn fetch_uptime(uptime: u64) -> (r: String)
    ensures
        r@ == "$3Uptime:$2 "@ + format_time_spec(uptime as nat),
{
    let mut out = String::new();
    out.append("$3Uptime:$2 ");
    let t = format_time(uptime);
    out.append(t.as_str());
    proof {
        assert(out@ =~= "$3Uptime:$2 "@ + format_time_spec(uptime as nat));
    }
    out
}

/// The text after the last `/` of a path: the whole text when there is no
/// `/`, the empty text when the path ends with one.
pub open spec fn after_last_slash(s: Seq<char>) -> Seq<char>
    decreases s.len(),
{
    if s.len() == 0 {
        s
    } else if s.last() == '/' {
        Seq::empty()
    } else {
        after_last_slash(s.drop_last()).push(s.last())
    }
}

/// Cuts a path down to its last component.
pub fn last_path_component(path: &str) -> (r: Vec<char>)
    ensures
        r@ == after_last_slash(path@),
{
    let n = path.unicode_len();
    let mut buf: Vec<char> = Vec::new();
    let mut i: usize = 0;
    proof {
        assert(path@.take(0) =~= Seq::<char>::empty());
    }
    while i < n
        invariant
            n == path@.len(),
            i <= n,
            buf@ == after_last_slash(path@.take(i as int)),
        decreases n - i,
    {
        let c = path.get_char(i);
        proof {
            assert(path@.take(i + 1).drop_last() =~= path@.take(i as int));
            assert(path@.take(i + 1).last() == path@[i as int]);
        }
        if c == '/' {
            buf = Vec::new();
            proof {
                assert(buf@ =~= after_last_slash(path@.take(i + 1)));
            }
        } else {
            buf.push(c);
        }
        i = i + 1;
    }
    proof {
        assert(path@.take(n as int) =~= path@);
    }
    buf
}

/// The shell line: the last path component of the `SHELL` value, or
/// `Unknown` when the variable is absent.
pub fn fetch_shell(shell: &Option<String>) -> (r: String)
    ensures
        r@ == (match *shell {
            Some(p) => "$3Shell:$2 "@ + after_last_slash(p@),
            None => "$3Shell:$2 Unknown"@,
        }),
{
    match shell {
        Some(p) => {
            let mut out = String::new();
            out.append("$3Shell:$2 ");
            let name = last_path_component(p.as_str());
            let tail = crate::text::string_from_chars(&name);
            out.append(tail.as_str());
            proof {
                assert(out@ =~= "$3Shell:$2 "@ + after_last_slash(p@));
            }
            out
        },
        None => "$3Shell:$2 Unknown".to_owned(),
    }
}

/// The editor line: the last path component of the `EDITOR` value, with an
/// absent variable standing in as `Unknown` before the path is cut.
pub fn fetch_editor(editor: &Option<String>) -> (r: String)
    ensures
        r@ == "$3Editor:$2 "@ + after_last_slash(or_unknown(*editor)),
{
    let mut out = String::new();
    out.append("$3Editor:$2 ");
    let name = match editor {
        Some(t) => last_path_component(t.as_str()),
        None => last_path_component("Unknown"),
    };
    let tail = crate::text::string_from_chars(&name);
    out.append(tail.as_str());
    proof {
        assert(out@ =~= "$3Editor:$2 "@ + after_last_slash(or_unknown(*editor)));
    }
    out
}

/// The platform line for a platform name.
pub fn fetch_platform(platform: &str) -> (r: String)
    ensures
        r@ == "$3Platform: $2"@ + platform@,
{
    let mut out = String::new();
    out.append("$3Platform: $2");
    out.append(platform);
    proof {
        assert(out@ =~= "$3Platform: $2"@ + platform@);
    }
    out
}

/// The CPU line for the first processor's brand, name, core count and
/// frequency in megahertz units as the system reports them.
pub fn fetch_cpu(brand: &str, name: &str, cores: usize, freq: u64) -> (r: String)
    ensures
        r@ == "$3CPU: $2"@ + brand@ + " "@ + name@ + " "@ + dec_str(cores as nat) + "$3core $2"@
            + dec_str(freq as nat) + "$3Hz$2"@,
{
    let mut out = String::new();
    out.append("$3CPU: $2");
    out.append(brand);
    out.append(" ");
    out.append(name);
    out.append(" ");
    let c = u64_to_string(cores as u64);
    out.append(c.as_str());
    out.append("$3core $2");
    let f = u64_to_string(freq);
    out.append(f.as_str());
    out.append("$3Hz$2");
    proof {
        assert(out@ =~= "$3CPU: $2"@ + brand@ + " "@ + name@ + " "@ + dec_str(cores as nat)
            + "$3core $2"@ + dec_str(freq as nat) + "$3Hz$2"@);
    }
    out
}

/// The BIOS line: firmware type, then the trimmed version and release the
/// binary read from the firmware tables.
pub fn fetch_bios(is_uefi: bool, version: &str, release: &str) -> (r: String)
    ensures
        r@ == "$3BIOS ("@ + (if is_uefi {
            "UEFI"@
        } else {
            "Legacy"@
        }) + "): $2"@ + version@ + " "@ + release@ + "$1"@,
{
    let mut out = String::new();
    out.append("$3BIOS (");
    if is_uefi {
        out.append("UEFI");
    } else {
        out.append("Legacy");
    }
    out.append("): $2");
    out.append(version);
    out.append(" ");
    out.append(release);
    out.append("$1");
    proof {
        assert(out@ =~= "$3BIOS ("@ + (if is_uefi {
            "UEFI"@
        } else {
            "Legacy"@
        }) + "): $2"@ + version@ + " "@ + release@ + "$1"@);
    }
    out
}

/// The emulator name shown for a `TERM_PROGRAM` value: the friendly name of
/// a known program, the value itself otherwise.
pub open spec fn term_program_name(p: Seq<char>) -> Seq<char> {
    if p == "Apple_Terminal"@ {
        "terminal"@
    } else if p == "iTerm.app"@ {
        "iTerm"@
    } else if p == "Hyper"@ {
        "hyper"@
    } else if p == "Kitty"@ {
        "kitty"@
    } else if p == "vscode"@ {
        "vscode"@
    } else {
        p
    }
}

/// What a `TERM` value adds: the framework it names, if a known one.
pub open spec fn term_suffix(t: Seq<char>) -> Seq<char> {
    if t == "xterm-kitty"@ {
        "kitty"@
    } else if t == "tmux-256color"@ {
        "tmux"@
    } else if t == "screen-256color"@ {
        "screen"@
    } else if t == "linux"@ {
        "tty"@
    } else {
        Seq::empty()
    }
}

/// The terminal line decided from the environment: a marker variable of a
/// known emulator wins outright; otherwise whatever `TERM_PROGRAM` names and
/// whatever `TERM` adds are both appended, either possibly empty.
pub open spec fn terminal_line_spec(
    alacritty: bool,
    terminator: bool,
    vte: bool,
    konsole: bool,
    term_program: Option<String>,
    term: Option<String>,
) -> Seq<char> {
    let base = "$3Terminal: $2"@;
    if alacritty {
        base + "alacritty"@
    } else if terminator {
        base + "terminator"@
    } else if vte {
        base + "gnome-terminal"@
    } else if konsole {
        base + "kosnole"@
    } else {
        base + (match term_program {
            Some(p) => term_program_name(p@),
            None => Seq::empty(),
        }) + (match term {
            Some(t) => term_suffix(t@),
            None => Seq::empty(),
        })
    }
}

/// Builds the terminal line. The four booleans say whether the marker
/// variable of the corresponding emulator is set; the two options carry the
/// `TERM_PROGRAM` and `TERM` values.
pub fn fetch_terminal_emulator(
    alacritty: bool,
    terminator: bool,
    vte: bool,
    konsole: bool,
    term_program: &Option<String>,
    term: &Option<String>,
) -> (r: String)
    ensures
        r@ == terminal_line_spec(alacritty, terminator, vte, konsole, *term_program, *term),
{
    let mut out = String::new();
    out.append("$3Terminal: $2");
    if alacritty {
        out.append("alacritty");
    } else if terminator {
        out.append("terminator");
    } else if vte {
        out.append("gnome-terminal");
    } else if konsole {
        out.append("kosnole");
    } else {
        match term_program {
            Some(p) => {
                if str_eq(p.as_str(), "Apple_Terminal") {
                    out.append("terminal");
                } else if str_eq(p.as_str(), "iTerm.app") {
                    out.append("iTerm");
                } else if str_eq(p.as_str(), "Hyper") {
                    out.append("hyper");
                } else if str_eq(p.as_str(), "Kitty") {
                    out.append("kitty");
                } else if str_eq(p.as_str(), "vscode") {
                    out.append("vscode");
                } else {
                    out.append(p.as_str());
                }
            },
            None => {},
        }
        match term {
            Some(t) => {
                if str_eq(t.as_str(), "xterm-kitty") {
                    out.append("kitty");
                } else if str_eq(t.as_str(), "tmux-256color") {
                    out.append("tmux");
                } else if str_eq(t.as_str(), "screen-256color") {
                    out.append("screen");
                } else if str_eq(t.as_str(), "linux") {
                    out.append("tty");
                }
            },
            None => {},
        }
    }
    proof {
        assert(out@ =~= terminal_line_spec(
            alacritty,
            terminator,
            vte,
            konsole,
            *term_program,
            *term,
        ));
    }
    out
}

/// The kernel line read out of the kernel version text: the first
/// whitespace-separated word names the kernel, the third is its version.
pub fn fetch_kernel(proc_version: &str) -> (r: String)
    requires
        crate::text::split_ws(proc_version@).len() >= 3,
    ensures
        r@ == "$3Kernel:$2 "@ + crate::text::split_ws(proc_version@)[0] + " v"@
            + crate::text::split_ws(proc_version@)[2],
{
    let parts = crate::text::split_whitespace_vec(proc_version);
    let mut out = String::new();
    out.append("$3Kernel:$2 ");
    out.append(parts[0].as_str());
    out.append(" v");
    out.append(parts[2].as_str());
    proof {
        assert(parts@.map_values(|t: String| t@)[0] == parts@[0]@);
        assert(parts@.map_values(|t: String| t@)[2] == parts@[2]@);
        assert(out@ =~= "$3Kernel:$2 "@ + crate::text::split_ws(proc_version@)[0] + " v"@
            + crate::text::split_ws(proc_version@)[2]);
    }
    out
}

/// The kernel line used when the kernel version text cannot be read: the
/// version string the system query reports, as one piece.
pub fn fetch_kernel_fallback(version: &str) -> (r: String)
    ensures
        r@ == "$3Kernel:$2 "@ + version@,
{
    let mut out = String::new();
    out.append("$3Kernel:$2 ");
    out.append(version);
    proof {
        assert(out@ =~= "$3Kernel:$2 "@ + version@);
    }
    out
}

/// The chassis line for a trimmed chassis-type code.
pub fn fetch_chassis(code: &str) -> (r: String)
    ensures
        r@ == "$3Chassis: $2"@ + crate::theme::chassis_label_spec(code@),
{
    let mut out = String::new();
    out.append("$3Chassis: $2");
    let label = crate::theme::chassis_label(code);
    out.append(label.as_str());
    proof {
        assert(out@ =~= "$3Chassis: $2"@ + crate::theme::chassis_label_spec(code@));
    }
    out
}

/// `p` opens `s`.
pub open spec fn has_prefix(s: Seq<char>, p: Seq<char>) -> bool {
    s.len() >= p.len() && s.take(p.len() as int) == p
}

/// `s` with every leading `c` removed.
pub open spec fn trim_leading(s: Seq<char>, c: char) -> Seq<char>
    decreases s.len(),
{
    if s.len() > 0 && s[0] == c {
        trim_leading(s.drop_first(), c)
    } else {
        s
    }
}

/// `s` with every trailing `c` removed.
pub open spec fn trim_trailing(s: Seq<char>, c: char) -> Seq<char>
    decreases s.len(),
{
    if s.len() > 0 && s.last() == c {
        trim_trailing(s.drop_last(), c)
    } else {
        s
    }
}

/// The OS identifier carried by a block of `os-release` lines: the text of
/// the first line opening with `ID=`, after that prefix, with double quotes
/// trimmed from both ends; or nothing, when no line opens so.
pub open spec fn os_id_spec(lines: Seq<Seq<char>>) -> Option<Seq<char>>
    decreases lines.len(),
{
    if lines.len() == 0 {
        None
    } else if has_prefix(lines[0], "ID="@) {
        Some(trim_trailing(trim_leading(lines[0].skip(3), '"'), '"'))
    } else {
        os_id_spec(lines.drop_first())
    }
}

fn trim_quotes(v: Vec<char>) -> (r: Vec<char>)
    ensures
        r@ == trim_trailing(trim_leading(v@, '"'), '"'),
{
    let mut start: usize = 0;
    proof {
        assert(v@.skip(0) =~= v@);
    }
    while start < v.len() && v[start] == '"'
        invariant
            start <= v@.len(),
            trim_leading(v@, '"') == trim_leading(v@.skip(start as int), '"'),
            forall|j: int| 0 <= j < start ==> v@[j] == '"',
        decreases v@.len() - start,
    {
        proof {
            assert(v@.skip(start as int).drop_first() =~= v@.skip(start + 1));
        }
        start = start + 1;
    }
    let mut end: usize = v.len();
    proof {
        if start < v@.len() {
            assert(trim_leading(v@.skip(start as int), '"') == v@.skip(start as int));
        } else {
            assert(v@.skip(start as int) =~= Seq::<char>::empty());
        }
    }
    while end > start && v[end - 1] == '"'
        invariant
            start <= end <= v@.len(),
            start < v@.len() ==> v@[start as int] != '"',
            start == v@.len() || v@[start as int] != '"',
            trim_trailing(v@.subrange(start as int, v@.len() as int), '"') == trim_trailing(
                v@.subrange(start as int, end as int),
                '"',
            ),
        decreases end,
    {
        proof {
            assert(v@.subrange(start as int, end as int).drop_last() =~= v@.subrange(
                start as int,
                end - 1,
            ));
            assert(v@.subrange(start as int, end as int).last() == v@[end - 1]);
        }
        end = end - 1;
    }
    let mut out: Vec<char> = Vec::new();
    let mut i: usize = start;
    while i < end
        invariant
            start <= i <= end <= v@.len(),
            out@ == v@.subrange(start as int, i as int),
        decreases end - i,
    {
        out.push(v[i]);
        proof {
            assert(out@ =~= v@.subrange(start as int, i + 1));
        }
        i = i + 1;
    }
    proof {
        assert(trim_leading(v@, '"') == v@.skip(start as int));
        assert(v@.skip(start as int) =~= v@.subrange(start as int, v@.len() as int));
        if end > start {
            assert(v@.subrange(start as int, end as int).last() != '"');
            assert(trim_trailing(v@.subrange(start as int, end as int), '"') == v@.subrange(
                start as int,
                end as int,
            ));
        } else {
            assert(v@.subrange(start as int, end as int) =~= Seq::<char>::empty());
        }
    }
    out
}

/// Finds the OS identifier in `os-release` lines: the value of the first
/// `ID=` line, unquoted; `None` when no line carries one.
pub fn get_os_id(lines: &Vec<String>) -> (r: Option<String>)
    ensures
        (r is Some <==> os_id_spec(lines@.map_values(|t: String| t@)) is Some),
        r is Some ==> r->Some_0@ == os_id_spec(lines@.map_values(|t: String| t@))->Some_0,
{
    let ghost gl = lines@.map_values(|t: String| t@);
    let mut i: usize = 0;
    proof {
        assert(gl.skip(0) =~= gl);
    }
    while i < lines.len()
        invariant
            gl == lines@.map_values(|t: String| t@),
            i <= gl.len(),
            os_id_spec(gl) == os_id_spec(gl.skip(i as int)),
        decreases gl.len() - i,
    {
        let line = lines[i].as_str();
        let n = line.unicode_len();
        proof {
            assert(gl.skip(i as int)[0] == line@);
            assert(gl.skip(i as int).drop_first() =~= gl.skip(i + 1));
        }
        if n >= 3 {
            let c0 = line.get_char(0);
            let c1 = line.get_char(1);
            let c2 = line.get_char(2);
            if c0 == 'I' && c1 == 'D' && c2 == '=' {
                proof {
                    reveal_strlit("ID=");
                    assert(line@.take(3) =~= "ID="@);
                    assert(has_prefix(line@, "ID="@));
                }
                let all = crate::text::chars_of(line);
                let mut rest: Vec<char> = Vec::new();
                let mut j: usize = 3;
                while j < all.len()
                    invariant
                        3 <= j <= all@.len(),
                        all@ == line@,
                        n == line@.len(),
                        rest@ == line@.subrange(3, j as int),
                    decreases all@.len() - j,
                {
                    rest.push(all[j]);
                    proof {
                        assert(rest@ =~= line@.subrange(3, j + 1));
                    }
                    j = j + 1;
                }
                proof {
                    assert(rest@ =~= line@.skip(3));
                }
                let trimmed = trim_quotes(rest);
                let t = crate::text::string_from_chars(&trimmed);
                return Some(t);
            }
            proof {
                reveal_strlit("ID=");
                assert(!has_prefix(line@, "ID="@)) by {
                    if has_prefix(line@, "ID="@) {
                        assert(line@.take(3)[0] == 'I' && line@.take(3)[1] == 'D' && line@.take(
                            3,
                        )[2] == '=');
                    }
                }
            }
        } else {
            proof {
                reveal_strlit("ID=");
                assert(!has_prefix(line@, "ID="@));
            }
        }
        i = i + 1;
    }
    proof {
        assert(gl.skip(gl.len() as int) =~= Seq::<Seq<char>>::empty());
    }
    None
}

} // verus!
