//! Which disks the disk module reports. The binary enumerates the mounted
//! disks and reads the mount table; this module makes every decision: pseudo
//! and boot filesystems are passed over, a btrfs root is preferred (the disk
//! mounted at `/`, or the one whose mount entry names the base subvolume, or
//! failing that the one with the smallest subvolume id), and only when no
//! btrfs disk qualifies are the remaining disks listed one by one.

use vstd::prelude::*;
use crate::text::{
    str_eq, str_contains, str_starts_with, split_ws, split_whitespace_vec, has_prefix_seq,
    contains_seq, parse_u32, parse_u32_spec,
};

verus! {

/// What the binary reads of one mounted disk: its filesystem name and its
/// mount point.
#[derive(Debug, Clone)]
pub struct DiskData {
    pub file_system: String,
    pub mount_point: String,
}

/// The disk module's decision: report one disk, report a list of disks, or
/// report that nothing usable was found. Indices point into the scanned
/// disk list.
#[derive(Debug, Clone, PartialEq, Eq)]
pub enum DiskChoice {
    Single(usize),
    Several(Vec<usize>),
    Unknown,
}

/// The mathematical shape of a disk: filesystem and mount point.
pub open spec fn disk_view(d: DiskData) -> (Seq<char>, Seq<char>) {
    (d.file_system@, d.mount_point@)
}

/// The mathematical shape of the decision.
pub enum ChoiceModel {
    Single(int),
    Several(Seq<int>),
    Unknown,
}

/// The model of an executable decision.
pub open spec fn choice_view(c: DiskChoice) -> ChoiceModel {
    match c {
        DiskChoice::Single(i) => ChoiceModel::Single(i as int),
        DiskChoice::Several(v) => ChoiceModel::Several(v@.map_values(|u: usize| u as int)),
        DiskChoice::Unknown => ChoiceModel::Unknown,
    }
}

/// The running state of the disk scan: the plain disks kept so far, the
/// btrfs disk recognized as the root, the btrfs disk with the smallest
/// subvolume id seen so far, and that id.
pub struct ScanState {
    pub selected: Seq<int>,
    pub root: Option<int>,
    pub min_disk: Option<int>,
    pub min_val: int,
}

/// The scan state before any disk is looked at.
pub open spec fn init_state() -> ScanState {
    ScanState { selected: Seq::empty(), root: None, min_disk: None, min_val: u32::MAX as int }
}

/// The first mount-table word carrying a subvolume id, if any.
pub open spec fn subvolid_part(parts: Seq<Seq<char>>) -> Option<Seq<char>>
    decreases parts.len(),
{
    if parts.len() == 0 {
        None
    } else if has_prefix_seq(parts[0], "subvolid="@) {
        Some(parts[0])
    } else {
        subvolid_part(parts.drop_first())
    }
}

/// The subvolume id a mount-table word carries; a value that does not parse
/// as a 32-bit number counts as the largest id, so it never wins.
pub open spec fn subvolid_val(part: Seq<char>) -> int {
    match parse_u32_spec(part.skip(9)) {
        Some(v) => v as int,
        None => u32::MAX as int,
    }
}

/// One btrfs disk's pass over the mount table, looking for the entry of
/// mount point `mp`. Yields whether the disk turned out to be the base
/// subvolume (its entry names subvolume id five — the scan stops there),
/// the smallest subvolume id after this pass, and whether this pass lowered
/// it.
pub open spec fn mount_scan(lines: Seq<Seq<char>>, mp: Seq<char>, min_val: int) -> (
    bool,
    int,
    bool,
)
    decreases lines.len(),
{
    if lines.len() == 0 {
        (false, min_val, false)
    } else {
        let line = lines[0];
        let parts = split_ws(line);
        let rest = lines.drop_first();
        if parts.len() > 2 && parts[1] == mp && parts[2] == "btrfs"@ {
            if contains_seq(line, "subvolid=5"@) {
                (true, min_val, false)
            } else {
                match subvolid_part(parts) {
                    Some(part) => {
                        let v = subvolid_val(part);
                        if v < min_val {
                            let r = mount_scan(rest, mp, v);
                            (r.0, r.1, true)
                        } else {
                            mount_scan(rest, mp, min_val)
                        }
                    },
                    None => mount_scan(rest, mp, min_val),
                }
            }
        } else {
            mount_scan(rest, mp, min_val)
        }
    }
}

/// The whole scan from disk `i` on. Disks on `vfat`, `overlay` or `/boot`
/// are passed over; a btrfs disk mounted at `/` ends the scan at once as the
/// root; any other btrfs disk is judged by its mount-table entry (when the
/// table could be read at all); every other disk is kept for the plain list.
pub open spec fn disk_scan(
    disks: Seq<(Seq<char>, Seq<char>)>,
    mounts: Option<Seq<Seq<char>>>,
    i: int,
    st: ScanState,
) -> ScanState
    decreases disks.len() - i,
{
    if !(0 <= i < disks.len()) {
        st
    } else {
        let fs = disks[i].0;
        let mp = disks[i].1;
        if fs == "vfat"@ || fs == "overlay"@ || mp == "/boot"@ {
            disk_scan(disks, mounts, i + 1, st)
        } else if fs == "btrfs"@ {
            if mp == "/"@ {
                ScanState {
                    selected: st.selected,
                    root: Some(i),
                    min_disk: st.min_disk,
                    min_val: st.min_val,
                }
            } else {
                match mounts {
                    None => disk_scan(disks, mounts, i + 1, st),
                    Some(ls) => {
                        let r = mount_scan(ls, mp, st.min_val);
                        disk_scan(
                            disks,
                            mounts,
                            i + 1,
                            ScanState {
                                selected: st.selected,
                                root: if r.0 {
                                    Some(i)
                                } else {
                                    st.root
                                },
                                min_disk: if r.2 {
                                    Some(i)
                                } else {
                                    st.min_disk
                                },
                                min_val: r.1,
                            },
                        )
                    },
                }
            }
        } else {
            disk_scan(
                disks,
                mounts,
                i + 1,
                ScanState {
                    selected: st.selected.push(i),
                    root: st.root,
                    min_disk: st.min_disk,
                    min_val: st.min_val,
                },
            )
        }
    }
}

/// The decision the finished scan dictates: the recognized root disk wins,
/// then the smallest-subvolume disk, then the plain list, and `Unknown` only
/// when nothing at all qualified.
pub open spec fn choice_of_state(st: ScanState) -> ChoiceModel {
    match st.root {
        Some(i) => ChoiceModel::Single(i),
        None => match st.min_disk {
            Some(i) => ChoiceModel::Single(i),
            None => if st.selected.len() > 0 {
                ChoiceModel::Several(st.selected)
            } else {
                ChoiceModel::Unknown
            },
        },
    }
}

/// The decision for a disk list and a mount table.
pub open spec fn disk_choice_spec(
    disks: Seq<(Seq<char>, Seq<char>)>,
    mounts: Option<Seq<Seq<char>>>,
) -> ChoiceModel {
    choice_of_state(disk_scan(disks, mounts, 0, init_state()))
}

/// The view of an optional mount table.
pub open spec fn mounts_view(m: Option<Vec<String>>) -> Option<Seq<Seq<char>>> {
    match m {
        Some(v) => Some(v@.map_values(|t: String| t@)),
        None => None,
    }
}

fn find_subvolid(parts: &Vec<String>) -> (r: Option<usize>)
    ensures
        match r {
            Some(j) => j < parts@.len() && subvolid_part(parts@.map_values(|t: String| t@))
                == Some(parts@[j as int]@) && has_prefix_seq(parts@[j as int]@, "subvolid="@),
            None => subvolid_part(parts@.map_values(|t: String| t@)) is None,
        },
{
    let ghost pv = parts@.map_values(|t: String| t@);
    let mut j: usize = 0;
    proof {
        assert(pv.skip(0) =~= pv);
    }
    while j < parts.len()
        invariant
            pv == parts@.map_values(|t: String| t@),
            j <= pv.len(),
            subvolid_part(pv) == subvolid_part(pv.skip(j as int)),
        decreases pv.len() - j,
    {
        proof {
            assert(pv.skip(j as int)[0] == parts@[j as int]@);
            assert(pv.skip(j as int).drop_first() =~= pv.skip(j + 1));
        }
        if str_starts_with(parts[j].as_str(), "subvolid=") {
            return Some(j);
        }
        j = j + 1;
    }
    proof {
        assert(pv.skip(pv.len() as int) =~= Seq::<Seq<char>>::empty());
    }
    None
}

fn scan_mounts(lines: &Vec<String>, mp: &str, min0: u32) -> (r: (bool, u32, bool))
    ensures
        r.0 == mount_scan(lines@.map_values(|t: String| t@), mp@, min0 as int).0,
        r.1 as int == mount_scan(lines@.map_values(|t: String| t@), mp@, min0 as int).1,
        r.2 == mount_scan(lines@.map_values(|t: String| t@), mp@, min0 as int).2,
{
    let ghost lv = lines@.map_values(|t: String| t@);
    let ghost total = mount_scan(lv, mp@, min0 as int);
    let mut cur: u32 = min0;
    let mut changed = false;
    let mut k: usize = 0;
    proof {
        assert(lv.skip(0) =~= lv);
    }
    while k < lines.len()
        invariant
            lv == lines@.map_values(|t: String| t@),
            total == mount_scan(lv, mp@, min0 as int),
            k <= lv.len(),
            total.0 == mount_scan(lv.skip(k as int), mp@, cur as int).0,
            total.1 == mount_scan(lv.skip(k as int), mp@, cur as int).1,
            total.2 == (changed || mount_scan(lv.skip(k as int), mp@, cur as int).2),
        decreases lv.len() - k,
    {
        let ghost rest = lv.skip(k as int);
        proof {
            assert(rest[0] == lines@[k as int]@);
            assert(rest.drop_first() =~= lv.skip(k + 1));
        }
        let line = lines[k].as_str();
        let parts = split_whitespace_vec(line);
        let ghost sparts = split_ws(line@);
        let mut entry_matches = false;
        if parts.len() > 2 {
            proof {
                assert(parts@.map_values(|t: String| t@)[1] == parts@[1]@);
                assert(parts@.map_values(|t: String| t@)[2] == parts@[2]@);
            }
            if str_eq(parts[1].as_str(), mp) && str_eq(parts[2].as_str(), "btrfs") {
                entry_matches = true;
            }
        }
        proof {
            assert(entry_matches == (sparts.len() > 2 && sparts[1] == mp@ && sparts[2]
                == "btrfs"@));
        }
        if entry_matches {
            if str_contains(line, "subvolid=5") {
                proof {
                    assert(mount_scan(rest, mp@, cur as int) == (true, cur as int, false));
                }
                return (true, cur, changed);
            }
            match find_subvolid(&parts) {
                Some(j) => {
                    let part = parts[j].as_str();
                    let n = part.unicode_len();
                    proof {
                        reveal_strlit("subvolid=");
                        assert(has_prefix_seq(part@, "subvolid="@));
                        assert(parts@.map_values(|t: String| t@)[j as int] == part@);
                    }
                    let tail = part.substring_char(9, n);
                    proof {
                        assert(tail@ =~= part@.skip(9));
                    }
                    let v = match parse_u32(tail) {
                        Some(v) => v,
                        None => u32::MAX,
                    };
                    proof {
                        assert(v as int == subvolid_val(part@));
                    }
                    if v < cur {
                        proof {
                            let inner = mount_scan(lv.skip(k + 1), mp@, v as int);
                            assert(mount_scan(rest, mp@, cur as int) == (inner.0, inner.1, true));
                        }
                        cur = v;
                        changed = true;
                    } else {
                        proof {
                            assert(mount_scan(rest, mp@, cur as int) == mount_scan(
                                lv.skip(k + 1),
                                mp@,
                                cur as int,
                            ));
                        }
                    }
                },
                None => {
                    proof {
                        assert(mount_scan(rest, mp@, cur as int) == mount_scan(
                            lv.skip(k + 1),
                            mp@,
                            cur as int,
                        ));
                    }
                },
            }
        } else {
            proof {
                assert(mount_scan(rest, mp@, cur as int) == mount_scan(
                    lv.skip(k + 1),
                    mp@,
                    cur as int,
                ));
            }
        }
        k = k + 1;
    }
    proof {
        assert(lv.skip(lv.len() as int) =~= Seq::<Seq<char>>::empty());
    }
    (false, cur, changed)
}

/// Scans the disks and decides what the disk module reports, as
/// `disk_choice_spec` states it. `mounts` carries the mount-table lines when
/// the binary could read them.
pub fn select_disks(disks: &Vec<DiskData>, mounts: &Option<Vec<String>>) -> (r: DiskChoice)
    ensures
        choice_view(r) == disk_choice_spec(
            disks@.map_values(|d: DiskData| disk_view(d)),
            mounts_view(*mounts),
        ),
{
    let ghost dv = disks@.map_values(|d: DiskData| disk_view(d));
    let ghost mv = mounts_view(*mounts);
    let mut selected: Vec<usize> = Vec::new();
    let mut root: Option<usize> = None;
    let mut min_disk: Option<usize> = None;
    let mut min_val: u32 = u32::MAX;
    let mut done = false;
    let mut i: usize = 0;
    let ghost goal = disk_scan(dv, mv, 0, init_state());
    proof {
        assert(selected@.map_values(|u: usize| u as int) =~= Seq::<int>::empty());
    }
    while i < disks.len() && !done
        invariant
            dv == disks@.map_values(|d: DiskData| disk_view(d)),
            mv == mounts_view(*mounts),
            goal == disk_scan(dv, mv, 0, init_state()),
            i <= dv.len(),
            goal == (if done {
                ScanState {
                    selected: selected@.map_values(|u: usize| u as int),
                    root: (match root {
                        Some(x) => Some(x as int),
                        None => None,
                    }),
                    min_disk: (match min_disk {
                        Some(x) => Some(x as int),
                        None => None,
                    }),
                    min_val: min_val as int,
                }
            } else {
                disk_scan(
                    dv,
                    mv,
                    i as int,
                    ScanState {
                        selected: selected@.map_values(|u: usize| u as int),
                        root: (match root {
                            Some(x) => Some(x as int),
                            None => None,
                        }),
                        min_disk: (match min_disk {
                            Some(x) => Some(x as int),
                            None => None,
                        }),
                        min_val: min_val as int,
                    },
                )
            }),
        decreases dv.len() - i, (if done {
            0int
        } else {
            1int
        }),
    {
        let ghost st0 = ScanState {
            selected: selected@.map_values(|u: usize| u as int),
            root: (match root {
                Some(x) => Some(x as int),
                None => None,
            }),
            min_disk: (match min_disk {
                Some(x) => Some(x as int),
                None => None,
            }),
            min_val: min_val as int,
        };
        proof {
            assert(dv[i as int] == disk_view(disks@[i as int]));
        }
        let fs = disks[i].file_system.as_str();
        let mp = disks[i].mount_point.as_str();
        if str_eq(fs, "vfat") || str_eq(fs, "overlay") || str_eq(mp, "/boot") {
            proof {
                assert(disk_scan(dv, mv, i as int, st0) == disk_scan(dv, mv, i + 1, st0));
            }
        } else if str_eq(fs, "btrfs") {
            if str_eq(mp, "/") {
                root = Some(i);
                done = true;
                proof {
                    assert(disk_scan(dv, mv, i as int, st0) == ScanState {
                        selected: st0.selected,
                        root: Some(i as int),
                        min_disk: st0.min_disk,
                        min_val: st0.min_val,
                    });
                }
            } else {
                match mounts {
                    None => {
                        proof {
                            assert(disk_scan(dv, mv, i as int, st0) == disk_scan(
                                dv,
                                mv,
                                i + 1,
                                st0,
                            ));
                        }
                    },
                    Some(lines) => {
                        let sc = scan_mounts(lines, mp, min_val);
                        if sc.0 {
                            root = Some(i);
                        }
                        if sc.2 {
                            min_disk = Some(i);
                        }
                        min_val = sc.1;
                        proof {
                            let r = mount_scan(lines@.map_values(|t: String| t@), mp@, st0.min_val);
                            assert(disk_scan(dv, mv, i as int, st0) == disk_scan(
                                dv,
                                mv,
                                i + 1,
                                ScanState {
                                    selected: st0.selected,
                                    root: if r.0 {
                                        Some(i as int)
                                    } else {
                                        st0.root
                                    },
                                    min_disk: if r.2 {
                                        Some(i as int)
                                    } else {
                                        st0.min_disk
                                    },
                                    min_val: r.1,
                                },
                            ));
                        }
                    },
                }
            }
        } else {
            selected.push(i);
            proof {
                assert(selected@.map_values(|u: usize| u as int) =~= st0.selected.push(i as int));
                assert(disk_scan(dv, mv, i as int, st0) == disk_scan(
                    dv,
                    mv,
                    i + 1,
                    ScanState {
                        selected: st0.selected.push(i as int),
                        root: st0.root,
                        min_disk: st0.min_disk,
                        min_val: st0.min_val,
                    },
                ));
            }
        }
        i = i + 1;
    }
    proof {
        if !done {
            assert(disk_scan(dv, mv, i as int, ScanState {
                selected: selected@.map_values(|u: usize| u as int),
                root: (match root {
                    Some(x) => Some(x as int),
                    None => None,
                }),
                min_disk: (match min_disk {
                    Some(x) => Some(x as int),
                    None => None,
                }),
                min_val: min_val as int,
            }) == ScanState {
                selected: selected@.map_values(|u: usize| u as int),
                root: (match root {
                    Some(x) => Some(x as int),
                    None => None,
                }),
                min_disk: (match min_disk {
                    Some(x) => Some(x as int),
                    None => None,
                }),
                min_val: min_val as int,
            });
        }
    }
    match root {
        Some(ix) => DiskChoice::Single(ix),
        None => match min_disk {
            Some(ix) => DiskChoice::Single(ix),
            None => {
                if selected.len() > 0 {
                    DiskChoice::Several(selected)
                } else {
                    DiskChoice::Unknown
                }
            },
        },
    }
}

} // verus!
