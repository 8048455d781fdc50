//! Working over a directory listing: turn the archive filenames found in a
//! directory into records, find the newest version on disk, and count how
//! many remembered records have a newer archive available.
//!
//! Listing a directory is I/O and stays with the caller; these functions
//! take the list of filenames (in whatever order the listing gave them) and
//! never assume it sorted: the newest entry is found by scanning them all.

use vstd::prelude::*;

use crate::packet::{has_archive_ext, is_archive_name, Packet, PacketView};
use crate::text::dec_digits;
use crate::version::{parse_name, spec_parse_name, version_lt, Version};

verus! {

/// The records a single listed filename contributes: one when it carries
/// the archive extension and parses, none otherwise.
pub open spec fn spec_scan_entry(dir: Seq<char>, name: Seq<char>) -> Seq<PacketView> {
    if has_archive_ext(name) && spec_parse_name(name) is Some {
        seq![
            PacketView {
                key: (spec_parse_name(name)->0).0,
                version: (spec_parse_name(name)->0).1,
                path: dir,
            },
        ]
    } else {
        Seq::<PacketView>::empty()
    }
}

/// The records of all listed filenames, in listing order.
pub open spec fn spec_find_packets(dir: Seq<char>, names: Seq<Seq<char>>) -> Seq<PacketView>
    decreases names.len(),
{
    if names.len() == 0 {
        Seq::<PacketView>::empty()
    } else {
        spec_scan_entry(dir, names[0]) + spec_find_packets(dir, names.drop_first())
    }
}

proof fn lemma_find_packets_push(dir: Seq<char>, names: Seq<Seq<char>>, x: Seq<char>)
    ensures
        spec_find_packets(dir, names.push(x)) == spec_find_packets(dir, names) + spec_scan_entry(
            dir,
            x,
        ),
    decreases names.len(),
{
    if names.len() == 0 {
        assert(names.push(x)[0] == x);
        assert(spec_find_packets(dir, names.push(x)) == spec_scan_entry(dir, x)
            + spec_find_packets(dir, names.push(x).drop_first()));
        assert(names.push(x).drop_first().len() == 0);
        assert(spec_find_packets(dir, names.push(x).drop_first()) == Seq::<PacketView>::empty());
        assert(spec_find_packets(dir, names) == Seq::<PacketView>::empty());
        assert(spec_scan_entry(dir, x) + Seq::<PacketView>::empty() =~~= spec_scan_entry(dir, x));
        assert(Seq::<PacketView>::empty() + spec_scan_entry(dir, x) =~~= spec_scan_entry(dir, x));
    } else {
        assert(names.push(x)[0] == names[0]);
        assert(spec_find_packets(dir, names.push(x)) == spec_scan_entry(dir, names[0])
            + spec_find_packets(dir, names.push(x).drop_first()));
        assert(names.push(x).drop_first() =~~= names.drop_first().push(x));
        lemma_find_packets_push(dir, names.drop_first(), x);
        assert(spec_find_packets(dir, names.push(x).drop_first()) == spec_find_packets(
            dir,
            names.drop_first(),
        ) + spec_scan_entry(dir, x));
        assert(spec_find_packets(dir, names) == spec_scan_entry(dir, names[0])
            + spec_find_packets(dir, names.drop_first()));
        assert(spec_scan_entry(dir, names[0]) + (spec_find_packets(dir, names.drop_first())
            + spec_scan_entry(dir, x)) =~~= (spec_scan_entry(dir, names[0]) + spec_find_packets(
            dir,
            names.drop_first(),
        )) + spec_scan_entry(dir, x));
    }
}

/// Turn the filenames listed in `dir` into records: entries without the
/// archive extension are silently skipped; each remaining filename is
/// parsed into name and version.
pub fn find_packets(dir: &str, names: &Vec<String>) -> (r: Vec<Packet>)
    requires
        forall|i: int| 0 <= i < names@.len() && has_archive_ext(#[trigger] names@[i]@)
            ==> spec_parse_name(names@[i]@) is Some,
    ensures
        r.deep_view() == spec_find_packets(dir@, names.deep_view()),
{
    let n = names.len();
    let mut r: Vec<Packet> = Vec::new();
    let mut i: usize = 0;
    proof {
        assert(r.deep_view() =~= spec_find_packets(dir@, names.deep_view().take(0)));
    }
    while i < n
        invariant
            i <= n,
            n == names@.len(),
            forall|j: int| 0 <= j < names@.len() && has_archive_ext(#[trigger] names@[j]@)
                ==> spec_parse_name(names@[j]@) is Some,
            r.deep_view() == spec_find_packets(dir@, names.deep_view().take(i as int)),
        decreases n - i,
    {
        let ghost taken = names.deep_view().take(i as int);
        let ghost name_i = names.deep_view()[i as int];
        proof {
            assert(names.deep_view().take(i as int + 1) =~= taken.push(name_i));
            lemma_find_packets_push(dir@, taken, name_i);
        }
        if is_archive_name(names[i].as_str()) {
            match parse_name(names[i].as_str()) {
                Some(kv) => {
                    let p = Packet {
                        key: String::from_str(kv.0),
                        version: kv.1,
                        path: String::from_str(dir),
                    };
                    r.push(p);
                    proof {
                        assert(r.deep_view() =~= spec_find_packets(dir@, taken) + spec_scan_entry(
                            dir@,
                            name_i,
                        ));
                    }
                },
                None => {
                    proof {
                        assert(false);
                    }
                },
            }
        } else {
            proof {
                assert(r.deep_view() =~= spec_find_packets(dir@, taken) + spec_scan_entry(
                    dir@,
                    name_i,
                ));
            }
        }
        i = i + 1;
    }
    proof {
        assert(names.deep_view().take(n as int) =~= names.deep_view());
    }
    r
}

/// Whether some scanned record carries a version above `cur`.
pub open spec fn spec_has_newer(cur: Version, scanned: Seq<PacketView>) -> bool {
    exists|j: int| 0 <= j < scanned.len() && version_lt(cur, scanned[j].version)
}

/// Find the newest scanned record, when it is newer than `current`: the
/// first record whose version no other record exceeds. Returns its index,
/// or `None` when nothing on disk is newer than `current`.
pub fn newer_version(current: &Version, scanned: &Vec<Packet>) -> (r: Option<usize>)
    ensures
        match r {
            Some(i) => {
                &&& 0 <= i < scanned@.len()
                &&& version_lt(*current, scanned@[i as int].version)
                &&& forall|j: int| 0 <= j < scanned@.len() ==> !version_lt(
                    scanned@[i as int].version,
                    #[trigger] scanned@[j].version,
                )
                &&& forall|j: int| 0 <= j < i ==> version_lt(
                    #[trigger] scanned@[j].version,
                    scanned@[i as int].version,
                )
            },
            None => !spec_has_newer(*current, scanned.deep_view()),
        },
{
    let n = scanned.len();
    if n == 0 {
        proof {
            assert(!spec_has_newer(*current, scanned.deep_view()));
        }
        return None;
    }
    let mut best: usize = 0;
    let mut j: usize = 1;
    while j < n
        invariant
            1 <= j <= n,
            n == scanned@.len(),
            best < j,
            forall|k: int| 0 <= k < j ==> !version_lt(
                scanned@[best as int].version,
                #[trigger] scanned@[k].version,
            ),
            forall|k: int| 0 <= k < best ==> version_lt(
                #[trigger] scanned@[k].version,
                scanned@[best as int].version,
            ),
        decreases n - j,
    {
        if scanned[best].version < scanned[j].version {
            best = j;
        }
        j = j + 1;
    }
    if *current < scanned[best].version {
        proof {
            assert(forall|k: int| 0 <= k < scanned.deep_view().len()
                ==> scanned.deep_view()[k].version == scanned@[k].version);
        }
        Some(best)
    } else {
        proof {
            assert(forall|k: int| 0 <= k < scanned.deep_view().len()
                ==> scanned.deep_view()[k].version == scanned@[k].version);
        }
        None
    }
}

/// How many of the remembered records have a newer archive in their scan.
pub open spec fn spec_update_count(ps: Seq<PacketView>, scans: Seq<Seq<PacketView>>) -> int
    decreases ps.len(),
{
    if ps.len() == 0 {
        0
    } else {
        (if spec_has_newer(ps[0].version, scans[0]) {
            1int
        } else {
            0int
        }) + spec_update_count(ps.drop_first(), scans.drop_first())
    }
}

proof fn lemma_update_count_push(
    ps: Seq<PacketView>,
    scans: Seq<Seq<PacketView>>,
    p: PacketView,
    s: Seq<PacketView>,
)
    requires
        ps.len() == scans.len(),
    ensures
        spec_update_count(ps.push(p), scans.push(s)) == spec_update_count(ps, scans) + (
        if spec_has_newer(p.version, s) {
            1int
        } else {
            0int
        }),
    decreases ps.len(),
{
    if ps.len() == 0 {
        assert(ps.push(p)[0] == p);
        assert(scans.push(s)[0] == s);
        assert(ps.push(p).drop_first().len() == 0);
        assert(spec_update_count(ps.push(p), scans.push(s)) == (
        if spec_has_newer(p.version, s) {
            1int
        } else {
            0int
        }) + spec_update_count(ps.push(p).drop_first(), scans.push(s).drop_first()));
        assert(spec_update_count(ps.push(p).drop_first(), scans.push(s).drop_first()) == 0);
        assert(spec_update_count(ps, scans) == 0);
    } else {
        assert(ps.push(p)[0] == ps[0]);
        assert(scans.push(s)[0] == scans[0]);
        assert(spec_update_count(ps.push(p), scans.push(s)) == (
        if spec_has_newer(ps[0].version, scans[0]) {
            1int
        } else {
            0int
        }) + spec_update_count(ps.push(p).drop_first(), scans.push(s).drop_first()));
        assert(ps.push(p).drop_first() =~~= ps.drop_first().push(p));
        assert(scans.push(s).drop_first() =~~= scans.drop_first().push(s));
        lemma_update_count_push(ps.drop_first(), scans.drop_first(), p, s);
        assert(spec_update_count(ps.push(p).drop_first(), scans.push(s).drop_first())
            == spec_update_count(ps.drop_first(), scans.drop_first()) + (
        if spec_has_newer(p.version, s) {
            1int
        } else {
            0int
        }));
        assert(spec_update_count(ps, scans) == (
        if spec_has_newer(ps[0].version, scans[0]) {
            1int
        } else {
            0int
        }) + spec_update_count(ps.drop_first(), scans.drop_first()));
    }
}

/// Count the remembered records whose scan (the records found in their
/// directory, `scans[i]` belonging to `packets[i]`) holds a newer version.
pub fn count_updates(packets: &Vec<Packet>, scans: &Vec<Vec<Packet>>) -> (r: u32)
    requires
        scans@.len() == packets@.len(),
        packets@.len() <= u32::MAX,
    ensures
        r == spec_update_count(packets.deep_view(), scans.deep_view()),
{
    let n = packets.len();
    let mut count: u32 = 0;
    let mut i: usize = 0;
    proof {
        assert(packets.deep_view().take(0) =~= Seq::<PacketView>::empty());
    }
    while i < n
        invariant
            i <= n,
            n == packets@.len(),
            n == scans@.len(),
            n <= u32::MAX,
            count == spec_update_count(
                packets.deep_view().take(i as int),
                scans.deep_view().take(i as int),
            ),
            count <= i,
        decreases n - i,
    {
        let ghost pt = packets.deep_view().take(i as int);
        let ghost st = scans.deep_view().take(i as int);
        let ghost pv = packets.deep_view()[i as int];
        let ghost sv = scans.deep_view()[i as int];
        proof {
            lemma_update_count_push(pt, st, pv, sv);
            assert(packets.deep_view().take(i as int + 1) =~= pt.push(pv));
            assert(scans.deep_view().take(i as int + 1) =~= st.push(scans.deep_view()[i as int]));
        }
        let newer = newer_version(&packets[i].version, &scans[i]);
        proof {
            let cur = packets@[i as int].version;
            assert(pv.version == cur);
            assert(sv == scans@[i as int].deep_view());
            match newer {
                Some(i0) => {
                    assert(version_lt(cur, scans@[i as int]@[i0 as int].version));
                    assert(scans@[i as int].deep_view()[i0 as int].version == scans@[
                        i as int
                    ]@[i0 as int].version);
                    assert(spec_has_newer(cur, sv));
                },
                None => {
                    assert(!spec_has_newer(cur, sv));
                },
            }
        }
        if newer.is_some() {
            count = count + 1;
        }
        i = i + 1;
    }
    proof {
        assert(packets.deep_view().take(n as int) =~= packets.deep_view());
        assert(scans.deep_view().take(n as int) =~= scans.deep_view());
    }
    count
}

/// The summary line the check prints: the number of packages with updates,
/// or that no newer versions were found.
pub open spec fn spec_check_summary(updates: u32) -> Seq<char> {
    if updates == 0 {
        "No newer versions found."@
    } else {
        dec_digits(updates as nat) + " Updates found"@
    }
}

/// Render the check's summary line.
pub fn check_summary(updates: u32) -> (r: String)
    ensures
        r@ == spec_check_summary(updates),
{
    if updates == 0 {
        String::from_str("No newer versions found.")
    } else {
        let mut s = crate::text::u32_string(updates);
        s.append(" Updates found");
        s
    }
}

} // verus!
