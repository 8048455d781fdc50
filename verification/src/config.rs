//! The in-memory configuration: an optional API key and one remembered
//! record per directory, holding the highest version observed there.
//! Loading and saving the flat file around it is the caller's business;
//! this module owns the merge rule and the key operations.

use vstd::prelude::*;

use crate::packet::{spec_packet_of_path, Packet, PacketView};
use crate::version::{version_lt, Version};

verus! {

#[derive(Debug, Clone)]
pub struct Configuration {
    pub key: Option<String>,
    pub packets: Vec<Packet>,
}

/// The mathematical value of a `Configuration`.
#[verifier::ext_equal]
pub struct ConfigView {
    pub key: Option<Seq<char>>,
    pub packets: Seq<PacketView>,
}

impl View for Configuration {
    type V = ConfigView;

    open spec fn view(&self) -> ConfigView {
        ConfigView {
            key: match self.key {
                Some(k) => Some(k@),
                None => None,
            },
            packets: self.packets.deep_view(),
        }
    }
}

/// The merge rule: if some record already stands for the packet's
/// directory, the first such record's version is raised to the packet's —
/// only when that is strictly greater, and its name is never touched;
/// otherwise the packet is appended as a new record.
pub open spec fn spec_remember(ps: Seq<PacketView>, p: PacketView) -> Seq<PacketView>
    decreases ps.len(),
{
    if ps.len() == 0 {
        seq![p]
    } else if ps[0].path == p.path {
        if version_lt(ps[0].version, p.version) {
            seq![PacketView { key: ps[0].key, version: p.version, path: ps[0].path }]
                + ps.drop_first()
        } else {
            ps
        }
    } else {
        seq![ps[0]] + spec_remember(ps.drop_first(), p)
    }
}

/// When the first record for `p.path` stands at index `i`, the merge either
/// raises that record's version or leaves everything as it was.
pub proof fn lemma_remember_found(ps: Seq<PacketView>, p: PacketView, i: int)
    requires
        0 <= i < ps.len(),
        ps[i].path == p.path,
        forall|j: int| 0 <= j < i ==> ps[j].path != p.path,
    ensures
        spec_remember(ps, p) == if version_lt(ps[i].version, p.version) {
            ps.update(i, PacketView { key: ps[i].key, version: p.version, path: ps[i].path })
        } else {
            ps
        },
    decreases i,
{
    if i == 0 {
        if version_lt(ps[0].version, p.version) {
            let u = PacketView { key: ps[0].key, version: p.version, path: ps[0].path };
            assert(seq![u] + ps.drop_first() =~= ps.update(0, u));
        }
    } else {
        let t = ps.drop_first();
        assert(forall|j: int| 0 <= j < i - 1 ==> t[j] == ps[j + 1]);
        lemma_remember_found(t, p, i - 1);
        if version_lt(ps[i].version, p.version) {
            let u = PacketView { key: ps[i].key, version: p.version, path: ps[i].path };
            assert(seq![ps[0]] + t.update(i - 1, u) =~= ps.update(i, u));
        } else {
            assert(seq![ps[0]] + t =~= ps);
        }
    }
}

/// When no record stands for `p.path`, the merge appends `p`.
pub proof fn lemma_remember_absent(ps: Seq<PacketView>, p: PacketView)
    requires
        forall|j: int| 0 <= j < ps.len() ==> ps[j].path != p.path,
    ensures
        spec_remember(ps, p) == ps.push(p),
    decreases ps.len(),
{
    if ps.len() == 0 {
        assert(seq![p] =~= ps.push(p));
    } else {
        let t = ps.drop_first();
        lemma_remember_absent(t, p);
        assert(seq![ps[0]] + t.push(p) =~= ps.push(p));
    }
}

/// Remembering the same packet a second time changes nothing more.
pub proof fn lemma_remember_idempotent(ps: Seq<PacketView>, p: PacketView)
    ensures
        spec_remember(spec_remember(ps, p), p) == spec_remember(ps, p),
    decreases ps.len(),
{
    let r = spec_remember(ps, p);
    if ps.len() == 0 {
        assert(r == seq![p]);
        assert(r[0].path == p.path);
        assert(!version_lt(p.version, p.version));
    } else if ps[0].path == p.path {
        if version_lt(ps[0].version, p.version) {
            assert(r[0].version == p.version);
            assert(!version_lt(r[0].version, p.version));
        }
    } else {
        let t = ps.drop_first();
        lemma_remember_idempotent(t, p);
        assert(r == seq![ps[0]] + spec_remember(t, p));
        assert(r.len() >= 1 && r[0] == ps[0]);
        assert(r.drop_first() =~= spec_remember(t, p));
        assert(spec_remember(r, p) == seq![r[0]] + spec_remember(r.drop_first(), p));
    }
}

/// The merge never loses a record, never renames one, never moves one, and
/// never lowers a remembered version.
pub proof fn lemma_remember_never_downgrades(ps: Seq<PacketView>, p: PacketView)
    ensures
        spec_remember(ps, p).len() >= ps.len(),
        forall|i: int| 0 <= i < ps.len() ==> (#[trigger] spec_remember(ps, p)[i]).path
            == ps[i].path,
        forall|i: int| 0 <= i < ps.len() ==> (#[trigger] spec_remember(ps, p)[i]).key == ps[i].key,
        forall|i: int| 0 <= i < ps.len() ==> !version_lt(
            (#[trigger] spec_remember(ps, p)[i]).version,
            ps[i].version,
        ),
    decreases ps.len(),
{
    let r = spec_remember(ps, p);
    if ps.len() == 0 {
    } else if ps[0].path == p.path {
    } else {
        let t = ps.drop_first();
        lemma_remember_never_downgrades(t, p);
        assert(r == seq![ps[0]] + spec_remember(t, p));
        assert(forall|i: int| 1 <= i < ps.len() ==> r[i] == spec_remember(t, p)[i - 1]);
        assert(forall|i: int| 1 <= i < ps.len() ==> t[i - 1] == ps[i]);
    }
}

impl Configuration {
    /// The empty configuration: no key, no records.
    pub fn new() -> (c: Configuration)
        ensures
            c@.key is None,
            c@.packets == Seq::<PacketView>::empty(),
    {
        let c = Configuration { key: None, packets: Vec::new() };
        proof {
            assert(c.packets.deep_view() =~= Seq::<PacketView>::empty());
        }
        c
    }
}

/// Store the given API key, leaving the records alone.
pub fn regular_key(key: &String, config: &mut Configuration)
    ensures
        final(config)@.key == Some(key@),
        final(config)@.packets == old(config)@.packets,
{
    config.key = Some(key.clone());
}

/// Forget the stored API key, leaving the records alone.
pub fn logout(config: &mut Configuration)
    ensures
        final(config)@.key is None,
        final(config)@.packets == old(config)@.packets,
{
    config.key = None;
}

/// The API key an upload runs with: the one given on the command line when
/// there is one, else the stored one, else nothing.
pub fn resolve_key(flag: &Option<String>, stored: &Option<String>) -> (r: Option<String>)
    ensures
        r is Some <==> (flag is Some || stored is Some),
        flag is Some ==> r is Some && r->0@ == flag->0@,
        flag is None && stored is Some ==> r is Some && r->0@ == stored->0@,
{
    match flag {
        Some(k) => Some(k.clone()),
        None => match stored {
            Some(k) => Some(k.clone()),
            None => None,
        },
    }
}

/// Fold the archive at `path` into the records, as `spec_remember` says:
/// raise the version remembered for its directory, never lower it, or
/// append a first record for that directory.
pub fn try_remember_packet(path: &str, config: &mut Configuration)
    requires
        spec_packet_of_path(path@) is Some,
    ensures
        final(config)@.key == old(config)@.key,
        final(config)@.packets == spec_remember(
            old(config)@.packets,
            spec_packet_of_path(path@)->0,
        ),
{
    let p = Packet::new(path).unwrap();
    let ghost ps = old(config)@.packets;
    let n = config.packets.len();
    let mut i: usize = 0;
    while i < n
        invariant
            i <= n,
            n == config.packets@.len(),
            *config == *old(config),
            p@ == spec_packet_of_path(path@)->0,
            forall|j: int| 0 <= j < i ==> ps[j].path != p@.path,
            ps == config.packets.deep_view(),
        decreases n - i,
    {
        proof {
            assert(ps[i as int] == config.packets@[i as int]@);
        }
        if config.packets[i].path == p.path {
            let replaced: bool = config.packets[i].version < p.version;
            if replaced {
                config.packets[i].version = p.version;
            }
            proof {
                lemma_remember_found(ps, p@, i as int);
                assert(config.packets.deep_view() =~~= spec_remember(ps, p@));
            }
            return ;
        }
        i = i + 1;
    }
    config.packets.push(p);
    proof {
        lemma_remember_absent(ps, p@);
        assert(config.packets.deep_view() =~~= spec_remember(ps, p@));
    }
}

} // verus!
