//! A package record: the archive's base name, its version, and the
//! directory that holds it. Built from a full file path, written back as
//! the path of the archive that carries a given version.
//!
//! Paths are plain strings split at their last `/`: everything before it is
//! the containing directory (empty when there is no `/`), everything after
//! it is the filename.

use vstd::prelude::*;

use crate::text::{lemma_rcut_concat, rcut, spec_rcut};
use crate::version::{
    lemma_parse_name_roundtrip, parse_name, spec_parse_name, spec_render_version, Version,
};

verus! {

#[derive(Debug, Clone)]
pub struct Packet {
    pub key: String,
    pub version: Version,
    pub path: String,
}

/// The mathematical value of a `Packet`: its strings as character sequences.
#[verifier::ext_equal]
pub struct PacketView {
    pub key: Seq<char>,
    pub version: Version,
    pub path: Seq<char>,
}

impl View for Packet {
    type V = PacketView;

    open spec fn view(&self) -> PacketView {
        PacketView { key: self.key@, version: self.version, path: self.path@ }
    }
}

impl DeepView for Packet {
    type V = PacketView;

    open spec fn deep_view(&self) -> PacketView {
        self@
    }
}

/// The archive extension, `.nupkg`.
pub open spec fn nupkg_ext() -> Seq<char> {
    seq!['.', 'n', 'u', 'p', 'k', 'g']
}

/// Whether a name ends with the archive extension.
pub open spec fn has_archive_ext(s: Seq<char>) -> bool {
    s.len() >= 6 && s.subrange(s.len() - 6, s.len() as int) == nupkg_ext()
}

/// Split a path at its last `/` into directory and filename.
pub open spec fn spec_split_dir(s: Seq<char>) -> (Seq<char>, Seq<char>) {
    match spec_rcut(s, '/') {
        Some(p) => p,
        None => (Seq::<char>::empty(), s),
    }
}

/// What building a record from a full file path yields: the filename parsed
/// into name and version, the directory kept as the record's path.
pub open spec fn spec_packet_of_path(s: Seq<char>) -> Option<PacketView> {
    let d = spec_split_dir(s);
    match spec_parse_name(d.1) {
        Some(kv) => Some(PacketView { key: kv.0, version: kv.1, path: d.0 }),
        None => None,
    }
}

/// The full path of the archive holding this record's version:
/// `<path>/<key>.<major>.<minor>.<patch>.nupkg`.
pub open spec fn spec_upload_path(p: PacketView) -> Seq<char> {
    p.path + seq!['/'] + p.key + seq!['.'] + spec_render_version(p.version) + nupkg_ext()
}

impl Packet {
    /// Build a record from a full archive file path, or nothing when the
    /// filename does not parse.
    pub fn new(path: &str) -> (r: Option<Packet>)
        ensures
            match r {
                Some(p) => spec_packet_of_path(path@) == Some(p@),
                None => spec_packet_of_path(path@) is None,
            },
    {
        let cut = rcut(path, '/');
        let (dir, name) = match cut {
            Some(p) => p,
            None => ("", path),
        };
        proof {
            reveal_strlit("");
            assert(""@ =~= Seq::<char>::empty());
        }
        match parse_name(name) {
            Some(kv) => Some(
                Packet {
                    key: String::from_str(kv.0),
                    version: kv.1,
                    path: String::from_str(dir),
                },
            ),
            None => None,
        }
    }

    /// The full path of the archive holding this record's version.
    pub fn upload_path(&self) -> (r: String)
        ensures
            r@ == spec_upload_path(self@),
    {
        let mut s = self.path.clone();
        s.append("/");
        s.append(self.key.as_str());
        s.append(".");
        let rendered = self.version.render();
        s.append(rendered.as_str());
        s.append(".nupkg");
        proof {
            reveal_strlit("/");
            reveal_strlit(".");
            reveal_strlit(".nupkg");
            assert("/"@ =~= seq!['/']);
            assert("."@ =~= seq!['.']);
            assert(".nupkg"@ =~= nupkg_ext());
            assert(s@ =~= spec_upload_path(self@));
        }
        s
    }
}

/// Whether a filename (or path) ends with the archive extension.
pub fn is_archive_name(s: &str) -> (r: bool)
    ensures
        r == has_archive_ext(s@),
{
    let n = s.unicode_len();
    if n < 6 {
        return false;
    }
    let r = s.get_char(n - 6) == '.' && s.get_char(n - 5) == 'n' && s.get_char(n - 4) == 'u'
        && s.get_char(n - 3) == 'p' && s.get_char(n - 2) == 'k' && s.get_char(n - 1) == 'g';
    proof {
        let t = s@.subrange(s@.len() - 6, s@.len() as int);
        assert(t.len() == 6);
        assert(t[0] == s@[s@.len() - 6]);
        assert(t[1] == s@[s@.len() - 5]);
        assert(t[2] == s@[s@.len() - 4]);
        assert(t[3] == s@[s@.len() - 3]);
        assert(t[4] == s@[s@.len() - 2]);
        assert(t[5] == s@[s@.len() - 1]);
        if r {
            assert(t =~= nupkg_ext());
        } else {
            assert(t != nupkg_ext());
        }
    }
    r
}

/// Reading back the archive path written for a record recovers the record
/// exactly, as long as its name is free of `/`.
pub proof fn lemma_upload_path_roundtrip(p: PacketView)
    requires
        forall|j: int| 0 <= j < p.key.len() ==> p.key[j] != '/',
    ensures
        spec_packet_of_path(spec_upload_path(p)) == Some(p),
{
    let aa = crate::text::dec_digits(p.version.major as nat);
    let bb = crate::text::dec_digits(p.version.minor as nat);
    let cc = crate::text::dec_digits(p.version.patch as nat);
    crate::text::lemma_dec_digits(p.version.major as nat);
    crate::text::lemma_dec_digits(p.version.minor as nat);
    crate::text::lemma_dec_digits(p.version.patch as nat);
    let tail = seq!['n', 'u', 'p', 'k', 'g'];
    let name = p.key + seq!['.'] + aa + seq!['.'] + bb + seq!['.'] + cc + seq!['.'] + tail;
    assert(spec_upload_path(p) =~= p.path + seq!['/'] + name);
    assert(forall|j: int| 0 <= j < name.len() ==> name[j] != '/');
    lemma_rcut_concat(p.path, '/', name);
    assert(spec_split_dir(spec_upload_path(p)) == (p.path, name));
    lemma_parse_name_roundtrip(p.key, p.version, tail);
    assert(spec_parse_name(name) == Some((p.key, p.version)));
    assert(PacketView { key: p.key, version: p.version, path: p.path } == p);
}

} // verus!
