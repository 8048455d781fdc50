//! Three-part semantic versions: numeric ordering, parsing the version out
//! of an archive filename, and rendering it back as `major.minor.patch`.
//!
//! A filename `<name>.<major>.<minor>.<patch>.<ext>` is read from the right:
//! the extension token is dropped, then the last three dot-separated tokens
//! are the patch, minor and major numbers, and whatever precedes them is the
//! package name. Parsing fails when fewer than three numeric tokens precede
//! the extension or a token is not a number that fits in a `u32`.

use vstd::prelude::*;

use crate::text::{
    dec_digits, lemma_dec_digits, lemma_rcut_concat, parse_u32, rcut, spec_parse_u32, spec_rcut,
};

verus! {

#[derive(Debug, Clone, Copy, PartialEq, Eq, Structural)]
pub struct Version {
    pub major: u32,
    pub minor: u32,
    pub patch: u32,
}

/// Strict ordering of versions: by major, then minor, then patch, each
/// compared as a number.
pub open spec fn version_lt(a: Version, b: Version) -> bool {
    ||| a.major < b.major
    ||| (a.major == b.major && a.minor < b.minor)
    ||| (a.major == b.major && a.minor == b.minor && a.patch < b.patch)
}

/// What parsing an archive filename yields: the package name (the tokens
/// before the version) and the version, or nothing when the name does not
/// carry three numeric tokens before its extension.
pub open spec fn spec_parse_name(s: Seq<char>) -> Option<(Seq<char>, Version)> {
    match spec_rcut(s, '.') {
        None => None,
        Some((r1, _ext)) => match spec_rcut(r1, '.') {
            None => None,
            Some((r2, ptok)) => match spec_rcut(r2, '.') {
                None => None,
                Some((r3, mtok)) => {
                    let kq = match spec_rcut(r3, '.') {
                        Some(p) => p,
                        None => (Seq::<char>::empty(), r3),
                    };
                    match (spec_parse_u32(kq.1), spec_parse_u32(mtok), spec_parse_u32(ptok)) {
                        (Some(a), Some(b), Some(c)) => Some(
                            (kq.0, Version { major: a, minor: b, patch: c }),
                        ),
                        _ => None,
                    }
                },
            },
        },
    }
}

/// The version part of `spec_parse_name`.
pub open spec fn spec_version_of_name(s: Seq<char>) -> Option<Version> {
    match spec_parse_name(s) {
        Some(p) => Some(p.1),
        None => None,
    }
}

/// The canonical `major.minor.patch` rendering.
pub open spec fn spec_render_version(v: Version) -> Seq<char> {
    dec_digits(v.major as nat) + seq!['.'] + dec_digits(v.minor as nat) + seq!['.'] + dec_digits(
        v.patch as nat,
    )
}

impl Version {
    pub fn new(major: u32, minor: u32, patch: u32) -> (v: Version)
        ensures
            v.major == major,
            v.minor == minor,
            v.patch == patch,
    {
        Version { major, minor, patch }
    }

    /// Read the version out of an archive filename.
    pub fn from_name(name: &str) -> (r: Option<Version>)
        ensures
            r == spec_version_of_name(name@),
    {
        match parse_name(name) {
            Some(p) => Some(p.1),
            None => None,
        }
    }

    /// Render the version as `major.minor.patch`.
    pub fn render(&self) -> (r: String)
        ensures
            r@ == spec_render_version(*self),
    {
        let mut s = crate::text::u32_string(self.major);
        s.append(".");
        s.append(crate::text::u32_string(self.minor).as_str());
        s.append(".");
        s.append(crate::text::u32_string(self.patch).as_str());
        proof {
            reveal_strlit(".");
            assert("."@ =~= seq!['.']);
        }
        s
    }
}

/// Parse an archive filename into its package name and version.
pub fn parse_name<'a>(name: &'a str) -> (r: Option<(&'a str, Version)>)
    ensures
        match r {
            Some(p) => spec_parse_name(name@) == Some((p.0@, p.1)),
            None => spec_parse_name(name@) is None,
        },
{
    let c1 = rcut(name, '.');
    match c1 {
        None => None,
        Some((r1, _ext)) => {
            let c2 = rcut(r1, '.');
            match c2 {
                None => None,
                Some((r2, ptok)) => {
                    let c3 = rcut(r2, '.');
                    match c3 {
                        None => None,
                        Some((r3, mtok)) => {
                            let c4 = rcut(r3, '.');
                            let (key, atok) = match c4 {
                                Some(p) => p,
                                None => ("", r3),
                            };
                            proof {
                                reveal_strlit("");
                                assert(""@ =~= Seq::<char>::empty());
                            }
                            let a = parse_u32(atok);
                            let b = parse_u32(mtok);
                            let c = parse_u32(ptok);
                            if a.is_some() && b.is_some() && c.is_some() {
                                Some((key, Version::new(a.unwrap(), b.unwrap(), c.unwrap())))
                            } else {
                                None
                            }
                        },
                    }
                },
            }
        },
    }
}

/// Version ordering is a strict total order: irreflexive, asymmetric,
/// transitive, and any two versions are ordered or equal. It compares the
/// parts as numbers, never as character strings.
pub proof fn lemma_version_order(a: Version, b: Version, c: Version)
    ensures
        !version_lt(a, a),
        version_lt(a, b) ==> !version_lt(b, a),
        version_lt(a, b) && version_lt(b, c) ==> version_lt(a, c),
        version_lt(a, b) || version_lt(b, a) || a == b,
{
}

/// Parsing recovers exactly the name and version that a well-formed
/// filename was built from, for any extension free of dots.
pub proof fn lemma_parse_name_roundtrip(name: Seq<char>, v: Version, ext: Seq<char>)
    requires
        forall|j: int| 0 <= j < ext.len() ==> ext[j] != '.',
    ensures
        spec_parse_name(
            name + seq!['.'] + dec_digits(v.major as nat) + seq!['.'] + dec_digits(v.minor as nat)
                + seq!['.'] + dec_digits(v.patch as nat) + seq!['.'] + ext,
        ) == Some((name, v)),
{
    let aa = dec_digits(v.major as nat);
    let bb = dec_digits(v.minor as nat);
    let cc = dec_digits(v.patch as nat);
    lemma_dec_digits(v.major as nat);
    lemma_dec_digits(v.minor as nat);
    lemma_dec_digits(v.patch as nat);
    let s = name + seq!['.'] + aa + seq!['.'] + bb + seq!['.'] + cc + seq!['.'] + ext;
    let p1 = name + seq!['.'] + aa + seq!['.'] + bb + seq!['.'] + cc;
    let p2 = name + seq!['.'] + aa + seq!['.'] + bb;
    let p3 = name + seq!['.'] + aa;
    assert(s =~= p1 + seq!['.'] + ext);
    lemma_rcut_concat(p1, '.', ext);
    assert(p1 =~= p2 + seq!['.'] + cc);
    lemma_rcut_concat(p2, '.', cc);
    assert(p2 =~= p3 + seq!['.'] + bb);
    lemma_rcut_concat(p3, '.', bb);
    lemma_rcut_concat(name, '.', aa);
    assert(spec_parse_u32(aa) == Some(v.major));
    assert(spec_parse_u32(bb) == Some(v.minor));
    assert(spec_parse_u32(cc) == Some(v.patch));
    assert(Version { major: v.major, minor: v.minor, patch: v.patch } == v);
}

impl PartialOrd for Version {
    fn partial_cmp(&self, other: &Self) -> (r: Option<core::cmp::Ordering>) {
        if self.major < other.major {
            Some(core::cmp::Ordering::Less)
        } else if other.major < self.major {
            Some(core::cmp::Ordering::Greater)
        } else if self.minor < other.minor {
            Some(core::cmp::Ordering::Less)
        } else if other.minor < self.minor {
            Some(core::cmp::Ordering::Greater)
        } else if self.patch < other.patch {
            Some(core::cmp::Ordering::Less)
        } else if other.patch < self.patch {
            Some(core::cmp::Ordering::Greater)
        } else {
            Some(core::cmp::Ordering::Equal)
        }
    }
}

impl vstd::std_specs::cmp::PartialOrdSpecImpl for Version {
    open spec fn obeys_partial_cmp_spec() -> bool {
        true
    }

    open spec fn partial_cmp_spec(&self, other: &Self) -> Option<core::cmp::Ordering> {
        if version_lt(*self, *other) {
            Some(core::cmp::Ordering::Less)
        } else if version_lt(*other, *self) {
            Some(core::cmp::Ordering::Greater)
        } else {
            Some(core::cmp::Ordering::Equal)
        }
    }
}

} // verus!
