//! Semantic versions, modelled as plain values.
//!
//! A version holds its numeric parts and its pre-release identifiers
//! directly, so that the precedence order between versions is a spec
//! function of the model; the `semver` crate is only relied on to parse
//! the textual form (and, through [`crate::constraint`], to evaluate
//! range constraints). Build metadata never takes part in precedence and
//! is not part of the model.

use vstd::prelude::*;

use crate::order::{
    lemma_segs_cmp_antisym, lemma_segs_cmp_trans, lemma_segs_cmp_zero, segs_cmp, segs_cmp_exec,
};

verus! {

pub const DOT_BYTE: u8 = 46;

#[verifier::external_type_specification]
#[verifier::external_body]
pub struct ExSemverVersion(semver::Version);

/// The mathematical value of a version: numeric parts plus the
/// dot-separated pre-release identifiers (empty when the version is not
/// a pre-release).
#[verifier::ext_equal]
pub ghost struct VersionView {
    pub major: u64,
    pub minor: u64,
    pub patch: u64,
    pub pre: Seq<Seq<u8>>,
}

/// Pre-release precedence: a release orders above every pre-release of
/// the same numeric version; two pre-releases compare by their
/// identifier lists.
pub open spec fn pre_cmp(a: Seq<Seq<u8>>, b: Seq<Seq<u8>>) -> int {
    if a.len() == 0 && b.len() == 0 {
        0
    } else if a.len() == 0 {
        1
    } else if b.len() == 0 {
        -1
    } else {
        segs_cmp(a, b)
    }
}

/// Three-way precedence comparison of two versions.
pub open spec fn version_cmp(a: VersionView, b: VersionView) -> int {
    if a.major != b.major {
        if a.major < b.major {
            -1
        } else {
            1
        }
    } else if a.minor != b.minor {
        if a.minor < b.minor {
            -1
        } else {
            1
        }
    } else if a.patch != b.patch {
        if a.patch < b.patch {
            -1
        } else {
            1
        }
    } else {
        pre_cmp(a.pre, b.pre)
    }
}

pub open spec fn ver_lt(a: VersionView, b: VersionView) -> bool {
    version_cmp(a, b) < 0
}

pub proof fn lemma_version_cmp_zero(a: VersionView, b: VersionView)
    requires
        version_cmp(a, b) == 0,
    ensures
        a == b,
{
    if a.pre.len() > 0 && b.pre.len() > 0 {
        lemma_segs_cmp_zero(a.pre, b.pre);
    }
    assert(a =~= b);
}

pub proof fn lemma_version_cmp_antisym(a: VersionView, b: VersionView)
    ensures
        version_cmp(a, b) == -version_cmp(b, a),
{
    if a.pre.len() > 0 && b.pre.len() > 0 {
        lemma_segs_cmp_antisym(a.pre, b.pre);
    }
}

pub proof fn lemma_version_cmp_refl(a: VersionView)
    ensures
        version_cmp(a, a) == 0,
{
    lemma_version_cmp_antisym(a, a);
}

pub proof fn lemma_version_cmp_trans(a: VersionView, b: VersionView, c: VersionView)
    requires
        version_cmp(a, b) < 0,
        version_cmp(b, c) < 0,
    ensures
        version_cmp(a, c) < 0,
{
    if a.major == b.major && b.major == c.major && a.minor == b.minor && b.minor == c.minor
        && a.patch == b.patch && b.patch == c.patch {
        if a.pre.len() > 0 && b.pre.len() > 0 && c.pre.len() > 0 {
            lemma_segs_cmp_trans(a.pre, b.pre, c.pre);
        }
    }
}

/// Transitivity through a non-strict step on the left.
pub proof fn lemma_version_le_lt_trans(a: VersionView, b: VersionView, c: VersionView)
    requires
        version_cmp(a, b) <= 0,
        version_cmp(b, c) < 0,
    ensures
        version_cmp(a, c) < 0,
{
    if version_cmp(a, b) == 0 {
        lemma_version_cmp_zero(a, b);
    } else {
        lemma_version_cmp_trans(a, b, c);
    }
}

/// Splitting a byte string on dots, building the last identifier as the
/// bytes arrive; the empty string yields one empty identifier.
pub open spec fn split_dots(s: Seq<u8>) -> Seq<Seq<u8>>
    decreases s.len(),
{
    if s.len() == 0 {
        seq![Seq::<u8>::empty()]
    } else {
        let p = split_dots(s.drop_last());
        if s.last() == DOT_BYTE {
            p.push(Seq::<u8>::empty())
        } else {
            p.update(p.len() - 1, p.last().push(s.last()))
        }
    }
}

/// The identifier list denoted by a pre-release text: none when the
/// text is empty, otherwise its dot-separated parts.
pub open spec fn pre_view(s: Seq<u8>) -> Seq<Seq<u8>> {
    if s.len() == 0 {
        Seq::<Seq<u8>>::empty()
    } else {
        split_dots(s)
    }
}

/// What a well-formed version text parses to.
pub open spec fn parsed_view(t: (u64, u64, u64, Seq<u8>)) -> VersionView {
    VersionView { major: t.0, minor: t.1, patch: t.2, pre: pre_view(t.3) }
}

/// The outcome of parsing a version text: the numeric parts and the raw
/// pre-release text, or nothing when the text is not a version. A
/// function of the text alone.
pub uninterp spec fn parsed_version(s: Seq<char>) -> Option<(u64, u64, u64, Seq<u8>)>;

/// A parsed semantic version.
#[derive(Debug, PartialEq)]
pub struct CrateVersion {
    pub(crate) major: u64,
    pub(crate) minor: u64,
    pub(crate) patch: u64,
    pub(crate) pre: Vec<Vec<u8>>,
    pub(crate) raw: semver::Version,
}

impl View for CrateVersion {
    type V = VersionView;

    closed spec fn view(&self) -> VersionView {
        VersionView {
            major: self.major,
            minor: self.minor,
            patch: self.patch,
            pre: self.pre.deep_view(),
        }
    }
}

/// Relies on semver::Version::parse: whether a text is a well-formed
/// version, and the parsed numeric and pre-release parts, depend on the
/// text alone; the values handed back are the fields of the parsed
/// version.
#[verifier::external_body]
fn semver_parse(s: &str) -> (r: Option<(u64, u64, u64, Vec<u8>, semver::Version)>)
    ensures
        r is Some <==> parsed_version(s@) is Some,
        r is Some ==> (parsed_version(s@).unwrap() == (
            r.unwrap().0,
            r.unwrap().1,
            r.unwrap().2,
            r.unwrap().3@,
        )),
{
    match semver::Version::parse(s) {
        Ok(v) => {
            let pre = v.pre.as_str().as_bytes().to_vec();
            Some((v.major, v.minor, v.patch, pre, v))
        }
        Err(_) => None,
    }
}

/// Relies on semver::Version's Clone implementation (derived): the clone
/// is the same value.
pub assume_specification [ <semver::Version as Clone>::clone ](v: &semver::Version) -> (r:
    semver::Version)
    ensures
        r == *v,
;

/// Split a pre-release text into its dot-separated identifiers.
fn split_bytes(s: &Vec<u8>) -> (r: Vec<Vec<u8>>)
    ensures
        r.deep_view() == split_dots(s@),
{
    let mut done: Vec<Vec<u8>> = Vec::new();
    let mut cur: Vec<u8> = Vec::new();
    let mut i: usize = 0;
    proof {
        assert(s@.take(0) =~~= Seq::<u8>::empty());
        assert(done.deep_view().push(cur@) =~~= split_dots(s@.take(0)));
    }
    while i < s.len()
        invariant
            0 <= i <= s.len(),
            done.deep_view().push(cur@) =~~= split_dots(s@.take(i as int)),
        decreases s.len() - i,
    {
        let ghost prev = split_dots(s@.take(i as int));
        proof {
            assert(s@.take(i + 1).drop_last() =~~= s@.take(i as int));
            assert(s@.take(i + 1).last() == s@[i as int]);
        }
        if s[i] == DOT_BYTE {
            let ghost old_done = done.deep_view();
            let ghost old_cur = cur@;
            done.push(cur);
            cur = Vec::new();
            proof {
                assert(done.deep_view() =~~= old_done.push(old_cur));
                assert(done.deep_view().push(cur@) =~~= prev.push(Seq::<u8>::empty()));
            }
        } else {
            cur.push(s[i]);
            proof {
                assert(done.deep_view().push(cur@) =~~= prev.update(
                    prev.len() - 1,
                    prev.last().push(s@[i as int]),
                ));
            }
        }
        i = i + 1;
    }
    proof {
        assert(s@.take(s@.len() as int) =~~= s@);
    }
    done.push(cur);
    proof {
        assert(done.deep_view() =~~= split_dots(s@));
    }
    done
}

/// Copy a list of identifiers byte by byte.
fn copy_segs(v: &Vec<Vec<u8>>) -> (r: Vec<Vec<u8>>)
    ensures
        r.deep_view() == v.deep_view(),
{
    let mut out: Vec<Vec<u8>> = Vec::new();
    let mut i: usize = 0;
    while i < v.len()
        invariant
            0 <= i <= v.len(),
            out.deep_view() =~~= v.deep_view().take(i as int),
        decreases v.len() - i,
    {
        let seg = &v[i];
        let mut copy: Vec<u8> = Vec::new();
        let mut j: usize = 0;
        while j < seg.len()
            invariant
                0 <= j <= seg.len(),
                copy@ =~~= seg@.take(j as int),
            decreases seg.len() - j,
        {
            copy.push(seg[j]);
            proof {
                assert(copy@ =~~= seg@.take(j + 1));
            }
            j = j + 1;
        }
        proof {
            assert(copy@ =~~= seg@);
        }
        out.push(copy);
        proof {
            assert(out.deep_view() =~~= v.deep_view().take(i + 1));
        }
        i = i + 1;
    }
    proof {
        assert(out.deep_view() =~~= v.deep_view());
    }
    out
}

impl Clone for CrateVersion {
    /// The clone has the same value.
    fn clone(&self) -> (r: Self)
        ensures
            r@ == self@,
    {
        CrateVersion {
            major: self.major,
            minor: self.minor,
            patch: self.patch,
            pre: copy_segs(&self.pre),
            raw: self.raw.clone(),
        }
    }
}

impl CrateVersion {
    /// Parse the textual form of a version; `None` when the text is not
    /// a well-formed semantic version.
    pub fn parse(s: &str) -> (r: Option<CrateVersion>)
        ensures
            r is Some <==> parsed_version(s@) is Some,
            r is Some ==> r.unwrap()@ == parsed_view(parsed_version(s@).unwrap()),
    {
        match semver_parse(s) {
            None => None,
            Some((major, minor, patch, pre, raw)) => {
                let pre_segs = if pre.len() == 0 {
                    Vec::new()
                } else {
                    split_bytes(&pre)
                };
                proof {
                    if pre@.len() == 0 {
                        assert(pre_segs.deep_view() =~~= pre_view(pre@));
                    }
                }
                Some(CrateVersion { major, minor, patch, pre: pre_segs, raw })
            }
        }
    }

    /// Whether this version carries a pre-release qualifier.
    pub fn is_prerelease(&self) -> (r: bool)
        ensures
            r == (self@.pre.len() > 0),
    {
        self.pre.len() > 0
    }

    /// Whether this version orders strictly below `other` in precedence.
    pub fn lt(&self, other: &CrateVersion) -> (r: bool)
        ensures
            r == ver_lt(self@, other@),
    {
        if self.major != other.major {
            self.major < other.major
        } else if self.minor != other.minor {
            self.minor < other.minor
        } else if self.patch != other.patch {
            self.patch < other.patch
        } else if self.pre.len() == 0 {
            false
        } else if other.pre.len() == 0 {
            true
        } else {
            segs_cmp_exec(&self.pre, &other.pre) < 0
        }
    }
}

} // verus!
