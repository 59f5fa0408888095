//! Declared version constraints.
//!
//! A constraint is a range expression over versions (comparator sets,
//! caret/tilde shorthand). Its matching semantics are those of the
//! constraint syntax itself and are treated as given: contracts speak of
//! a constraint through its text, and of matching through
//! [`constraint_matches`].

use vstd::prelude::*;

use crate::version::{CrateVersion, VersionView};

verus! {

#[verifier::external_type_specification]
#[verifier::external_body]
pub struct ExSemverVersionReq(semver::VersionReq);

/// Whether a text is a well-formed range expression; a function of the
/// text alone.
pub uninterp spec fn constraint_parse_ok(s: Seq<char>) -> bool;

/// Whether a version satisfies the range written in a constraint text;
/// a function of the text and the version value alone.
pub uninterp spec fn constraint_matches(req: Seq<char>, v: VersionView) -> bool;

/// A parsed version constraint. The parsed range is kept beside the
/// text it was parsed from; the text identifies the constraint in every
/// contract.
#[derive(Debug)]
pub struct Constraint {
    pub(crate) req: semver::VersionReq,
    text: String,
}

impl View for Constraint {
    type V = Seq<char>;

    closed spec fn view(&self) -> Seq<char> {
        self.text@
    }
}

/// Relies on semver::VersionReq::parse: which texts form a range
/// expression depends on the text alone.
#[verifier::external_body]
fn req_parse(s: &str) -> (r: Option<semver::VersionReq>)
    ensures
        r is Some <==> constraint_parse_ok(s@),
{
    match semver::VersionReq::parse(s) {
        Ok(req) => Some(req),
        Err(_) => None,
    }
}

/// Relies on semver::VersionReq's Clone implementation (derived): the
/// clone is the same value.
pub assume_specification [ <semver::VersionReq as Clone>::clone ](r: &semver::VersionReq) -> (c:
    semver::VersionReq)
    ensures
        c == *r,
;

/// Relies on semver::VersionReq::matches: whether a version satisfies a
/// range depends on the range and the version's precedence-relevant
/// parts alone (build metadata is documented to be ignored), and the
/// kept range is exactly what the kept text parses to.
#[verifier::external_body]
fn req_matches(c: &Constraint, v: &CrateVersion) -> (r: bool)
    ensures
        r == constraint_matches(c@, v@),
{
    c.req.matches(&v.raw)
}

impl Clone for Constraint {
    /// The clone has the same value.
    fn clone(&self) -> (r: Self)
        ensures
            r@ == self@,
    {
        Constraint { req: self.req.clone(), text: self.text.clone() }
    }
}

impl Constraint {
    /// Parse the textual form of a constraint; `None` when the text is
    /// not a well-formed range expression.
    pub fn parse(s: &str) -> (r: Option<Constraint>)
        ensures
            r is Some <==> constraint_parse_ok(s@),
            r is Some ==> r.unwrap()@ == s@,
    {
        match req_parse(s) {
            Some(req) => Some(Constraint { req, text: s.to_owned() }),
            None => None,
        }
    }

    /// Whether `v` satisfies this constraint.
    pub fn matches(&self, v: &CrateVersion) -> (r: bool)
        ensures
            r == constraint_matches(self@, v@),
    {
        req_matches(self, v)
    }
}

} // verus!
