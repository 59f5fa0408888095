//! The version analyzer.
//!
//! Consumes a stream of known releases for the declared dependency
//! names and accumulates, per dependency and per kind, the best-known
//! matching and overall-latest versions; on finalization it attaches
//! the advisories known for each best matching version.
//!
//! The central invariant, [`DependencyAnalyzer::wf`], pins both
//! accumulated fields to the maxima over the whole processed history:
//! `latest` is the maximum non-pre-release version among the processed
//! non-yanked releases of that name, and `latest_that_matches` the
//! maximum constraint-satisfying one, each absent exactly when no such
//! release was processed.

use std::sync::Arc;

use vstd::prelude::*;

use crate::constraint::constraint_matches;
use crate::crates::{
    lookup, names_unique, seeded, AnalyzedDependencies, AnalyzedDependency, CrateDeps, CrateName,
    CrateRelease, DepTable, DepView, ReleaseView,
};
use crate::version::{
    lemma_version_cmp_antisym, lemma_version_cmp_refl, lemma_version_cmp_zero,
    lemma_version_le_lt_trans, ver_lt, version_cmp, CrateVersion, VersionView,
};

verus! {

#[verifier::external_type_specification]
#[verifier::external_body]
pub struct ExDatabase(rustsec::database::Database);

/// What querying the advisory database for one package at one exact
/// version returns: a function of the database value and that pair.
pub uninterp spec fn db_advisories(
    db: Arc<rustsec::database::Database>,
    name: Seq<char>,
    version: VersionView,
) -> Seq<rustsec::advisory::Advisory>;

/// Relies on rustsec::database::Database::query, with the query scoped
/// to one package name and one exact version: the matched advisories
/// depend on the database value, the name and the version alone (range
/// matching ignores build metadata). The name parse it builds the query
/// from accepts any string in this version of cargo_lock.
#[verifier::external_body]
fn query_advisories(
    db: &Arc<rustsec::database::Database>,
    name: &CrateName,
    version: &CrateVersion,
) -> (r: Vec<rustsec::advisory::Advisory>)
    ensures
        r@ == db_advisories(*db, name@, version@),
{
    let package: rustsec::package::Name = name.as_str().parse().unwrap();
    let query = rustsec::database::Query::new().package_name(package).package_version(
        version.raw.clone(),
    );
    db.query(&query).into_iter().map(|a| a.clone()).collect()
}

/// The release views of a batch, in the order given.
pub open spec fn views_of(rs: Seq<CrateRelease>) -> Seq<ReleaseView> {
    rs.map_values(|r: CrateRelease| r@)
}

/// Whether a release counts toward `latest_that_matches` for a
/// dependency: same name, not yanked, constraint satisfied.
pub open spec fn counts_matching(r: ReleaseView, name: Seq<char>, req: Seq<char>) -> bool {
    r.name == name && !r.yanked && constraint_matches(req, r.version)
}

/// Whether a release counts toward `latest`: same name, not yanked,
/// not a pre-release — the constraint plays no part here.
pub open spec fn counts_stable(r: ReleaseView, name: Seq<char>) -> bool {
    r.name == name && !r.yanked && r.version.pre.len() == 0
}

/// The versions among processed releases that count toward
/// `latest_that_matches` for one dependency.
pub open spec fn matching_versions(rs: Seq<ReleaseView>, name: Seq<char>, req: Seq<char>) -> Seq<
    VersionView,
>
    decreases rs.len(),
{
    if rs.len() == 0 {
        Seq::empty()
    } else {
        let prev = matching_versions(rs.drop_last(), name, req);
        if counts_matching(rs.last(), name, req) {
            prev.push(rs.last().version)
        } else {
            prev
        }
    }
}

/// The versions among processed releases that count toward `latest`.
pub open spec fn stable_versions(rs: Seq<ReleaseView>, name: Seq<char>) -> Seq<VersionView>
    decreases rs.len(),
{
    if rs.len() == 0 {
        Seq::empty()
    } else {
        let prev = stable_versions(rs.drop_last(), name);
        if counts_stable(rs.last(), name) {
            prev.push(rs.last().version)
        } else {
            prev
        }
    }
}

/// `m` is a maximum of `vs` in precedence order.
pub open spec fn is_max_version(vs: Seq<VersionView>, m: VersionView) -> bool {
    vs.contains(m) && forall|i: int| 0 <= i < vs.len() ==> version_cmp(#[trigger] vs[i], m) <= 0
}

/// An accumulated field is absent exactly when no candidate was seen,
/// and otherwise a maximum of the candidates.
pub open spec fn tracked_max_ok(field: Option<VersionView>, vs: Seq<VersionView>) -> bool {
    match field {
        None => vs.len() == 0,
        Some(m) => is_max_version(vs, m),
    }
}

/// Both accumulated fields of one dependency are correct for a
/// processed history.
pub open spec fn dep_ok(name: Seq<char>, d: DepView, rs: Seq<ReleaseView>) -> bool {
    &&& tracked_max_ok(d.latest_that_matches, matching_versions(rs, name, d.required))
    &&& tracked_max_ok(d.latest, stable_versions(rs, name))
}

/// Every tracked dependency of one kind is correct for a processed
/// history.
pub open spec fn table_ok(t: Seq<(Seq<char>, DepView)>, rs: Seq<ReleaseView>) -> bool {
    forall|i: int| 0 <= i < t.len() ==> dep_ok((#[trigger] t[i]).0, t[i].1, rs)
}

/// No advisories are attached yet.
pub open spec fn vulns_clear(t: Seq<(Seq<char>, DepView)>) -> bool {
    forall|i: int| 0 <= i < t.len() ==> (#[trigger] t[i]).1.vulnerabilities.len() == 0
}

/// The tracked names and constraints of one kind, without the
/// accumulated state.
pub open spec fn table_skeleton(t: Seq<(Seq<char>, DepView)>) -> Seq<(Seq<char>, Seq<char>)> {
    t.map_values(|e: (Seq<char>, DepView)| (e.0, e.1.required))
}

/// Raise an accumulated field to a new candidate: set it if unset,
/// replace it if the candidate orders strictly above it.
pub open spec fn step_max(field: Option<VersionView>, v: VersionView) -> Option<VersionView> {
    match field {
        None => Some(v),
        Some(m) => if ver_lt(m, v) {
            Some(v)
        } else {
            Some(m)
        },
    }
}

/// The single-dependency update rule for one candidate version: the
/// two fields are raised independently — the matching field when the
/// constraint is satisfied, the overall field when the candidate is
/// not a pre-release.
pub open spec fn dep_update(d: DepView, v: VersionView) -> DepView {
    DepView {
        latest_that_matches: if constraint_matches(d.required, v) {
            step_max(d.latest_that_matches, v)
        } else {
            d.latest_that_matches
        },
        latest: if v.pre.len() == 0 {
            step_max(d.latest, v)
        } else {
            d.latest
        },
        ..d
    }
}

/// One non-yanked release applied to one kind: the entry tracking the
/// release's name (if any) is updated, the rest stand.
pub open spec fn table_step(t: Seq<(Seq<char>, DepView)>, r: ReleaseView) -> Seq<
    (Seq<char>, DepView),
> {
    t.map_values(
        |e: (Seq<char>, DepView)|
            if e.0 == r.name {
                (e.0, dep_update(e.1, r.version))
            } else {
                e
            },
    )
}

proof fn lemma_step_max_ok(field: Option<VersionView>, vs: Seq<VersionView>, v: VersionView)
    requires
        tracked_max_ok(field, vs),
    ensures
        tracked_max_ok(step_max(field, v), vs.push(v)),
{
    lemma_version_cmp_refl(v);
    match field {
        None => {
            assert(vs.push(v)[0] == v);
        }
        Some(m) => {
            let i = choose|i: int| 0 <= i < vs.len() && vs[i] == m;
            if ver_lt(m, v) {
                assert forall|j: int| 0 <= j < vs.push(v).len() implies version_cmp(
                    #[trigger] vs.push(v)[j],
                    v,
                ) <= 0 by {
                    if j < vs.len() {
                        lemma_version_le_lt_trans(vs[j], m, v);
                    }
                }
                assert(vs.push(v)[vs.len() as int] == v);
            } else {
                lemma_version_cmp_antisym(m, v);
                assert(vs.push(v)[i] == m);
            }
        }
    }
}

proof fn lemma_candidates_push(rs: Seq<ReleaseView>, r: ReleaseView, name: Seq<char>, req: Seq<
    char,
>)
    ensures
        matching_versions(rs.push(r), name, req) == (if r.name == name && !r.yanked
            && constraint_matches(req, r.version) {
            matching_versions(rs, name, req).push(r.version)
        } else {
            matching_versions(rs, name, req)
        }),
        stable_versions(rs.push(r), name) == (if r.name == name && !r.yanked && r.version.pre.len()
            == 0 {
            stable_versions(rs, name).push(r.version)
        } else {
            stable_versions(rs, name)
        }),
{
    assert(rs.push(r).drop_last() =~= rs);
    assert(rs.push(r).last() == r);
}

proof fn lemma_dep_ok_step(name: Seq<char>, d: DepView, r: ReleaseView, rs: Seq<ReleaseView>)
    requires
        dep_ok(name, d, rs),
        !r.yanked,
        r.name == name,
    ensures
        dep_ok(name, dep_update(d, r.version), rs.push(r)),
{
    lemma_candidates_push(rs, r, name, d.required);
    if constraint_matches(d.required, r.version) {
        lemma_step_max_ok(d.latest_that_matches, matching_versions(rs, name, d.required), r.version);
    }
    if r.version.pre.len() == 0 {
        lemma_step_max_ok(d.latest, stable_versions(rs, name), r.version);
    }
}

proof fn lemma_dep_ok_skip(name: Seq<char>, d: DepView, r: ReleaseView, rs: Seq<ReleaseView>)
    requires
        dep_ok(name, d, rs),
        r.yanked || r.name != name,
    ensures
        dep_ok(name, d, rs.push(r)),
{
    lemma_candidates_push(rs, r, name, d.required);
}

proof fn lemma_table_step_ok(t: Seq<(Seq<char>, DepView)>, rs: Seq<ReleaseView>, r: ReleaseView)
    requires
        table_ok(t, rs),
        !r.yanked,
    ensures
        table_ok(table_step(t, r), rs.push(r)),
{
    assert forall|i: int| 0 <= i < table_step(t, r).len() implies dep_ok(
        (#[trigger] table_step(t, r)[i]).0,
        table_step(t, r)[i].1,
        rs.push(r),
    ) by {
        assert(dep_ok(t[i].0, t[i].1, rs));
        if t[i].0 == r.name {
            lemma_dep_ok_step(t[i].0, t[i].1, r, rs);
        } else {
            lemma_dep_ok_skip(t[i].0, t[i].1, r, rs);
        }
    }
}

proof fn lemma_table_yanked(t: Seq<(Seq<char>, DepView)>, rs: Seq<ReleaseView>, r: ReleaseView)
    requires
        table_ok(t, rs),
        r.yanked,
    ensures
        table_ok(t, rs.push(r)),
{
    assert forall|i: int| 0 <= i < t.len() implies dep_ok(
        (#[trigger] t[i]).0,
        t[i].1,
        rs.push(r),
    ) by {
        assert(dep_ok(t[i].0, t[i].1, rs));
        lemma_dep_ok_skip(t[i].0, t[i].1, r, rs);
    }
}

/// Apply the update rule for one candidate version to one tracked
/// dependency; advisories are untouched during accumulation, so the
/// entry must carry none yet.
fn process_single(dep: &AnalyzedDependency, ver: &CrateVersion) -> (r: AnalyzedDependency)
    requires
        dep@.vulnerabilities.len() == 0,
    ensures
        r@ == dep_update(dep@, ver@),
{
    let matches = dep.required.matches(ver);
    let latest_that_matches: Option<CrateVersion> = if matches {
        match &dep.latest_that_matches {
            None => Some(ver.clone()),
            Some(cur) => if cur.lt(ver) {
                Some(ver.clone())
            } else {
                Some(cur.clone())
            },
        }
    } else {
        match &dep.latest_that_matches {
            None => None,
            Some(cur) => Some(cur.clone()),
        }
    };
    let latest: Option<CrateVersion> = if !ver.is_prerelease() {
        match &dep.latest {
            None => Some(ver.clone()),
            Some(cur) => if cur.lt(ver) {
                Some(ver.clone())
            } else {
                Some(cur.clone())
            },
        }
    } else {
        match &dep.latest {
            None => None,
            Some(cur) => Some(cur.clone()),
        }
    };
    let r = AnalyzedDependency {
        required: dep.required.clone(),
        latest_that_matches,
        latest,
        vulnerabilities: Vec::new(),
    };
    proof {
        assert(r@ =~= dep_update(dep@, ver@));
    }
    r
}

/// Apply one non-yanked release to one kind's table.
fn apply_release(t: &mut DepTable<AnalyzedDependency>, release: &CrateRelease)
    requires
        old(t).wf(),
        vulns_clear(old(t)@),
    ensures
        final(t)@ == table_step(old(t)@, release@),
        final(t).wf(),
        vulns_clear(final(t)@),
{
    let ghost old_view = t@;
    match t.find_index(&release.name) {
        None => {
            proof {
                crate::crates::lemma_lookup_contains(t@, release.name@);
                assert(t@ =~= table_step(old_view, release@));
            }
        }
        Some(i) => {
            let updated = process_single(t.get_at(i), &release.version);
            t.set_at(i, updated);
            proof {
                assert forall|j: int| 0 <= j < t@.len() implies t@[j] == table_step(
                    old_view,
                    release@,
                )[j] by {
                    if j != i {
                        assert(old_view[j].0 != old_view[i as int].0);
                    }
                }
                assert(t@ =~= table_step(old_view, release@));
                assert forall|x: int, y: int|
                    0 <= x < y < t@.len() implies (#[trigger] t@[x]).0 != (#[trigger] t@[y]).0 by {
                    assert(t@[x].0 == old_view[x].0);
                    assert(t@[y].0 == old_view[y].0);
                }
            }
        }
    }
}

/// How one kind is enriched at finalization: where a best matching
/// version is known and an advisory source is present, a non-empty
/// query result replaces the entry's advisories; everything else is
/// left as it stands.
pub open spec fn enrich_dep(
    name: Seq<char>,
    d: DepView,
    db: Option<Arc<rustsec::database::Database>>,
) -> DepView {
    match (db, d.latest_that_matches) {
        (Some(h), Some(m)) => {
            let vulns = db_advisories(h, name, m);
            if vulns.len() > 0 {
                DepView { vulnerabilities: vulns, ..d }
            } else {
                d
            }
        }
        _ => d,
    }
}

/// One kind's table after finalization.
pub open spec fn enriched(
    t: Seq<(Seq<char>, DepView)>,
    db: Option<Arc<rustsec::database::Database>>,
) -> Seq<(Seq<char>, DepView)> {
    t.map_values(|e: (Seq<char>, DepView)| (e.0, enrich_dep(e.0, e.1, db)))
}

/// Attach advisories to every entry of one kind whose best matching
/// version is known.
fn enrich_table(t: &mut DepTable<AnalyzedDependency>, db: &Arc<rustsec::database::Database>)
    requires
        old(t).wf(),
        vulns_clear(old(t)@),
    ensures
        final(t)@ == enriched(old(t)@, Some(*db)),
        final(t).wf(),
{
    let ghost old_view = t@;
    let ghost goal = enriched(old_view, Some(*db));
    let mut i: usize = 0;
    while i < t.len()
        invariant
            0 <= i <= t@.len(),
            t@.len() == old_view.len(),
            goal == enriched(old_view, Some(*db)),
            forall|j: int| 0 <= j < i ==> t@[j] == goal[j],
            forall|j: int| i <= j < t@.len() ==> t@[j] == old_view[j],
            vulns_clear(old_view),
        decreases t@.len() - i,
    {
        let ghost expected = enrich_dep(old_view[i as int].0, old_view[i as int].1, Some(*db));
        let dep = t.get_at(i);
        let updated: Option<AnalyzedDependency> = match &dep.latest_that_matches {
            None => {
                proof {
                    assert(expected =~= old_view[i as int].1);
                }
                None
            }
            Some(m) => {
                let name = t.name_at(i);
                let vulns = query_advisories(db, &name, m);
                if vulns.len() > 0 {
                    let u = AnalyzedDependency {
                        required: dep.required.clone(),
                        latest_that_matches: Some(m.clone()),
                        latest: match &dep.latest {
                            None => None,
                            Some(v) => Some(v.clone()),
                        },
                        vulnerabilities: vulns,
                    };
                    proof {
                        assert(u@ =~= expected);
                    }
                    Some(u)
                } else {
                    proof {
                        assert(expected =~= old_view[i as int].1);
                    }
                    None
                }
            }
        };
        match updated {
            Some(u) => {
                let ghost uv = u@;
                proof {
                    assert(uv == expected);
                }
                t.set_at(i, u);
                proof {
                    assert(t@[i as int] == (old_view[i as int].0, expected));
                    assert(t@[i as int] == goal[i as int]);
                }
            }
            None => {
                proof {
                    assert(t@[i as int] == old_view[i as int]);
                    assert(expected == old_view[i as int].1);
                    assert(t@[i as int] == goal[i as int]);
                }
            }
        }
        i = i + 1;
    }
    proof {
        assert(t@ =~= goal);
        assert forall|x: int, y: int|
            0 <= x < y < t@.len() implies (#[trigger] t@[x]).0 != (#[trigger] t@[y]).0 by {
            assert(t@[x].0 == old_view[x].0);
            assert(t@[y].0 == old_view[y].0);
        }
    }
}

proof fn lemma_seeded_ok(t: Seq<(Seq<char>, Seq<char>)>)
    ensures
        table_ok(seeded(t), Seq::<ReleaseView>::empty()),
        vulns_clear(seeded(t)),
{
    assert forall|i: int| 0 <= i < seeded(t).len() implies dep_ok(
        (#[trigger] seeded(t)[i]).0,
        seeded(t)[i].1,
        Seq::<ReleaseView>::empty(),
    ) by {
        assert(seeded(t)[i] == (t[i].0, crate::crates::seed_dep(t[i].1)));
        assert(matching_versions(Seq::<ReleaseView>::empty(), t[i].0, t[i].1).len() == 0);
        assert(stable_versions(Seq::<ReleaseView>::empty(), t[i].0).len() == 0);
    }
    assert forall|i: int| 0 <= i < seeded(t).len() implies (
    #[trigger] seeded(t)[i]).1.vulnerabilities.len() == 0 by {
        assert(seeded(t)[i] == (t[i].0, crate::crates::seed_dep(t[i].1)));
    }
}

/// Enrichment only touches advisories, so the maxima of every entry
/// stay correct for the processed history.
proof fn lemma_enrich_preserves_ok(
    t: Seq<(Seq<char>, DepView)>,
    db: Option<Arc<rustsec::database::Database>>,
    rs: Seq<ReleaseView>,
)
    requires
        table_ok(t, rs),
    ensures
        table_ok(enriched(t, db), rs),
{
    assert forall|i: int| 0 <= i < enriched(t, db).len() implies dep_ok(
        (#[trigger] enriched(t, db)[i]).0,
        enriched(t, db)[i].1,
        rs,
    ) by {
        assert(dep_ok(t[i].0, t[i].1, rs));
        assert(enriched(t, db)[i] == (t[i].0, enrich_dep(t[i].0, t[i].1, db)));
    }
}

/// The dependency-version analyzer: tracks, for every declared
/// dependency, the best matching and overall versions among the
/// releases processed so far.
pub struct DependencyAnalyzer {
    deps: AnalyzedDependencies,
    advisory_db: Option<Arc<rustsec::database::Database>>,
    history: Ghost<Seq<ReleaseView>>,
}

impl DependencyAnalyzer {
    /// The releases processed so far, in order.
    pub closed spec fn history(&self) -> Seq<ReleaseView> {
        self.history@
    }

    /// The current working set.
    pub closed spec fn snapshot(&self) -> AnalyzedDependencies {
        self.deps
    }

    /// The advisory source, if one was supplied.
    pub closed spec fn advisory_source(&self) -> Option<Arc<rustsec::database::Database>> {
        self.advisory_db
    }

    /// The accumulator invariant: every tracked entry of every kind
    /// carries exactly the maxima over the processed history, and no
    /// advisories before finalization.
    pub open spec fn wf(&self) -> bool {
        &&& self.snapshot().wf()
        &&& table_ok(self.snapshot().main@, self.history())
        &&& table_ok(self.snapshot().dev@, self.history())
        &&& table_ok(self.snapshot().build@, self.history())
        &&& vulns_clear(self.snapshot().main@)
        &&& vulns_clear(self.snapshot().dev@)
        &&& vulns_clear(self.snapshot().build@)
    }

    /// Track every declared dependency; the advisory source is
    /// optional, and its absence only disables enrichment.
    pub fn new(deps: &CrateDeps, advisory_db: Option<Arc<rustsec::database::Database>>) -> (r:
        DependencyAnalyzer)
        requires
            deps.wf(),
        ensures
            r.wf(),
            r.history() == Seq::<ReleaseView>::empty(),
            r.snapshot().main@ == seeded(deps.main@),
            r.snapshot().dev@ == seeded(deps.dev@),
            r.snapshot().build@ == seeded(deps.build@),
            r.advisory_source() == advisory_db,
    {
        let r = DependencyAnalyzer {
            deps: AnalyzedDependencies::new(deps),
            advisory_db,
            history: Ghost(Seq::empty()),
        };
        proof {
            lemma_seeded_ok(deps.main@);
            lemma_seeded_ok(deps.dev@);
            lemma_seeded_ok(deps.build@);
        }
        r
    }

    /// Ingest a batch of releases, in the order given: every non-yanked
    /// release of a tracked name raises that dependency's fields by the
    /// update rule; yanked releases and untracked names change nothing.
    pub fn process(&mut self, releases: &Vec<CrateRelease>)
        requires
            old(self).wf(),
        ensures
            final(self).wf(),
            final(self).history() == old(self).history() + views_of(releases@),
            final(self).advisory_source() == old(self).advisory_source(),
            table_skeleton(final(self).snapshot().main@) == table_skeleton(
                old(self).snapshot().main@,
            ),
            table_skeleton(final(self).snapshot().dev@) == table_skeleton(
                old(self).snapshot().dev@,
            ),
            table_skeleton(final(self).snapshot().build@) == table_skeleton(
                old(self).snapshot().build@,
            ),
    {
        let ghost base = old(self).history();
        let mut i: usize = 0;
        proof {
            assert(base + views_of(releases@).take(0) =~= base);
        }
        while i < releases.len()
            invariant
                0 <= i <= releases@.len(),
                self.wf(),
                self.history() == base + views_of(releases@).take(i as int),
                self.advisory_db == old(self).advisory_db,
                table_skeleton(self.snapshot().main@) == table_skeleton(
                    old(self).snapshot().main@,
                ),
                table_skeleton(self.snapshot().dev@) == table_skeleton(old(self).snapshot().dev@),
                table_skeleton(self.snapshot().build@) == table_skeleton(
                    old(self).snapshot().build@,
                ),
            decreases releases@.len() - i,
        {
            let release = &releases[i];
            let ghost rv = release@;
            let ghost hist = self.history();
            if !release.yanked {
                let ghost m0 = self.deps.main@;
                let ghost d0 = self.deps.dev@;
                let ghost b0 = self.deps.build@;
                apply_release(&mut self.deps.main, release);
                apply_release(&mut self.deps.dev, release);
                apply_release(&mut self.deps.build, release);
                proof {
                    lemma_table_step_ok(m0, hist, rv);
                    lemma_table_step_ok(d0, hist, rv);
                    lemma_table_step_ok(b0, hist, rv);
                    assert(table_skeleton(table_step(m0, rv)) =~= table_skeleton(m0));
                    assert(table_skeleton(table_step(d0, rv)) =~= table_skeleton(d0));
                    assert(table_skeleton(table_step(b0, rv)) =~= table_skeleton(b0));
                }
            } else {
                proof {
                    lemma_table_yanked(self.deps.main@, hist, rv);
                    lemma_table_yanked(self.deps.dev@, hist, rv);
                    lemma_table_yanked(self.deps.build@, hist, rv);
                }
            }
            proof {
                self.history@ = hist.push(rv);
                assert(base + views_of(releases@).take(i + 1) =~= (base + views_of(
                    releases@,
                ).take(i as int)).push(rv));
            }
            i = i + 1;
        }
        proof {
            assert(views_of(releases@).take(releases@.len() as int) =~= views_of(releases@));
        }
    }

    /// Finalize the analysis: for every tracked dependency whose best
    /// matching version is known, a present advisory source is queried
    /// for that exact (name, version) pair, and a non-empty result
    /// replaces the entry's advisories; an absent source or an empty
    /// result leaves them empty. Consumes the analyzer; the returned
    /// set is the frozen output.
    pub fn finalize(self) -> (r: AnalyzedDependencies)
        requires
            self.wf(),
        ensures
            r.main@ == enriched(self.snapshot().main@, self.advisory_source()),
            r.dev@ == enriched(self.snapshot().dev@, self.advisory_source()),
            r.build@ == enriched(self.snapshot().build@, self.advisory_source()),
            r.wf(),
            table_ok(r.main@, self.history()),
            table_ok(r.dev@, self.history()),
            table_ok(r.build@, self.history()),
    {
        proof {
            lemma_enrich_preserves_ok(self.snapshot().main@, self.advisory_source(), self.history());
            lemma_enrich_preserves_ok(self.snapshot().dev@, self.advisory_source(), self.history());
            lemma_enrich_preserves_ok(
                self.snapshot().build@,
                self.advisory_source(),
                self.history(),
            );
        }
        let DependencyAnalyzer { mut deps, advisory_db, history } = self;
        match &advisory_db {
            None => {
                proof {
                    assert(deps.main@ =~= enriched(deps.main@, None));
                    assert(deps.dev@ =~= enriched(deps.dev@, None));
                    assert(deps.build@ =~= enriched(deps.build@, None));
                }
            }
            Some(db) => {
                enrich_table(&mut deps.main, db);
                enrich_table(&mut deps.dev, db);
                enrich_table(&mut deps.build, db);
            }
        }
        deps
    }
}

/// Some processed release counts toward the matching candidates of a
/// dependency with version `v`.
pub open spec fn has_matching(
    rs: Seq<ReleaseView>,
    name: Seq<char>,
    req: Seq<char>,
    v: VersionView,
) -> bool {
    exists|i: int|
        0 <= i < rs.len() && counts_matching(#[trigger] rs[i], name, req) && rs[i].version == v
}

/// Some processed release counts toward the overall candidates of a
/// dependency with version `v`.
pub open spec fn has_stable(rs: Seq<ReleaseView>, name: Seq<char>, v: VersionView) -> bool {
    exists|i: int| 0 <= i < rs.len() && counts_stable(#[trigger] rs[i], name) && rs[i].version == v
}

proof fn lemma_matching_members(rs: Seq<ReleaseView>, name: Seq<char>, req: Seq<char>, v:
    VersionView)
    ensures
        matching_versions(rs, name, req).contains(v) <==> has_matching(rs, name, req, v),
    decreases rs.len(),
{
    let c = matching_versions(rs, name, req);
    if rs.len() > 0 {
        let prev = matching_versions(rs.drop_last(), name, req);
        lemma_matching_members(rs.drop_last(), name, req, v);
        if c.contains(v) {
            let j = choose|j: int| 0 <= j < c.len() && c[j] == v;
            if counts_matching(rs.last(), name, req) && j == prev.len() {
                assert(rs[rs.len() - 1] == rs.last());
                assert(has_matching(rs, name, req, v));
            } else {
                assert(prev[j] == v);
                assert(prev.contains(v));
                let i = choose|i: int|
                    0 <= i < rs.drop_last().len() && counts_matching(
                        #[trigger] rs.drop_last()[i],
                        name,
                        req,
                    ) && rs.drop_last()[i].version == v;
                assert(rs[i] == rs.drop_last()[i]);
                assert(has_matching(rs, name, req, v));
            }
        }
        if has_matching(rs, name, req, v) {
            let i = choose|i: int|
                0 <= i < rs.len() && counts_matching(#[trigger] rs[i], name, req) && rs[i].version
                    == v;
            if i == rs.len() - 1 {
                assert(c[c.len() - 1] == v);
                assert(c.contains(v));
            } else {
                assert(rs.drop_last()[i] == rs[i]);
                assert(has_matching(rs.drop_last(), name, req, v));
                assert(prev.contains(v));
                let j = choose|j: int| 0 <= j < prev.len() && prev[j] == v;
                assert(c[j] == v);
                assert(c.contains(v));
            }
        }
    }
}

proof fn lemma_stable_members(rs: Seq<ReleaseView>, name: Seq<char>, v: VersionView)
    ensures
        stable_versions(rs, name).contains(v) <==> has_stable(rs, name, v),
    decreases rs.len(),
{
    let c = stable_versions(rs, name);
    if rs.len() > 0 {
        let prev = stable_versions(rs.drop_last(), name);
        lemma_stable_members(rs.drop_last(), name, v);
        if c.contains(v) {
            let j = choose|j: int| 0 <= j < c.len() && c[j] == v;
            if counts_stable(rs.last(), name) && j == prev.len() {
                assert(rs[rs.len() - 1] == rs.last());
                assert(has_stable(rs, name, v));
            } else {
                assert(prev[j] == v);
                assert(prev.contains(v));
                let i = choose|i: int|
                    0 <= i < rs.drop_last().len() && counts_stable(
                        #[trigger] rs.drop_last()[i],
                        name,
                    ) && rs.drop_last()[i].version == v;
                assert(rs[i] == rs.drop_last()[i]);
                assert(has_stable(rs, name, v));
            }
        }
        if has_stable(rs, name, v) {
            let i = choose|i: int|
                0 <= i < rs.len() && counts_stable(#[trigger] rs[i], name) && rs[i].version == v;
            if i == rs.len() - 1 {
                assert(c[c.len() - 1] == v);
                assert(c.contains(v));
            } else {
                assert(rs.drop_last()[i] == rs[i]);
                assert(has_stable(rs.drop_last(), name, v));
                assert(prev.contains(v));
                let j = choose|j: int| 0 <= j < prev.len() && prev[j] == v;
                assert(c[j] == v);
                assert(c.contains(v));
            }
        }
    }
}

/// Two correct accumulated fields over candidate pools with the same
/// members are the same field.
proof fn lemma_field_determined(
    f1: Option<VersionView>,
    f2: Option<VersionView>,
    vs1: Seq<VersionView>,
    vs2: Seq<VersionView>,
)
    requires
        tracked_max_ok(f1, vs1),
        tracked_max_ok(f2, vs2),
        forall|v: VersionView| vs1.contains(v) <==> vs2.contains(v),
    ensures
        f1 == f2,
{
    match (f1, f2) {
        (None, None) => {}
        (None, Some(m2)) => {
            assert(vs2.contains(m2));
            assert(vs1.contains(m2));
        }
        (Some(m1), None) => {
            assert(vs1.contains(m1));
            assert(vs2.contains(m1));
        }
        (Some(m1), Some(m2)) => {
            assert(vs2.contains(m1));
            let i = choose|i: int| 0 <= i < vs2.len() && vs2[i] == m1;
            assert(version_cmp(vs2[i], m2) <= 0);
            assert(vs1.contains(m2));
            let j = choose|j: int| 0 <= j < vs1.len() && vs1[j] == m2;
            assert(version_cmp(vs1[j], m1) <= 0);
            lemma_version_cmp_antisym(m1, m2);
            lemma_version_cmp_zero(m1, m2);
        }
    }
}

/// The accumulated fields of two tables agree entry by entry.
pub open spec fn fields_agree(t1: Seq<(Seq<char>, DepView)>, t2: Seq<(Seq<char>, DepView)>) -> bool {
    &&& t1.len() == t2.len()
    &&& forall|i: int|
        0 <= i < t1.len() ==> {
            &&& (#[trigger] t1[i]).1.latest_that_matches == t2[i].1.latest_that_matches
            &&& t1[i].1.latest == t2[i].1.latest
        }
}

proof fn lemma_tables_agree(
    t1: Seq<(Seq<char>, DepView)>,
    t2: Seq<(Seq<char>, DepView)>,
    h1: Seq<ReleaseView>,
    h2: Seq<ReleaseView>,
)
    requires
        table_ok(t1, h1),
        table_ok(t2, h2),
        table_skeleton(t1) == table_skeleton(t2),
        forall|r: ReleaseView| h1.contains(r) <==> h2.contains(r),
    ensures
        fields_agree(t1, t2),
{
    assert(t1.len() == table_skeleton(t1).len());
    assert(t2.len() == table_skeleton(t2).len());
    assert forall|i: int|
        0 <= i < t1.len() implies {
        &&& (#[trigger] t1[i]).1.latest_that_matches == t2[i].1.latest_that_matches
        &&& t1[i].1.latest == t2[i].1.latest
    } by {
        assert(table_skeleton(t1)[i] == table_skeleton(t2)[i]);
        let name = t1[i].0;
        let req = t1[i].1.required;
        assert(t2[i].0 == name && t2[i].1.required == req);
        assert(dep_ok(name, t1[i].1, h1));
        assert(dep_ok(name, t2[i].1, h2));
        assert forall|v: VersionView|
            matching_versions(h1, name, req).contains(v) <==> matching_versions(
                h2,
                name,
                req,
            ).contains(v) by {
            lemma_matching_members(h1, name, req, v);
            lemma_matching_members(h2, name, req, v);
            if has_matching(h1, name, req, v) {
                let a = choose|a: int|
                    0 <= a < h1.len() && counts_matching(#[trigger] h1[a], name, req)
                        && h1[a].version == v;
                assert(h1.contains(h1[a]));
                assert(h2.contains(h1[a]));
                let b = choose|b: int| 0 <= b < h2.len() && h2[b] == h1[a];
                assert(has_matching(h2, name, req, v));
            }
            if has_matching(h2, name, req, v) {
                let a = choose|a: int|
                    0 <= a < h2.len() && counts_matching(#[trigger] h2[a], name, req)
                        && h2[a].version == v;
                assert(h2.contains(h2[a]));
                assert(h1.contains(h2[a]));
                let b = choose|b: int| 0 <= b < h1.len() && h1[b] == h2[a];
                assert(has_matching(h1, name, req, v));
            }
        }
        assert forall|v: VersionView|
            stable_versions(h1, name).contains(v) <==> stable_versions(h2, name).contains(v) by {
            lemma_stable_members(h1, name, v);
            lemma_stable_members(h2, name, v);
            if has_stable(h1, name, v) {
                let a = choose|a: int|
                    0 <= a < h1.len() && counts_stable(#[trigger] h1[a], name) && h1[a].version
                        == v;
                assert(h1.contains(h1[a]));
                assert(h2.contains(h1[a]));
                let b = choose|b: int| 0 <= b < h2.len() && h2[b] == h1[a];
                assert(has_stable(h2, name, v));
            }
            if has_stable(h2, name, v) {
                let a = choose|a: int|
                    0 <= a < h2.len() && counts_stable(#[trigger] h2[a], name) && h2[a].version
                        == v;
                assert(h2.contains(h2[a]));
                assert(h1.contains(h2[a]));
                let b = choose|b: int| 0 <= b < h1.len() && h1[b] == h2[a];
                assert(has_stable(h1, name, v));
            }
        }
        lemma_field_determined(
            t1[i].1.latest_that_matches,
            t2[i].1.latest_that_matches,
            matching_versions(h1, name, req),
            matching_versions(h2, name, req),
        );
        lemma_field_determined(
            t1[i].1.latest,
            t2[i].1.latest,
            stable_versions(h1, name),
            stable_versions(h2, name),
        );
    }
}

/// Law: the accumulated fields depend only on which releases were
/// processed — not on their order, their duplication, or how the
/// stream was batched across `process` calls. Two well-formed
/// analyzers tracking the same declarations whose histories hold the
/// same releases agree on every field.
pub proof fn lemma_order_independent(a: DependencyAnalyzer, b: DependencyAnalyzer)
    requires
        a.wf(),
        b.wf(),
        table_skeleton(a.snapshot().main@) == table_skeleton(b.snapshot().main@),
        table_skeleton(a.snapshot().dev@) == table_skeleton(b.snapshot().dev@),
        table_skeleton(a.snapshot().build@) == table_skeleton(b.snapshot().build@),
        forall|r: ReleaseView| a.history().contains(r) <==> b.history().contains(r),
    ensures
        fields_agree(a.snapshot().main@, b.snapshot().main@),
        fields_agree(a.snapshot().dev@, b.snapshot().dev@),
        fields_agree(a.snapshot().build@, b.snapshot().build@),
{
    lemma_tables_agree(a.snapshot().main@, b.snapshot().main@, a.history(), b.history());
    lemma_tables_agree(a.snapshot().dev@, b.snapshot().dev@, a.history(), b.history());
    lemma_tables_agree(a.snapshot().build@, b.snapshot().build@, a.history(), b.history());
}

/// Law: re-ingesting already-processed releases changes no field. An
/// analyzer that went on to process only releases it had already seen
/// agrees on every field with one that stopped.
pub proof fn lemma_reingest_idempotent(
    a: DependencyAnalyzer,
    b: DependencyAnalyzer,
    extra: Seq<ReleaseView>,
)
    requires
        a.wf(),
        b.wf(),
        table_skeleton(a.snapshot().main@) == table_skeleton(b.snapshot().main@),
        table_skeleton(a.snapshot().dev@) == table_skeleton(b.snapshot().dev@),
        table_skeleton(a.snapshot().build@) == table_skeleton(b.snapshot().build@),
        b.history() == a.history() + extra,
        forall|i: int| 0 <= i < extra.len() ==> a.history().contains(#[trigger] extra[i]),
    ensures
        fields_agree(a.snapshot().main@, b.snapshot().main@),
        fields_agree(a.snapshot().dev@, b.snapshot().dev@),
        fields_agree(a.snapshot().build@, b.snapshot().build@),
{
    assert forall|r: ReleaseView| a.history().contains(r) <==> b.history().contains(r) by {
        if a.history().contains(r) {
            let i = choose|i: int| 0 <= i < a.history().len() && a.history()[i] == r;
            assert(b.history()[i] == r);
            assert(b.history().contains(r));
        }
        if b.history().contains(r) {
            let i = choose|i: int| 0 <= i < b.history().len() && b.history()[i] == r;
            if i < a.history().len() {
                assert(a.history()[i] == r);
                assert(a.history().contains(r));
            } else {
                assert(extra[i - a.history().len()] == r);
                assert(a.history().contains(r));
            }
        }
    }
    lemma_order_independent(a, b);
}

/// Law: a yanked release never influences either field, regardless of
/// version magnitude. Processing one more yanked release leaves every
/// field as it stands.
pub proof fn lemma_yanked_no_influence(
    a: DependencyAnalyzer,
    b: DependencyAnalyzer,
    r: ReleaseView,
)
    requires
        a.wf(),
        b.wf(),
        table_skeleton(a.snapshot().main@) == table_skeleton(b.snapshot().main@),
        table_skeleton(a.snapshot().dev@) == table_skeleton(b.snapshot().dev@),
        table_skeleton(a.snapshot().build@) == table_skeleton(b.snapshot().build@),
        r.yanked,
        b.history() == a.history().push(r),
    ensures
        fields_agree(a.snapshot().main@, b.snapshot().main@),
        fields_agree(a.snapshot().dev@, b.snapshot().dev@),
        fields_agree(a.snapshot().build@, b.snapshot().build@),
{
    let h = a.history();
    assert forall|i: int|
        0 <= i < b.snapshot().main@.len() implies dep_ok(
        (#[trigger] b.snapshot().main@[i]).0,
        b.snapshot().main@[i].1,
        h,
    ) by {
        assert(dep_ok(b.snapshot().main@[i].0, b.snapshot().main@[i].1, h.push(r)));
        lemma_candidates_push(h, r, b.snapshot().main@[i].0, b.snapshot().main@[i].1.required);
    }
    assert forall|i: int|
        0 <= i < b.snapshot().dev@.len() implies dep_ok(
        (#[trigger] b.snapshot().dev@[i]).0,
        b.snapshot().dev@[i].1,
        h,
    ) by {
        assert(dep_ok(b.snapshot().dev@[i].0, b.snapshot().dev@[i].1, h.push(r)));
        lemma_candidates_push(h, r, b.snapshot().dev@[i].0, b.snapshot().dev@[i].1.required);
    }
    assert forall|i: int|
        0 <= i < b.snapshot().build@.len() implies dep_ok(
        (#[trigger] b.snapshot().build@[i]).0,
        b.snapshot().build@[i].1,
        h,
    ) by {
        assert(dep_ok(b.snapshot().build@[i].0, b.snapshot().build@[i].1, h.push(r)));
        lemma_candidates_push(h, r, b.snapshot().build@[i].0, b.snapshot().build@[i].1.required);
    }
    lemma_tables_agree(a.snapshot().main@, b.snapshot().main@, h, h);
    lemma_tables_agree(a.snapshot().dev@, b.snapshot().dev@, h, h);
    lemma_tables_agree(a.snapshot().build@, b.snapshot().build@, h, h);
}

} // verus!
