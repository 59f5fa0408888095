//! The data model: package names, releases, declared dependency sets
//! and the per-dependency analysis accumulator.
//!
//! Each dependency kind (main, development, build) is an independent
//! mapping from package name to an entry, kept as a list with unique
//! names; contracts speak of it through [`lookup`].

use vstd::prelude::*;

use crate::constraint::Constraint;
use crate::version::{CrateVersion, VersionView};

verus! {

#[verifier::external_type_specification]
#[verifier::external_body]
pub struct ExAdvisory(rustsec::advisory::Advisory);

/// The name of a registry package, carried as given; case and format
/// rules are the registry's concern, not this core's.
#[derive(Debug, PartialEq)]
pub struct CrateName {
    text: String,
}

impl View for CrateName {
    type V = Seq<char>;

    closed spec fn view(&self) -> Seq<char> {
        self.text@
    }
}

impl Clone for CrateName {
    /// The clone has the same value.
    fn clone(&self) -> (r: Self)
        ensures
            r@ == self@,
    {
        CrateName { text: self.text.clone() }
    }
}

impl CrateName {
    pub fn new(s: &str) -> (r: CrateName)
        ensures
            r@ == s@,
    {
        CrateName { text: s.to_owned() }
    }

    /// The name's text.
    pub fn as_str(&self) -> (r: &str)
        ensures
            r@ == self@,
    {
        self.text.as_str()
    }

    /// Whether two names are the same text.
    pub fn same_name(&self, other: &CrateName) -> (r: bool)
        ensures
            r == (self@ == other@),
    {
        self.text == other.text
    }
}

/// The value a name maps to in an association list, or nothing.
pub open spec fn lookup<V>(s: Seq<(Seq<char>, V)>, k: Seq<char>) -> Option<V>
    decreases s.len(),
{
    if s.len() == 0 {
        None
    } else if s.last().0 == k {
        Some(s.last().1)
    } else {
        lookup(s.drop_last(), k)
    }
}

/// No name appears twice.
pub open spec fn names_unique<V>(s: Seq<(Seq<char>, V)>) -> bool {
    forall|i: int, j: int| 0 <= i < j < s.len() ==> (#[trigger] s[i]).0 != (#[trigger] s[j]).0
}

/// A name is found exactly when some entry carries it.
pub proof fn lemma_lookup_contains<V>(s: Seq<(Seq<char>, V)>, k: Seq<char>)
    ensures
        (lookup(s, k) is Some) <==> exists|i: int| 0 <= i < s.len() && (#[trigger] s[i]).0 == k,
    decreases s.len(),
{
    if s.len() > 0 {
        lemma_lookup_contains(s.drop_last(), k);
        if s.last().0 == k {
            assert(s[s.len() - 1].0 == k);
        } else if lookup(s.drop_last(), k) is Some {
            let i = choose|i: int| 0 <= i < s.drop_last().len() && (#[trigger] s.drop_last()[i]).0
                == k;
            assert(s[i].0 == k);
        } else {
            assert forall|i: int| 0 <= i < s.len() implies (#[trigger] s[i]).0 != k by {
                if i < s.len() - 1 {
                    assert(s.drop_last()[i] == s[i]);
                }
            }
        }
    }
}

/// With unique names, the entry at any index is what its name looks up
/// to.
pub proof fn lemma_lookup_at<V>(s: Seq<(Seq<char>, V)>, i: int)
    requires
        names_unique(s),
        0 <= i < s.len(),
    ensures
        lookup(s, s[i].0) == Some(s[i].1),
    decreases s.len(),
{
    if i < s.len() - 1 {
        assert(s[s.len() - 1].0 != s[i].0);
        assert(names_unique(s.drop_last())) by {
            assert forall|x: int, y: int|
                0 <= x < y < s.drop_last().len() implies (#[trigger] s.drop_last()[x]).0 != (
            #[trigger] s.drop_last()[y]).0 by {
                assert(s.drop_last()[x] == s[x]);
                assert(s.drop_last()[y] == s[y]);
            }
        }
        lemma_lookup_at(s.drop_last(), i);
        assert(s.drop_last()[i] == s[i]);
    }
}

/// One dependency kind's mapping from package name to an entry, with
/// names unique.
pub struct DepTable<T> {
    entries: Vec<(CrateName, T)>,
}

impl<T: View> View for DepTable<T> {
    type V = Seq<(Seq<char>, T::V)>;

    closed spec fn view(&self) -> Seq<(Seq<char>, T::V)> {
        self.entries@.map_values(|e: (CrateName, T)| (e.0@, e.1@))
    }
}

impl<T: View> DepTable<T> {
    pub open spec fn wf(&self) -> bool {
        names_unique(self@)
    }

    pub fn new() -> (r: Self)
        ensures
            r@ == Seq::<(Seq<char>, T::V)>::empty(),
            r.wf(),
    {
        let r = DepTable { entries: Vec::new() };
        proof {
            assert(r@ =~= Seq::<(Seq<char>, T::V)>::empty());
        }
        r
    }

    pub fn len(&self) -> (r: usize)
        ensures
            r == self@.len(),
    {
        self.entries.len()
    }

    /// Record what `name` must map to; the name must not be tracked
    /// yet (names are unique within a kind).
    pub fn insert(&mut self, name: CrateName, value: T)
        requires
            old(self).wf(),
            lookup(old(self)@, name@) is None,
        ensures
            final(self)@ == old(self)@.push((name@, value@)),
            final(self).wf(),
    {
        proof {
            lemma_lookup_contains(self@, name@);
        }
        let ghost old_view = self@;
        let ghost key = name@;
        self.entries.push((name, value));
        proof {
            assert(self@ =~= old_view.push((key, value@)));
            assert forall|x: int, y: int|
                0 <= x < y < self@.len() implies (#[trigger] self@[x]).0 != (
            #[trigger] self@[y]).0 by {
                if y == self@.len() - 1 {
                    assert(self@[x] == old_view[x]);
                } else {
                    assert(self@[x] == old_view[x]);
                    assert(self@[y] == old_view[y]);
                }
            }
        }
    }

    /// Whether `name` is tracked.
    pub fn contains_name(&self, name: &CrateName) -> (r: bool)
        ensures
            r == (lookup(self@, name@) is Some),
    {
        match self.find_index(name) {
            Some(_) => {
                proof {
                    lemma_lookup_contains(self@, name@);
                }
                true
            }
            None => false,
        }
    }

    /// The index of the entry carrying `name`, if any.
    pub(crate) fn find_index(&self, name: &CrateName) -> (r: Option<usize>)
        ensures
            match r {
                Some(i) => i < self@.len() && self@[i as int].0 == name@,
                None => lookup(self@, name@) is None,
            },
    {
        let mut i: usize = 0;
        while i < self.entries.len()
            invariant
                0 <= i <= self.entries.len(),
                self@.len() == self.entries@.len(),
                forall|j: int| 0 <= j < self@.len() ==> (#[trigger] self@[j]) == (
                self.entries@[j].0@, self.entries@[j].1@),
                forall|j: int| 0 <= j < i ==> (#[trigger] self@[j]).0 != name@,
            decreases self.entries.len() - i,
        {
            if self.entries[i].0.same_name(name) {
                return Some(i);
            }
            i = i + 1;
        }
        proof {
            lemma_lookup_contains(self@, name@);
        }
        None
    }

    /// The entry tracked under `name`, if any.
    pub fn get(&self, name: &CrateName) -> (r: Option<&T>)
        requires
            self.wf(),
        ensures
            match r {
                Some(t) => lookup(self@, name@) == Some(t@),
                None => lookup(self@, name@) is None,
            },
    {
        match self.find_index(name) {
            Some(i) => {
                proof {
                    lemma_lookup_at(self@, i as int);
                }
                Some(&self.entries[i].1)
            }
            None => None,
        }
    }

    /// The name at a position.
    pub(crate) fn name_at(&self, i: usize) -> (r: CrateName)
        requires
            i < self@.len(),
        ensures
            r@ == self@[i as int].0,
    {
        self.entries[i].0.clone()
    }

    /// The entry at a position.
    pub(crate) fn get_at(&self, i: usize) -> (r: &T)
        requires
            i < self@.len(),
        ensures
            r@ == self@[i as int].1,
    {
        &self.entries[i].1
    }

    /// Replace the value at a position, keeping its name.
    pub(crate) fn set_at(&mut self, i: usize, value: T)
        requires
            i < old(self)@.len(),
        ensures
            final(self)@ == old(self)@.update(i as int, (old(self)@[i as int].0, value@)),
    {
        let name = self.entries[i].0.clone();
        let ghost old_view = self@;
        self.entries.set(i, (name, value));
        proof {
            assert(self@ =~= old_view.update(i as int, (old_view[i as int].0, value@)));
        }
    }
}

/// The declared dependencies of a project, split into the three
/// independent kinds.
pub struct CrateDeps {
    pub main: DepTable<Constraint>,
    pub dev: DepTable<Constraint>,
    pub build: DepTable<Constraint>,
}

impl CrateDeps {
    pub open spec fn wf(&self) -> bool {
        self.main.wf() && self.dev.wf() && self.build.wf()
    }

    pub fn new() -> (r: Self)
        ensures
            r.main@ == Seq::<(Seq<char>, Seq<char>)>::empty(),
            r.dev@ == Seq::<(Seq<char>, Seq<char>)>::empty(),
            r.build@ == Seq::<(Seq<char>, Seq<char>)>::empty(),
            r.wf(),
    {
        CrateDeps { main: DepTable::new(), dev: DepTable::new(), build: DepTable::new() }
    }
}

impl Default for CrateDeps {
    /// An empty declaration set.
    fn default() -> (r: Self)
        ensures
            r.main@ == Seq::<(Seq<char>, Seq<char>)>::empty(),
            r.dev@ == Seq::<(Seq<char>, Seq<char>)>::empty(),
            r.build@ == Seq::<(Seq<char>, Seq<char>)>::empty(),
            r.wf(),
    {
        CrateDeps::new()
    }
}

/// The mathematical value of a release: its name, its version and
/// whether the registry has withdrawn it.
#[verifier::ext_equal]
pub ghost struct ReleaseView {
    pub name: Seq<char>,
    pub version: VersionView,
    pub yanked: bool,
}

/// One published version of a package as known to the registry,
/// together with the sub-dependencies it declares.
pub struct CrateRelease {
    pub name: CrateName,
    pub version: CrateVersion,
    pub deps: CrateDeps,
    pub yanked: bool,
}

impl View for CrateRelease {
    type V = ReleaseView;

    open spec fn view(&self) -> ReleaseView {
        ReleaseView { name: self.name@, version: self.version@, yanked: self.yanked }
    }
}

/// The mathematical value of one tracked dependency.
#[verifier::ext_equal]
pub ghost struct DepView {
    pub required: Seq<char>,
    pub latest_that_matches: Option<VersionView>,
    pub latest: Option<VersionView>,
    pub vulnerabilities: Seq<rustsec::advisory::Advisory>,
}

/// The accumulator for one tracked dependency: the declared constraint,
/// the best matching and overall versions seen so far, and the
/// advisories attached on finalization.
#[derive(Debug)]
pub struct AnalyzedDependency {
    pub required: Constraint,
    pub latest_that_matches: Option<CrateVersion>,
    pub latest: Option<CrateVersion>,
    pub vulnerabilities: Vec<rustsec::advisory::Advisory>,
}

impl View for AnalyzedDependency {
    type V = DepView;

    open spec fn view(&self) -> DepView {
        DepView {
            required: self.required@,
            latest_that_matches: match self.latest_that_matches {
                Some(v) => Some(v@),
                None => None,
            },
            latest: match self.latest {
                Some(v) => Some(v@),
                None => None,
            },
            vulnerabilities: self.vulnerabilities@,
        }
    }
}

/// A freshly tracked dependency: constraint copied, nothing seen yet.
pub open spec fn seed_dep(req: Seq<char>) -> DepView {
    DepView {
        required: req,
        latest_that_matches: None,
        latest: None,
        vulnerabilities: Seq::empty(),
    }
}

/// A declaration table, freshly tracked.
pub open spec fn seeded(s: Seq<(Seq<char>, Seq<char>)>) -> Seq<(Seq<char>, DepView)> {
    s.map_values(|e: (Seq<char>, Seq<char>)| (e.0, seed_dep(e.1)))
}

impl AnalyzedDependency {
    fn fresh(required: Constraint) -> (r: Self)
        ensures
            r@ == seed_dep(required@),
    {
        let r = AnalyzedDependency {
            required,
            latest_that_matches: None,
            latest: None,
            vulnerabilities: Vec::new(),
        };
        proof {
            assert(r@ =~= seed_dep(r.required@));
        }
        r
    }
}

/// Seed one kind's accumulators from its declarations.
fn seed_table(t: &DepTable<Constraint>) -> (r: DepTable<AnalyzedDependency>)
    requires
        t.wf(),
    ensures
        r@ == seeded(t@),
        r.wf(),
{
    let mut r: DepTable<AnalyzedDependency> = DepTable::new();
    let mut i: usize = 0;
    proof {
        assert(r@ =~= seeded(t@.take(0)));
    }
    while i < t.len()
        invariant
            0 <= i <= t@.len(),
            r@ =~= seeded(t@.take(i as int)),
            t.wf(),
        decreases t@.len() - i,
    {
        proof {
            assert(lookup(r@, t@[i as int].0) is None) by {
                lemma_lookup_contains(r@, t@[i as int].0);
                assert forall|j: int| 0 <= j < r@.len() implies (#[trigger] r@[j]).0 != t@[
                i as int].0 by {
                    assert(r@[j].0 == t@.take(i as int)[j].0);
                    assert(t@[j].0 != t@[i as int].0);
                }
            }
            assert(r.wf());
        }
        let name = t.name_at(i);
        let req = t.get_at(i);
        r.insert(name, AnalyzedDependency::fresh(req.clone()));
        proof {
            assert(r@ =~= seeded(t@.take(i + 1)));
        }
        i = i + 1;
    }
    proof {
        assert(t@.take(t@.len() as int) =~= t@);
        assert(r@ =~= seeded(t@));
    }
    r
}

/// The analysis working set and, after finalization, the frozen
/// output: one accumulator per declared dependency, per kind.
pub struct AnalyzedDependencies {
    pub main: DepTable<AnalyzedDependency>,
    pub dev: DepTable<AnalyzedDependency>,
    pub build: DepTable<AnalyzedDependency>,
}

impl AnalyzedDependencies {
    pub open spec fn wf(&self) -> bool {
        self.main.wf() && self.dev.wf() && self.build.wf()
    }

    /// Track every declared dependency, with nothing seen yet.
    pub fn new(deps: &CrateDeps) -> (r: Self)
        requires
            deps.wf(),
        ensures
            r.main@ == seeded(deps.main@),
            r.dev@ == seeded(deps.dev@),
            r.build@ == seeded(deps.build@),
            r.wf(),
    {
        AnalyzedDependencies {
            main: seed_table(&deps.main),
            dev: seed_table(&deps.dev),
            build: seed_table(&deps.build),
        }
    }
}

} // verus!
