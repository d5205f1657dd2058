//! The package state store: the durable record of each tracked package's
//! last observed upstream version, last built version, and build status,
//! together with the staleness decision and the build state transitions.

use vstd::prelude::*;
use vstd::string::*;
use crate::codec::{
    parse_all, parse_entries_spec, pairs_view, render_entries_spec, render_entry_spec,
    render_state,
};
use crate::text::{chars_to_string, str_chars, str_eq};

verus! {

/// Build progress of one tracked package.
pub enum BuildStatus {
    Pending,
    Building,
    Succeeded,
    Failed(String),
}

/// Mathematical mirror of `BuildStatus`; the failure reason is a character sequence.
pub enum StatusView {
    Pending,
    Building,
    Succeeded,
    Failed(Seq<char>),
}

impl View for BuildStatus {
    type V = StatusView;

    open spec fn view(&self) -> StatusView {
        match self {
            BuildStatus::Pending => StatusView::Pending,
            BuildStatus::Building => StatusView::Building,
            BuildStatus::Succeeded => StatusView::Succeeded,
            BuildStatus::Failed(reason) => StatusView::Failed(reason@),
        }
    }
}

/// Two statuses agree on their tag alone; the failure reason carried by
/// `Failed` is ignored, and distinct tags never compare equal.
pub open spec fn same_status_kind(a: StatusView, b: StatusView) -> bool {
    match (a, b) {
        (StatusView::Pending, StatusView::Pending) => true,
        (StatusView::Building, StatusView::Building) => true,
        (StatusView::Succeeded, StatusView::Succeeded) => true,
        (StatusView::Failed(_), StatusView::Failed(_)) => true,
        _ => false,
    }
}

impl PartialEq for BuildStatus {
    fn eq(&self, other: &Self) -> (r: bool) {
        match (self, other) {
            (BuildStatus::Pending, BuildStatus::Pending) => true,
            (BuildStatus::Building, BuildStatus::Building) => true,
            (BuildStatus::Succeeded, BuildStatus::Succeeded) => true,
            (BuildStatus::Failed(_), BuildStatus::Failed(_)) => true,
            _ => false,
        }
    }
}

impl vstd::std_specs::cmp::PartialEqSpecImpl for BuildStatus {
    open spec fn obeys_eq_spec() -> bool {
        true
    }

    open spec fn eq_spec(&self, other: &Self) -> bool {
        same_status_kind(self@, other@)
    }
}

/// Everything recorded of one tracked package.
pub struct PackageState {
    /// The most recently observed upstream version.
    pub aur_version: String,
    /// The version of the last successful build, absent if never built.
    pub built_version: Option<String>,
    /// Timestamp (seconds) of the most recent upstream observation.
    pub last_checked: u64,
    /// Timestamp (seconds) of the most recent successful build, absent if never built.
    pub last_built: Option<u64>,
    /// Build progress.
    pub build_status: BuildStatus,
}

/// Mathematical mirror of `PackageState`.
pub struct StateView {
    pub aur_version: Seq<char>,
    pub built_version: Option<Seq<char>>,
    pub last_checked: u64,
    pub last_built: Option<u64>,
    pub build_status: StatusView,
}

impl View for PackageState {
    type V = StateView;

    open spec fn view(&self) -> StateView {
        StateView {
            aur_version: self.aur_version@,
            built_version: match self.built_version {
                Option::Some(v) => Option::Some(v@),
                Option::None => Option::None,
            },
            last_checked: self.last_checked,
            last_built: self.last_built,
            build_status: self.build_status@,
        }
    }
}

/// One record of the store: a package name and its state.
struct Entry {
    name: String,
    state: PackageState,
}

/// A package name paired with the state recorded for it.
pub type EntryView = (Seq<char>, StateView);

/// The mapping that a sequence of records denotes; a later record for the
/// same name would shadow an earlier one, but the store keeps names unique.
pub open spec fn map_of_views(es: Seq<EntryView>) -> Map<Seq<char>, StateView>
    decreases es.len(),
{
    if es.len() == 0 {
        Map::empty()
    } else {
        map_of_views(es.drop_last()).insert(es.last().0, es.last().1)
    }
}

/// No two records carry the same package name.
pub open spec fn unique_names(es: Seq<EntryView>) -> bool {
    forall|i: int, j: int| 0 <= i < j < es.len() ==> es[i].0 != es[j].0
}

/// The staleness decision: a build is warranted exactly when the package was
/// never observed before, or no build is currently running, the observed
/// upstream version changed, and that exact version was not already built.
pub open spec fn needs_build_spec(
    m: Map<Seq<char>, StateView>,
    package: Seq<char>,
    candidate: Seq<char>,
) -> bool {
    if m.contains_key(package) {
        let st = m[package];
        &&& !(st.build_status is Building)
        &&& st.aur_version != candidate
        &&& st.built_version != Option::Some(candidate)
    } else {
        true
    }
}

/// The fresh snapshot written when a build starts: the candidate version is
/// recorded as observed, any prior success is cleared, and the status is `Building`.
pub open spec fn building_state(version: Seq<char>, now: u64) -> StateView {
    StateView {
        aur_version: version,
        built_version: Option::None,
        last_checked: now,
        last_built: Option::None,
        build_status: StatusView::Building,
    }
}

/// The state after a successful build of `version` at time `now`, from prior state `st`.
pub open spec fn built_state(st: StateView, version: Seq<char>, now: u64) -> StateView {
    StateView {
        aur_version: st.aur_version,
        built_version: Option::Some(version),
        last_checked: st.last_checked,
        last_built: Option::Some(now),
        build_status: StatusView::Succeeded,
    }
}

/// The state after a failed build with reason `reason`, from prior state `st`;
/// a prior success is not erased.
pub open spec fn failed_state(st: StateView, reason: Seq<char>) -> StateView {
    StateView {
        aur_version: st.aur_version,
        built_version: st.built_version,
        last_checked: st.last_checked,
        last_built: st.last_built,
        build_status: StatusView::Failed(reason),
    }
}

/// The authoritative record of every tracked package, keyed by package name.
pub struct PackageDb {
    entries: Vec<Entry>,
}

impl View for PackageDb {
    type V = Map<Seq<char>, StateView>;

    closed spec fn view(&self) -> Map<Seq<char>, StateView> {
        map_of_views(self.entries_view())
    }
}

proof fn lemma_map_of_contains(es: Seq<EntryView>, k: Seq<char>)
    ensures
        map_of_views(es).contains_key(k) <==> exists|i: int| 0 <= i < es.len() && es[i].0 == k,
    decreases es.len(),
{
    if es.len() > 0 {
        lemma_map_of_contains(es.drop_last(), k);
        if map_of_views(es).contains_key(k) {
            if es.last().0 != k {
                let i = choose|i: int| 0 <= i < es.drop_last().len() && es.drop_last()[i].0 == k;
                assert(es[i].0 == k);
            } else {
                assert(es[es.len() - 1].0 == k);
            }
        }
        if exists|i: int| 0 <= i < es.len() && es[i].0 == k {
            let i = choose|i: int| 0 <= i < es.len() && es[i].0 == k;
            if i < es.len() - 1 {
                assert(es.drop_last()[i].0 == k);
            }
        }
    }
}

proof fn lemma_map_of_get(es: Seq<EntryView>, i: int)
    requires
        unique_names(es),
        0 <= i < es.len(),
    ensures
        map_of_views(es).contains_key(es[i].0),
        map_of_views(es)[es[i].0] == es[i].1,
    decreases es.len(),
{
    if i == es.len() - 1 {
    } else {
        assert(unique_names(es.drop_last()));
        assert(es.drop_last()[i] == es[i]);
        lemma_map_of_get(es.drop_last(), i);
        assert(es[i].0 != es.last().0);
    }
}

proof fn lemma_map_of_update(es: Seq<EntryView>, i: int, e: EntryView)
    requires
        unique_names(es),
        0 <= i < es.len(),
        es[i].0 == e.0,
    ensures
        map_of_views(es.update(i, e)) == map_of_views(es).insert(e.0, e.1),
    decreases es.len(),
{
    if i == es.len() - 1 {
        assert(es.update(i, e).drop_last() =~= es.drop_last());
        assert(map_of_views(es.update(i, e)) =~= map_of_views(es).insert(e.0, e.1));
    } else {
        assert(unique_names(es.drop_last()));
        assert(es.drop_last()[i] == es[i]);
        lemma_map_of_update(es.drop_last(), i, e);
        assert(es.update(i, e).drop_last() =~= es.drop_last().update(i, e));
        assert(es.update(i, e).last() == es.last());
        assert(es[i].0 != es.last().0);
        assert(map_of_views(es.update(i, e)) =~= map_of_views(es).insert(e.0, e.1));
    }
}

spec fn entry_views(es: Seq<Entry>) -> Seq<EntryView> {
    es.map(|i: int, e: Entry| (e.name@, e.state@))
}

impl PackageDb {
    /// The store's records as name/state pairs, in storage order.
    pub closed spec fn entries_view(&self) -> Seq<EntryView> {
        entry_views(self.entries@)
    }

    /// Names are unique, so each record is the authoritative one for its package.
    pub closed spec fn wf(&self) -> bool {
        unique_names(self.entries_view())
    }

    /// The store's mapping is exactly what its records denote.
    pub proof fn lemma_view_is_entries(&self)
        ensures
            self@ == map_of_views(self.entries_view()),
    {
    }

    /// An empty store: no package has been observed yet.
    pub fn empty() -> (db: PackageDb)
        ensures
            db.wf(),
            db@ == Map::<Seq<char>, StateView>::empty(),
            db.entries_view() == Seq::<EntryView>::empty(),
    {
        let db = PackageDb { entries: Vec::new() };
        proof {
            assert(db.entries_view() =~= Seq::<EntryView>::empty());
        }
        db
    }

    /// Index of the record for `package`, if one exists.
    fn find(&self, package: &str) -> (r: Option<usize>)
        requires
            self.wf(),
        ensures
            match r {
                Option::Some(i) => {
                    &&& i < self.entries_view().len()
                    &&& self.entries_view()[i as int].0 == package@
                    &&& self@.contains_key(package@)
                    &&& self@[package@] == self.entries_view()[i as int].1
                },
                Option::None => !self@.contains_key(package@),
            },
    {
        let n = self.entries.len();
        let mut i: usize = 0;
        while i < n
            invariant
                self.wf(),
                i <= n,
                n == self.entries_view().len(),
                n == self.entries@.len(),
                forall|j: int| 0 <= j < i ==> self.entries_view()[j].0 != package@,
            decreases n - i,
        {
            if str_eq(self.entries[i].name.as_str(), package) {
                proof {
                    lemma_map_of_get(self.entries_view(), i as int);
                }
                return Option::Some(i);
            }
            i += 1;
        }
        proof {
            lemma_map_of_contains(self.entries_view(), package@);
        }
        Option::None
    }

    /// Whether a state is recorded for `package`, and which one.
    pub fn get(&self, package: &str) -> (r: Option<&PackageState>)
        requires
            self.wf(),
        ensures
            match r {
                Option::Some(st) => self@.contains_key(package@) && st@ == self@[package@],
                Option::None => !self@.contains_key(package@),
            },
    {
        match self.find(package) {
            Option::Some(i) => Option::Some(&self.entries[i].state),
            Option::None => Option::None,
        }
    }

    /// The staleness decision for `package` against candidate version `new_version`.
    pub fn needs_build(&self, package: &str, new_version: &str) -> (r: bool)
        requires
            self.wf(),
        ensures
            r == needs_build_spec(self@, package@, new_version@),
    {
        match self.find(package) {
            Option::Some(i) => {
                let st = &self.entries[i].state;
                if matches!(st.build_status, BuildStatus::Building) {
                    false
                } else if str_eq(st.aur_version.as_str(), new_version) {
                    false
                } else {
                    match &st.built_version {
                        Option::Some(v) => !str_eq(v.as_str(), new_version),
                        Option::None => true,
                    }
                }
            },
            Option::None => true,
        }
    }

    /// Creates or overwrites the record for `package`.
    fn upsert(&mut self, package: &str, state: PackageState)
        requires
            old(self).wf(),
        ensures
            final(self).wf(),
            final(self)@ == old(self)@.insert(package@, state@),
    {
        let name = String::from_str(package);
        let e = Entry { name, state };
        match self.find(package) {
            Option::Some(i) => {
                let ghost old_entries = self.entries_view();
                self.entries[i] = e;
                proof {
                    assert(self.entries_view() =~= old_entries.update(
                        i as int,
                        (package@, state@),
                    ));
                    lemma_map_of_update(old_entries, i as int, (package@, state@));
                }
            },
            Option::None => {
                let ghost old_entries = self.entries_view();
                self.entries.push(e);
                proof {
                    assert(self.entries_view() =~= old_entries.push((package@, state@)));
                    assert(self.entries_view().drop_last() =~= old_entries);
                    lemma_map_of_contains(old_entries, package@);
                    assert forall|i: int, j: int|
                        0 <= i < j < self.entries_view().len() implies self.entries_view()[i].0
                        != self.entries_view()[j].0 by {
                        if j < old_entries.len() {
                            assert(old_entries[i].0 != old_entries[j].0);
                        } else {
                            assert(old_entries[i].0 == self.entries_view()[i].0);
                        }
                    }
                }
            },
        }
    }

    /// Records that a build of `aur_version` starts at time `now`: a fresh
    /// snapshot with any prior success cleared and status `Building`.
    pub fn mark_building_at(&mut self, package: &str, aur_version: &str, now: u64)
        requires
            old(self).wf(),
        ensures
            final(self).wf(),
            final(self)@ == old(self)@.insert(package@, building_state(aur_version@, now)),
    {
        let state = PackageState {
            aur_version: String::from_str(aur_version),
            built_version: Option::None,
            last_checked: now,
            last_built: Option::None,
            build_status: BuildStatus::Building,
        };
        self.upsert(package, state);
    }

    /// Records a successful build of `built_version` finished at time `now`.
    /// A package that was never observed is left untouched.
    pub fn mark_built_at(&mut self, package: &str, built_version: &str, now: u64)
        requires
            old(self).wf(),
        ensures
            final(self).wf(),
            old(self)@.contains_key(package@) ==> final(self)@ == old(self)@.insert(
                package@,
                built_state(old(self)@[package@], built_version@, now),
            ),
            !old(self)@.contains_key(package@) ==> final(self)@ == old(self)@,
    {
        match self.find(package) {
            Option::Some(i) => {
                let ghost old_entries = self.entries_view();
                let st = &self.entries[i].state;
                let state = PackageState {
                    aur_version: st.aur_version.clone(),
                    built_version: Option::Some(String::from_str(built_version)),
                    last_checked: st.last_checked,
                    last_built: Option::Some(now),
                    build_status: BuildStatus::Succeeded,
                };
                let name = self.entries[i].name.clone();
                self.entries[i] = Entry { name, state };
                proof {
                    assert(self.entries_view() =~= old_entries.update(
                        i as int,
                        (package@, built_state(old(self)@[package@], built_version@, now)),
                    ));
                    lemma_map_of_update(
                        old_entries,
                        i as int,
                        (package@, built_state(old(self)@[package@], built_version@, now)),
                    );
                }
            },
            Option::None => {},
        }
    }

    /// Records a failed build with the given reason; a prior success
    /// (`built_version`, `last_built`) is not erased. A package that was
    /// never observed is left untouched.
    pub fn mark_failed(&mut self, package: &str, error: &str)
        requires
            old(self).wf(),
        ensures
            final(self).wf(),
            old(self)@.contains_key(package@) ==> final(self)@ == old(self)@.insert(
                package@,
                failed_state(old(self)@[package@], error@),
            ),
            !old(self)@.contains_key(package@) ==> final(self)@ == old(self)@,
    {
        match self.find(package) {
            Option::Some(i) => {
                let ghost old_entries = self.entries_view();
                let st = &self.entries[i].state;
                let built = match &st.built_version {
                    Option::Some(v) => Option::Some(v.clone()),
                    Option::None => Option::None,
                };
                let state = PackageState {
                    aur_version: st.aur_version.clone(),
                    built_version: built,
                    last_checked: st.last_checked,
                    last_built: st.last_built,
                    build_status: BuildStatus::Failed(String::from_str(error)),
                };
                let name = self.entries[i].name.clone();
                self.entries[i] = Entry { name, state };
                proof {
                    assert(self.entries_view() =~= old_entries.update(
                        i as int,
                        (package@, failed_state(old(self)@[package@], error@)),
                    ));
                    lemma_map_of_update(
                        old_entries,
                        i as int,
                        (package@, failed_state(old(self)@[package@], error@)),
                    );
                }
            },
            Option::None => {},
        }
    }
}

/// Relies on chrono's `Utc::now` and `DateTime::timestamp`: the current time
/// as whole seconds since the Unix epoch. Nothing is assumed of the value.
#[verifier::external_body]
fn now_timestamp() -> i64 {
    chrono::Utc::now().timestamp()
}

impl PackageDb {
    /// `mark_building_at` stamped with the current clock reading.
    pub fn mark_building(&mut self, package: &str, aur_version: &str)
        requires
            old(self).wf(),
        ensures
            final(self).wf(),
            exists|t: u64|
                final(self)@ == old(self)@.insert(
                    package@,
                    #[trigger] building_state(aur_version@, t),
                ),
    {
        let t = now_timestamp();
        let now: u64 = if t < 0 {
            0
        } else {
            t as u64
        };
        self.mark_building_at(package, aur_version, now);
        proof {
            assert(final(self)@ == old(self)@.insert(package@, building_state(aur_version@, now)));
        }
    }

    /// `mark_built_at` stamped with the current clock reading.
    pub fn mark_built(&mut self, package: &str, built_version: &str)
        requires
            old(self).wf(),
        ensures
            final(self).wf(),
            old(self)@.contains_key(package@) ==> exists|t: u64|
                final(self)@ == old(self)@.insert(
                    package@,
                    #[trigger] built_state(old(self)@[package@], built_version@, t),
                ),
            !old(self)@.contains_key(package@) ==> final(self)@ == old(self)@,
    {
        let t = now_timestamp();
        let now: u64 = if t < 0 {
            0
        } else {
            t as u64
        };
        let ghost pre = self@;
        self.mark_built_at(package, built_version, now);
        proof {
            if pre.contains_key(package@) {
                assert(final(self)@ == old(self)@.insert(
                    package@,
                    built_state(old(self)@[package@], built_version@, now),
                ));
            }
        }
    }
}

/// Why a persisted store text cannot be loaded.
#[derive(Debug)]
pub enum LoadError {
    /// The text is not a store rendering.
    Malformed,
    /// The text parses but names some package twice.
    DuplicateName,
}

proof fn lemma_render_entries_push(es: Seq<EntryView>, e: EntryView)
    ensures
        render_entries_spec(es.push(e)) == render_entries_spec(es) + render_entry_spec(e),
    decreases es.len(),
{
    if es.len() == 0 {
        assert(es.push(e)[0] == e);
        assert(es.push(e).skip(1) =~= Seq::<EntryView>::empty());
        assert(render_entries_spec(Seq::<EntryView>::empty()) == Seq::<char>::empty());
        assert(render_entries_spec(es.push(e)) =~= render_entries_spec(es) + render_entry_spec(e));
    } else {
        lemma_render_entries_push(es.skip(1), e);
        assert(es.push(e)[0] == es[0]);
        assert(es.push(e).skip(1) =~= es.skip(1).push(e));
        assert(render_entries_spec(es.push(e)) == render_entry_spec(es[0]) + render_entries_spec(
            es.skip(1).push(e),
        ));
        assert(render_entries_spec(es.push(e)) =~= render_entries_spec(es) + render_entry_spec(e));
    }
}

fn pairs_unique(ps: &Vec<(String, PackageState)>) -> (r: bool)
    ensures
        r == unique_names(pairs_view(ps@)),
{
    let n = ps.len();
    let mut i: usize = 0;
    while i < n
        invariant
            i <= n,
            n == ps@.len(),
            forall|a: int, b: int| 0 <= a < b < i ==> pairs_view(ps@)[a].0 != pairs_view(ps@)[b].0,
        decreases n - i,
    {
        let mut j: usize = 0;
        while j < i
            invariant
                j <= i < n,
                n == ps@.len(),
                forall|a: int, b: int|
                    0 <= a < b < i ==> pairs_view(ps@)[a].0 != pairs_view(ps@)[b].0,
                forall|t: int| 0 <= t < j ==> pairs_view(ps@)[t].0 != pairs_view(ps@)[i as int].0,
            decreases i - j,
        {
            if str_eq(ps[j].0.as_str(), ps[i].0.as_str()) {
                proof {
                    assert(pairs_view(ps@)[j as int].0 == pairs_view(ps@)[i as int].0);
                }
                return false;
            }
            j += 1;
        }
        i += 1;
    }
    true
}

/// A store text denotes a store exactly when it parses and names each package once.
pub open spec fn from_text_spec(s: Seq<char>) -> Option<Seq<EntryView>> {
    match parse_entries_spec(s) {
        Option::None => Option::None,
        Option::Some(es) => if unique_names(es) {
            Option::Some(es)
        } else {
            Option::None
        },
    }
}

impl PackageDb {
    /// The persisted rendering of the whole store.
    pub fn to_text(&self) -> (s: String)
        ensures
            s@ == render_entries_spec(self.entries_view()),
    {
        let mut out: Vec<char> = Vec::new();
        let n = self.entries.len();
        let mut i: usize = 0;
        proof {
            assert(self.entries_view().take(0) =~= Seq::<EntryView>::empty());
        }
        while i < n
            invariant
                i <= n,
                n == self.entries@.len(),
                out@ == render_entries_spec(self.entries_view().take(i as int)),
            decreases n - i,
        {
            render_state(&mut out, self.entries[i].name.as_str(), &self.entries[i].state);
            proof {
                lemma_render_entries_push(
                    self.entries_view().take(i as int),
                    self.entries_view()[i as int],
                );
                assert(self.entries_view().take(i as int).push(self.entries_view()[i as int])
                    =~= self.entries_view().take(i as int + 1));
            }
            i += 1;
        }
        proof {
            assert(self.entries_view().take(n as int) =~= self.entries_view());
        }
        chars_to_string(&out)
    }

    /// Loads a store from its persisted rendering: the inverse of `to_text`
    /// on every text that denotes a store, an error on every other text.
    pub fn from_text(text: &str) -> (r: Result<PackageDb, LoadError>)
        ensures
            match r {
                Result::Ok(db) => {
                    &&& db.wf()
                    &&& from_text_spec(text@) == Option::Some(db.entries_view())
                    &&& db@ == map_of_views(db.entries_view())
                },
                Result::Err(e) => {
                    &&& from_text_spec(text@) is None
                    &&& ((e is Malformed) <==> parse_entries_spec(text@) is None)
                },
            },
    {
        let chars = str_chars(text);
        let mut ps = match parse_all(&chars) {
            Option::None => {
                return Result::Err(LoadError::Malformed);
            },
            Option::Some(x) => x,
        };
        if !pairs_unique(&ps) {
            return Result::Err(LoadError::DuplicateName);
        }
        let ghost views = pairs_view(ps@);
        let mut entries: Vec<Entry> = Vec::new();
        proof {
            assert(entry_views(entries@) + pairs_view(ps@) =~= views);
        }
        while ps.len() > 0
            invariant
                entry_views(entries@) + pairs_view(ps@) == views,
            decreases ps@.len(),
        {
            let ghost old_ps = ps@;
            let ghost old_entries = entries@;
            let (name, state) = ps.remove(0);
            entries.push(Entry { name, state });
            proof {
                assert(pairs_view(ps@) =~= pairs_view(old_ps).skip(1));
                assert(entry_views(entries@) =~= entry_views(old_entries).push(
                    (name@, state@),
                ));
                assert(pairs_view(old_ps)[0] == (name@, state@));
                assert(entry_views(entries@) + pairs_view(ps@) =~= views);
            }
        }
        proof {
            assert(pairs_view(ps@) =~= Seq::<EntryView>::empty());
        }
        let db = PackageDb { entries };
        proof {
            assert(db.entries_view() =~= views);
        }
        Result::Ok(db)
    }
}

/// Persisting the store and reloading it reproduces the identical record
/// sequence, and with it the identical package mapping.
pub proof fn lemma_persist_reload_roundtrip(es: Seq<EntryView>)
    requires
        unique_names(es),
    ensures
        from_text_spec(render_entries_spec(es)) == Option::Some(es),
{
    crate::codec::lemma_roundtrip_entries(es);
}

/// A package never observed before needs a build, whatever the candidate version.
pub proof fn lemma_first_observation_needs_build(
    m: Map<Seq<char>, StateView>,
    package: Seq<char>,
    candidate: Seq<char>,
)
    requires
        !m.contains_key(package),
    ensures
        needs_build_spec(m, package, candidate),
{
}

/// While a package is `Building`, no candidate version warrants another build:
/// at most one build per package is ever started concurrently.
pub proof fn lemma_building_blocks_builds(
    m: Map<Seq<char>, StateView>,
    package: Seq<char>,
    candidate: Seq<char>,
)
    requires
        m.contains_key(package),
        m[package].build_status is Building,
    ensures
        !needs_build_spec(m, package, candidate),
{
}

/// A version already built is never rebuilt; any other version warrants a
/// build while the recorded observation still names the built version and no
/// build is running. (A store whose recorded upstream version already equals
/// the other candidate suppresses the build, so that case is excluded.)
pub proof fn lemma_built_version_settles(
    m: Map<Seq<char>, StateView>,
    package: Seq<char>,
    built: Seq<char>,
    other: Seq<char>,
)
    requires
        m.contains_key(package),
        m[package].built_version == Option::Some(built),
    ensures
        !needs_build_spec(m, package, built),
        (m[package].aur_version == built && other != built && !(m[package].build_status
            is Building)) ==> needs_build_spec(m, package, other),
{
}

} // verus!
