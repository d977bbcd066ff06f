//! Tests that bring a datastore from one version of the database to another.

use vstd::prelude::*;
use vstd::string::StringExecFns;
use crate::fmt::decimal_text;

verus! {

/// A released version of the database.
#[derive(Clone, Copy, PartialEq, Eq, Structural, Debug)]
pub struct Version {
    pub major: u64,
    pub minor: u64,
    pub patch: u64,
}

/// How a version is written: its three numbers with points between them.
pub open spec fn version_text(version: Version) -> Seq<char> {
    decimal_text(version.major as nat) + "."@ + decimal_text(version.minor as nat) + "."@
        + decimal_text(version.patch as nat)
}

/// Calls `semver::Version::new` and `to_string`: the three numbers in decimal digits with
/// points between them.
#[verifier::external_body]
fn version_string(major: u64, minor: u64, patch: u64) -> (text: String)
    ensures
        text@ == version_text(Version { major, minor, patch }),
{
    semver::Version::new(major, minor, patch).to_string()
}

impl Version {
    /// Whether this version is `other` or was released after it.
    pub open spec fn at_least(self, other: Version) -> bool {
        self.major > other.major || (self.major == other.major && (self.minor > other.minor || (
        self.minor == other.minor && self.patch >= other.patch)))
    }

    /// Whether this version is `other` or was released after it.
    pub fn is_at_least(&self, other: &Version) -> (is: bool)
        ensures
            is == self.at_least(*other),
    {
        self.major > other.major || (self.major == other.major && (self.minor > other.minor || (
        self.minor == other.minor && self.patch >= other.patch)))
    }

    /// How the version is written.
    pub fn to_text(&self) -> (text: String)
        ensures
            text@ == version_text(*self),
    {
        version_string(self.major, self.minor, self.patch)
    }
}

/// What a version of the datastore stands for.
pub enum DsVersionView {
    Path(Seq<char>),
    Version(Version),
}

/// A version of the database to test: a build at a path, or a released version.
#[derive(Debug)]
pub enum DsVersion {
    Path(String),
    Version(Version),
}

impl View for DsVersion {
    type V = DsVersionView;

    open spec fn view(&self) -> DsVersionView {
        match self {
            DsVersion::Path(path) => DsVersionView::Path(path@),
            DsVersion::Version(version) => DsVersionView::Version(*version),
        }
    }
}

impl DsVersionView {
    /// How the version is written: the path, or the numbers of the release.
    pub open spec fn text(self) -> Seq<char> {
        match self {
            DsVersionView::Path(path) => path,
            DsVersionView::Version(version) => version_text(version),
        }
    }
}

/// Whether a datastore is brought from `from` to `to`: not from a release to itself or to
/// an earlier release.
pub open spec fn upgrades(from: DsVersionView, to: DsVersionView) -> bool {
    match (from, to) {
        (DsVersionView::Version(from), DsVersionView::Version(to)) => !from.at_least(to),
        _ => true,
    }
}

impl DsVersion {
    /// Whether a datastore is brought from this version to `to`.
    pub fn upgrades_to(&self, to: &DsVersion) -> (is: bool)
        ensures
            is == upgrades(self@, to@),
    {
        match (self, to) {
            (DsVersion::Version(from), DsVersion::Version(to)) => !from.is_at_least(to),
            _ => true,
        }
    }

    /// Appends the version as it is written.
    fn push_to(&self, text: &mut String)
        ensures
            final(text)@ == old(text)@ + self@.text(),
    {
        match self {
            DsVersion::Path(path) => {
                text.append(path.as_str());
            },
            DsVersion::Version(version) => {
                let written = version.to_text();
                text.append(written.as_str());
            },
        }
    }
}

/// The backend that holds the datastore under test.
#[derive(Clone, Copy, PartialEq, Eq, Structural, Debug)]
pub enum UpgradeBackend {
    RocksDb,
    SurrealKv,
    Foundation,
}

/// The first release that has the backend `SurrealKv`.
pub open spec fn first_with_surrealkv() -> Version {
    Version { major: 2, minor: 0, patch: 0 }
}

/// Whether the backend can hold a datastore of this version.
pub open spec fn backend_has(backend: UpgradeBackend, version: DsVersionView) -> bool {
    match (backend, version) {
        (UpgradeBackend::SurrealKv, DsVersionView::Version(version)) => version.at_least(
            first_with_surrealkv(),
        ),
        _ => true,
    }
}

impl UpgradeBackend {
    /// The first of the versions of which the backend cannot hold a datastore.
    pub fn first_without(self, versions: &Vec<DsVersion>) -> (found: Option<usize>)
        ensures
            match found {
                Some(i) => i < versions@.len() && !backend_has(self, versions@[i as int]@)
                    && forall|j: int| 0 <= j < i ==> backend_has(self, (#[trigger] versions@[j])@),
                None => forall|j: int|
                    0 <= j < versions@.len() ==> backend_has(self, (#[trigger] versions@[j])@),
            },
    {
        let first = Version { major: 2, minor: 0, patch: 0 };
        let mut i: usize = 0;
        while i < versions.len()
            invariant
                i <= versions@.len(),
                first == first_with_surrealkv(),
                forall|j: int| 0 <= j < i ==> backend_has(self, (#[trigger] versions@[j])@),
            decreases versions@.len() - i,
        {
            let holds = match (self, &versions[i]) {
                (UpgradeBackend::SurrealKv, DsVersion::Version(version)) => version.is_at_least(
                    &first,
                ),
                _ => true,
            };
            if !holds {
                return Some(i);
            }
            i += 1;
        }
        None
    }
}

/// A test, told by its place in the set of tests.
pub type TestId = usize;

/// A test of the set.
#[derive(Debug)]
pub struct TestCase {
    /// Where the test is kept.
    pub path: String,
    /// Whether the test is run on upgraded datastores.
    pub upgrade: bool,
    /// Whether the test is still worked on.
    pub wip: bool,
    /// Whether the test says what it returns.
    pub has_results: bool,
}

/// The tests that were found.
#[derive(Debug)]
pub struct TestSet {
    pub tests: Vec<TestCase>,
}

/// What a task stands for.
pub struct TaskView {
    pub from: DsVersionView,
    pub to: DsVersionView,
    pub test: TestId,
    pub path: Seq<char>,
}

/// A test to run on a datastore that is brought from one version to another.
#[derive(Debug)]
pub struct Task {
    from: DsVersion,
    to: DsVersion,
    test: TestId,
    path: String,
}

impl View for Task {
    type V = TaskView;

    closed spec fn view(&self) -> TaskView {
        TaskView { from: self.from@, to: self.to@, test: self.test, path: self.path@ }
    }
}

/// How a task is named: where its test is kept, and the two versions with an arrow
/// between them.
pub open spec fn task_name(task: TaskView, test_path: Seq<char>) -> Seq<char> {
    test_path + " "@ + task.from.text() + " => "@ + task.to.text()
}

impl Task {
    /// The task that runs the test `test` on a datastore at `path` that is brought from
    /// `from` to `to`.
    pub fn new(from: DsVersion, to: DsVersion, test: TestId, path: String) -> (task: Task)
        ensures
            task@ == (TaskView { from: from@, to: to@, test, path: path@ }),
    {
        Task { from, to, test, path }
    }

    /// The test that the task runs.
    pub fn test(&self) -> (test: TestId)
        ensures
            test == self@.test,
    {
        self.test
    }

    /// Where the datastore of the task is kept.
    pub fn path(&self) -> (path: &str)
        ensures
            path@ == self@.path,
    {
        self.path.as_str()
    }

    /// The version that the datastore is brought from.
    pub fn from(&self) -> (from: &DsVersion)
        ensures
            from@ == self@.from,
    {
        &self.from
    }

    /// The version that the datastore is brought to.
    pub fn to(&self) -> (to: &DsVersion)
        ensures
            to@ == self@.to,
    {
        &self.to
    }

    /// How the task is named. The test of the task must be one of `set`.
    pub fn name(&self, set: &TestSet) -> (name: String)
        requires
            self@.test < set.tests@.len(),
        ensures
            name@ == task_name(self@, set.tests@[self@.test as int].path@),
    {
        let mut res = String::new();

        res.append(set.tests[self.test].path.as_str());
        res.append(" ");

        self.from.push_to(&mut res);
        res.append(" => ");
        self.to.push_to(&mut res);

        proof {
            assert(res@ =~= task_name(self@, set.tests@[self@.test as int].path@));
        }
        res
    }
}

/// How the tests are run.
#[derive(Debug)]
pub struct Config {
    /// Where the tests are kept.
    pub test_path: String,
    /// How many tests run at a time.
    pub jobs: u32,
    /// Whether releases of the database may be downloaded.
    pub download_permission: bool,
    /// The backend that holds the datastores.
    pub backend: UpgradeBackend,
}

impl Config {
    /// The configuration with these settings. Where the number of jobs is not given, as
    /// many tests run at a time as `parallelism` says, and one where that is not known.
    pub fn new(
        test_path: String,
        jobs: Option<u32>,
        parallelism: Option<u32>,
        download_permission: Option<bool>,
        backend: UpgradeBackend,
    ) -> (config: Config)
        ensures
            config.test_path@ == test_path@,
            config.backend == backend,
            config.download_permission == match download_permission {
                Some(allowed) => allowed,
                None => false,
            },
            config.jobs == match (jobs, parallelism) {
                (Some(jobs), _) => jobs,
                (None, Some(parallelism)) => parallelism,
                (None, None) => 1u32,
            },
    {
        Config {
            test_path,
            jobs: match (jobs, parallelism) {
                (Some(jobs), _) => jobs,
                (None, Some(parallelism)) => parallelism,
                (None, None) => 1,
            },
            download_permission: match download_permission {
                Some(allowed) => allowed,
                None => false,
            },
            backend,
        }
    }
}

/// The port for the next task: one that a finished task gave back, or else the next
/// above `last` that `free` holds free. Nothing, where no port is left.
pub fn next_port<F: Fn(u16) -> bool>(reuse: &mut Vec<u16>, last: &mut u16, free: &F) -> (port:
    Option<u16>)
    requires
        forall|p: u16| call_requires(free, (p,)),
    ensures
        match port {
            Some(p) => if old(reuse)@.len() > 0 {
                p == old(reuse)@.last() && final(reuse)@ == old(reuse)@.drop_last() && *final(last) == *old(last)
            } else {
                *old(last) < p && *final(last) == p && call_ensures(free, (p,), true) && final(reuse)@ == old(reuse)@
            },
            None => old(reuse)@.len() == 0 && *final(last) == u16::MAX && final(reuse)@ == old(reuse)@,
        },
{
    if let Some(port) = reuse.pop() {
        return Some(port);
    }
    while *last < 0xffff
        invariant
            reuse@ == old(reuse)@,
            reuse@.len() == 0,
            *old(last) <= *last,
            forall|p: u16| call_requires(free, (p,)),
        decreases 0xffff - *last,
    {
        *last = *last + 1;
        if free(*last) {
            return Some(*last);
        }
    }
    None
}

impl DsVersion {
    /// A copy of the version.
    pub fn duplicate(&self) -> (copy: DsVersion)
        ensures
            copy@ == self@,
    {
        match self {
            DsVersion::Path(path) => DsVersion::Path(path.clone()),
            DsVersion::Version(version) => DsVersion::Version(*version),
        }
    }
}

/// Whether `needle` stands somewhere in `hay`.
pub open spec fn occurs(hay: Seq<u8>, needle: Seq<u8>) -> bool {
    exists|i: int| occurs_at(hay, needle, i)
}

/// Whether `needle` stands in `hay` from the place `i` on.
pub open spec fn occurs_at(hay: Seq<u8>, needle: Seq<u8>, i: int) -> bool {
    0 <= i && i + needle.len() <= hay.len() && hay.subrange(i, i + needle.len()) == needle
}

/// Whether `needle` stands in `hay` from the place `at` on.
fn stands_at(hay: &[u8], needle: &[u8], at: usize) -> (stands: bool)
    requires
        at + needle@.len() <= hay@.len(),
    ensures
        stands == occurs_at(hay@, needle@, at as int),
{
    let n = hay.len();
    let mut j: usize = 0;
    while j < needle.len()
        invariant
            j <= needle@.len(),
            at + needle@.len() <= hay@.len(),
            n == hay@.len(),
            forall|k: int| 0 <= k < j ==> hay@[at + k] == needle@[k],
        decreases needle@.len() - j,
    {
        if hay[at + j] != needle[j] {
            proof {
                assert(hay@.subrange(at as int, at + needle@.len())[j as int] == hay@[at + j]);
            }
            return false;
        }
        j += 1;
    }
    proof {
        assert(hay@.subrange(at as int, at + needle@.len()) =~= needle@);
    }
    true
}

/// Whether `needle` stands somewhere in `hay`.
pub fn contains_bytes(hay: &[u8], needle: &[u8]) -> (found: bool)
    ensures
        found == occurs(hay@, needle@),
{
    if needle.len() > hay.len() {
        return false;
    }
    let last = hay.len() - needle.len();
    let mut i: usize = 0;
    while i < last
        invariant
            last == hay@.len() - needle@.len(),
            i <= last,
            forall|k: int| 0 <= k < i ==> !occurs_at(hay@, needle@, k),
        decreases last - i,
    {
        if stands_at(hay, needle, i) {
            return true;
        }
        i += 1;
    }
    stands_at(hay, needle, last)
}

/// Whether a test is among those that are run: it is run on upgraded datastores; its
/// path holds the filter, if there is one; and it is left out neither for being worked on
/// nor for saying what it returns.
pub open spec fn selects(
    test: &TestCase,
    filter: Option<Seq<char>>,
    no_wip: bool,
    no_results: bool,
) -> bool {
    test.upgrade && (match filter {
        Some(text) => occurs(vstd::utf8::encode_utf8(test.path@), vstd::utf8::encode_utf8(text)),
        None => true,
    }) && !(no_wip && test.wip) && !(no_results && test.has_results)
}

/// Whether a test is among those that are run.
pub fn selected(test: &TestCase, filter: Option<&str>, no_wip: bool, no_results: bool) -> (is:
    bool)
    ensures
        is == selects(
            test,
            match filter {
                Some(text) => Some(text@),
                None => None,
            },
            no_wip,
            no_results,
        ),
{
    if !test.upgrade {
        return false;
    }
    let named = match filter {
        Some(text) => contains_bytes(test.path.as_str().as_bytes(), text.as_bytes()),
        None => true,
    };
    named && !(no_wip && test.wip) && !(no_results && test.has_results)
}

/// The runs of one pair of versions: one for each test, in the order of the tests.
pub open spec fn runs_of_pair(
    from: DsVersionView,
    to: DsVersionView,
    tests: Seq<TestId>,
) -> Seq<(DsVersionView, DsVersionView, TestId)> {
    Seq::new(tests.len(), |i: int| (from, to, tests[i]))
}

/// The runs that start from one version: for each version to go to to which a datastore
/// is brought from it, in their order, the runs of the pair.
pub open spec fn runs_from(
    from: DsVersionView,
    to: Seq<DsVersionView>,
    tests: Seq<TestId>,
) -> Seq<(DsVersionView, DsVersionView, TestId)>
    decreases to.len(),
{
    if to.len() == 0 {
        Seq::empty()
    } else {
        runs_from(from, to.drop_last(), tests) + if upgrades(from, to.last()) {
            runs_of_pair(from, to.last(), tests)
        } else {
            Seq::empty()
        }
    }
}

/// All runs: for each version to start from, in their order, the runs that start from it.
pub open spec fn runs(
    from: Seq<DsVersionView>,
    to: Seq<DsVersionView>,
    tests: Seq<TestId>,
) -> Seq<(DsVersionView, DsVersionView, TestId)>
    decreases from.len(),
{
    if from.len() == 0 {
        Seq::empty()
    } else {
        runs(from.drop_last(), to, tests) + runs_from(from.last(), to, tests)
    }
}

/// What planned runs stand for.
pub open spec fn plan_view(plan: Seq<(DsVersion, DsVersion, TestId)>) -> Seq<
    (DsVersionView, DsVersionView, TestId),
> {
    plan.map_values(|run: (DsVersion, DsVersion, TestId)| (run.0@, run.1@, run.2))
}

/// The runs to make: each test from each version to start from to each version to go
/// to, but not from a release to itself or to an earlier release.
pub fn plan(from: &Vec<DsVersion>, to: &Vec<DsVersion>, tests: &Vec<TestId>) -> (planned: Vec<
    (DsVersion, DsVersion, TestId),
>)
    ensures
        plan_view(planned@) == runs(
            from@.map_values(|v: DsVersion| v@),
            to@.map_values(|v: DsVersion| v@),
            tests@,
        ),
{
    let ghost starts = from@.map_values(|v: DsVersion| v@);
    let ghost ends = to@.map_values(|v: DsVersion| v@);
    let mut planned: Vec<(DsVersion, DsVersion, TestId)> = Vec::new();
    let mut i: usize = 0;
    proof {
        assert(starts.take(0) =~= Seq::<DsVersionView>::empty());
        assert(plan_view(planned@) =~= Seq::empty());
    }
    while i < from.len()
        invariant
            i <= from@.len(),
            starts == from@.map_values(|v: DsVersion| v@),
            ends == to@.map_values(|v: DsVersion| v@),
            plan_view(planned@) == runs(starts.take(i as int), ends, tests@),
        decreases from@.len() - i,
    {
        let ghost before = plan_view(planned@);
        let mut j: usize = 0;
        proof {
            assert(ends.take(0) =~= Seq::<DsVersionView>::empty());
            assert(before + Seq::<(DsVersionView, DsVersionView, TestId)>::empty() =~= before);
        }
        while j < to.len()
            invariant
                i < from@.len(),
                j <= to@.len(),
                starts == from@.map_values(|v: DsVersion| v@),
                ends == to@.map_values(|v: DsVersion| v@),
                plan_view(planned@) == before + runs_from(from@[i as int]@, ends.take(j as int), tests@),
            decreases to@.len() - j,
        {
            let ghost so_far = plan_view(planned@);
            let ghost earlier = runs_from(from@[i as int]@, ends.take(j as int), tests@);
            proof {
                assert(ends.take(j + 1).drop_last() =~= ends.take(j as int));
                assert(ends.take(j + 1).last() == to@[j as int]@);
            }
            if from[i].upgrades_to(&to[j]) {
                let mut k: usize = 0;
                while k < tests.len()
                    invariant
                        i < from@.len(),
                        j < to@.len(),
                        k <= tests@.len(),
                        planned@.len() == so_far.len() + k,
                        forall|n: int| 0 <= n < so_far.len() ==> plan_view(planned@)[n] == so_far[n],
                        forall|n: int|
                            0 <= n < k ==> plan_view(planned@)[so_far.len() + n] == (
                                from@[i as int]@,
                                to@[j as int]@,
                                tests@[n],
                            ),
                    decreases tests@.len() - k,
                {
                    let ghost held = plan_view(planned@);
                    planned.push((from[i].duplicate(), to[j].duplicate(), tests[k]));
                    proof {
                        assert(plan_view(planned@) =~= held.push(
                            (from@[i as int]@, to@[j as int]@, tests@[k as int]),
                        ));
                    }
                    k += 1;
                }
                proof {
                    assert(plan_view(planned@) =~= so_far + runs_of_pair(
                        from@[i as int]@,
                        to@[j as int]@,
                        tests@,
                    ));
                    assert(before + (earlier + runs_of_pair(from@[i as int]@, to@[j as int]@, tests@))
                        =~= (before + earlier) + runs_of_pair(
                        from@[i as int]@,
                        to@[j as int]@,
                        tests@,
                    ));
                }
            } else {
                proof {
                    assert(earlier + Seq::<(DsVersionView, DsVersionView, TestId)>::empty()
                        =~= earlier);
                }
            }
            j += 1;
        }
        proof {
            assert(ends.take(j as int) =~= ends);
            assert(starts.take(i + 1).drop_last() =~= starts.take(i as int));
            assert(starts.take(i + 1).last() == from@[i as int]@);
        }
        i += 1;
    }
    proof {
        assert(starts.take(i as int) =~= starts);
    }
    planned
}

/// How a test went.
#[derive(Clone, Copy, PartialEq, Eq, Structural, Debug)]
pub enum TestGrade {
    Success,
    Warning,
    Failed,
}

/// What is done with what tests returned.
#[derive(Clone, Copy, PartialEq, Eq, Structural, Debug)]
pub enum ResultsMode {
    /// Nothing is written.
    Default,
    /// What a test returned is written where the test does not say what it returns.
    Accept,
    /// What a test returned is written where the test failed or gave a warning.
    Overwrite,
}

/// Whether what a test returned is written into the test. A test that is still worked
/// on is never written to.
pub fn writes_results(mode: ResultsMode, grade: TestGrade, unspecified: bool, wip: bool) -> (writes:
    bool)
    ensures
        writes == (!wip && match mode {
            ResultsMode::Default => false,
            ResultsMode::Accept => unspecified,
            ResultsMode::Overwrite => grade == TestGrade::Failed || grade == TestGrade::Warning,
        }),
{
    if wip {
        return false;
    }
    match mode {
        ResultsMode::Default => false,
        ResultsMode::Accept => unspecified,
        ResultsMode::Overwrite => match grade {
            TestGrade::Failed => true,
            TestGrade::Warning => true,
            TestGrade::Success => false,
        },
    }
}

/// Why a run of the tests did not succeed.
#[derive(Clone, Copy, PartialEq, Eq, Structural, Debug)]
pub enum RunFailure {
    /// Some tests could not be loaded.
    NotAllLoaded,
    /// Some tests failed.
    NotAllSuccessful,
}

/// Whether one of the tests failed.
pub open spec fn any_failed(grades: Seq<TestGrade>) -> bool {
    exists|i: int| 0 <= i < grades.len() && #[trigger] grades[i] == TestGrade::Failed
}

/// How the run ends: it fails where tests could not be loaded, and else where a test
/// failed.
pub fn verdict(load_errors: usize, grades: &Vec<TestGrade>) -> (result: Result<(), RunFailure>)
    ensures
        result == if load_errors > 0 {
            Err::<(), RunFailure>(RunFailure::NotAllLoaded)
        } else if any_failed(grades@) {
            Err::<(), RunFailure>(RunFailure::NotAllSuccessful)
        } else {
            Ok::<(), RunFailure>(())
        },
{
    if load_errors > 0 {
        return Err(RunFailure::NotAllLoaded);
    }
    let mut i: usize = 0;
    while i < grades.len()
        invariant
            i <= grades@.len(),
            load_errors == 0,
            forall|j: int| 0 <= j < i ==> grades@[j] != TestGrade::Failed,
        decreases grades@.len() - i,
    {
        if grades[i] == TestGrade::Failed {
            assert(grades@[i as int] == TestGrade::Failed);
            return Err(RunFailure::NotAllSuccessful);
        }
        i += 1;
    }
    Ok(())
}

/// Why a test cannot be run with the names it asks for.
#[derive(Clone, Copy, PartialEq, Eq, Structural, Debug)]
pub enum NamesFault {
    /// A database is chosen, but no namespace.
    DatabaseWithoutNamespace,
}

/// The names to choose on a connection before a test runs: the namespace and the
/// database, where they are given. A database cannot be chosen without a namespace.
pub fn use_params(namespace: Option<&str>, database: Option<&str>) -> (result: Result<
    Vec<String>,
    NamesFault,
>)
    ensures
        match result {
            Ok(params) => !(database is Some && namespace is None) && params@.map_values(
                |p: String| p@,
            ) == (match namespace {
                Some(ns) => seq![ns@],
                None => Seq::<Seq<char>>::empty(),
            }) + (match database {
                Some(db) => seq![db@],
                None => Seq::<Seq<char>>::empty(),
            }),
            Err(_) => database is Some && namespace is None,
        },
{
    if database.is_some() && namespace.is_none() {
        return Err(NamesFault::DatabaseWithoutNamespace);
    }
    let mut params: Vec<String> = Vec::new();
    match namespace {
        Some(ns) => {
            params.push(String::from_str(ns));
        },
        None => {},
    }
    match database {
        Some(db) => {
            params.push(String::from_str(db));
        },
        None => {},
    }
    proof {
        assert(params@.map_values(|p: String| p@) =~= (match namespace {
            Some(ns) => seq![ns@],
            None => Seq::<Seq<char>>::empty(),
        }) + (match database {
            Some(db) => seq![db@],
            None => Seq::<Seq<char>>::empty(),
        }));
    }
    Ok(params)
}

} // verus!
