use vstd::prelude::*;
use vstd::string::{StrSliceExecFns, StringExecFns};

verus! {

/// Where the companion executable is sought when the application's own
/// directories do not hold it.
pub const FALLBACK_RESOURCE_DIR: &'static str = "/usr/lib/tauri2-next-shadcn-python-template/resources";

/// Permission bits that make a file runnable by all and writable by its owner
/// (`rwxr-xr-x`).
pub const EXECUTABLE_MODE: u32 = 0o755;

/// Why bringing up the companion process failed.
#[derive(Debug)]
pub enum StartupError {
    /// A directory of the host could not be determined; the text says which.
    DirectoryUnavailable(String),
    /// None of the candidate paths exists.
    BackendNotFound,
    /// The executable was found but could not be launched; the text is the
    /// system's reason.
    SpawnFailed(String),
}

pub open spec fn startup_error_text(e: StartupError) -> Seq<char> {
    match e {
        StartupError::DirectoryUnavailable(m) => m@,
        StartupError::BackendNotFound => "Python backend not found in any of the expected locations"@,
        StartupError::SpawnFailed(m) => "Failed to start Python backend: "@ + m@,
    }
}

impl StartupError {
    /// The error in words.
    pub fn message(&self) -> (r: String)
        ensures
            r@ == startup_error_text(*self),
    {
        match self {
            StartupError::DirectoryUnavailable(m) => m.clone(),
            StartupError::BackendNotFound => String::from_str(
                "Python backend not found in any of the expected locations",
            ),
            StartupError::SpawnFailed(m) => {
                let mut r = String::from_str("Failed to start Python backend: ");
                r.append(m.as_str());
                r
            },
        }
    }
}

/// `base` joined with `comp` as a path: an absolute `comp` replaces `base`;
/// otherwise one separator stands between them.
pub open spec fn join_path(base: Seq<char>, comp: Seq<char>) -> Seq<char> {
    if comp.len() > 0 && comp[0] == '/' {
        comp
    } else if base.len() == 0 || base.last() == '/' {
        base + comp
    } else {
        base + seq!['/'] + comp
    }
}

fn join(base: &str, comp: &str) -> (r: String)
    ensures
        r@ == join_path(base@, comp@),
{
    let cl = comp.unicode_len();
    if cl > 0 && comp.get_char(0) == '/' {
        return String::from_str(comp);
    }
    let bl = base.unicode_len();
    let mut r = String::from_str(base);
    if bl > 0 && base.get_char(bl - 1) != '/' {
        r.append("/");
        proof {
            reveal_strlit("/");
        }
    }
    r.append(comp);
    r
}

/// The candidate locations of executable `name`, most preferred first: under
/// the bundled resource root, under the per-user data root, under the fixed
/// system directory.
pub open spec fn candidate_paths(name: Seq<char>, resource_dir: Seq<char>, local_data_dir: Seq<
    char,
>) -> Seq<Seq<char>> {
    seq![
        join_path(join_path(resource_dir, "resources"@), name),
        join_path(join_path(local_data_dir, "resources"@), name),
        join_path(FALLBACK_RESOURCE_DIR@, name),
    ]
}

/// The message of a failed resolution: the per-user data root is asked for
/// first, then the resource root.
pub open spec fn resolution_error(
    resource_dir: Result<String, String>,
    local_data_dir: Result<String, String>,
) -> Option<Seq<char>> {
    match local_data_dir {
        Err(e) => Some("Failed to get app directory: "@ + e@),
        Ok(_) => match resource_dir {
            Err(e) => Some("Failed to get resource directory: "@ + e@),
            Ok(_) => None,
        },
    }
}

/// `i` is the first index at which `found` holds.
pub open spec fn is_first_found(found: Seq<bool>, i: int) -> bool {
    0 <= i < found.len() && found[i] && forall|j: int| 0 <= j < i ==> !found[j]
}

/// `r` is what the locator owes for `paths` when `found` tells which of them
/// exist: the first existing path, or `BackendNotFound` when there is none.
pub open spec fn located(paths: Seq<Seq<char>>, found: Seq<bool>, r: Result<String, StartupError>) -> bool {
    match r {
        Ok(p) => exists|i: int| is_first_found(found, i) && p@ == paths[i],
        Err(e) => e == StartupError::BackendNotFound && forall|j: int|
            0 <= j < found.len() ==> !found[j],
    }
}

pub open spec fn paths_view(paths: Seq<String>) -> Seq<Seq<char>> {
    paths.map_values(|p: String| p@)
}

/// Relies on `std::path::Path::exists`: whether something is at `path` at the
/// moment of the call. Nothing is promised of the answer.
#[verifier::external_body]
fn path_exists(path: &str) -> bool {
    std::path::Path::new(path).exists()
}

/// Picks the first of `possible_paths` that `exists` marks as present.
pub fn select_backend_path(possible_paths: &[String], exists: &[bool]) -> (r: Result<
    String,
    StartupError,
>)
    requires
        exists@.len() == possible_paths@.len(),
    ensures
        located(paths_view(possible_paths@), exists@, r),
{
    let mut i: usize = 0;
    while i < possible_paths.len()
        invariant
            exists@.len() == possible_paths@.len(),
            i <= possible_paths@.len(),
            forall|j: int| 0 <= j < i ==> !exists@[j],
        decreases possible_paths@.len() - i,
    {
        if exists[i] {
            let r = possible_paths[i].clone();
            proof {
                assert(is_first_found(exists@, i as int));
            }
            return Ok(r);
        }
        i = i + 1;
    }
    Err(StartupError::BackendNotFound)
}

/// When exactly one candidate exists, the locator returns it, wherever it
/// stands in the list.
pub proof fn lemma_single_existing_found(
    paths: Seq<Seq<char>>,
    found: Seq<bool>,
    j: int,
    r: Result<String, StartupError>,
)
    requires
        found.len() == paths.len(),
        0 <= j < found.len(),
        found[j],
        forall|i: int| 0 <= i < found.len() && i != j ==> !found[i],
        located(paths, found, r),
    ensures
        r is Ok && r->Ok_0@ == paths[j],
{
}

/// When no candidate exists, the locator fails with `BackendNotFound`, which
/// carries no path.
pub proof fn lemma_none_existing_not_found(
    paths: Seq<Seq<char>>,
    found: Seq<bool>,
    r: Result<String, StartupError>,
)
    requires
        found.len() == paths.len(),
        forall|i: int| 0 <= i < found.len() ==> !found[i],
        located(paths, found, r),
    ensures
        r == Err::<String, StartupError>(StartupError::BackendNotFound),
{
}

/// When two candidates exist, the locator returns the one that comes first.
pub proof fn lemma_earlier_of_two_found(
    paths: Seq<Seq<char>>,
    found: Seq<bool>,
    a: int,
    b: int,
    r: Result<String, StartupError>,
)
    requires
        found.len() == paths.len(),
        0 <= a < b < found.len(),
        found[a],
        found[b],
        forall|i: int| 0 <= i < found.len() && i != a && i != b ==> !found[i],
        located(paths, found, r),
    ensures
        r is Ok && r->Ok_0@ == paths[a],
{
}

/// For any pair of roots, the bundled-resource candidate comes first, the
/// per-user data candidate second, the fixed system candidate last.
pub proof fn lemma_candidate_order(name: Seq<char>, resource_dir: Seq<char>, local_data_dir: Seq<char>)
    ensures
        candidate_paths(name, resource_dir, local_data_dir).len() == 3,
        candidate_paths(name, resource_dir, local_data_dir)[0] == join_path(
            join_path(resource_dir, "resources"@),
            name,
        ),
        candidate_paths(name, resource_dir, local_data_dir)[1] == join_path(
            join_path(local_data_dir, "resources"@),
            name,
        ),
        candidate_paths(name, resource_dir, local_data_dir)[2] == join_path(
            FALLBACK_RESOURCE_DIR@,
            name,
        ),
{
}

/// The permission bits to write, given the bits read from the file (`None`
/// when they could not be read, in which case nothing is written).
pub open spec fn permissions_to_write(current: Option<u32>) -> Option<u32> {
    match current {
        Some(_) => Some(EXECUTABLE_MODE),
        None => None,
    }
}

/// The file's permission bits after one adjustment, from bits `current`.
pub open spec fn permissions_after_adjust(current: Option<u32>) -> Option<u32> {
    match permissions_to_write(current) {
        Some(m) => Some(m),
        None => current,
    }
}

/// Adjusting permissions twice leaves the same bits as adjusting them once.
pub proof fn lemma_adjust_idempotent(current: Option<u32>)
    ensures
        permissions_after_adjust(permissions_after_adjust(current)) == permissions_after_adjust(
            current,
        ),
{
}

/// The candidate to probe next, of `n`, after `answers`: the next in order
/// while every answer so far is no, none once one is yes or all are probed.
pub open spec fn probe_after(n: int, answers: Seq<bool>) -> Option<int> {
    if answers.len() < n && forall|j: int| 0 <= j < answers.len() ==> !answers[j] {
        Some(answers.len() as int)
    } else {
        None
    }
}

/// `answers` are the answers of probing `n` candidates in order until the
/// first yes or the end: every answer but the last is no, and probing stopped
/// only at a yes or after the last candidate.
pub open spec fn finished_probing(n: int, answers: Seq<bool>) -> bool {
    &&& answers.len() <= n
    &&& forall|j: int| 0 <= j < answers.len() - 1 ==> !answers[j]
    &&& answers.len() == n || (answers.len() > 0 && answers.last())
}

/// Which of `candidate_count` candidates to probe next, given the answers so far.
pub fn next_probe(candidate_count: usize, answers: &Vec<bool>) -> (r: Option<usize>)
    ensures
        match probe_after(candidate_count as int, answers@) {
            Some(i) => r == Some(i as usize),
            None => r is None,
        },
{
    if answers.len() >= candidate_count {
        return None;
    }
    let mut j: usize = 0;
    while j < answers.len()
        invariant
            j <= answers@.len(),
            forall|k: int| 0 <= k < j ==> !answers@[k],
        decreases answers@.len() - j,
    {
        if answers[j] {
            return None;
        }
        j = j + 1;
    }
    Some(answers.len())
}

/// Probing in order until the first yes decides as a full look at every
/// candidate would: when the answers agree with what is on disk (`on_disk`,
/// one flag per candidate), the choice made from the answers is the first
/// candidate on disk, or `BackendNotFound` when none is.
pub proof fn lemma_probing_agrees_with_disk(
    paths: Seq<Seq<char>>,
    on_disk: Seq<bool>,
    answers: Seq<bool>,
    r: Result<String, StartupError>,
)
    requires
        on_disk.len() == paths.len(),
        finished_probing(paths.len() as int, answers),
        answers == on_disk.take(answers.len() as int),
        located(paths.take(answers.len() as int), answers, r),
    ensures
        located(paths, on_disk, r),
{
    match r {
        Ok(p) => {
            let i = choose|i: int|
                is_first_found(answers, i) && p@ == paths.take(answers.len() as int)[i];
            assert(on_disk[i] == answers[i]);
            assert forall|j: int| 0 <= j < i implies !on_disk[j] by {
                assert(on_disk[j] == answers[j]);
            }
            assert(is_first_found(on_disk, i));
        },
        Err(_) => {
            assert(answers.len() == paths.len());
            assert(answers =~= on_disk);
        },
    }
}

/// The state of the startup sequence.
#[derive(Debug)]
pub enum StartupState {
    NotStarted,
    Resolving,
    AdjustingPermissions { path: String },
    Launching { path: String },
    Running,
    Failed { error: StartupError },
}

/// What the host reports back to the startup sequence.
#[derive(Debug)]
pub enum StartupEvent {
    Begin,
    DirectoriesResolved { resource_dir: Result<String, String>, local_data_dir: Result<String, String> },
    PermissionsAdjusted,
    LaunchFinished { outcome: Result<(), String> },
}

/// What the host is to do next.
#[derive(Debug)]
pub enum StartupAction {
    ResolveDirectories,
    AdjustPermissions { path: String },
    Launch { path: String },
    /// Keep the launched process's handle for the rest of the application's life.
    RetainHandle,
    Abort { error: StartupError },
    Nothing,
}

/// The startup outcome that a step carries once locating is over: the path
/// found, with the matching action, or the failure, with the matching abort.
pub open spec fn located_outcome(r: (StartupState, StartupAction)) -> Option<
    Result<String, StartupError>,
> {
    match r {
        (StartupState::AdjustingPermissions { path }, StartupAction::AdjustPermissions { path: p }) => {
            if path == p {
                Some(Ok(path))
            } else {
                None
            }
        },
        (StartupState::Failed { error }, StartupAction::Abort { error: e }) => {
            if error == e {
                Some(Err(error))
            } else {
                None
            }
        },
        _ => None,
    }
}

fn duplicate_error(e: &StartupError) -> (r: StartupError)
    ensures
        r == *e,
{
    match e {
        StartupError::DirectoryUnavailable(m) => StartupError::DirectoryUnavailable(m.clone()),
        StartupError::BackendNotFound => StartupError::BackendNotFound,
        StartupError::SpawnFailed(m) => StartupError::SpawnFailed(m.clone()),
    }
}

/// The companion executable, known by its file name.
#[derive(Debug)]
pub struct PythonBackend {
    pub binary_name: String,
}

impl PythonBackend {
    pub fn new(binary_name: &str) -> (r: PythonBackend)
        ensures
            r.binary_name@ == binary_name@,
    {
        PythonBackend { binary_name: String::from_str(binary_name) }
    }

    /// The candidate paths of the executable, given what the host reported
    /// for its resource root and its per-user data root.
    pub fn get_possible_paths(
        &self,
        resource_dir: Result<String, String>,
        local_data_dir: Result<String, String>,
    ) -> (r: Result<Vec<String>, StartupError>)
        ensures
            match resolution_error(resource_dir, local_data_dir) {
                Some(m) => r matches Err(StartupError::DirectoryUnavailable(t)) && t@ == m,
                None => r is Ok && paths_view(r->Ok_0@) == candidate_paths(
                    self.binary_name@,
                    resource_dir->Ok_0@,
                    local_data_dir->Ok_0@,
                ),
            },
    {
        let app_dir = match local_data_dir {
            Ok(d) => d,
            Err(e) => {
                let mut m = String::from_str("Failed to get app directory: ");
                m.append(e.as_str());
                return Err(StartupError::DirectoryUnavailable(m));
            },
        };
        let resource_root = match resource_dir {
            Ok(d) => d,
            Err(e) => {
                let mut m = String::from_str("Failed to get resource directory: ");
                m.append(e.as_str());
                return Err(StartupError::DirectoryUnavailable(m));
            },
        };
        let name = self.binary_name.as_str();
        let bundled = join(join(resource_root.as_str(), "resources").as_str(), name);
        let per_user = join(join(app_dir.as_str(), "resources").as_str(), name);
        let fallback = join(FALLBACK_RESOURCE_DIR, name);
        let r = vec![bundled, per_user, fallback];
        proof {
            assert(paths_view(r@) =~= candidate_paths(
                self.binary_name@,
                resource_root@,
                app_dir@,
            ));
        }
        Ok(r)
    }

    /// The permission bits to give the located executable, from the bits read
    /// from it (`None`: they could not be read, and nothing is to be written).
    pub fn set_executable_permissions(&self, current_mode: Option<u32>) -> (r: Option<u32>)
        ensures
            r == permissions_to_write(current_mode),
    {
        match current_mode {
            Some(_) => Some(EXECUTABLE_MODE),
            None => None,
        }
    }

    /// One step of the startup sequence: from `state` and what the host
    /// reported, the next state and what the host is to do. Resolving the
    /// candidates and probing them happen within the step; a failure at any
    /// point but the permission adjustment ends the sequence. A report that
    /// does not fit the state changes nothing.
    pub fn advance(&self, state: StartupState, event: StartupEvent) -> (r: (
        StartupState,
        StartupAction,
    ))
        ensures
            match (state, event) {
                (StartupState::NotStarted, StartupEvent::Begin) => r == (
                    StartupState::Resolving,
                    StartupAction::ResolveDirectories,
                ),
                (
                    StartupState::Resolving,
                    StartupEvent::DirectoriesResolved { resource_dir, local_data_dir },
                ) => match resolution_error(resource_dir, local_data_dir) {
                    Some(m) => located_outcome(r) matches Some(
                        Err(StartupError::DirectoryUnavailable(t)),
                    ) && t@ == m,
                    None => located_outcome(r) is Some && exists|answers: Seq<bool>|
                        finished_probing(3, answers) && located(
                            candidate_paths(
                                self.binary_name@,
                                resource_dir->Ok_0@,
                                local_data_dir->Ok_0@,
                            ).take(answers.len() as int),
                            answers,
                            located_outcome(r)->Some_0,
                        ),
                },
                (StartupState::AdjustingPermissions { path }, StartupEvent::PermissionsAdjusted) => r
                    == (StartupState::Launching { path }, StartupAction::Launch { path }),
                (StartupState::Launching { path }, StartupEvent::LaunchFinished { outcome }) => match outcome {
                    Ok(_) => r == (StartupState::Running, StartupAction::RetainHandle),
                    Err(e) => r == (
                        StartupState::Failed { error: StartupError::SpawnFailed(e) },
                        StartupAction::Abort { error: StartupError::SpawnFailed(e) },
                    ),
                },
                (other, _) => r == (other, StartupAction::Nothing),
            },
    {
        match (state, event) {
            (StartupState::NotStarted, StartupEvent::Begin) => (
                StartupState::Resolving,
                StartupAction::ResolveDirectories,
            ),
            (
                StartupState::Resolving,
                StartupEvent::DirectoriesResolved { resource_dir, local_data_dir },
            ) => match self.get_possible_paths(resource_dir, local_data_dir) {
                Err(e) => {
                    let a = duplicate_error(&e);
                    (StartupState::Failed { error: e }, StartupAction::Abort { error: a })
                },
                Ok(paths) => {
                    let found_path = self.find_backend_path(paths.as_slice());
                    proof {
                        assert(paths_view(paths@).len() == 3);
                        assert(paths@.len() == 3);
                    }
                    let r = match found_path {
                        Ok(p) => {
                            let q = p.clone();
                            (
                                StartupState::AdjustingPermissions { path: p },
                                StartupAction::AdjustPermissions { path: q },
                            )
                        },
                        Err(e) => {
                            let a = duplicate_error(&e);
                            (StartupState::Failed { error: e }, StartupAction::Abort { error: a })
                        },
                    };
                    proof {
                        assert(located_outcome(r) == Some(found_path));
                    }
                    r
                },
            },
            (StartupState::AdjustingPermissions { path }, StartupEvent::PermissionsAdjusted) => {
                let p = path.clone();
                (StartupState::Launching { path }, StartupAction::Launch { path: p })
            },
            (StartupState::Launching { path }, StartupEvent::LaunchFinished { outcome }) => {
                match outcome {
                    Ok(_) => (StartupState::Running, StartupAction::RetainHandle),
                    Err(e) => {
                        let m = e.clone();
                        (
                            StartupState::Failed { error: StartupError::SpawnFailed(e) },
                            StartupAction::Abort { error: StartupError::SpawnFailed(m) },
                        )
                    },
                }
            },
            (other, _) => (other, StartupAction::Nothing),
        }
    }

    /// Probes `possible_paths` in order, as `next_probe` directs, and picks
    /// from the answers with `select_backend_path`. Whatever the probes
    /// answered, probing stopped at the first yes or at the end, and the
    /// result is the locator's choice for those answers.
    pub fn find_backend_path(&self, possible_paths: &[String]) -> (r: Result<String, StartupError>)
        ensures
            exists|answers: Seq<bool>|
                finished_probing(possible_paths@.len() as int, answers) && located(
                    paths_view(possible_paths@).take(answers.len() as int),
                    answers,
                    r,
                ),
    {
        let n = possible_paths.len();
        let mut answers: Vec<bool> = Vec::new();
        loop
            invariant
                n == possible_paths@.len(),
                answers@.len() <= n,
                forall|j: int| 0 <= j < answers@.len() - 1 ==> !answers@[j],
            ensures
                probe_after(n as int, answers@) is None,
            decreases n - answers@.len(),
        {
            match next_probe(n, &answers) {
                None => break,
                Some(i) => {
                    let found = path_exists(possible_paths[i].as_str());
                    answers.push(found);
                },
            }
        }
        let probed = vstd::slice::slice_subrange(possible_paths, 0, answers.len());
        proof {
            assert(paths_view(probed@) =~= paths_view(possible_paths@).take(answers@.len() as int));
        }
        let r = select_backend_path(probed, answers.as_slice());
        proof {
            assert(finished_probing(n as int, answers@));
        }
        r
    }
}
} // verus!
