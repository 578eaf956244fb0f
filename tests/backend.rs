use app_shell::error::AppError;
use app_shell::python_backend::{
    next_probe, select_backend_path, PythonBackend, StartupAction, StartupError, StartupEvent, StartupState,
    EXECUTABLE_MODE,
};

const FALLBACK: &str = "/usr/lib/tauri2-next-shadcn-python-template/resources/my_fastapi_app";

fn strings(v: &[&str]) -> Vec<String> {
    v.iter().map(|s| s.to_string()).collect()
}

#[test]
fn new_keeps_the_name() {
    let b = PythonBackend::new("my_fastapi_app");
    assert_eq!(b.binary_name, "my_fastapi_app");
}

#[test]
fn candidates_in_preference_order() {
    let b = PythonBackend::new("my_fastapi_app");
    let r = b
        .get_possible_paths(Ok("/opt/app".to_string()), Ok("/home/u/.local/share/app/".to_string()))
        .ok()
        .unwrap();
    assert_eq!(
        r,
        strings(&[
            "/opt/app/resources/my_fastapi_app",
            "/home/u/.local/share/app/resources/my_fastapi_app",
            FALLBACK,
        ])
    );
}

#[test]
fn absolute_name_replaces_the_roots() {
    let b = PythonBackend::new("/bin/server");
    let r = b.get_possible_paths(Ok("/a".to_string()), Ok("/b".to_string())).ok().unwrap();
    assert_eq!(r, strings(&["/bin/server", "/bin/server", "/bin/server"]));
}

#[test]
fn missing_data_dir_is_reported_first() {
    let b = PythonBackend::new("x");
    match b.get_possible_paths(Err("no res".to_string()), Err("no data".to_string())) {
        Err(StartupError::DirectoryUnavailable(m)) => {
            assert_eq!(m, "Failed to get app directory: no data")
        }
        _ => panic!("expected DirectoryUnavailable"),
    }
    match b.get_possible_paths(Err("no res".to_string()), Ok("/d".to_string())) {
        Err(StartupError::DirectoryUnavailable(m)) => {
            assert_eq!(m, "Failed to get resource directory: no res")
        }
        _ => panic!("expected DirectoryUnavailable"),
    }
}

#[test]
fn single_existing_candidate_found_anywhere() {
    let paths = strings(&["/p0", "/p1", "/p2"]);
    for j in 0..3 {
        let mut found = vec![false, false, false];
        found[j] = true;
        let r = select_backend_path(&paths, &found).ok().unwrap();
        assert_eq!(r, paths[j]);
    }
}

#[test]
fn no_existing_candidate_is_not_found() {
    let paths = strings(&["/p0", "/p1"]);
    let r = select_backend_path(&paths, &[false, false]);
    assert!(matches!(r, Err(StartupError::BackendNotFound)));
    let r = select_backend_path(&[], &[]);
    assert!(matches!(r, Err(StartupError::BackendNotFound)));
}

#[test]
fn earlier_of_two_existing_candidates_wins() {
    let paths = strings(&["/p0", "/p1", "/p2"]);
    let r = select_backend_path(&paths, &[false, true, true]).ok().unwrap();
    assert_eq!(r, "/p1");
}

#[test]
fn probing_finds_an_existing_path() {
    let b = PythonBackend::new("x");
    let paths = strings(&["/definitely/not/here/at/all", "/", "/also/not/here"]);
    assert_eq!(b.find_backend_path(&paths).ok().unwrap(), "/");
    let none = strings(&["/definitely/not/here/at/all"]);
    assert!(matches!(b.find_backend_path(&none), Err(StartupError::BackendNotFound)));
}

#[test]
fn permissions_become_executable() {
    let b = PythonBackend::new("x");
    assert_eq!(b.set_executable_permissions(Some(0o644)), Some(0o755));
    assert_eq!(EXECUTABLE_MODE, 0o755);
    assert_eq!(b.set_executable_permissions(None), None);
}

#[test]
fn adjusting_twice_equals_once() {
    let b = PythonBackend::new("x");
    let once = b.set_executable_permissions(Some(0o600)).unwrap();
    let twice = b.set_executable_permissions(Some(once)).unwrap();
    assert_eq!(once, twice);
}

#[test]
fn startup_runs_to_completion() {
    let b = PythonBackend::new("server");
    let (s, a) = b.advance(StartupState::NotStarted, StartupEvent::Begin);
    assert!(matches!(s, StartupState::Resolving));
    assert!(matches!(a, StartupAction::ResolveDirectories));
    let (s, a) = b.advance(
        s,
        StartupEvent::DirectoriesResolved { resource_dir: Ok("/".to_string()), local_data_dir: Ok("/".to_string()) },
    );
    // "/resources/server" is not expected to exist on the machine running this.
    match (&s, &a) {
        (StartupState::Failed { error: StartupError::BackendNotFound }, StartupAction::Abort { error: StartupError::BackendNotFound }) => {}
        (StartupState::AdjustingPermissions { path }, StartupAction::AdjustPermissions { path: p }) => assert_eq!(path, p),
        _ => panic!("unexpected step"),
    }
    let s = StartupState::AdjustingPermissions { path: "/x/server".to_string() };
    let (s, a) = b.advance(s, StartupEvent::PermissionsAdjusted);
    assert!(matches!(&s, StartupState::Launching { path } if path == "/x/server"));
    assert!(matches!(&a, StartupAction::Launch { path } if path == "/x/server"));
    let (s, a) = b.advance(s, StartupEvent::LaunchFinished { outcome: Ok(()) });
    assert!(matches!(s, StartupState::Running));
    assert!(matches!(a, StartupAction::RetainHandle));
    let (s, a) = b.advance(s, StartupEvent::Begin);
    assert!(matches!(s, StartupState::Running));
    assert!(matches!(a, StartupAction::Nothing));
}

#[test]
fn startup_fails_on_missing_directory_and_on_spawn() {
    let b = PythonBackend::new("server");
    let (s, a) = b.advance(
        StartupState::Resolving,
        StartupEvent::DirectoriesResolved { resource_dir: Ok("/r".to_string()), local_data_dir: Err("gone".to_string()) },
    );
    assert!(matches!(&s, StartupState::Failed { error: StartupError::DirectoryUnavailable(m) } if m == "Failed to get app directory: gone"));
    assert!(matches!(a, StartupAction::Abort { .. }));
    let (s, a) = b.advance(
        StartupState::Launching { path: "/x".to_string() },
        StartupEvent::LaunchFinished { outcome: Err("denied".to_string()) },
    );
    match (s, a) {
        (StartupState::Failed { error }, StartupAction::Abort { error: e2 }) => {
            assert_eq!(error.message(), "Failed to start Python backend: denied");
            assert_eq!(e2.message(), "Failed to start Python backend: denied");
        }
        _ => panic!("expected failure"),
    }
}

#[test]
fn startup_error_messages() {
    assert_eq!(
        StartupError::BackendNotFound.message(),
        "Python backend not found in any of the expected locations"
    );
    assert_eq!(StartupError::DirectoryUnavailable("m".to_string()).message(), "m");
}

#[test]
fn app_error_messages() {
    let e: AppError = AppError::from("boom".to_string());
    assert_eq!(e.message(), "Backend Error: boom");
    let io = std::io::Error::new(std::io::ErrorKind::NotFound, "missing");
    let e: AppError = AppError::from(io);
    assert_eq!(e.message(), "IO Error: missing");
}

#[test]
fn probing_goes_in_order_and_stops_at_first_yes() {
    assert_eq!(next_probe(3, &vec![]), Some(0));
    assert_eq!(next_probe(3, &vec![false]), Some(1));
    assert_eq!(next_probe(3, &vec![false, false]), Some(2));
    assert_eq!(next_probe(3, &vec![false, true]), None);
    assert_eq!(next_probe(3, &vec![false, false, false]), None);
    assert_eq!(next_probe(0, &vec![]), None);
}
