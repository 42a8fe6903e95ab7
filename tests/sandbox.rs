use filers_mcp::paths::{literal_ancestors, path_segments, path_within, split_parent};
use filers_mcp::protocol::MCPServer;
use filers_mcp::tools::{EntryKind, FileTools, PairKind, TargetProbe, ToolError};
use filers_mcp::validation::{AllowedPaths, AllowedPathsError, PathProbe, RootProbe};

fn root(path: &str) -> RootProbe {
    RootProbe { path: path.to_string(), resolved: Some(path.to_string()), is_dir: true }
}

fn probe(resolved: Option<&str>, flags: &[bool]) -> PathProbe {
    PathProbe { resolved: resolved.map(|s| s.to_string()), symlinked: flags.to_vec() }
}

/// A probe of a path that resolves to itself and has no link on its way.
fn plain(path: &str) -> PathProbe {
    let n = literal_ancestors(path).len();
    probe(Some(path), &vec![false; n])
}

/// A probe of a path that exists, as the target of an operation.
fn existing(path: &str) -> TargetProbe {
    TargetProbe { path: plain(path), missing: 0, base: probe(None, &[]) }
}

/// A probe of a path whose last `missing` entries are absent, below the
/// existing directory `base` that resolves to itself.
fn absent(path: &str, missing: usize, base: &str) -> TargetProbe {
    let n = literal_ancestors(path).len();
    TargetProbe { path: probe(None, &vec![false; n]), missing, base: plain(base) }
}

fn sandbox(dir: &str) -> AllowedPaths {
    AllowedPaths::new(vec![root(dir)]).unwrap()
}

#[test]
fn test_allowed_paths_new_and_validate() {
    let dir = "/tmp/sandbox_a";
    let allowed = sandbox(dir);
    let file_path = format!("{}/{}", dir, "file.txt");
    let validated = allowed.validate_path(&file_path, &plain(&file_path)).unwrap();
    assert!(path_within(dir, &validated));
    assert_eq!(validated, file_path);
}

#[test]
fn test_denied_outside_root() {
    let allowed = sandbox("/tmp/sandbox_b");
    let outside = "/tmp/outside.txt";
    let result = allowed.validate_path(outside, &plain(outside));
    assert!(result.is_err());
}

#[test]
fn test_symlink_denied() {
    let dir = "/tmp/sandbox_c";
    let allowed = sandbox(dir);
    let target = format!("{}/target.txt", dir);
    let link = format!("{}/link.txt", dir);
    let result = allowed.validate_path(&link, &probe(Some(&target), &[false, false, true]));
    assert!(result.is_err());
    assert!(matches!(result, Err(AllowedPathsError::SymlinkDenied(p)) if p == link));
}

#[test]
fn test_allowed_paths_exact_and_subdir() {
    let dir = "/tmp/sandbox_d";
    let allowed = sandbox(dir);
    let file = format!("{}/sub/file.txt", dir);
    assert!(allowed.validate_path(&file, &plain(&file)).is_ok());
    assert!(allowed.validate_path(dir, &plain(dir)).is_ok());
}

#[test]
fn test_allowed_paths_denied() {
    let allowed = sandbox("/tmp/sandbox_e");
    let outside = "/tmp/not_allowed.txt";
    assert!(allowed.validate_path(outside, &plain(outside)).is_err());
}

#[test]
fn outside_root_is_not_allowed() {
    let allowed = sandbox("/tmp/sandbox");
    let r = allowed.validate_path("/etc/passwd", &plain("/etc/passwd"));
    assert!(matches!(r, Err(AllowedPathsError::NotAllowed(p)) if p == "/etc/passwd"));
}

#[test]
fn link_to_target_inside_root_is_still_denied() {
    let allowed = sandbox("/tmp/sandbox");
    let r = allowed.validate_path(
        "/tmp/sandbox/link",
        &probe(Some("/tmp/sandbox/target"), &[false, false, true]),
    );
    assert!(matches!(r, Err(AllowedPathsError::SymlinkDenied(p)) if p == "/tmp/sandbox/link"));
}

#[test]
fn linked_ancestor_is_denied_as_itself() {
    let allowed = sandbox("/tmp/sandbox");
    let r = allowed.validate_path(
        "/tmp/sandbox/dirlink/file.txt",
        &probe(Some("/tmp/sandbox/real/file.txt"), &[false, false, true, false]),
    );
    assert!(matches!(r, Err(AllowedPathsError::SymlinkDenied(p)) if p == "/tmp/sandbox/dirlink"));
}

#[test]
fn missing_probe_entry_counts_as_link() {
    let allowed = sandbox("/tmp/sandbox");
    let r = allowed.validate_path("/tmp/sandbox/a", &probe(Some("/tmp/sandbox/a"), &[false]));
    assert!(matches!(r, Err(AllowedPathsError::SymlinkDenied(p)) if p == "/tmp/sandbox"));
}

#[test]
fn unresolved_path_does_not_exist() {
    let allowed = sandbox("/tmp/sandbox");
    let r = allowed.validate_path("/tmp/sandbox/none", &probe(None, &[false, false, false]));
    assert!(matches!(r, Err(AllowedPathsError::DoesNotExist(p)) if p == "/tmp/sandbox/none"));
}

#[test]
fn prefix_is_compared_by_segment() {
    assert!(!path_within("/data", "/data2"));
    assert!(!path_within("/data", "/data2/x"));
    assert!(path_within("/data", "/data/x"));
    assert!(path_within("/data", "/data"));
    assert!(path_within("/data/", "//data//x/"));
    assert!(path_within("/", "/etc"));
    assert!(!path_within("/data", "data/x"));
    let allowed = sandbox("/data");
    let r = allowed.validate_path("/data2/f", &plain("/data2/f"));
    assert!(matches!(r, Err(AllowedPathsError::NotAllowed(_))));
}

#[test]
fn segments_and_ancestors() {
    assert_eq!(path_segments("/tmp//a/b/"), vec!["tmp", "a", "b"]);
    assert_eq!(path_segments(""), Vec::<String>::new());
    assert_eq!(literal_ancestors("/tmp/sandbox/link"), vec!["/tmp", "/tmp/sandbox", "/tmp/sandbox/link"]);
    assert_eq!(literal_ancestors("a//b/"), vec!["a", "a//b"]);
    assert_eq!(literal_ancestors("/"), Vec::<String>::new());
    assert_eq!(split_parent("/tmp/x/link.txt"), Some(("/tmp/x".to_string(), "link.txt".to_string())));
    assert_eq!(split_parent("/top"), Some(("/".to_string(), "top".to_string())));
    assert_eq!(split_parent("name"), Some((".".to_string(), "name".to_string())));
    assert_eq!(split_parent("/"), None);
}

#[test]
fn unfit_roots_refuse_the_sandbox() {
    let missing = RootProbe { path: "/nope".to_string(), resolved: None, is_dir: false };
    let file = RootProbe { path: "/etc/hosts".to_string(), resolved: Some("/etc/hosts".to_string()), is_dir: false };
    assert!(matches!(AllowedPaths::new(vec![root("/a"), missing]), Err(AllowedPathsError::DoesNotExist(p)) if p == "/nope"));
    assert!(matches!(AllowedPaths::new(vec![file, root("/a")]), Err(AllowedPathsError::NotADirectory(p)) if p == "/etc/hosts"));
}

#[test]
fn duplicate_roots_collapse() {
    let via_link = RootProbe { path: "/b".to_string(), resolved: Some("/a".to_string()), is_dir: true };
    let allowed = AllowedPaths::new(vec![root("/a"), via_link, root("/c")]).unwrap();
    assert_eq!(allowed.get_allowed_directories(), &vec!["/a".to_string(), "/c".to_string()]);
}

#[test]
fn rejection_messages() {
    assert_eq!(AllowedPathsError::NotADirectory("/f".to_string()).message(), "Not a directory: /f");
    assert_eq!(AllowedPathsError::DoesNotExist("/f".to_string()).message(), "Does not exist: /f");
    assert_eq!(AllowedPathsError::NotAllowed("/f".to_string()).message(), "Path not allowed: /f");
    assert_eq!(AllowedPathsError::TraversalAttempt("/f".to_string()).message(), "Traversal attempt denied: /f");
    assert_eq!(AllowedPathsError::SymlinkDenied("/f".to_string()).message(), "Symlink denied: /f");
}

#[test]
fn test_rename_and_stat() {
    let dir = "/tmp/sandbox_f";
    let allowed = sandbox(dir);
    let tools = FileTools { allowed_paths: &allowed };
    let file = format!("{}/a.txt", dir);
    let file2 = format!("{}/b.txt", dir);
    let (a, b) = tools
        .authorize_pair(PairKind::Move, &file, &plain(&file), &file2, &absent(&file2, 1, dir))
        .unwrap();
    assert_eq!((a.as_str(), b.as_str()), (file.as_str(), file2.as_str()));
}

#[test]
fn two_sided_rename_fails_either_way() {
    let allowed = sandbox("/tmp/sandbox");
    let tools = FileTools { allowed_paths: &allowed };
    let inside = "/tmp/sandbox/a.txt";
    let outside = "/etc/passwd";
    let r1 = tools.authorize_pair(PairKind::Move, inside, &plain(inside), outside, &existing(outside));
    let r2 = tools.authorize_pair(PairKind::Move, outside, &plain(outside), inside, &existing(inside));
    assert!(matches!(&r1, Err(ToolError::DeniedTarget(PairKind::Move, AllowedPathsError::NotAllowed(p))) if p == outside));
    assert!(matches!(&r2, Err(ToolError::DeniedSource(PairKind::Move, AllowedPathsError::NotAllowed(p))) if p == outside));
    let fresh = "/etc/new.txt";
    let r3 = tools.authorize_pair(PairKind::Move, inside, &plain(inside), fresh, &absent(fresh, 1, "/etc"));
    assert!(matches!(&r3, Err(ToolError::DeniedTarget(_, AllowedPathsError::NotAllowed(p))) if p == "/etc"));
    assert_eq!(r1.unwrap_err().message(), "Path validation failed (to): Path not allowed: /etc/passwd");
    assert_eq!(r2.unwrap_err().message(), "Path validation failed (from): Path not allowed: /etc/passwd");
}

#[test]
fn test_read_symlink() {
    let dir = "/tmp/sandbox_g";
    let allowed = sandbox(dir);
    let tools = FileTools { allowed_paths: &allowed };
    let link = format!("{}/link.txt", dir);
    let parent = FileTools::link_parent(&link).unwrap();
    assert_eq!(parent, dir);
    let loc = tools.authorize_link(&link, &plain(&parent)).unwrap();
    assert_eq!(loc, link);
}

#[test]
fn link_names_may_not_climb() {
    let allowed = sandbox("/tmp/sandbox");
    let tools = FileTools { allowed_paths: &allowed };
    let r = tools.authorize_link("/tmp/sandbox/..", &plain("/tmp/sandbox"));
    assert!(matches!(r, Err(ToolError::Denied(AllowedPathsError::TraversalAttempt(p))) if p == "/tmp/sandbox/.."));
    let r = tools.authorize_link("/tmp/link", &plain("/tmp"));
    assert!(matches!(r, Err(ToolError::Denied(AllowedPathsError::NotAllowed(p))) if p == "/tmp"));
    let r = tools.authorize_link("/", &plain("/"));
    assert!(matches!(r, Err(ToolError::Denied(AllowedPathsError::DoesNotExist(_)))));
}

#[test]
fn test_hard_link_and_exists() {
    let dir = "/tmp/sandbox_h";
    let allowed = sandbox(dir);
    let tools = FileTools { allowed_paths: &allowed };
    let file = format!("{}/orig.txt", dir);
    let link = format!("{}/hardlink.txt", dir);
    let (a, b) = tools
        .authorize_pair(PairKind::Link, &file, &plain(&file), &link, &absent(&link, 1, dir))
        .unwrap();
    assert_eq!((a, b), (file.clone(), link.clone()));
    assert!(tools.file_exists(&link, &plain(&link), Some(EntryKind::File)));
    assert!(tools.is_file(&link, &plain(&link), Some(EntryKind::File)));
}

#[test]
fn test_create_symlink_and_is_dir() {
    let dir = "/tmp/sandbox_i";
    let allowed = sandbox(dir);
    let tools = FileTools { allowed_paths: &allowed };
    let target = format!("{}/targetdir", dir);
    let link = format!("{}/linkdir", dir);
    let (a, b) = tools
        .authorize_symlink(&target, &plain(&target), &link, &absent(&link, 1, dir), true)
        .unwrap();
    assert_eq!((a, b), (target.clone(), link.clone()));
    assert!(!tools.is_dir(&link, &probe(Some(&target), &[false, false, true]), Some(EntryKind::Dir)));
    assert!(tools.is_dir(&target, &plain(&target), Some(EntryKind::Dir)));
    assert!(matches!(
        tools.authorize_symlink(&target, &plain(&target), &link, &absent(&link, 1, dir), false),
        Err(ToolError::Unsupported)
    ));
}

#[test]
fn advisory_queries_swallow_refusals() {
    let allowed = sandbox("/tmp/sandbox");
    let tools = FileTools { allowed_paths: &allowed };
    assert!(!tools.file_exists("/etc/passwd", &plain("/etc/passwd"), Some(EntryKind::File)));
    assert!(!tools.is_file("/etc/passwd", &plain("/etc/passwd"), Some(EntryKind::File)));
    assert!(!tools.is_dir("/tmp/sandbox/f", &plain("/tmp/sandbox/f"), Some(EntryKind::File)));
    assert!(!tools.file_exists("/tmp/sandbox/f", &plain("/tmp/sandbox/f"), None));
}

#[test]
fn denials_are_told_from_failures() {
    let denied = ToolError::Denied(AllowedPathsError::NotAllowed("/x".to_string()));
    assert!(denied.is_denial());
    assert_eq!(denied.message(), "Path validation failed: Path not allowed: /x");
    let io = ToolError::Io("Failed to open file: gone".to_string());
    assert!(!io.is_denial());
    assert_eq!(io.message(), "Failed to open file: gone");
    assert!(!ToolError::Unsupported.is_denial());
    assert_eq!(ToolError::Unsupported.message(), "Operation not supported on this platform");
}

#[test]
fn server_lends_its_sandbox() {
    let server = MCPServer::new(vec![root("/srv/data")]).unwrap();
    let tools = server.tools();
    assert!(tools.authorize("/srv/data/x", &plain("/srv/data/x")).is_ok());
    assert!(matches!(
        tools.authorize("/srv/other", &plain("/srv/other")),
        Err(ToolError::Denied(AllowedPathsError::NotAllowed(_)))
    ));
    let bad = RootProbe { path: "/gone".to_string(), resolved: None, is_dir: false };
    assert!(MCPServer::new(vec![bad]).is_err());
}

#[test]
fn new_paths_are_allowed_below_an_existing_directory() {
    let dir = "/tmp/sandbox_j";
    let allowed = sandbox(dir);
    let tools = FileTools { allowed_paths: &allowed };
    let file = format!("{}/new.txt", dir);
    assert_eq!(tools.authorize_new(&file, &absent(&file, 1, dir)).unwrap(), file);
    let deep = format!("{}/a//b/", dir);
    assert_eq!(FileTools::target_base(&deep, 2), Some(dir.to_string()));
    assert_eq!(tools.authorize_new(&deep, &absent(&deep, 2, dir)).unwrap(), format!("{}/a/b", dir));
    let here = format!("{}/old.txt", dir);
    assert_eq!(tools.authorize_new(&here, &existing(&here)).unwrap(), here);
}

#[test]
fn new_paths_are_refused_when_they_escape() {
    let dir = "/tmp/sandbox_k";
    let allowed = sandbox(dir);
    let tools = FileTools { allowed_paths: &allowed };
    let climb = format!("{}/x/../../etc", dir);
    let r = tools.authorize_new(&climb, &absent(&climb, 2, dir));
    assert!(matches!(r, Err(ToolError::Denied(AllowedPathsError::TraversalAttempt(p))) if p == climb));
    let dangling = format!("{}/dangling", dir);
    let r = tools.authorize_new(&dangling, &TargetProbe {
        path: probe(None, &[false, false, true]),
        missing: 0,
        base: probe(None, &[]),
    });
    assert!(matches!(r, Err(ToolError::Denied(AllowedPathsError::SymlinkDenied(p))) if p == dangling));
    let r = tools.authorize_new(&dangling, &absent(&dangling, 0, dir));
    assert!(matches!(r, Err(ToolError::Denied(AllowedPathsError::DoesNotExist(p))) if p == dangling));
    let r = tools.authorize_new("/tmp/elsewhere/f", &absent("/tmp/elsewhere/f", 1, "/tmp/elsewhere"));
    assert!(matches!(r, Err(ToolError::Denied(AllowedPathsError::NotAllowed(p))) if p == "/tmp/elsewhere"));
}

#[test]
fn link_refusals_name_src_and_dst() {
    let allowed = sandbox("/tmp/sandbox");
    let tools = FileTools { allowed_paths: &allowed };
    let inside = "/tmp/sandbox/a.txt";
    let r = tools.authorize_pair(PairKind::Link, inside, &plain(inside), "/etc/l", &absent("/etc/l", 1, "/etc"));
    assert_eq!(r.unwrap_err().message(), "Path validation failed (dst): Path not allowed: /etc");
    let r = tools.authorize_symlink("/etc/passwd", &plain("/etc/passwd"), inside, &existing(inside), true);
    assert_eq!(r.unwrap_err().message(), "Path validation failed (src): Path not allowed: /etc/passwd");
}
