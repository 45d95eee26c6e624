use objstore::config::parse_version;
use objstore::errors::GitError;
use objstore::repo::GitRepository;
use objstore::repo::repo_dir;
use objstore::repo::repo_file;
use objstore::repo::repo_find;
use objstore::repo::repo_path;

const GOOD_CONFIG: &str = "[core]\nrepositoryformatversion=0\nfilemode=false\nbare=false\n";

#[test]
fn open_valid_repository() {
    let repo = GitRepository::new("/work/proj", false, true, Some(GOOD_CONFIG)).unwrap();
    assert_eq!(repo.worktree, "/work/proj");
    assert_eq!(repo.gitdir, "/work/proj/.git");
    assert_eq!(repo.conf.get_from(Some("core"), "repositoryformatversion"), Some("0"));
}

#[test]
fn open_without_gitdir_is_not_a_repository() {
    let r = GitRepository::new("/work/proj", false, false, Some(GOOD_CONFIG));
    assert_eq!(r.err(), Some(GitError::NotARepository));
}

#[test]
fn open_without_config_is_config_missing() {
    let r = GitRepository::new("/work/proj", false, true, None);
    assert_eq!(r.err(), Some(GitError::ConfigMissing));
}

#[test]
fn open_without_version_entry_is_config_missing() {
    let r = GitRepository::new("/work/proj", false, true, Some("[core]\nfilemode=false\n"));
    assert_eq!(r.err(), Some(GitError::ConfigMissing));
}

#[test]
fn version_gate_rejects_version_one() {
    let text = "[core]\nrepositoryformatversion=1\n";
    let r = GitRepository::new("/work/proj", false, true, Some(text));
    assert_eq!(r.err(), Some(GitError::UnsupportedFormatVersion(1)));
}

#[test]
fn version_gate_rejects_nonnumeric_version() {
    let text = "[core]\nrepositoryformatversion=zero\n";
    let r = GitRepository::new("/work/proj", false, true, Some(text));
    assert_eq!(r.err(), Some(GitError::IoFailure));
}

#[test]
fn force_skips_the_version_gate() {
    let text = "[core]\nrepositoryformatversion=1\n";
    let repo = GitRepository::new("/work/proj", true, false, Some(text)).unwrap();
    assert_eq!(repo.conf.get_from(Some("core"), "repositoryformatversion"), Some("1"));
}

#[test]
fn unreadable_config_fails_even_under_force() {
    let r = GitRepository::new("/work/proj", true, false, Some("[broken"));
    assert_eq!(r.err(), Some(GitError::IoFailure));
}

#[test]
fn parse_version_accepts_digits_only() {
    assert_eq!(parse_version("0"), Some(0));
    assert_eq!(parse_version("42"), Some(42));
    assert_eq!(parse_version("4294967295"), Some(u32::MAX));
    assert_eq!(parse_version("4294967296"), None);
    assert_eq!(parse_version(""), None);
    assert_eq!(parse_version("1x"), None);
    assert_eq!(parse_version("-1"), None);
}

#[test]
fn create_plans_the_skeleton() {
    let (repo, plan) = GitRepository::repo_create("/tmp/x", false, false, false).unwrap();
    assert_eq!(repo.gitdir, "/tmp/x/.git");
    let dirs: Vec<&str> = plan.dirs.iter().map(|s| s.as_str()).collect();
    assert_eq!(
        dirs,
        vec![
            "/tmp/x/.git/branches",
            "/tmp/x/.git/objects",
            "/tmp/x/.git/refs/tags",
            "/tmp/x/.git/refs/heads",
        ]
    );
    assert_eq!(plan.files.len(), 2);
    assert_eq!(plan.files[0].path, "/tmp/x/.git/description");
    assert_eq!(plan.files[1].path, "/tmp/x/.git/HEAD");
    assert_eq!(plan.files[1].contents, "ref: refs/heads/master\n");
    assert_eq!(plan.config_path, "/tmp/x/.git/config");
    assert_eq!(plan.config.get_from(Some("core"), "repositoryformatversion"), Some("0"));
    assert_eq!(plan.config.get_from(Some("core"), "filemode"), Some("false"));
    assert_eq!(plan.config.get_from(Some("core"), "bare"), Some("false"));
}

#[test]
fn create_on_empty_directory_is_allowed() {
    assert!(GitRepository::repo_create("/tmp/x", true, true, true).is_ok());
}

#[test]
fn create_on_nonempty_directory_is_not_empty() {
    let r = GitRepository::repo_create("/tmp/x", true, true, false);
    assert_eq!(r.err(), Some(GitError::NotEmpty));
}

#[test]
fn create_on_a_file_is_not_a_directory() {
    let r = GitRepository::repo_create("/tmp/x", true, false, false);
    assert_eq!(r.err(), Some(GitError::NotADirectory));
}

#[test]
fn default_config_round_trips_through_ini() {
    let conf = GitRepository::repo_default_config();
    let mut out: Vec<u8> = Vec::new();
    conf.write_to(&mut out).unwrap();
    let text = String::from_utf8(out).unwrap();
    let back = ini::Ini::load_from_str(&text).unwrap();
    assert_eq!(back.get_from(Some("core"), "repositoryformatversion"), Some("0"));
    assert_eq!(back.get_from(Some("core"), "bare"), Some("false"));
}

#[test]
fn repo_path_joins_parts() {
    let repo = GitRepository::new("/w", true, false, None).unwrap();
    let parts = vec!["refs".to_string(), "tags".to_string()];
    assert_eq!(repo_path(&repo, &parts), "/w/.git/refs/tags");
    assert_eq!(repo_path(&repo, &Vec::new()), "/w/.git");
}

#[test]
fn repo_dir_decides_from_filesystem_facts() {
    let repo = GitRepository::new("/w", true, false, None).unwrap();
    let parts = vec!["objects".to_string()];
    assert_eq!(repo_dir(&repo, &parts, false, true, true).unwrap(), ("/w/.git/objects".to_string(), false));
    assert_eq!(repo_dir(&repo, &parts, true, false, false).unwrap(), ("/w/.git/objects".to_string(), true));
    assert_eq!(repo_dir(&repo, &parts, false, true, false).err(), Some(GitError::NotADirectory));
    assert_eq!(repo_dir(&repo, &parts, false, false, false).err(), Some(GitError::IoFailure));
}

#[test]
fn repo_file_resolves_under_its_parent() {
    let repo = GitRepository::new("/w", true, false, None).unwrap();
    let parts = vec!["objects".to_string(), "e6".to_string(), "rest".to_string()];
    let (path, create) = repo_file(&repo, &parts, true, false, false).unwrap();
    assert_eq!(path, "/w/.git/objects/e6/rest");
    assert!(create);
    let r = repo_file(&repo, &parts, false, true, false);
    assert_eq!(r.err(), Some(GitError::NotADirectory));
}

#[test]
fn find_returns_nearest_ancestor_with_gitdir() {
    // Invoked from a nested subdirectory: the start (index 0) and its
    // parent hold no metadata directory; the grandparent does.
    let probes = vec![false, false, true, true];
    assert_eq!(repo_find(&probes, true).unwrap(), Some(2));
}

#[test]
fn find_at_the_repository_root_returns_the_root_itself() {
    let probes = vec![true, false];
    assert_eq!(repo_find(&probes, true).unwrap(), Some(0));
}

#[test]
fn find_without_repository_terminates() {
    let probes = vec![false, false, false];
    assert_eq!(repo_find(&probes, true).err(), Some(GitError::NotARepository));
    assert_eq!(repo_find(&probes, false).unwrap(), None);
    assert_eq!(repo_find(&Vec::new(), true).err(), Some(GitError::NotARepository));
}
