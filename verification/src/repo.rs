use vstd::prelude::*;

use crate::config::all_digit_chars;
use crate::config::dec_value_chars;
use crate::config::ini_entries;
use crate::config::ini_get;
use crate::config::ini_load;
use crate::config::ini_new;
use crate::config::ini_parse_map;
use crate::config::ini_set;
use crate::config::parse_version;
use crate::errors::GitError;
use vstd::string::StringExecFns;

verus! {

/// The configuration entry that gates opening a repository.
pub open spec fn version_key() -> (Seq<char>, Seq<char>) {
    ("core"@, "repositoryformatversion"@)
}

/// The entries a freshly created repository's configuration holds.
pub open spec fn default_config_map() -> Map<(Seq<char>, Seq<char>), Seq<char>> {
    Map::empty().insert(("core"@, "repositoryformatversion"@), "0"@).insert(
        ("core"@, "filemode"@),
        "false"@,
    ).insert(("core"@, "bare"@), "false"@)
}

/// The view of an optional configuration text.
pub open spec fn cfg_view(c: Option<&str>) -> Option<Seq<char>> {
    match c {
        Some(t) => Some(t@),
        None => None,
    }
}

/// Whether opening succeeds, and with which failure otherwise: a
/// metadata directory must be present unless `force` is set; unless
/// `force` is set, a configuration must be present and must declare
/// `core.repositoryformatversion` equal to 0. A configuration text
/// that is present but unreadable fails even under `force`.
pub open spec fn open_outcome(force: bool, gitdir_is_dir: bool, cfg: Option<Seq<char>>) -> Result<
    (),
    GitError,
> {
    if !force && !gitdir_is_dir {
        Err(GitError::NotARepository)
    } else {
        match cfg {
            Option::None => if force {
                Ok(())
            } else {
                Err(GitError::ConfigMissing)
            },
            Option::Some(text) => match ini_parse_map(text) {
                Option::None => Err(GitError::IoFailure),
                Option::Some(m) => if force {
                    Ok(())
                } else if !m.contains_key(version_key()) {
                    Err(GitError::ConfigMissing)
                } else {
                    let v = m[version_key()];
                    if v.len() == 0 || !all_digit_chars(v) || dec_value_chars(v) > u32::MAX {
                        Err(GitError::IoFailure)
                    } else if dec_value_chars(v) != 0 {
                        Err(GitError::UnsupportedFormatVersion(dec_value_chars(v) as u32))
                    } else {
                        Ok(())
                    }
                },
            },
        }
    }
}

/// A validated repository handle: the working tree, its metadata
/// directory, and a snapshot of the configuration.
pub struct GitRepository {
    pub worktree: String,
    pub gitdir: String,
    pub conf: ini::Ini,
}

/// One file the bootstrap plan asks the caller to write.
pub struct FileWrite {
    pub path: String,
    pub contents: String,
}

/// What creating a repository requires of the filesystem: directories
/// to create (parents as needed), literal files to write, and the
/// default configuration to store at `config_path`.
pub struct CreatePlan {
    pub dirs: Vec<String>,
    pub files: Vec<FileWrite>,
    pub config_path: String,
    pub config: ini::Ini,
}

impl GitRepository {
    /// Open a repository handle over a working tree. The caller
    /// supplies what only the filesystem knows: whether the metadata
    /// directory exists as a directory, and the text of the
    /// configuration file if that file exists.
    pub fn new(path: &str, force: bool, gitdir_is_dir: bool, config_text: Option<&str>) -> (r:
        Result<GitRepository, GitError>)
        ensures
            match r {
                Ok(repo) => {
                    &&& open_outcome(force, gitdir_is_dir, cfg_view(config_text)) == Ok::<
                        (),
                        GitError,
                    >(())
                    &&& repo.worktree@ == path@
                    &&& repo.gitdir@ == path@ + "/.git"@
                    &&& match config_text {
                        Some(t) => ini_parse_map(t@) == Some(ini_entries(repo.conf)),
                        None => ini_entries(repo.conf) =~= Map::empty(),
                    }
                },
                Err(e) => open_outcome(force, gitdir_is_dir, cfg_view(config_text)) == Err::<
                    (),
                    GitError,
                >(e),
            },
    {
        if !(force || gitdir_is_dir) {
            return Err(GitError::NotARepository);
        }
        let conf = match config_text {
            Some(text) => match ini_load(text) {
                Ok(c) => c,
                Err(_) => {
                    return Err(GitError::IoFailure);
                },
            },
            None => {
                if !force {
                    return Err(GitError::ConfigMissing);
                }
                ini_new()
            },
        };
        if !force {
            match ini_get(&conf, "core", "repositoryformatversion") {
                None => {
                    return Err(GitError::ConfigMissing);
                },
                Some(v) => match parse_version(v.as_str()) {
                    None => {
                        return Err(GitError::IoFailure);
                    },
                    Some(vers) => {
                        if vers != 0 {
                            return Err(GitError::UnsupportedFormatVersion(vers));
                        }
                    },
                },
            }
        }
        let gitdir = String::from_str(path).concat("/.git");
        Ok(GitRepository { worktree: String::from_str(path), gitdir, conf })
    }

    /// Validate a creation target and lay out the bootstrap plan: the
    /// target must not exist, or must be an empty directory. The plan
    /// holds the four skeleton directories, the `description` and
    /// `HEAD` files, and the default configuration.
    pub fn repo_create(path: &str, target_exists: bool, is_dir: bool, is_empty: bool) -> (r: Result<
        (GitRepository, CreatePlan),
        GitError,
    >)
        ensures
            match r {
                Ok(rp) => {
                    &&& (!target_exists || (is_dir && is_empty))
                    &&& rp.0.worktree@ == path@
                    &&& rp.0.gitdir@ == path@ + "/.git"@
                    &&& ini_entries(rp.0.conf) =~= Map::empty()
                    &&& rp.1.dirs@.len() == 4
                    &&& rp.1.dirs@[0]@ == rp.0.gitdir@ + "/branches"@
                    &&& rp.1.dirs@[1]@ == rp.0.gitdir@ + "/objects"@
                    &&& rp.1.dirs@[2]@ == rp.0.gitdir@ + "/refs/tags"@
                    &&& rp.1.dirs@[3]@ == rp.0.gitdir@ + "/refs/heads"@
                    &&& rp.1.files@.len() == 2
                    &&& rp.1.files@[0].path@ == rp.0.gitdir@ + "/description"@
                    &&& rp.1.files@[0].contents@
                        == "Unnamed repository; edit this file 'description' to name the repository."@
                    &&& rp.1.files@[1].path@ == rp.0.gitdir@ + "/HEAD"@
                    &&& rp.1.files@[1].contents@ == "ref: refs/heads/master\n"@
                    &&& rp.1.config_path@ == rp.0.gitdir@ + "/config"@
                    &&& ini_entries(rp.1.config) == default_config_map()
                },
                Err(e) => {
                    if target_exists && !is_dir {
                        e == GitError::NotADirectory
                    } else if target_exists && !is_empty {
                        e == GitError::NotEmpty
                    } else {
                        false
                    }
                },
            },
    {
        let repo = match GitRepository::new(path, true, false, None) {
            Ok(repo) => repo,
            Err(_) => {
                proof {
                    assert(false);
                }
                return Err(GitError::IoFailure);
            },
        };
        if target_exists {
            if !is_dir {
                return Err(GitError::NotADirectory);
            }
            if !is_empty {
                return Err(GitError::NotEmpty);
            }
        }
        let mut dirs: Vec<String> = Vec::new();
        dirs.push(repo.gitdir.clone().concat("/branches"));
        dirs.push(repo.gitdir.clone().concat("/objects"));
        dirs.push(repo.gitdir.clone().concat("/refs/tags"));
        dirs.push(repo.gitdir.clone().concat("/refs/heads"));
        let mut files: Vec<FileWrite> = Vec::new();
        files.push(
            FileWrite {
                path: repo.gitdir.clone().concat("/description"),
                contents: String::from_str(
                    "Unnamed repository; edit this file 'description' to name the repository.",
                ),
            },
        );
        files.push(
            FileWrite {
                path: repo.gitdir.clone().concat("/HEAD"),
                contents: String::from_str("ref: refs/heads/master\n"),
            },
        );
        let config_path = repo.gitdir.clone().concat("/config");
        let config = GitRepository::repo_default_config();
        Ok((repo, CreatePlan { dirs, files, config_path, config }))
    }

    /// The configuration a fresh repository is created with:
    /// `repositoryformatversion` 0, `filemode` false, `bare` false.
    pub fn repo_default_config() -> (c: ini::Ini)
        ensures
            ini_entries(c) == default_config_map(),
    {
        let mut c = ini_new();
        ini_set(&mut c, "core", "repositoryformatversion", "0");
        ini_set(&mut c, "core", "filemode", "false");
        ini_set(&mut c, "core", "bare", "false");
        c
    }
}

/// A path under the metadata directory: the base followed by each
/// part, separated by slashes.
pub open spec fn joined(base: Seq<char>, parts: Seq<Seq<char>>) -> Seq<char>
    decreases parts.len(),
{
    if parts.len() == 0 {
        base
    } else {
        joined(base, parts.drop_last()) + seq!['/'] + parts.last()
    }
}

/// Compute a path under the repository's metadata directory.
pub fn repo_path(repo: &GitRepository, paths: &Vec<String>) -> (r: String)
    ensures
        r@ == joined(repo.gitdir@, paths.deep_view()),
{
    let mut p = repo.gitdir.clone();
    let mut i: usize = 0;
    proof {
        assert(paths.deep_view().take(0) =~= Seq::<Seq<char>>::empty());
    }
    while i < paths.len()
        invariant
            0 <= i <= paths@.len(),
            paths.deep_view().len() == paths@.len(),
            p@ == joined(repo.gitdir@, paths.deep_view().take(i as int)),
        decreases paths@.len() - i,
    {
        p.append("/");
        p.append(paths[i].as_str());
        proof {
            reveal_strlit("/");
            assert(("/")@ =~= seq!['/']);
            let dv = paths.deep_view();
            assert(dv.take(i + 1).drop_last() =~= dv.take(i as int));
            assert(dv.take(i + 1).last() == dv[i as int]);
            assert(dv[i as int] == paths@[i as int]@);
            assert(p@ =~= joined(repo.gitdir@, dv.take(i + 1)));
        }
        i = i + 1;
    }
    proof {
        assert(paths.deep_view().take(paths@.len() as int) =~= paths.deep_view());
    }
    p
}

/// Decide how a directory under the metadata directory is obtained:
/// use it if it already is a directory, plan to create it if absent
/// and `mkdir` is set, and fail otherwise. The boolean of the result
/// says whether the caller must create the directory.
pub fn repo_dir(repo: &GitRepository, paths: &Vec<String>, mkdir: bool, dir_exists: bool, is_dir: bool)
    -> (r: Result<(String, bool), GitError>)
    ensures
        dir_exists && is_dir ==> (r matches Ok(p) && p.0@ == joined(
            repo.gitdir@,
            paths.deep_view(),
        ) && p.1 == false),
        dir_exists && !is_dir ==> (r matches Err(e) && e == GitError::NotADirectory),
        !dir_exists && mkdir ==> (r matches Ok(p) && p.0@ == joined(
            repo.gitdir@,
            paths.deep_view(),
        ) && p.1 == true),
        !dir_exists && !mkdir ==> (r matches Err(e) && e == GitError::IoFailure),
{
    let path = repo_path(repo, paths);
    if dir_exists {
        if is_dir {
            Ok((path, false))
        } else {
            Err(GitError::NotADirectory)
        }
    } else {
        if mkdir {
            Ok((path, true))
        } else {
            Err(GitError::IoFailure)
        }
    }
}

/// Compute a file path under the metadata directory, deciding as
/// `repo_dir` does for the file's parent directory. The boolean of
/// the result says whether the caller must create the parent.
pub fn repo_file(
    repo: &GitRepository,
    paths: &Vec<String>,
    mkdir: bool,
    parent_exists: bool,
    parent_is_dir: bool,
) -> (r: Result<(String, bool), GitError>)
    requires
        paths@.len() >= 1,
    ensures
        parent_exists && parent_is_dir ==> (r matches Ok(p) && p.0@ == joined(
            repo.gitdir@,
            paths.deep_view(),
        ) && p.1 == false),
        parent_exists && !parent_is_dir ==> (r matches Err(e) && e == GitError::NotADirectory),
        !parent_exists && mkdir ==> (r matches Ok(p) && p.0@ == joined(
            repo.gitdir@,
            paths.deep_view(),
        ) && p.1 == true),
        !parent_exists && !mkdir ==> (r matches Err(e) && e == GitError::IoFailure),
{
    let mut parent: Vec<String> = Vec::new();
    let mut i: usize = 0;
    while i < paths.len() - 1
        invariant
            paths@.len() >= 1,
            0 <= i <= paths@.len() - 1,
            parent@ =~= paths@.take(i as int),
        decreases paths@.len() - 1 - i,
    {
        parent.push(paths[i].clone());
        proof {
            assert(parent@ =~= paths@.take(i + 1));
        }
        i = i + 1;
    }
    match repo_dir(repo, &parent, mkdir, parent_exists, parent_is_dir) {
        Ok((_, create)) => Ok((repo_path(repo, paths), create)),
        Err(e) => Err(e),
    }
}

/// Upward search for a repository. `probes[k]` says whether the k-th
/// ancestor of the start directory (the start itself for k = 0) holds
/// a metadata directory; the result names the nearest such ancestor.
/// The walk always terminates: it inspects each ancestor once.
pub fn repo_find(probes: &Vec<bool>, required: bool) -> (r: Result<Option<usize>, GitError>)
    ensures
        match r {
            Ok(found) => match found {
                Some(i) => i < probes@.len() && probes@[i as int] && (forall|j: int|
                    0 <= j < i ==> !probes@[j]),
                None => !required && forall|j: int| 0 <= j < probes@.len() ==> !probes@[j],
            },
            Err(e) => e == GitError::NotARepository && required && forall|j: int|
                0 <= j < probes@.len() ==> !probes@[j],
        },
{
    let mut i: usize = 0;
    while i < probes.len()
        invariant
            0 <= i <= probes@.len(),
            forall|j: int| 0 <= j < i ==> !probes@[j],
        decreases probes@.len() - i,
    {
        if probes[i] {
            return Ok(Some(i));
        }
        i = i + 1;
    }
    if required {
        Err(GitError::NotARepository)
    } else {
        Ok(None)
    }
}

} // verus!
