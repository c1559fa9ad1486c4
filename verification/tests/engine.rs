use ipa::config::Config;
use ipa::error::{IoFailure, IoKind, IpaError};
use ipa::host::{Entry, Invocation, Output, Reply, Request, Stream};
use ipa::pacman::{self, Package, PackageManagement};
use ipa::runner::{Error, Ipa, Poll, Run};
use ipa::symlink::{symlink, Outcome, SymLink};
use std::cell::RefCell;
use std::collections::{BTreeMap, BTreeSet};
use std::path::Path;

/// A filesystem and a process table in memory.
#[derive(Default)]
struct Host {
    dirs: BTreeSet<String>,
    files: BTreeSet<String>,
    links: BTreeMap<String, String>,
    spawned: Vec<Invocation>,
    changes: Vec<Request>,
    exit_ok: bool,
}

fn failure(kind: IoKind, message: &str) -> Reply {
    Reply::Failed(IoFailure { kind, message: message.to_string() })
}

fn parent_of(path: &str) -> Option<String> {
    Path::new(path).parent().map(|p| p.to_string_lossy().into_owned())
}

impl Host {
    fn new() -> Host {
        let mut host = Host::default();
        host.dirs.insert("/".to_string());
        host.exit_ok = true;
        host
    }

    fn dir(mut self, path: &str) -> Host {
        self.dirs.insert(path.to_string());
        self
    }

    fn file(mut self, path: &str) -> Host {
        self.files.insert(path.to_string());
        self
    }

    fn present(&self, path: &str) -> bool {
        self.dirs.contains(path) || self.files.contains(path) || self.links.contains_key(path)
    }

    fn is_there(&self, path: &str) -> bool {
        match self.links.get(path) {
            Some(target) => self.is_there(target),
            None => self.dirs.contains(path) || self.files.contains(path),
        }
    }

    fn is_dir(&self, path: &str) -> bool {
        match self.links.get(path) {
            Some(target) => self.is_dir(target),
            None => self.dirs.contains(path),
        }
    }

    fn is_symlink(&self, path: &str) -> bool {
        self.links.contains_key(path)
    }

    fn children(&self, dir: &str) -> Vec<Entry> {
        let mut paths: Vec<&String> = self
            .dirs
            .iter()
            .chain(self.files.iter())
            .chain(self.links.keys())
            .filter(|p| p.as_str() != dir && parent_of(p).as_deref() == Some(dir))
            .collect();
        paths.sort();
        paths
            .into_iter()
            .map(|p| Entry {
                path: p.clone(),
                name: Path::new(p).file_name().map(|n| n.to_string_lossy().into_owned()),
            })
            .collect()
    }

    fn perform(&mut self, request: &Request) -> Reply {
        match request {
            Request::Exists(path) => return Reply::Flag(self.is_there(path)),
            Request::Present(path) => return Reply::Flag(self.present(path)),
            Request::IsDir(path) => return Reply::Flag(self.is_dir(path)),
            Request::ReadDir(path) => {
                if !self.is_dir(path) {
                    return failure(IoKind::NotFound, "not a directory");
                }
                return Reply::Entries(self.children(path));
            }
            Request::Spawn(command) => {
                self.spawned.push(Invocation {
                    program: command.program.clone(),
                    args: command.args.clone(),
                    stdout: command.stdout,
                    stderr: command.stderr,
                });
                return Reply::Exited(Output {
                    success: self.exit_ok,
                    code: Some(if self.exit_ok { 0 } else { 1 }),
                    stdout: Vec::new(),
                    stderr: Vec::new(),
                });
            }
            _ => {}
        }
        let reply = match request {
            Request::RemoveFile(path) => {
                if self.files.remove(path) || self.links.remove(path).is_some() {
                    Reply::Done
                } else if self.dirs.contains(path) {
                    failure(IoKind::Other, "is a directory")
                } else {
                    failure(IoKind::NotFound, "no such file")
                }
            }
            Request::CreateDirAll(path) => {
                let mut at = Some(path.clone());
                while let Some(dir) = at {
                    if dir.is_empty() {
                        break;
                    }
                    at = parent_of(&dir);
                    self.dirs.insert(dir);
                }
                Reply::Done
            }
            Request::CreateDir(path) => {
                if self.present(path) {
                    failure(IoKind::AlreadyExists, "exists")
                } else if !parent_of(path).map_or(false, |p| self.is_dir(&p)) {
                    failure(IoKind::NotFound, "no parent")
                } else {
                    self.dirs.insert(path.clone());
                    Reply::Done
                }
            }
            Request::Symlink { src, dst } => {
                if self.present(dst) {
                    failure(IoKind::AlreadyExists, "exists")
                } else if !parent_of(dst).map_or(false, |p| self.is_dir(&p)) {
                    failure(IoKind::NotFound, "no parent")
                } else {
                    self.links.insert(dst.clone(), src.clone());
                    Reply::Done
                }
            }
            _ => unreachable!(),
        };
        if reply == Reply::Done {
            self.changes.push(copy(request));
        }
        reply
    }
}

fn copy(request: &Request) -> Request {
    match request {
        Request::Exists(p) => Request::Exists(p.clone()),
        Request::Present(p) => Request::Present(p.clone()),
        Request::IsDir(p) => Request::IsDir(p.clone()),
        Request::ReadDir(p) => Request::ReadDir(p.clone()),
        Request::RemoveFile(p) => Request::RemoveFile(p.clone()),
        Request::CreateDirAll(p) => Request::CreateDirAll(p.clone()),
        Request::CreateDir(p) => Request::CreateDir(p.clone()),
        Request::Symlink { src, dst } => Request::Symlink { src: src.clone(), dst: dst.clone() },
        Request::Spawn(c) => Request::Spawn(Invocation {
            program: c.program.clone(),
            args: c.args.clone(),
            stdout: c.stdout,
            stderr: c.stderr,
        }),
    }
}

/// Makes `link` on `host`.
fn link_on(host: &mut Host, link: &SymLink) -> Result<(), IpaError> {
    let (mut linker, mut request) = symlink(link)?;
    loop {
        let reply = host.perform(&request);
        match linker.step(reply) {
            Outcome::Ask(next) => request = next,
            Outcome::Finish(result) => {
                assert!(linker.is_finished());
                return result;
            }
        }
    }
}

/// Carries `run` out on `host`.
fn apply<P: PackageManagement>(ipa: &Ipa<P>, mut run: Run, host: &mut Host) -> Result<(), Error> {
    let mut poll = ipa.begin(&mut run);
    loop {
        match poll {
            Poll::Finish(result) => {
                assert!(run.is_finished());
                return result;
            }
            Poll::Ask(request) => {
                let reply = host.perform(&request);
                poll = ipa.resume(&mut run, reply);
            }
        }
    }
}

struct FakePacman {
    installed_packages: RefCell<Vec<String>>,
}

impl FakePacman {
    fn new() -> Self {
        FakePacman { installed_packages: RefCell::new(vec![]) }
    }
}

impl pacman::PackageManagement for FakePacman {
    fn install(&self, package: &Package) -> Result<(), pacman::Error> {
        self.installed_packages.borrow_mut().push(String::from(&package.name));
        Ok(())
    }
}

struct BrokenPacman;

impl pacman::PackageManagement for BrokenPacman {
    fn install(&self, package: &Package) -> Result<(), pacman::Error> {
        Err(pacman::Error::PacmanSync(package.name.clone()))
    }
}

#[test]
fn test_setup_all_packages() {
    let content = "
dev:
  - package:
      name: neovim

gui:
  - package:
      name: alacritty
            ";

    let config = Config::new(&content).unwrap();

    let pacman = FakePacman::new();
    let ipa = Ipa::new(config, &pacman);

    apply(&ipa, ipa.setup(), &mut Host::new()).unwrap();

    assert_eq!(2, pacman.installed_packages.borrow().len());
}

#[test]
fn test_setup_group_packages() {
    let content = "
dev:
  - package:
      name: neovim

gui:
  - package:
      name: alacritty
            ";

    let config = Config::new(&content).unwrap();

    let pacman = FakePacman::new();
    let ipa = Ipa::new(config, &pacman);

    apply(&ipa, ipa.setup_group("dev").unwrap(), &mut Host::new()).unwrap();

    assert_eq!(1, pacman.installed_packages.borrow().len());
}

#[test]
fn test_setup_except_packages() {
    let content = "
dev:
  - package:
      name: neovim
  - package:
      name: tmux

gui:
  - package:
      name: alacritty
            ";

    let config = Config::new(&content).unwrap();

    let pacman = FakePacman::new();
    let ipa = Ipa::new(config, &pacman);

    apply(&ipa, ipa.setup_except_group("dev"), &mut Host::new()).unwrap();

    assert_eq!(1, pacman.installed_packages.borrow().len());
}

#[test]
fn test_link() {
    let mut host = Host::new().dir("/src").file("/src/config").dir("/dst");

    let content = format!(
        "
dev:
    - link:
        dst: {:?}
        src: {:?}
",
        "/dst", "/src",
    );

    let config = Config::new(&content).unwrap();

    let pacman = FakePacman::new();
    let ipa = Ipa::new(config, &pacman);

    apply(&ipa, ipa.setup(), &mut host).unwrap();

    let dst_config = "/dst/config";

    assert!(host.is_there(dst_config), "Assert that {:?} is created", dst_config);
}

#[test]
fn test_create_dst_subdirectory() {
    let mut host = Host::new().dir("/s").file("/s/src").dir("/d");

    let link = SymLink::new("/d/dst/file", "/s/src", true, true);

    assert!(link_on(&mut host, &link).is_ok());
    assert!(host.is_dir("/d/dst"));
    assert_eq!(host.links.get("/d/dst/file"), Some(&"/s/src".to_string()));
}

#[test]
fn test_src_file_not_exist() {
    let link = SymLink::new("/tmp/src-invalid", "/tmp/dst-invalid", false, false);
    assert!(link_on(&mut Host::new(), &link).is_err());
}

#[test]
fn test_link_dir() {
    let mut host = Host::new().dir("/s").file("/s/src").dir("/d");

    let link = SymLink::new("/d", "/s", true, false);

    link_on(&mut host, &link).unwrap();

    let dst_config = "/d/src";

    assert!(host.is_there(dst_config), "Assert that {:?} is created", dst_config);
}

#[test]
fn test_relink_links() {
    let mut host = Host::new().dir("/s").file("/s/src").dir("/d").file("/d/dst");

    let link = SymLink::new("/d/dst", "/s/src", true, false);

    link_on(&mut host, &link).unwrap();

    let is_symlink = host.is_symlink("/d/dst");

    assert_eq!(true, is_symlink);
}

#[test]
fn test_not_relink_links() {
    let mut host = Host::new().dir("/s").file("/s/src").dir("/d").file("/d/dst");

    let link = SymLink::new("/d/dst", "/s/src", false, false);

    link_on(&mut host, &link).unwrap();

    let is_symlink = host.is_symlink("/d/dst");

    assert_eq!(false, is_symlink);
}

#[test]
fn missing_source_is_its_own_error_and_creates_nothing() {
    let mut host = Host::new().dir("/d");
    let link = SymLink::new("/d/x", "/nowhere", true, true);
    assert_eq!(
        link_on(&mut host, &link),
        Err(IpaError::SourceNotFound("/nowhere".to_string()))
    );
    assert!(host.changes.is_empty());
}

#[test]
fn relink_replaces_a_file_by_a_link_to_the_source() {
    let mut host = Host::new().dir("/s").file("/s/src").dir("/d").file("/d/dst");
    link_on(&mut host, &SymLink::new("/d/dst", "/s/src", true, true)).unwrap();
    assert_eq!(
        host.changes,
        vec![
            Request::RemoveFile("/d/dst".to_string()),
            Request::Symlink { src: "/s/src".to_string(), dst: "/d/dst".to_string() },
        ]
    );
    assert_eq!(host.links.get("/d/dst"), Some(&"/s/src".to_string()));
    assert!(!host.files.contains("/d/dst"));
}

#[test]
fn relink_leaves_a_directory_where_it_is() {
    let mut host = Host::new().dir("/s").file("/s/src").dir("/d").dir("/d/dst");
    let result = link_on(&mut host, &SymLink::new("/d/dst", "/s/src", true, true));
    assert_eq!(
        result,
        Err(IpaError::Io {
            path: "/d/dst".to_string(),
            cause: IoFailure { kind: IoKind::AlreadyExists, message: "exists".to_string() },
        })
    );
    assert!(host.changes.is_empty());
    assert!(host.is_dir("/d/dst"));
}

#[test]
fn second_call_without_relink_changes_nothing() {
    let mut host = Host::new()
        .dir("/s")
        .file("/s/a.txt")
        .dir("/s/subdir")
        .file("/s/subdir/b.txt")
        .dir("/d");
    let link = SymLink::new("/d", "/s", false, true);
    link_on(&mut host, &link).unwrap();
    let links = host.links.clone();
    let dirs = host.dirs.clone();
    host.changes.clear();
    link_on(&mut host, &link).unwrap();
    assert!(host.changes.is_empty());
    assert_eq!(host.links, links);
    assert_eq!(host.dirs, dirs);

    let mut host = Host::new().file("/src").dir("/d");
    let link = SymLink::new("/d/dst", "/src", false, true);
    link_on(&mut host, &link).unwrap();
    assert_eq!(host.changes.len(), 1);
    host.changes.clear();
    link_on(&mut host, &link).unwrap();
    assert!(host.changes.is_empty());
}

#[test]
fn directory_is_mirrored_with_real_directories_and_linked_files() {
    let mut host = Host::new()
        .dir("/s")
        .file("/s/a.txt")
        .dir("/s/subdir")
        .file("/s/subdir/b.txt")
        .dir("/d");
    link_on(&mut host, &SymLink::new("/d", "/s", false, true)).unwrap();
    assert_eq!(host.links.get("/d/a.txt"), Some(&"/s/a.txt".to_string()));
    assert!(host.dirs.contains("/d/subdir"));
    assert!(!host.is_symlink("/d/subdir"));
    assert_eq!(host.links.get("/d/subdir/b.txt"), Some(&"/s/subdir/b.txt".to_string()));
    assert_eq!(host.links.len(), 2);
    assert_eq!(
        host.changes,
        vec![
            Request::Symlink { src: "/s/a.txt".to_string(), dst: "/d/a.txt".to_string() },
            Request::CreateDir("/d/subdir".to_string()),
            Request::Symlink {
                src: "/s/subdir/b.txt".to_string(),
                dst: "/d/subdir/b.txt".to_string()
            },
        ]
    );
}

#[test]
fn children_are_taken_in_listed_order_and_the_directory_itself_is_skipped() {
    let (mut linker, first) = symlink(&SymLink::new("/d", "/s", false, false)).unwrap();
    assert_eq!(first, Request::Exists("/s".to_string()));
    assert_eq!(linker.step(Reply::Flag(true)), Outcome::Ask(Request::IsDir("/s".to_string())));
    assert_eq!(linker.step(Reply::Flag(true)), Outcome::Ask(Request::IsDir("/d".to_string())));
    assert_eq!(linker.step(Reply::Flag(true)), Outcome::Ask(Request::ReadDir("/s".to_string())));
    let listed = vec![
        Entry { path: "/s".to_string(), name: Some("s".to_string()) },
        Entry { path: "/s/one".to_string(), name: Some("one".to_string()) },
        Entry { path: "/s/..".to_string(), name: None },
        Entry { path: "/s/two".to_string(), name: Some("two".to_string()) },
    ];
    assert_eq!(
        linker.step(Reply::Entries(listed)),
        Outcome::Ask(Request::IsDir("/s/one".to_string()))
    );
    assert_eq!(
        linker.step(Reply::Flag(false)),
        Outcome::Ask(Request::Present("/d/one".to_string()))
    );
    assert_eq!(
        linker.step(Reply::Flag(true)),
        Outcome::Ask(Request::IsDir("/s/..".to_string()))
    );
    assert_eq!(
        linker.step(Reply::Flag(false)),
        Outcome::Ask(Request::IsDir("/s/two".to_string()))
    );
    assert_eq!(
        linker.step(Reply::Flag(true)),
        Outcome::Ask(Request::Exists("/d/two".to_string()))
    );
    assert_eq!(
        linker.step(Reply::Flag(false)),
        Outcome::Ask(Request::CreateDir("/d/two".to_string()))
    );
    assert_eq!(
        linker.step(Reply::Done),
        Outcome::Ask(Request::ReadDir("/s/two".to_string()))
    );
    assert_eq!(linker.step(Reply::Entries(vec![])), Outcome::Finish(Ok(())));
    assert!(linker.is_finished());
    assert_eq!(linker.step(Reply::Done), Outcome::Finish(Err(IpaError::UnexpectedReply)));
}

#[test]
fn parents_are_created_only_when_asked_for_and_missing() {
    let (mut linker, _) = symlink(&SymLink::new("/a/b/c", "/src", false, true)).unwrap();
    linker.step(Reply::Flag(true));
    assert_eq!(
        linker.step(Reply::Flag(false)),
        Outcome::Ask(Request::Present("/a/b/c".to_string()))
    );
    assert_eq!(
        linker.step(Reply::Flag(false)),
        Outcome::Ask(Request::Exists("/a/b".to_string()))
    );
    assert_eq!(
        linker.step(Reply::Flag(false)),
        Outcome::Ask(Request::CreateDirAll("/a/b".to_string()))
    );
    assert_eq!(
        linker.step(Reply::Done),
        Outcome::Ask(Request::Symlink { src: "/src".to_string(), dst: "/a/b/c".to_string() })
    );
    assert_eq!(linker.step(Reply::Done), Outcome::Finish(Ok(())));

    let (mut linker, _) = symlink(&SymLink::new("/a/b/c", "/src", false, false)).unwrap();
    linker.step(Reply::Flag(true));
    linker.step(Reply::Flag(false));
    assert_eq!(
        linker.step(Reply::Flag(false)),
        Outcome::Ask(Request::Symlink { src: "/src".to_string(), dst: "/a/b/c".to_string() })
    );

    let (mut linker, _) = symlink(&SymLink::new("/", "/src", false, true)).unwrap();
    linker.step(Reply::Flag(true));
    linker.step(Reply::Flag(false));
    assert_eq!(
        linker.step(Reply::Flag(false)),
        Outcome::Ask(Request::Symlink { src: "/src".to_string(), dst: "/".to_string() })
    );
}

#[test]
fn a_failed_operation_is_tagged_with_its_path() {
    let (mut linker, _) = symlink(&SymLink::new("/d/x", "/src", false, false)).unwrap();
    linker.step(Reply::Flag(true));
    linker.step(Reply::Flag(false));
    linker.step(Reply::Flag(false));
    let cause = IoFailure { kind: IoKind::PermissionDenied, message: "denied".to_string() };
    assert_eq!(
        linker.step(Reply::Failed(cause.clone())),
        Outcome::Finish(Err(IpaError::Io { path: "/d/x".to_string(), cause }))
    );

    let (mut linker, _) = symlink(&SymLink::new("/d", "/s", false, false)).unwrap();
    linker.step(Reply::Flag(true));
    linker.step(Reply::Flag(true));
    linker.step(Reply::Flag(true));
    let cause = IoFailure { kind: IoKind::Other, message: "unreadable".to_string() };
    assert_eq!(
        linker.step(Reply::Failed(cause.clone())),
        Outcome::Finish(Err(IpaError::Io { path: "/s".to_string(), cause }))
    );
}

#[test]
fn paths_are_expanded_before_the_first_question() {
    let link = SymLink::new("/d/x", "${IPA_NO_SUCH_VARIABLE_SET:-fallback}/src", false, false);
    let (_, first) = symlink(&link).unwrap();
    assert_eq!(first, Request::Exists("fallback/src".to_string()));

    let link = SymLink::new("${IPA_NO_SUCH_VARIABLE_SET}/x", "/src", false, false);
    match symlink(&link) {
        Err(IpaError::InvalidPath(failure)) => {
            assert_eq!(failure.var_name, "IPA_NO_SUCH_VARIABLE_SET");
        }
        other => panic!("expected a failed lookup, got {:?}", other.map(|_| ())),
    }
}

#[test]
fn unknown_group_is_an_error_before_anything_is_done() {
    let config = Config::new("dev:\n  - package:\n      name: neovim\n").unwrap();
    let pacman = FakePacman::new();
    let ipa = Ipa::new(config, &pacman);
    match ipa.setup_group("gui") {
        Err(error) => assert_eq!(error, Error::InvalidGroup),
        Ok(_) => panic!("there is no such group"),
    }
    assert_eq!(0, pacman.installed_packages.borrow().len());
}

#[test]
fn except_one_of_two_groups_is_only_the_other() {
    let content = "
A:
  - package:
      name: a1
    shell:
      command: echo a
B:
  - package:
      name: b1
  - link:
      dst: /d/x
      src: /s/x
    shell:
      command: echo b
";
    let first = FakePacman::new();
    let ipa = Ipa::new(Config::new(content).unwrap(), &first);
    let mut host_one = Host::new().dir("/s").file("/s/x").dir("/d");
    apply(&ipa, ipa.setup_except_group("A"), &mut host_one).unwrap();

    let second = FakePacman::new();
    let ipa = Ipa::new(Config::new(content).unwrap(), &second);
    let mut host_two = Host::new().dir("/s").file("/s/x").dir("/d");
    apply(&ipa, ipa.setup_group("B").unwrap(), &mut host_two).unwrap();

    assert_eq!(*first.installed_packages.borrow(), vec!["b1".to_string()]);
    assert_eq!(*first.installed_packages.borrow(), *second.installed_packages.borrow());
    assert_eq!(host_one.changes, host_two.changes);
    assert_eq!(host_one.spawned, host_two.spawned);
    assert_eq!(host_one.spawned.len(), 1);
}

#[test]
fn except_an_unknown_group_applies_all() {
    let content = "
dev:
  - package:
      name: neovim
gui:
  - package:
      name: alacritty
";
    let pacman = FakePacman::new();
    let ipa = Ipa::new(Config::new(content).unwrap(), &pacman);
    apply(&ipa, ipa.setup_except_group("none"), &mut Host::new()).unwrap();
    assert_eq!(
        *pacman.installed_packages.borrow(),
        vec!["neovim".to_string(), "alacritty".to_string()]
    );
}

#[test]
fn a_bundle_applies_package_then_link_then_shell() {
    let content = "
dev:
  - shell:
      command: echo done
    link:
      dst: /d/x
      src: /s/x
    package:
      name: pkg
";
    let pacman = FakePacman::new();
    let ipa = Ipa::new(Config::new(content).unwrap(), &pacman);
    let mut host = Host::new().dir("/s").file("/s/x").dir("/d");
    let mut run = ipa.setup();
    assert_eq!(run.len(), 3);
    assert_eq!(run.done(), 0);

    let poll = ipa.begin(&mut run);
    assert_eq!(*pacman.installed_packages.borrow(), vec!["pkg".to_string()]);
    assert_eq!(run.done(), 1);
    assert_eq!(poll, Poll::Ask(Request::Exists("/s/x".to_string())));
    assert!(host.spawned.is_empty());

    let mut poll = poll;
    while let Poll::Ask(request) = poll {
        if let Request::Spawn(_) = request {
            assert_eq!(run.done(), 2);
            assert!(host.is_symlink("/d/x"));
        }
        let reply = host.perform(&request);
        poll = ipa.resume(&mut run, reply);
    }
    assert_eq!(poll, Poll::Finish(Ok(())));
    assert_eq!(run.done(), 3);
    assert_eq!(
        host.spawned,
        vec![Invocation {
            program: "bash".to_string(),
            args: vec!["-c".to_string(), "echo done".to_string()],
            stdout: Stream::Capture,
            stderr: Stream::Capture,
        }]
    );
}

#[test]
fn empty_package_name_fails_before_anything_is_installed() {
    let content = "
dev:
  - package:
      name: first
  - package: {}
    shell:
      command: echo never
  - package:
      name: last
";
    let pacman = FakePacman::new();
    let ipa = Ipa::new(Config::new(content).unwrap(), &pacman);
    let mut host = Host::new();
    let result = apply(&ipa, ipa.setup(), &mut host);
    assert_eq!(result, Err(Error::Pacman(pacman::Error::EmptyName)));
    assert_eq!(*pacman.installed_packages.borrow(), vec!["first".to_string()]);
    assert!(host.spawned.is_empty());
}

#[test]
fn the_first_failure_ends_the_run_and_keeps_its_origin() {
    let content = "
dev:
  - package:
      name: broken
    shell:
      command: echo never
";
    let ipa = Ipa::new(Config::new(content).unwrap(), &BrokenPacman);
    let mut host = Host::new();
    assert_eq!(
        apply(&ipa, ipa.setup(), &mut host),
        Err(Error::Pacman(pacman::Error::PacmanSync("broken".to_string())))
    );
    assert!(host.spawned.is_empty());

    let content = "
dev:
  - link:
      dst: /d/x
      src: /missing
  - package:
      name: never
";
    let pacman = FakePacman::new();
    let ipa = Ipa::new(Config::new(content).unwrap(), &pacman);
    let error = apply(&ipa, ipa.setup(), &mut Host::new().dir("/d")).unwrap_err();
    assert_eq!(error, Error::SymLink(IpaError::SourceNotFound("/missing".to_string())));
    assert_eq!(error.message(), "source file of link does not exists: /missing");
    assert!(pacman.installed_packages.borrow().is_empty());

    let content = "
dev:
  - shell:
      command: 'true'
  - package:
      name: never
";
    let pacman = FakePacman::new();
    let ipa = Ipa::new(Config::new(content).unwrap(), &pacman);
    let mut run = ipa.setup();
    assert!(matches!(ipa.begin(&mut run), Poll::Ask(Request::Spawn(_))));
    let cause = IoFailure { kind: IoKind::NotFound, message: "no bash".to_string() };
    assert_eq!(
        ipa.resume(&mut run, Reply::Failed(cause.clone())),
        Poll::Finish(Err(Error::Shell(ipa::shell::Error::Io(cause))))
    );
    assert!(pacman.installed_packages.borrow().is_empty());
    assert_eq!(
        ipa.resume(&mut run, Reply::Done),
        Poll::Finish(Err(Error::UnexpectedReply))
    );
}

#[test]
fn a_command_that_exits_with_failure_does_not_end_the_run() {
    let content = "
dev:
  - shell:
      command: 'false'
  - package:
      name: after
";
    let pacman = FakePacman::new();
    let ipa = Ipa::new(Config::new(content).unwrap(), &pacman);
    let mut host = Host::new();
    host.exit_ok = false;
    apply(&ipa, ipa.setup(), &mut host).unwrap();
    assert_eq!(*pacman.installed_packages.borrow(), vec!["after".to_string()]);
}

#[test]
fn end_to_end_one_install_and_one_link() {
    let content = "
dev:
  - package:
      name: pkgX
  - link:
      src: /tmp/s
      dst: /tmp/d
";
    let pacman = FakePacman::new();
    let ipa = Ipa::new(Config::new(content).unwrap(), &pacman);
    let mut host = Host::new().dir("/tmp").file("/tmp/s");
    apply(&ipa, ipa.setup_group("dev").unwrap(), &mut host).unwrap();
    assert_eq!(*pacman.installed_packages.borrow(), vec!["pkgX".to_string()]);
    assert_eq!(host.links.get("/tmp/d"), Some(&"/tmp/s".to_string()));
    assert_eq!(host.links.len(), 1);
}

#[test]
fn a_path_that_cannot_be_expanded_is_an_invalid_path() {
    for path in ["$\u{e9}/x", "~/$\u{fc}ber/x", "/a/$\u{20ac}"] {
        match symlink(&SymLink::new("/d/x", path, false, false)) {
            Err(IpaError::InvalidPath(failure)) => assert_eq!(failure.var_name, path),
            other => panic!("expected an invalid path, got {:?}", other.map(|_| ())),
        }
        match symlink(&SymLink::new(path, "/src", false, false)) {
            Err(IpaError::InvalidPath(failure)) => assert_eq!(failure.var_name, path),
            other => panic!("expected an invalid path, got {:?}", other.map(|_| ())),
        }
    }
    let (_, first) = symlink(&SymLink::new("/d/x", "/s/\u{e9}$", false, false)).unwrap();
    assert_eq!(first, Request::Exists("/s/\u{e9}$".to_string()));
    let link = SymLink::new("/d/x", "/s/${IPA_NO_SUCH_VARIABLE_SET:-\u{e9}}", false, false);
    let (_, first) = symlink(&link).unwrap();
    assert_eq!(first, Request::Exists("/s/\u{e9}".to_string()));
}

#[test]
fn a_link_that_leads_nowhere_is_something_at_the_destination() {
    let mut host = Host::new().file("/src").dir("/d");
    host.links.insert("/d/dst".to_string(), "/gone".to_string());
    link_on(&mut host, &SymLink::new("/d/dst", "/src", false, true)).unwrap();
    assert!(host.changes.is_empty());
    assert_eq!(host.links.get("/d/dst"), Some(&"/gone".to_string()));

    link_on(&mut host, &SymLink::new("/d/dst", "/src", true, true)).unwrap();
    assert_eq!(host.links.get("/d/dst"), Some(&"/src".to_string()));
}

#[test]
fn a_second_call_over_a_link_that_leads_nowhere_changes_nothing() {
    let mut host = Host::new().dir("/s").file("/s/a").dir("/d");
    host.links.insert("/s/lost".to_string(), "/gone".to_string());
    let link = SymLink::new("/d", "/s", false, true);
    link_on(&mut host, &link).unwrap();
    assert_eq!(host.links.get("/d/lost"), Some(&"/s/lost".to_string()));
    assert_eq!(host.links.get("/d/a"), Some(&"/s/a".to_string()));
    host.changes.clear();
    link_on(&mut host, &link).unwrap();
    assert!(host.changes.is_empty());
}
