use ipa::cli::Options;
use ipa::config::Config;
use ipa::error::{IoFailure, IoKind, IpaError, LookupFailure};
use ipa::host::{Invocation, Output, Reply, Request, Stream};
use ipa::pacman::apt::Apt;
use ipa::pacman::archlinux::{Pacman, Progress};
use ipa::pacman::{self, Package, PackageManagement};
use ipa::runner::{run, Ipa};
use ipa::shell::{execute, finish, Shell, ShellSpec};

fn exited(success: bool) -> Reply {
    Reply::Exited(Output {
        success,
        code: Some(if success { 0 } else { 1 }),
        stdout: Vec::new(),
        stderr: Vec::new(),
    })
}

fn query(package: &str) -> Request {
    Request::Spawn(Invocation {
        program: "pacman".to_string(),
        args: vec!["-Qe".to_string(), package.to_string()],
        stdout: Stream::Null,
        stderr: Stream::Null,
    })
}

fn sync(package: &str) -> Request {
    Request::Spawn(Invocation {
        program: "pacman".to_string(),
        args: vec![
            "-S".to_string(),
            package.to_string(),
            "--noconfirm".to_string(),
            "--quiet".to_string(),
        ],
        stdout: Stream::Null,
        stderr: Stream::Inherit,
    })
}

#[test]
fn pacman_test_install_invalid_command() {
    let pacman = Pacman::new();
    let (mut installer, first) = pacman.install(&Package::new("-bla"));
    assert_eq!(first, Progress::Ask(query("-bla")));
    assert_eq!(installer.step(exited(false)), Progress::Ask(sync("-bla")));
    let last = installer.step(exited(false));
    assert_eq!(last, Progress::Finish(Err(pacman::Error::PacmanSync("-bla".to_string()))));
    assert!(matches!(last, Progress::Finish(Err(_))));
    assert!(installer.is_finished());
}

#[test]
fn an_installed_package_is_left_alone() {
    let pacman = Pacman::new();
    assert_eq!(Request::Spawn(pacman.is_installed("fzf")), query("fzf"));
    let (mut installer, first) = pacman.install(&Package::new("fzf"));
    assert_eq!(first, Progress::Ask(query("fzf")));
    assert_eq!(installer.step(exited(true)), Progress::Finish(Ok(())));
    assert!(installer.is_finished());
    assert_eq!(
        installer.step(exited(true)),
        Progress::Finish(Err(pacman::Error::UnexpectedReply))
    );
}

#[test]
fn a_missing_package_is_installed() {
    let (mut installer, _) = Pacman::new().install(&Package::new("tmux"));
    assert_eq!(installer.step(exited(false)), Progress::Ask(sync("tmux")));
    assert!(!installer.is_finished());
    assert_eq!(installer.step(exited(true)), Progress::Finish(Ok(())));
}

#[test]
fn a_package_manager_that_cannot_be_run_is_an_error_of_its_own() {
    let cause = IoFailure { kind: IoKind::NotFound, message: "no pacman".to_string() };
    let (mut installer, _) = Pacman::new().install(&Package::new("tmux"));
    assert_eq!(
        installer.step(Reply::Failed(cause.clone())),
        Progress::Finish(Err(pacman::Error::Io(cause.clone())))
    );
    let (mut installer, _) = Pacman::new().install(&Package::new("tmux"));
    installer.step(exited(false));
    assert_eq!(
        installer.step(Reply::Failed(cause.clone())),
        Progress::Finish(Err(pacman::Error::Io(cause)))
    );
    let (mut installer, _) = Pacman::new().install(&Package::new("tmux"));
    assert_eq!(
        installer.step(Reply::Flag(true)),
        Progress::Finish(Err(pacman::Error::UnexpectedReply))
    );
}

#[test]
fn a_package_without_a_name_spawns_nothing() {
    let (installer, first) = Pacman::new().install(&Package::new(""));
    assert_eq!(first, Progress::Finish(Err(pacman::Error::EmptyName)));
    assert!(installer.is_finished());
}

#[test]
fn apt_takes_every_package_as_installed() {
    assert_eq!(Apt::new().install(&Package::new("anything")), Ok(()));
}

#[test]
fn pacman_errors_read_as_messages() {
    assert_eq!(
        pacman::Error::PacmanSync("fzf".to_string()).message(),
        "Unable to install package fzf"
    );
    assert_eq!(pacman::Error::EmptyName.message(), "Empty package name");
    let cause = IoFailure { kind: IoKind::Other, message: "boom".to_string() };
    assert_eq!(pacman::Error::Io(cause).message(), "boom");
}

#[test]
fn a_line_goes_to_the_shell_interpreter() {
    let command = execute(&Shell::new("echo foo bar").to_spec()).unwrap();
    assert_eq!(
        command,
        Invocation {
            program: "bash".to_string(),
            args: vec!["-c".to_string(), "echo foo bar".to_string()],
            stdout: Stream::Capture,
            stderr: Stream::Capture,
        }
    );
}

#[test]
fn arguments_are_run_directly() {
    let argv = vec!["ls".to_string(), "-l".to_string(), "/tmp".to_string()];
    let command = execute(&ShellSpec::Argv(argv)).unwrap();
    assert_eq!(command.program, "ls");
    assert_eq!(command.args, vec!["-l".to_string(), "/tmp".to_string()]);
    let alone = execute(&ShellSpec::Argv(vec!["ls".to_string()])).unwrap();
    assert_eq!(alone.program, "ls");
    assert!(alone.args.is_empty());
}

#[test]
fn empty_arguments_are_an_empty_command() {
    assert_eq!(execute(&ShellSpec::Argv(vec![])), Err(ipa::shell::Error::EmptyCommand));
    assert_eq!(ipa::shell::Error::EmptyCommand.message(), "Empty command to execute");
}

#[test]
fn a_failed_exit_is_no_error_but_a_failed_spawn_is() {
    let output = Output { success: false, code: Some(127), stdout: vec![], stderr: b"bla".to_vec() };
    let same = Output { success: false, code: Some(127), stdout: vec![], stderr: b"bla".to_vec() };
    assert_eq!(finish(Reply::Exited(output)), Ok(same));
    let cause = IoFailure { kind: IoKind::NotFound, message: "no bash".to_string() };
    assert_eq!(finish(Reply::Failed(cause.clone())), Err(ipa::shell::Error::Io(cause)));
    assert_eq!(finish(Reply::Done), Err(ipa::shell::Error::UnexpectedReply));
}

#[test]
fn options_default_and_given() {
    let options = Options::default();
    assert_eq!(options.config_file, "config.yml");
    assert_eq!(options.only_group, None);
    assert_eq!(options.except_group, None);
    assert_eq!(options.verbose, 0);
    assert!(!options.quiet);

    let options = Options::new(None, None, None, 0, false);
    assert_eq!(options.config_file, "config.yml");
    assert_eq!(options.verbose, 2);

    let options = Options::new(
        Some("other.yml".to_string()),
        Some("dev".to_string()),
        Some("gui".to_string()),
        3,
        true,
    );
    assert_eq!(options.config_file, "other.yml");
    assert_eq!(options.only_group, Some("dev".to_string()));
    assert_eq!(options.except_group, Some("gui".to_string()));
    assert_eq!(options.verbose, 5);
    assert!(options.quiet);

    assert_eq!(Options::new(None, None, None, u64::MAX, false).verbose, usize::MAX);
}

#[test]
fn options_select_the_run() {
    let content = "a:\n  - package: {name: a1}\n  - package: {name: a2}\nb:\n  - package: {name: b1}\n";
    let apt = Apt::new();
    let ipa = Ipa::new(Config::new(content).unwrap(), &apt);

    let all = run(&Options::new(None, None, None, 0, false), &ipa).unwrap();
    assert_eq!(all.len(), 3);
    let only = run(&Options::new(None, Some("b".to_string()), None, 0, false), &ipa).unwrap();
    assert_eq!(only.len(), 1);
    let except = run(&Options::new(None, None, Some("b".to_string()), 0, false), &ipa).unwrap();
    assert_eq!(except.len(), 2);
    let both =
        run(&Options::new(None, Some("a".to_string()), Some("a".to_string()), 0, false), &ipa)
            .unwrap();
    assert_eq!(both.len(), 2);
    let unknown = run(&Options::new(None, Some("c".to_string()), None, 0, false), &ipa);
    assert_eq!(unknown.map(|_| ()), Err(ipa::runner::Error::InvalidGroup));
    assert_eq!(ipa::runner::Error::InvalidGroup.message(), "Invalid group name");
}

#[test]
fn link_errors_read_as_messages() {
    assert_eq!(
        IpaError::SourceNotFound("/s".to_string()).message(),
        "source file of link does not exists: /s"
    );
    assert_eq!(IpaError::UnexpectedReply.message(), "Unexpected reply from the host");
    assert_eq!(
        IpaError::InvalidPath(LookupFailure {
            var_name: "HOME".to_string(),
            cause: "environment variable not found".to_string()
        })
        .message(),
        "Invalid path: error looking key 'HOME' up: environment variable not found"
    );
    assert_eq!(
        IpaError::Io {
            path: "/d/x".to_string(),
            cause: IoFailure { kind: IoKind::PermissionDenied, message: "denied".to_string() }
        }
        .message(),
        "/d/x: denied"
    );
}

#[test]
fn test_multiple_commands() {
    let command = execute(&Shell::new("echo foo bar").to_spec()).unwrap();
    assert_eq!(command.args, vec!["-c".to_string(), "echo foo bar".to_string()]);
    let reply = Reply::Exited(Output {
        success: true,
        code: Some(0),
        stdout: b"foo bar\n".to_vec(),
        stderr: Vec::new(),
    });
    let output = finish(reply).unwrap();
    assert!(output.success);
    assert_eq!("foo bar\n", String::from_utf8_lossy(&output.stdout));
}

#[test]
fn test_single_command() {
    let command = execute(&Shell::new("ls").to_spec()).unwrap();
    assert_eq!(command.program, "bash");
    assert_eq!(command.args, vec!["-c".to_string(), "ls".to_string()]);
    let output = finish(exited(true)).unwrap();
    assert!(output.success);
}

#[test]
fn test_invalid_command() {
    let command = execute(&Shell::new("bla").to_spec()).unwrap();
    assert_eq!(command.args, vec!["-c".to_string(), "bla".to_string()]);
    assert_eq!(false, finish(exited(false)).unwrap().success);
}

#[test]
fn the_query_tells_by_its_exit_whether_a_package_is_installed() {
    assert_eq!(Pacman::installed(exited(true)), Ok(true));
    assert_eq!(Pacman::installed(exited(false)), Ok(false));
    let cause = IoFailure { kind: IoKind::NotFound, message: "no pacman".to_string() };
    assert_eq!(Pacman::installed(Reply::Failed(cause.clone())), Err(pacman::Error::Io(cause)));
    assert_eq!(Pacman::installed(Reply::Done), Err(pacman::Error::UnexpectedReply));
}
