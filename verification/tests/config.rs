use ipa::config::{Config, Error, Fault, Group, Values};
use ipa::error::{IoFailure, IoKind};
use ipa::pacman::Package;
use ipa::shell::Shell;
use ipa::symlink::SymLink;
use ipa::yaml::{shallow, Node, Unread, DEPTH_LIMIT};

#[test]
fn test_serialize_config() {
    let content = "
gui:
  - link:
      dst: foo/bar
      src: foo/baz
    shell:
      command: echo foo
    package:
      name: neovim
  - package:
      name: alacritty

dev:
  - link:
      dst: bar/foo
      src: baz/foo
      relink: true
";
    let config = Config::new(&content).unwrap();
    let values = vec![
        Group::new(
            "gui",
            vec![
                Values::new(
                    Some(Package::new("neovim")),
                    Some(SymLink::new("foo/bar", "foo/baz", false, true)),
                    Some(Shell::new("echo foo")),
                ),
                Values::new(Some(Package::new("alacritty")), None, None),
            ],
        ),
        Group::new(
            "dev",
            vec![Values::new(None, Some(SymLink::new("bar/foo", "baz/foo", true, true)), None)],
        ),
    ];

    let expected_config = Config::from_groups(values).unwrap();
    assert_eq!(expected_config, config);
}

#[test]
fn reads_a_document_into_its_tree() {
    let node = Node::read("a: [1, x, true, ~]\nb: {c: 2.5}").unwrap();
    assert_eq!(
        node,
        Node::Table(vec![
            (
                Node::Text("a".to_string()),
                Node::List(vec![
                    Node::Number("1".to_string()),
                    Node::Text("x".to_string()),
                    Node::Bool(true),
                    Node::Null
                ])
            ),
            (
                Node::Text("b".to_string()),
                Node::Table(vec![(Node::Text("c".to_string()), Node::Number("2.5".to_string()))])
            ),
        ])
    );
}

#[test]
fn text_that_is_no_yaml_gives_the_parsers_message() {
    match Config::new("dev: [unclosed") {
        Err(Error::Yaml(message)) => assert!(!message.is_empty()),
        other => panic!("expected a parse error, got {:?}", other),
    }
    assert!(Node::read("a: b: c").is_err());
}

#[test]
fn groups_keep_the_order_of_the_document() {
    let config = Config::new("b: []\na: []\nc: []\n").unwrap();
    let names: Vec<&str> = config.groups().iter().map(|g| g.name.as_str()).collect();
    assert_eq!(names, vec!["b", "a", "c"]);
    assert_eq!(config.get("a"), Some(&vec![]));
    assert_eq!(config.get("d"), None);
}

#[test]
fn defaults_are_filled_in() {
    let config = Config::new(
        "g:\n  - link: {dst: d, src: s}\n    package: {}\n    shell: {}\n  - link: {dst: d, src: s, create: false, relink: true}\n  - {}\n  - package: ~\n",
    )
    .unwrap();
    let bundles = config.get("g").unwrap();
    assert_eq!(
        bundles[0],
        Values::new(
            Some(Package::new("")),
            Some(SymLink::new("d", "s", false, true)),
            Some(Shell::new(""))
        )
    );
    assert_eq!(bundles[1], Values::new(None, Some(SymLink::new("d", "s", true, false)), None));
    assert_eq!(bundles[2], Values::new(None, None, None));
    assert_eq!(bundles[3], Values::new(None, None, None));
    assert!(ipa::symlink::default_create());
}

#[test]
fn entries_that_the_schema_does_not_know_are_passed_over() {
    let config = Config::new(
        "g:\n  - package: {name: p, version: 3}\n    comment: hello\n    7: seven\n",
    )
    .unwrap();
    assert_eq!(
        config.get("g").unwrap()[0],
        Values::new(Some(Package::new("p")), None, None)
    );
}

fn fault_of(content: &str) -> Fault {
    match Config::new(content) {
        Err(Error::Schema(fault)) => fault,
        other => panic!("expected a schema error, got {:?}", other),
    }
}

#[test]
fn each_departure_from_the_schema_has_its_fault() {
    assert_eq!(fault_of("- a\n- b\n"), Fault::Document);
    assert_eq!(fault_of("just text"), Fault::Document);
    assert_eq!(fault_of("[a]: []\n"), Fault::GroupName);
    assert_eq!(fault_of("~: []\n"), Fault::GroupName);
    assert_eq!(fault_of("g: {}\n"), Fault::Group);
    assert_eq!(fault_of("g:\n"), Fault::Group);
    assert_eq!(fault_of("g: [text]\n"), Fault::Bundle);
    assert_eq!(fault_of("g: [~]\n"), Fault::Bundle);
    assert_eq!(fault_of("g:\n  - package: name\n"), Fault::Package);
    assert_eq!(fault_of("g:\n  - package: {name: [x]}\n"), Fault::Package);
    assert_eq!(fault_of("g:\n  - package: {name: ~}\n"), Fault::Package);
    assert_eq!(fault_of("g:\n  - link: {dst: d}\n"), Fault::Link);
    assert_eq!(fault_of("g:\n  - link: {src: s}\n"), Fault::Link);
    assert_eq!(fault_of("g:\n  - link: {dst: d, src: s, relink: 1}\n"), Fault::Link);
    assert_eq!(fault_of("g:\n  - link: {dst: d, src: s, create: yes please}\n"), Fault::Link);
    assert_eq!(fault_of("g:\n  - link: [d, s]\n"), Fault::Link);
    assert_eq!(fault_of("g:\n  - shell: echo\n"), Fault::Shell);
    assert_eq!(fault_of("g:\n  - shell: {command: [echo]}\n"), Fault::Shell);
}

#[test]
fn the_first_fault_in_document_order_is_reported() {
    assert_eq!(
        fault_of("g:\n  - shell: echo\n    link: {dst: d}\n    package: p\n"),
        Fault::Package
    );
    assert_eq!(fault_of("g:\n  - shell: echo\n    link: {dst: d}\n"), Fault::Link);
    assert_eq!(fault_of("a:\n  - link: 1\nb: 2\n"), Fault::Link);
    assert_eq!(fault_of("a: 2\nb:\n  - link: 1\n"), Fault::Group);
}

#[test]
fn two_groups_of_one_name_are_refused() {
    let twice = Node::Table(vec![
        (Node::Text("g".to_string()), Node::List(vec![])),
        (Node::Text("h".to_string()), Node::List(vec![])),
        (Node::Text("g".to_string()), Node::List(vec![])),
    ]);
    assert_eq!(Config::decode(&twice), Err(Fault::Duplicate));
    assert_eq!(
        Config::from_groups(vec![Group::new("g", vec![]), Group::new("g", vec![])]),
        Err(Error::Schema(Fault::Duplicate))
    );
    let once = Config::from_groups(vec![Group::new("g", vec![]), Group::new("h", vec![])]);
    assert_eq!(once.unwrap().groups().len(), 2);
}

#[test]
fn a_missing_file_has_its_own_error() {
    let missing = IoFailure { kind: IoKind::NotFound, message: "no such file".to_string() };
    assert_eq!(Error::from(missing), Error::NotFound);
    let denied = IoFailure { kind: IoKind::PermissionDenied, message: "denied".to_string() };
    assert_eq!(Error::from(denied.clone()), Error::Io(denied));
}

#[test]
fn config_errors_read_as_messages() {
    assert_eq!(Error::NotFound.message(), "Unable to locate config file");
    assert_eq!(Error::Yaml("bad".to_string()).message(), "Problem with config: bad");
    assert_eq!(Error::Schema(Fault::Link).message(), "Problem with config: invalid link");
    assert_eq!(
        Error::Schema(Fault::Duplicate).message(),
        "Problem with config: two groups have the same name"
    );
    let denied = IoFailure { kind: IoKind::PermissionDenied, message: "denied".to_string() };
    assert_eq!(Error::Io(denied).message(), "denied");
    assert_eq!(Fault::Document.describe(), "the document is not a mapping of groups");
}

#[test]
fn scalars_of_any_kind_are_taken_as_text() {
    let config = Config::new(
        "2024:\n  - package: {name: 7}\n    shell: {command: true}\n    link: {dst: 1.5, src: false}\ntrue: []\n",
    )
    .unwrap();
    let names: Vec<&str> = config.groups().iter().map(|g| g.name.as_str()).collect();
    assert_eq!(names, vec!["2024", "true"]);
    assert_eq!(
        config.get("2024").unwrap()[0],
        Values::new(
            Some(Package::new("7")),
            Some(SymLink::new("1.5", "false", false, true)),
            Some(Shell::new("true"))
        )
    );
    assert_eq!(fault_of("7: []\n'7': []\n"), Fault::Duplicate);
    assert_eq!(fault_of("g:\n  - shell: {command: ~}\n"), Fault::Shell);
}

#[test]
fn a_text_nested_too_deeply_is_not_handed_to_the_parser() {
    let deep = "- ".repeat(20000) + "x";
    assert!(!shallow(&deep));
    assert_eq!(Node::read(&deep), Err(Unread::TooDeep));
    assert_eq!(Config::new(&deep), Err(Error::TooDeep));
    assert_eq!(Error::TooDeep.message(), "Problem with config: nested too deeply");

    let mut stairs = String::new();
    for level in 0..5000 {
        stairs.push_str(&" ".repeat(level));
        stairs.push_str("k:\n");
    }
    assert_eq!(Config::new(&stairs), Err(Error::TooDeep));
}

#[test]
fn the_depth_of_a_text_is_the_weight_of_its_heaviest_line() {
    let at_limit = " ".repeat(DEPTH_LIMIT - 1) + "k: v\n";
    assert!(shallow(&at_limit));
    let over = " ".repeat(DEPTH_LIMIT) + "k: v\n";
    assert!(!shallow(&over));
    let marks = "- ".repeat(DEPTH_LIMIT) + "x";
    assert!(shallow(&marks));
    let more_marks = "- ".repeat(DEPTH_LIMIT + 1) + "x";
    assert!(!shallow(&more_marks));
    let mark_at_end = "- ".repeat(DEPTH_LIMIT) + "-";
    assert!(!shallow(&mark_at_end));
    assert!(shallow("command: rsync -a -v --delete-after -e ssh host:dir/ /backup/x-y-z\n"));
    assert!(shallow(&("x".repeat(100000) + &"\n#-------\n".repeat(1000))));
    assert!(shallow(""));
}

#[test]
fn a_text_as_deep_as_is_read_is_read_without_harm() {
    let marks = "- ".repeat(DEPTH_LIMIT) + "x";
    assert_eq!(Config::new(&marks), Err(Error::Schema(Fault::Document)));

    let mut stairs = String::new();
    for level in 0..DEPTH_LIMIT / 2 {
        stairs.push_str(&" ".repeat(2 * level));
        stairs.push_str("k:\n");
        stairs.push_str(&" ".repeat(2 * level));
        stairs.push_str("- k:\n");
    }
    assert!(shallow(&stairs));
    assert!(Node::read(&stairs).is_ok());

    let flow = "- ".repeat(DEPTH_LIMIT) + &"[".repeat(250) + &"]".repeat(250);
    assert!(shallow(&flow));
    assert!(matches!(Node::read(&flow), Err(Unread::Syntax(_))));
    let open = "[".repeat(10000);
    assert!(matches!(Node::read(&open), Err(Unread::Syntax(_))));
    let pairs = "[a:".repeat(250) + &"]".repeat(250);
    assert!(matches!(Node::read(&pairs), Err(Unread::Syntax(_))));
}
