use cargo_installed::args::{Args, Command};

#[test]
fn args_carry_the_run_options() {
    let args = Args {
        upgrade: true,
        outdated: false,
        no_ignore_local: true,
        ignore: vec!["foo".to_string()],
        verbose: false,
    };
    let Command::Installed(inner) = Command::Installed(args);
    assert!(inner.upgrade);
    assert!(!inner.outdated);
    assert!(inner.no_ignore_local);
    assert_eq!(inner.ignore, vec!["foo".to_string()]);
    assert!(!inner.verbose);
}
