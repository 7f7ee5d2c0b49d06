use hashwalk::options::LogLevel;
use hashwalk::options::Mode;
use hashwalk::options::Options;
use hashwalk::options::prepare_args;

fn strings(parts: &[&str]) -> Vec<String> {
    parts.iter().map(|s| s.to_string()).collect()
}

#[test]
fn defaults_without_arguments() {
    let opts = Options::new(strings(&["hashwalk"]));
    assert!(!opts.help);
    assert!(!opts.version_info);
    assert_eq!(opts.program_name, "hashwalk");
    assert_eq!(opts.algorithm, "sha1");
    assert!(!opts.subdir_mode);
    assert!(matches!(opts.mode, Mode::Filter));
    assert_eq!(opts.log_level, LogLevel::Info);
    assert_eq!(opts.num_threads, 0);
    assert_eq!(opts.folder, ".");
}

#[test]
fn algorithm_is_lowercased() {
    let opts = Options::new(strings(&["hashwalk", "-a", "SHA256"]));
    assert_eq!(opts.algorithm, "sha256");
    let opts = Options::new(strings(&["hashwalk", "--algorithm", "md5"]));
    assert_eq!(opts.algorithm, "md5");
}

#[test]
fn mode_and_subdir_switches() {
    let opts = Options::new(strings(&["hashwalk", "-u", "-s"]));
    assert!(matches!(opts.mode, Mode::Update));
    assert!(opts.subdir_mode);
    let opts = Options::new(strings(&["hashwalk", "--verify"]));
    assert!(matches!(opts.mode, Mode::Verify));
}

#[test]
fn loglevel_selection() {
    let opts = Options::new(strings(&["hashwalk", "--loglevel", "debug"]));
    assert_eq!(opts.log_level, LogLevel::Debug);
    assert!(opts.loglevel_debug());
    assert!(opts.loglevel_info());
    let opts = Options::new(strings(&["hashwalk", "--loglevel", "progress"]));
    assert_eq!(opts.log_level, LogLevel::Progress);
    assert!(opts.loglevel_progress());
    let opts = Options::new(strings(&["hashwalk", "--loglevel", "sideways"]));
    assert_eq!(opts.log_level, LogLevel::Info);
    // An unrecognized value falls back to Info even when it is not ASCII.
    let opts = Options::new(strings(&["hashwalk", "--loglevel", "d\u{e9}bogage"]));
    assert_eq!(opts.log_level, LogLevel::Info);
    let opts = Options::new(strings(&["hashwalk", "--quiet"]));
    assert_eq!(opts.log_level, LogLevel::Quiet);
    assert!(!opts.loglevel_info());
}

#[test]
fn thread_cap_parses_and_trims() {
    let opts = Options::new(strings(&["hashwalk", "-T", "4"]));
    assert_eq!(opts.num_threads, 4);
    let opts = Options::new(strings(&["hashwalk", "--threads", " 12 "]));
    assert_eq!(opts.num_threads, 12);
    let opts = Options::new(strings(&["hashwalk", "-T", "+7"]));
    assert_eq!(opts.num_threads, 7);
    // Zero is the sentinel for "no cap".
    let opts = Options::new(strings(&["hashwalk", "-T", "0"]));
    assert_eq!(opts.num_threads, 0);
}

#[test]
fn folder_argument_and_value_skipping() {
    let opts = Options::new(strings(&["hashwalk", "-u", "somewhere"]));
    assert_eq!(opts.folder, "somewhere");
    let opts = Options::new(strings(&["hashwalk", "-u", "d\u{e9}j\u{e0}"]));
    assert_eq!(opts.folder, "d\u{e9}j\u{e0}");
    // The value after -a is not mistaken for the folder.
    let opts = Options::new(strings(&["hashwalk", "-a", "md5", "target"]));
    assert_eq!(opts.algorithm, "md5");
    assert_eq!(opts.folder, "target");
}

#[test]
fn help_version_and_unknown_switches() {
    let opts = Options::new(strings(&["hashwalk", "-h"]));
    assert!(opts.help);
    let opts = Options::new(strings(&["hashwalk", "-V"]));
    assert!(opts.version_info);
    let opts = Options::new(strings(&["hashwalk", "--bogus"]));
    assert!(opts.help);
}

#[test]
fn bundled_short_switches() {
    let opts = Options::new(strings(&["hashwalk", "-us"]));
    assert!(matches!(opts.mode, Mode::Update));
    assert!(opts.subdir_mode);
}

#[test]
fn equals_sign_splits_switch_and_value() {
    let opts = Options::new(strings(&["hashwalk", "--algo=MD5"]));
    assert_eq!(opts.algorithm, "md5");
    let opts = Options::new(strings(&["hashwalk", "--threads=3"]));
    assert_eq!(opts.num_threads, 3);
}

#[test]
fn prepare_args_expansions() {
    assert_eq!(prepare_args(strings(&["-us"])), strings(&["-u", "-s"]));
    assert_eq!(prepare_args(strings(&["--algo=md5"])), strings(&["--algo", "md5"]));
    assert_eq!(prepare_args(strings(&["--update"])), strings(&["--update"]));
    assert_eq!(prepare_args(strings(&["-u"])), strings(&["-u"]));
    assert_eq!(prepare_args(strings(&["plain"])), strings(&["plain"]));
    // Any dash in a short-enough word triggers the bundle rule.
    assert_eq!(prepare_args(strings(&["a-b"])), strings(&["--", "-b"]));
}
