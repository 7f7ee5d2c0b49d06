use hashwalk::grammar::match_manifest_line;
use hashwalk::grammar::regex_from_opts;
use hashwalk::hashing::Algorithm;
use hashwalk::options::LogLevel;
use hashwalk::options::Mode;
use hashwalk::options::Options;

fn opts_with_algorithm(name: &str) -> Options {
    Options {
        help: false,
        version_info: false,
        program_name: "hashwalk".to_string(),
        algorithm: name.to_string(),
        subdir_mode: false,
        mode: Mode::Filter,
        log_level: LogLevel::Info,
        num_threads: 0,
        folder: ".".to_string(),
    }
}

#[test]
fn round_trip_extracts_digest_and_path() {
    // A digest of the exact expected width and a path without a newline
    // come back unchanged from the rendered manifest line.
    let digest = "c22b5f9178342609428d6f51b2c5af4c0bde6a42";
    let path = "x.txt";
    let line = format!("{}  {}", digest, path);
    let captures = match_manifest_line(&line, Algorithm::Sha1).unwrap();
    assert_eq!(captures.0, digest);
    assert_eq!(captures.1, path);
}

#[test]
fn wrong_width_does_not_match() {
    let line = format!("{}  {}", "abcd", "x.txt");
    assert!(match_manifest_line(&line, Algorithm::Sha1).is_none());
    // A 40-hex digest does not satisfy the 64-hex grammar.
    let line = format!("{}  {}", "c22b5f9178342609428d6f51b2c5af4c0bde6a42", "x.txt");
    assert!(match_manifest_line(&line, Algorithm::Sha256).is_none());
}

#[test]
fn leftmost_match_wins() {
    // 33 hex digits then two spaces: the md5 grammar (32) matches starting
    // at position 1.
    let line = "f49f68a5c8493ec2c0bf489821c21fc3b  some path";
    let captures = match_manifest_line(line, Algorithm::Md5).unwrap();
    assert_eq!(captures.0, "49f68a5c8493ec2c0bf489821c21fc3b");
    assert_eq!(captures.1, "some path");
}

#[test]
fn embedded_newline_spoils_the_path() {
    let line = "49f68a5c8493ec2c0bf489821c21fc3b  a\nb";
    assert!(match_manifest_line(line, Algorithm::Md5).is_none());
}

#[test]
fn separator_must_be_two_literal_spaces() {
    assert!(match_manifest_line("49f68a5c8493ec2c0bf489821c21fc3b\t\tx.txt", Algorithm::Md5)
        .is_none());
    assert!(match_manifest_line("49f68a5c8493ec2c0bf489821c21fc3b \tx.txt", Algorithm::Md5)
        .is_none());
    assert!(match_manifest_line("49f68a5c8493ec2c0bf489821c21fc3b  x.txt", Algorithm::Md5)
        .is_some());
}

#[test]
fn library_grammar_agrees_with_compiled_pattern() {
    let opts = opts_with_algorithm("md5");
    let re = regex_from_opts(&opts).unwrap();
    let cases = [
        "49f68a5c8493ec2c0bf489821c21fc3b  x.txt",
        "f49f68a5c8493ec2c0bf489821c21fc3b  some path",
        "49f68a5c8493ec2c0bf489821c21fc3b  sub/dir/file with spaces",
        "too short  x.txt",
        "49f68a5c8493ec2c0bf489821c21fc3b x.txt",
        "49f68a5c8493ec2c0bf489821c21fc3b\t\tx.txt",
        "49f68a5c8493ec2c0bf489821c21fc3b  d\u{e9}j\u{e0} vu.txt",
    ];
    for line in cases {
        let ours = match_manifest_line(line, Algorithm::Md5);
        let theirs = re.captures(line).map(|c| {
            (c.get(1).unwrap().as_str().to_string(), c.get(2).unwrap().as_str().to_string())
        });
        assert_eq!(ours, theirs, "disagreement on {:?}", line);
    }
}

#[test]
fn unrecognized_algorithm_is_a_configuration_error() {
    let opts = opts_with_algorithm("crc32");
    let err = regex_from_opts(&opts).unwrap_err();
    assert_eq!(err, "Could not recognize hashing algorithm");
    assert!(regex_from_opts(&opts_with_algorithm("sha512")).is_ok());
}
