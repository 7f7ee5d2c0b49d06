use hashwalk::walker::DirWalker;
use hashwalk::walker::StreamStep;
use hashwalk::walker::WalkStep;

fn strings(parts: &[&str]) -> Vec<String> {
    parts.iter().map(|s| s.to_string()).collect()
}

/// Drives a traversal over an in-memory tree: each directory name maps to
/// its (files, subdirectories). Returns every file path pulled out.
fn drain(walker: &mut DirWalker, tree: &[(&str, (&[&str], &[&str]))]) -> Vec<String> {
    let mut seen = Vec::new();
    loop {
        match walker.next_step() {
            WalkStep::File(p) => seen.push(p),
            WalkStep::ScanNeeded(d) => {
                let entry = tree.iter().find(|(name, _)| *name == d);
                match entry {
                    Some((_, (files, dirs))) => {
                        walker.add_scan_results(strings(files), strings(dirs));
                    }
                    // An unreadable directory yields nothing further.
                    None => {}
                }
            }
            WalkStep::Done => break,
        }
    }
    seen
}

#[test]
fn visits_every_file_exactly_once() {
    let tree: &[(&str, (&[&str], &[&str]))] = &[
        ("./root", (&["./root/a.txt", "./root/b.txt"], &["./root/sub"])),
        ("./root/sub", (&["./root/sub/c.txt"], &[])),
    ];
    let mut walker = DirWalker::new(&"./root".to_string(), false);
    let mut seen = drain(&mut walker, tree);
    seen.sort();
    assert_eq!(seen, strings(&["./root/a.txt", "./root/b.txt", "./root/sub/c.txt"]));
    // Every returned path stays under the root.
    for p in &seen {
        assert!(p.starts_with("./root"));
    }
    // The traversal is exhausted for good.
    assert!(matches!(walker.next_step(), WalkStep::Done));
}

#[test]
fn unreadable_directory_truncates_its_subtree() {
    let tree: &[(&str, (&[&str], &[&str]))] = &[
        ("./root", (&["./root/a.txt"], &["./root/locked"])),
        // "./root/locked" is missing: its scan fails, nothing is added.
    ];
    let mut walker = DirWalker::new(&"./root".to_string(), false);
    let seen = drain(&mut walker, tree);
    assert_eq!(seen, strings(&["./root/a.txt"]));
}

#[test]
fn rebasing_strips_the_first_directory() {
    // Root containing sub1/a.txt, with rebasing enabled: the path comes
    // out relative to sub1.
    let tree: &[(&str, (&[&str], &[&str]))] = &[
        (".", (&[], &["./sub1"])),
        ("./sub1", (&["./sub1/a.txt"], &[])),
    ];
    let mut walker = DirWalker::new(&".".to_string(), true);
    let seen = drain(&mut walker, tree);
    assert_eq!(seen, strings(&["./a.txt"]));
    let deeper = &mut DirWalker::new(&"./x".to_string(), true);
    deeper.add_scan_results(strings(&["./x/y/z.txt"]), strings(&[]));
    let seen = drain(deeper, &[]);
    assert_eq!(seen, strings(&["./y/z.txt"]));
}

#[test]
fn find_dir_seperator_position_finds_first_slash() {
    assert_eq!(DirWalker::find_dir_seperator_position("ab/cd/e"), 2);
    assert_eq!(DirWalker::find_dir_seperator_position("/lead"), 0);
}

#[test]
fn non_ascii_paths_are_enumerated_and_rebased() {
    let tree: &[(&str, (&[&str], &[&str]))] = &[
        ("./r", (&["./r/fich\u{e9}.txt"], &[])),
    ];
    let mut walker = DirWalker::new(&"./r".to_string(), false);
    let seen = drain(&mut walker, tree);
    assert_eq!(seen, strings(&["./r/fich\u{e9}.txt"]));
    let rebasing = &mut DirWalker::new(&".".to_string(), true);
    rebasing.add_scan_results(strings(&["./d\u{e9}p\u{f4}t/a.txt"]), strings(&[]));
    let seen = drain(rebasing, &[]);
    assert_eq!(seen, strings(&["./a.txt"]));
}

#[test]
fn stream_frames_non_ascii_paths_as_utf8() {
    let mut walker = DirWalker::new(&"./r".to_string(), false);
    walker.add_scan_results(strings(&["./r/\u{e9}.txt"]), strings(&[]));
    match walker.stream_step(1024) {
        StreamStep::Bytes(b) => assert_eq!(b, format!("./r/\u{e9}.txt\n").into_bytes()),
        _ => panic!("expected bytes"),
    }
}

#[test]
fn stream_frames_paths_with_newlines() {
    let mut walker = DirWalker::new(&"./r".to_string(), false);
    walker.add_scan_results(strings(&["./r/a.txt"]), strings(&[]));
    match walker.stream_step(1024) {
        StreamStep::Bytes(b) => assert_eq!(b, b"./r/a.txt\n".to_vec()),
        _ => panic!("expected bytes"),
    }
    // The pending directory is handed out, then the stream ends.
    assert!(matches!(walker.stream_step(1024), StreamStep::ScanNeeded(_)));
    assert!(matches!(walker.stream_step(1024), StreamStep::Eof));
}

#[test]
fn pull_and_stream_share_one_cursor() {
    let mut walker = DirWalker::new(&"./r".to_string(), false);
    walker.add_scan_results(strings(&["./r/a.txt", "./r/b.txt"]), strings(&[]));
    // A pull consumes one pending file; the stream then sees the next.
    match walker.next_step() {
        WalkStep::File(p) => assert_eq!(p, "./r/b.txt"),
        _ => panic!("expected a file"),
    }
    match walker.stream_step(1024) {
        StreamStep::Bytes(b) => assert_eq!(b, b"./r/a.txt\n".to_vec()),
        _ => panic!("expected bytes"),
    }
}

#[test]
fn stream_carries_over_a_partial_read() {
    let mut walker = DirWalker::new(&"./r".to_string(), false);
    walker.add_scan_results(strings(&["./r/a.txt"]), strings(&[]));
    match walker.stream_step(4) {
        StreamStep::Bytes(b) => assert_eq!(b, b"./r/".to_vec()),
        _ => panic!("expected bytes"),
    }
    // The remainder comes out first on the next reads.
    match walker.stream_step(4) {
        StreamStep::Bytes(b) => assert_eq!(b, b"a.tx".to_vec()),
        _ => panic!("expected bytes"),
    }
    match walker.stream_step(1024) {
        StreamStep::Bytes(b) => assert_eq!(b, b"t\n".to_vec()),
        _ => panic!("expected bytes"),
    }
}
