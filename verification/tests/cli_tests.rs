use md5sum::cli::{args_are_complete, parse_check_line, parse_flag, Config, ErrorCount, File};
use md5sum::md5::digest_msg_mine;
use md5sum::text::{chars_of, lines_chars, split_chars};

fn config(mine: bool, alg: &str, quiet: bool) -> Config {
    Config { b_flag: false, c_flag: true, mine, quiet_flag: quiet, alg: alg.to_string() }
}

fn args(list: &[&str]) -> Vec<String> {
    list.iter().map(|s| s.to_string()).collect()
}

#[test]
fn parse_flags_and_operands() {
    let (cfg, files) = parse_flag(args(&["-b", "--algorithm", "sha256", "notes.txt", "-", "--quiet"]));
    assert!(cfg.b_flag);
    assert!(!cfg.c_flag);
    assert!(cfg.quiet_flag);
    assert!(!cfg.mine);
    assert_eq!(cfg.alg, "sha256");
    assert_eq!(files.len(), 2);
    assert!(matches!(&files[0], File::FilePath(p) if p == "notes.txt"));
    assert!(matches!(&files[1], File::StdIn));
}

#[test]
fn parse_last_algorithm_wins_and_mine() {
    let (cfg, files) = parse_flag(args(&["--algorithm", "sha256", "-c", "--mine", "--algorithm", "sha512"]));
    assert_eq!(cfg.alg, "sha512");
    assert!(cfg.c_flag);
    assert!(cfg.mine);
    assert!(files.is_empty());
}

#[test]
fn dangling_algorithm_is_incomplete() {
    assert!(!args_are_complete(&args(&["a.txt", "--algorithm"])));
    assert!(args_are_complete(&args(&["--algorithm", "--algorithm"])));
    assert!(args_are_complete(&args(&[])));
}

#[test]
fn file_names_and_paths() {
    let f = File::from("dir/sub/report.txt".to_string());
    assert_eq!(f.to_name(), "report.txt");
    assert_eq!(f.to_file_path(), "dir/sub/report.txt");
    let s = File::from("-".to_string());
    assert!(matches!(s, File::StdIn));
    assert_eq!(s.to_name(), "-");
    assert_eq!(s.to_file_path(), "std in");
    assert_eq!(File::from("trailing/".to_string()).to_name(), "");
}

#[test]
fn digest_file_lines() {
    let f = File::from("a.txt".to_string());
    let mut cfg = config(true, "", false);
    cfg.c_flag = false;
    assert_eq!(
        f.digest_file(&cfg, Some("abc".as_bytes())),
        "900150983cd24fb0d6963f7d28e17f72  a.txt"
    );
    cfg.b_flag = true;
    assert_eq!(
        f.digest_file(&cfg, Some("abc".as_bytes())),
        "900150983cd24fb0d6963f7d28e17f72 *a.txt"
    );
    assert_eq!(f.digest_file(&cfg, None), "Couldn't read file with path a.txt");
    let sha = config(false, "sha256", false);
    assert_eq!(
        f.digest(&sha, Some("abc".as_bytes())),
        Some("ba7816bf8f01cfea414140de5dae2223b00361a396177a9cb410ff61f20015ad".to_string())
    );
    let crate_md5 = config(false, "", false);
    assert_eq!(
        f.digest(&crate_md5, Some("abc".as_bytes())),
        Some("900150983cd24fb0d6963f7d28e17f72".to_string())
    );
    assert_eq!(f.digest(&crate_md5, None), None);
}

#[test]
fn parse_listing_lines() {
    let e = parse_check_line(&chars_of("abcd  x.txt")).unwrap();
    assert_eq!(e.expected.iter().collect::<String>(), "abcd");
    assert!(matches!(&e.file, File::FilePath(p) if p == "x.txt"));
    assert!(e.two_space);
    // A single " *" separator is not understood; a second one makes it an entry.
    assert!(parse_check_line(&chars_of("abcd *x.txt")).is_none());
    let s = parse_check_line(&chars_of("abcd *x.txt *")).unwrap();
    assert!(!s.two_space);
    assert!(matches!(&s.file, File::FilePath(p) if p == "x.txt"));
    assert!(parse_check_line(&chars_of("no separator")).is_none());
}

#[test]
fn validate_listing_outcomes() {
    let listing_file = File::from("sums.md5".to_string());
    let good = digest_msg_mine("hello".as_bytes());
    let listing = format!(
        "{}  good.txt\n{}  bad.txt\nnonsense\n{}  gone.txt\n{} *star.txt *\n",
        good, good, good, good
    );
    let reads: Vec<Option<Vec<u8>>> = vec![
        Some(b"hello".to_vec()),
        Some(b"other".to_vec()),
        None,
        None,
        Some(b"hello".to_vec()),
    ];
    let mut err = ErrorCount::new();
    let out = listing_file.validate_file(&config(true, "", false), Some(&listing), &reads, &mut err);
    assert_eq!(
        out,
        "bad.txt: FAILED\nmd5sum:  gone.txt: No such file or directory\nstar.txt: OK"
    );
    assert_eq!(err.inc_format, 1);
    assert_eq!(err.inc_digest, 1);

    let mut err = ErrorCount::new();
    let out = listing_file.validate_file(&config(true, "", true), Some(&listing), &reads, &mut err);
    assert_eq!(
        out,
        "good.txt: OK\nbad.txt: FAILED\nmd5sum:  gone.txt: No such file or directory\nstar.txt: OK"
    );
}

#[test]
fn validate_star_mismatch_warns() {
    let listing_file = File::from("sums".to_string());
    let listing = "0000 *f *\n";
    let reads = vec![Some(b"x".to_vec())];
    let mut err = ErrorCount::new();
    let out = listing_file.validate_file(&config(true, "", false), Some(listing), &reads, &mut err);
    assert_eq!(out, "f: WARNING");
    assert_eq!(err.inc_digest, 1);
    assert_eq!(err.inc_format, 0);
}

#[test]
fn validate_unreadable_listing() {
    let listing_file = File::from("missing.md5".to_string());
    let mut err = ErrorCount::new();
    let out = listing_file.validate_file(&config(true, "", false), None, &vec![], &mut err);
    assert_eq!(out, "md5sum:  missing.md5: No such file or directory");
    assert_eq!(err.inc_format, 0);
    assert_eq!(err.inc_digest, 0);
}

#[test]
fn printed_line_checks_ok() {
    // What the tool prints without -b is accepted when checked again.
    let f = File::from("data/file one.bin".to_string());
    let mut cfg = config(false, "sha512", true);
    cfg.c_flag = false;
    let printed = f.digest_file(&cfg, Some(b"payload"));
    let reads = vec![Some(b"payload".to_vec())];
    let mut err = ErrorCount::new();
    let out = File::from("list".to_string()).validate_file(&cfg, Some(&printed), &reads, &mut err);
    assert_eq!(out, "data/file one.bin: OK");
    assert_eq!(err.inc_digest, 0);
    assert_eq!(err.inc_format, 0);
}

#[test]
fn text_lines_and_split() {
    let lines = lines_chars(&chars_of("a\r\nb\n\nc\r"));
    let lines: Vec<String> = lines.iter().map(|l| l.iter().collect()).collect();
    assert_eq!(lines, vec!["a", "b", "", "c\r"]);
    assert!(lines_chars(&chars_of("")).is_empty());
    let parts = split_chars(&chars_of("a    b"), &[' ', ' ']);
    let parts: Vec<String> = parts.iter().map(|l| l.iter().collect()).collect();
    assert_eq!(parts, vec!["a", "", "b"]);
}

#[test]
fn file_from_str() {
    assert!(matches!(File::from("-"), File::StdIn));
    assert!(matches!(File::from("x/y"), File::FilePath(p) if p == "x/y"));
    assert!(matches!(File::from("--"), File::FilePath(p) if p == "--"));
}
