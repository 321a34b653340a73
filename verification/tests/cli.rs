use culler_core::cli::{
    hex_prefix, parse_cluster_args, parse_limit, plural, take_db_flag, take_path_flag, ClusterRun, DEFAULT_SEARCH_LIMIT,
};

fn args(v: &[&str]) -> Vec<String> {
    v.iter().map(|s| s.to_string()).collect()
}

#[test]
fn path_flag_is_taken_with_its_value() {
    let mut a = args(&["scan", "--models", "/m", "/photos"]);
    assert_eq!(take_path_flag(&mut a, "--models"), Ok(Some("/m".to_owned())));
    assert_eq!(a, args(&["scan", "/photos"]));
}

#[test]
fn absent_flag_leaves_arguments_alone() {
    let mut a = args(&["dupes"]);
    assert_eq!(take_db_flag(&mut a), Ok(None));
    assert_eq!(a, args(&["dupes"]));
}

#[test]
fn trailing_flag_without_value_is_an_error() {
    let mut a = args(&["dupes", "--db"]);
    assert_eq!(take_db_flag(&mut a), Err("--db needs a path".to_owned()));
    assert_eq!(a, args(&["dupes", "--db"]));
}

#[test]
fn only_the_first_flag_occurrence_is_taken() {
    let mut a = args(&["--db", "/a.db", "--db", "/b.db", "dupes"]);
    assert_eq!(take_db_flag(&mut a), Ok(Some("/a.db".to_owned())));
    assert_eq!(a, args(&["--db", "/b.db", "dupes"]));
}

#[test]
fn search_limit_parses_like_usize() {
    assert_eq!(parse_limit(&args(&[])), Ok(DEFAULT_SEARCH_LIMIT));
    assert_eq!(parse_limit(&args(&["--limit", "5"])), Ok(5));
    assert_eq!(parse_limit(&args(&["--limit", "+7"])), Ok(7));
    assert_eq!(parse_limit(&args(&["--limit", "x"])), Err("--limit: not a number: x".to_owned()));
    assert_eq!(parse_limit(&args(&["--limit", "-1"])), Err("--limit: not a number: -1".to_owned()));
    assert_eq!(parse_limit(&args(&["--limit", ""])), Err("--limit: not a number: ".to_owned()));
    assert_eq!(
        parse_limit(&args(&["--limit", "99999999999999999999"])),
        Err("--limit: not a number: 99999999999999999999".to_owned())
    );
    assert_eq!(parse_limit(&args(&["--top", "5"])), Err("search accepts only --limit <n>".to_owned()));
    assert_eq!(parse_limit(&args(&["--limit"])), Err("search accepts only --limit <n>".to_owned()));
}

#[test]
fn plural_suffix_and_hash_prefix() {
    assert_eq!(plural(1), "");
    assert_eq!(plural(0), "s");
    assert_eq!(plural(2), "s");
    let mut h = [0u8; 32];
    h[0] = 0xab;
    h[1] = 0x01;
    h[5] = 0xff;
    h[6] = 0xee;
    assert_eq!(hex_prefix(&h), "ab01000000ff");
}

#[test]
fn cluster_options_default_to_near_with_standard_bounds() {
    assert_eq!(parse_cluster_args(&args(&[])), Ok(ClusterRun::Near { dhash_max: 8, phash_max: 10 }));
    assert_eq!(
        parse_cluster_args(&args(&["--dhash", "4", "--phash", "+6"])),
        Ok(ClusterRun::Near { dhash_max: 4, phash_max: 6 })
    );
}

#[test]
fn burst_options_keep_the_cosine_text() {
    assert_eq!(
        parse_cluster_args(&args(&["--kind", "burst", "--gap", "-5", "--cos", "0.5"])),
        Ok(ClusterRun::Burst { gap_secs: -5, min_cosine: Some("0.5".to_owned()) })
    );
    assert_eq!(
        parse_cluster_args(&args(&["--kind", "burst"])),
        Ok(ClusterRun::Burst { gap_secs: 3, min_cosine: None })
    );
}

#[test]
fn bad_cluster_options_report_the_first_problem() {
    let err = |v: &[&str]| parse_cluster_args(&args(v)).unwrap_err();
    assert_eq!(err(&["--kind", "fuzzy"]), "unsupported cluster kind: fuzzy (near or burst)");
    assert_eq!(err(&["--dhash"]), "--dhash needs a value");
    assert_eq!(err(&["--dhash", "-1"]), "--dhash: not a number");
    assert_eq!(err(&["--phash", "4294967296"]), "--phash: not a number");
    assert_eq!(err(&["--gap", "soon"]), "--gap: not a number");
    assert_eq!(err(&["--cos", "high"]), "--cos: not a number");
    assert_eq!(err(&["--cos", "x", "--bogus"]), "--cos: not a number");
    assert_eq!(err(&["--bogus", "1"]), "unknown clusters flag: --bogus");
    assert_eq!(err(&["--dhash", "65"]), "hash distances are at most 64");
    assert_eq!(err(&["--phash", "99", "--kind", "burst"]), "hash distances are at most 64");
}
