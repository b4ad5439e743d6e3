use mc_crawler::cli::{
    bootstrap_path, fbas_file_name, is_comment_line, log_level, output_dir, read_bs_peers,
    report_file_name,
};

#[test]
fn comment_lines_are_left_out() {
    let lines = vec![
        String::from("// the production network"),
        String::from("mc://peer1.prod.mobilecoinww.com:443"),
        String::from(""),
        String::from("//mc://peer2.prod.mobilecoinww.com:443"),
        String::from("/ not a comment"),
        String::from("mc://peer3.prod.mobilecoinww.com:443 // nor this"),
        String::from("//"),
    ];
    assert_eq!(
        read_bs_peers(lines),
        vec![
            String::from("mc://peer1.prod.mobilecoinww.com:443"),
            String::from(""),
            String::from("/ not a comment"),
            String::from("mc://peer3.prod.mobilecoinww.com:443 // nor this"),
        ]
    );
    assert_eq!(read_bs_peers(vec![]), Vec::<String>::new());
}

#[test]
fn a_comment_begins_with_two_slashes() {
    assert!(is_comment_line("//"));
    assert!(is_comment_line("// x"));
    assert!(!is_comment_line("/"));
    assert!(!is_comment_line(""));
    assert!(!is_comment_line(" //"));
    assert!(!is_comment_line("mc://a.com:1"));
    assert!(!is_comment_line("\u{e9}//"));
}

#[test]
fn paths_default_when_none_is_given() {
    assert_eq!(bootstrap_path(None), "bootstrap.txt");
    assert_eq!(bootstrap_path(Some(String::from("./peers.txt"))), "./peers.txt");
    assert_eq!(output_dir(None), "crawl_data");
    assert_eq!(output_dir(Some(String::from("out"))), "out");
}

#[test]
fn log_level_follows_the_debug_flag() {
    assert_eq!(log_level(true), "debug");
    assert_eq!(log_level(false), "info");
}

#[test]
fn output_files_are_named_after_the_time_of_the_crawl() {
    assert_eq!(
        report_file_name("crawl_data", "2021-07-27T10:00:00+00:00"),
        "crawl_data/mobilecoin_crawl_report_2021-07-27T10:00:00+00:00.json"
    );
    assert_eq!(
        fbas_file_name("out", "t"),
        "out/mobilecoin_nodes_t.json"
    );
}
