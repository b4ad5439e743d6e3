//! The rules of the command line front end that need no file system: which
//! lines of a bootstrap file name peers, and how the output files are called.

use vstd::prelude::*;
use vstd::string::*;

verus! {

/// Whether a line of a bootstrap file is a comment: it begins with `//`.
pub open spec fn is_comment(line: Seq<char>) -> bool {
    line.len() >= 2 && line[0] == '/' && line[1] == '/'
}

/// The lines that are no comments, in order.
pub open spec fn peer_lines(lines: Seq<Seq<char>>) -> Seq<Seq<char>> {
    lines.filter(|line: Seq<char>| !is_comment(line))
}

/// The texts of a sequence of lines.
pub open spec fn line_texts(lines: Seq<String>) -> Seq<Seq<char>> {
    Seq::new(lines.len(), |i: int| lines[i]@)
}

/// Whether `line` is a comment.
pub fn is_comment_line(line: &str) -> (comment: bool)
    ensures
        comment == is_comment(line@),
{
    line.unicode_len() >= 2 && line.get_char(0) == '/' && line.get_char(1) == '/'
}

/// The bootstrap peers that the lines of a bootstrap file give: every line
/// that is no comment, as it stands and in order.
pub fn read_bs_peers(lines: Vec<String>) -> (peers: Vec<String>)
    ensures
        line_texts(peers@) == peer_lines(line_texts(lines@)),
{
    let ghost all = line_texts(lines@);
    let mut peers: Vec<String> = Vec::new();
    let mut i: usize = 0;
    proof {
        assert(all.take(0) =~= Seq::<Seq<char>>::empty());
        assert(line_texts(peers@) =~= Seq::<Seq<char>>::empty());
        assert(peer_lines(Seq::<Seq<char>>::empty()) =~= Seq::<Seq<char>>::empty()) by {
            reveal(Seq::filter);
        }
    }
    while i < lines.len()
        invariant
            i <= lines@.len(),
            all == line_texts(lines@),
            line_texts(peers@) == peer_lines(all.take(i as int)),
        decreases lines@.len() - i,
    {
        let ghost kept = line_texts(peers@);
        proof {
            assert(all.take(i + 1) =~= all.take(i as int).push(all[i as int]));
            assert(all.take(i + 1).drop_last() =~= all.take(i as int));
            reveal(Seq::filter);
        }
        if !is_comment_line(lines[i].as_str()) {
            peers.push(lines[i].clone());
            assert(line_texts(peers@) =~= kept.push(all[i as int]));
        }
        i += 1;
    }
    assert(all.take(lines@.len() as int) =~= all);
    peers
}

/// Where the bootstrap file lies if none is given.
pub open spec fn default_bootstrap_path() -> Seq<char> {
    "bootstrap.txt"@
}

/// Where the output goes if no directory is given.
pub open spec fn default_output_dir() -> Seq<char> {
    "crawl_data"@
}

/// The path of the bootstrap file: the one given, or `bootstrap.txt`.
pub fn bootstrap_path(given: Option<String>) -> (path: String)
    ensures
        path@ == match given {
            Some(path) => path@,
            None => default_bootstrap_path(),
        },
{
    match given {
        Some(path) => path,
        None => String::from_str("bootstrap.txt"),
    }
}

/// The output directory: the one given, or `crawl_data`.
pub fn output_dir(given: Option<String>) -> (dir: String)
    ensures
        dir@ == match given {
            Some(dir) => dir@,
            None => default_output_dir(),
        },
{
    match given {
        Some(dir) => dir,
        None => String::from_str("crawl_data"),
    }
}

/// The log level if the environment sets none: `debug` if asked for, else
/// `info`.
pub fn log_level(debug: bool) -> (level: &'static str)
    ensures
        level@ == if debug {
            "debug"@
        } else {
            "info"@
        },
{
    if debug {
        "debug"
    } else {
        "info"
    }
}

/// The name of the file that holds the report of the crawl made at
/// `timestamp`.
pub fn report_file_name(dir: &str, timestamp: &str) -> (name: String)
    ensures
        name@ == dir@ + "/"@ + "mobilecoin_crawl_report_"@ + timestamp@ + ".json"@,
{
    String::from_str(dir).concat("/").concat("mobilecoin_crawl_report_").concat(timestamp).concat(
        ".json",
    )
}

/// The name of the file that holds the validators found by the crawl made at
/// `timestamp`.
pub fn fbas_file_name(dir: &str, timestamp: &str) -> (name: String)
    ensures
        name@ == dir@ + "/"@ + "mobilecoin_nodes_"@ + timestamp@ + ".json"@,
{
    String::from_str(dir).concat("/").concat("mobilecoin_nodes_").concat(timestamp).concat(".json")
}

} // verus!
