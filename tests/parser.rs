use cedict::downloader::CeDownloader;
use cedict::parser::{CeLine, CeParser};
use cedict::utils::{join_path, CeOptions};

fn strings(v: &[&str]) -> Vec<String> {
    v.iter().map(|s| s.to_string()).collect()
}

fn entry(s: &str, t: &str, p: &[&str], d: &[&str]) -> CeLine {
    CeLine {
        simplified: s.to_string(),
        traditional: t.to_string(),
        pinyin: strings(p),
        definitions: strings(d),
    }
}

#[test]
fn parse_line_full_entry() {
    let r = CeParser::parse_line("好 好 [hao3] /good/fine/OK/");
    assert_eq!(r, Some(entry("好", "好", &["hao3"], &["good", "fine", "OK"])));
}

#[test]
fn parse_line_comment() {
    assert_eq!(CeParser::parse_line("#comment"), None);
    assert_eq!(CeParser::parse_line("#CEDICT_LICENSE CC-BY-SA"), None);
}

#[test]
fn parse_line_comment_that_fits_grammar() {
    assert_eq!(CeParser::parse_line("#好 好 [hao3] /good/"), None);
}

#[test]
fn parse_line_blank() {
    assert_eq!(CeParser::parse_line(""), None);
    assert_eq!(CeParser::parse_line("   \t "), None);
}

#[test]
fn parse_line_empty_blocks() {
    let r = CeParser::parse_line("好 好 [] //");
    assert_eq!(r, Some(entry("好", "好", &[], &[])));
}

#[test]
fn parse_line_whitespace_only_pronunciation() {
    let r = CeParser::parse_line("好 好 [   ] /good/");
    assert_eq!(r, Some(entry("好", "好", &[], &["good"])));
}

#[test]
fn parse_line_missing_traditional() {
    assert_eq!(CeParser::parse_line("好好 [hao3] /good/"), None);
}

#[test]
fn parse_line_missing_definitions() {
    assert_eq!(CeParser::parse_line("好 好 [hao3]"), None);
    assert_eq!(CeParser::parse_line("好 好 [hao3] /good"), None);
    assert_eq!(CeParser::parse_line("好 好 hao3 /good/"), None);
}

#[test]
fn parse_line_leading_whitespace_is_outside_grammar() {
    assert_eq!(CeParser::parse_line(" 好 好 [hao3] /good/"), None);
}

#[test]
fn parse_line_runs_of_whitespace_and_slashes() {
    let r = CeParser::parse_line("你好 你好  \t[ni3   hao3 ]   /hello//hi/ a b/");
    assert_eq!(r, Some(entry("你好", "你好", &["ni3", "hao3"], &["hello", "hi", " a b"])));
}

#[test]
fn parse_line_keeps_repeated_pronunciations() {
    let r = CeParser::parse_line("哈哈 哈哈 [ha1 ha1] /laughter/");
    assert_eq!(r, Some(entry("哈哈", "哈哈", &["ha1", "ha1"], &["laughter"])));
}

#[test]
fn parse_text_splits_on_crlf() {
    let text = "# CC-CEDICT\r\n好 好 [hao3] /good/\r\n\r\n好好 [hao3] /good/\r\n的 的 [de5] /of/\r\n";
    let r = CeParser::parse_text(text);
    assert_eq!(
        r.lines,
        vec![entry("好", "好", &["hao3"], &["good"]), entry("的", "的", &["de5"], &["of"])]
    );
}

#[test]
fn parse_text_lone_line_feed_stays_in_line() {
    let r = CeParser::parse_text("好 好 [hao3] /go\nod/\r\n的 的 [de5] /of/");
    assert_eq!(r.lines, vec![entry("的", "的", &["de5"], &["of"])]);
}

#[test]
fn parse_text_empty() {
    assert_eq!(CeParser::parse_text("").lines, vec![]);
}

#[test]
fn join_path_inserts_separator() {
    assert_eq!(join_path("./", "data"), "./data");
    assert_eq!(join_path("base", "data"), "base/data");
    assert_eq!(join_path("", "data"), "data");
}

#[test]
fn parser_paths() {
    let p = CeParser::init();
    assert_eq!(p.base_path(), "./");
    assert_eq!(p.data_dir(), "./data");
    assert_eq!(p.dict_file_path(), "./data/cedict_ts.u8");
    let opts = CeOptions { base_path: String::from("/tmp/dict") };
    let q = CeParser::init_with_options(&opts);
    assert_eq!(q.data_dir(), "/tmp/dict/data");
    assert_eq!(q.dict_file_path(), "/tmp/dict/data/cedict_ts.u8");
}

#[test]
fn downloader_paths() {
    let d = CeDownloader::init();
    assert_eq!(d.base_path(), "./");
    assert_eq!(d.dict_file_path(), "./data/cedict_ts.u8");
    let opts = CeOptions { base_path: String::from("work/") };
    let e = CeDownloader::init_with_options(&opts);
    assert_eq!(e.data_dir(), "work/data");
    assert_eq!(e.dict_file_path(), "work/data/cedict_ts.u8");
}
