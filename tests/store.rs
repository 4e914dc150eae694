use cedict::parser::CeLine;
use cedict::store::{DictStore, FailurePolicy, LinkRow};

fn entry(s: &str, t: &str, p: &[&str], d: &[&str]) -> CeLine {
    CeLine {
        simplified: s.to_string(),
        traditional: t.to_string(),
        pinyin: p.iter().map(|x| x.to_string()).collect(),
        definitions: d.iter().map(|x| x.to_string()).collect(),
    }
}

fn texts(rows: &[cedict::store::LookupRow]) -> Vec<String> {
    rows.iter().map(|r| r.text.clone()).collect()
}

#[test]
fn shared_pronunciation_is_stored_once() {
    let lines = vec![
        entry("的", "的", &["de5"], &["of"]),
        entry("地", "地", &["de5"], &["-ly"]),
        entry("得", "得", &["de5"], &["structural particle"]),
    ];
    let s = DictStore::load(&lines, FailurePolicy::SkipEntry).unwrap();
    assert_eq!(texts(s.pinyin().rows()), vec!["de5".to_string()]);
    assert_eq!(s.pinyin().rows()[0].id, 1);
    assert_eq!(
        s.line_pinyin(),
        &vec![
            LinkRow { ordering: 1, entry_id: 1, lookup_id: 1 },
            LinkRow { ordering: 1, entry_id: 2, lookup_id: 1 },
            LinkRow { ordering: 1, entry_id: 3, lookup_id: 1 },
        ]
    );
}

#[test]
fn two_entries_share_hao3() {
    let lines = vec![
        entry("好", "好", &["hao3"], &["good"]),
        entry("好人", "好人", &["hao3", "ren2"], &["good person"]),
    ];
    let s = DictStore::load(&lines, FailurePolicy::AbortBatch).unwrap();
    assert_eq!(texts(s.pinyin().rows()), vec!["hao3".to_string(), "ren2".to_string()]);
    let links = s.line_pinyin();
    assert_eq!(links[0].lookup_id, links[1].lookup_id);
    assert_eq!(links[1], LinkRow { ordering: 1, entry_id: 2, lookup_id: 1 });
    assert_eq!(links[2], LinkRow { ordering: 2, entry_id: 2, lookup_id: 2 });
}

#[test]
fn entries_are_not_deduplicated() {
    let lines = vec![entry("好", "好", &["hao3"], &["good"]), entry("好", "好", &["hao3"], &["good"])];
    let s = DictStore::load(&lines, FailurePolicy::SkipEntry).unwrap();
    assert_eq!(s.entries().len(), 2);
    assert_eq!(s.entries()[1].id, 2);
    assert_eq!(s.definitions().rows().len(), 1);
    assert_eq!(s.line_definitions().len(), 2);
}

#[test]
fn order_reads_back_through_ordinals() {
    let lines = vec![entry("哈哈", "哈哈", &["ha1", "ha1", "xa"], &["b", "a", "b"])];
    let s = DictStore::load(&lines, FailurePolicy::SkipEntry).unwrap();
    let p = s.pinyin().rows();
    let back: Vec<String> =
        s.line_pinyin().iter().map(|r| p[(r.lookup_id - 1) as usize].text.clone()).collect();
    assert_eq!(back, vec!["ha1", "ha1", "xa"]);
    let d = s.definitions().rows();
    let back: Vec<String> =
        s.line_definitions().iter().map(|r| d[(r.lookup_id - 1) as usize].text.clone()).collect();
    assert_eq!(back, vec!["b", "a", "b"]);
    let ords: Vec<i64> = s.line_definitions().iter().map(|r| r.ordering).collect();
    assert_eq!(ords, vec![1, 2, 3]);
}

#[test]
fn insert_entry_returns_ids_in_order() {
    let mut s = DictStore::new();
    assert_eq!(s.insert_entry(&entry("一", "一", &["yi1"], &["one"])), Ok(1));
    assert_eq!(s.insert_entry(&entry("二", "二", &[], &[])), Ok(2));
    assert_eq!(s.entries()[1].simplified, "二");
    assert_eq!(s.line_pinyin().len(), 1);
}

#[test]
fn load_empty() {
    let s = DictStore::load(&vec![], FailurePolicy::AbortBatch).unwrap();
    assert_eq!(s.entries().len(), 0);
    assert_eq!(s.pinyin().len(), 0);
}

#[test]
fn parse_then_load_reads_back() {
    let text = "#CEDICT_LICENSE\r\n好 好 [hao3] /good/fine/OK/\r\n好好 [hao3] /good/\r\n你好 你好 [ni3 hao3] /hello/hi/";
    let parsed = cedict::parser::CeParser::parse_text(text);
    let s = DictStore::load(&parsed.lines, FailurePolicy::AbortBatch).unwrap();
    assert_eq!(s.entries().len(), 2);
    assert_eq!(s.entries()[1].simplified, "你好");
    let p = s.pinyin().rows();
    let of_second: Vec<(i64, String)> = s
        .line_pinyin()
        .iter()
        .filter(|r| r.entry_id == 2)
        .map(|r| (r.ordering, p[(r.lookup_id - 1) as usize].text.clone()))
        .collect();
    assert_eq!(of_second, vec![(1, "ni3".to_string()), (2, "hao3".to_string())]);
    assert_eq!(texts(p), vec!["hao3".to_string(), "ni3".to_string()]);
    let d = s.definitions().rows();
    let of_first: Vec<String> = s
        .line_definitions()
        .iter()
        .filter(|r| r.entry_id == 1)
        .map(|r| d[(r.lookup_id - 1) as usize].text.clone())
        .collect();
    assert_eq!(of_first, vec!["good", "fine", "OK"]);
}
