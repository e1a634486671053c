use jmdictdb::error::DictError;
use jmdictdb::ingest::{plan_entries, plan_entry};
use jmdictdb::json::{decode_list, encode_list};
use jmdictdb::model::{Entry, EntryRow, JMDict, Sense, SenseRow};
use jmdictdb::query::{assemble_entry, list_contains, lookup_entry, SearchKey};
use jmdictdb::round_trip::{comes_back_list, entry_comes_back, plan_entry_checked, same_list};

fn strings(items: &[&str]) -> Vec<String> {
    items.iter().map(|s| s.to_string()).collect()
}

fn sense(pos: &[&str], xref: &[&str], gloss: &[&str]) -> Sense {
    Sense { pos: strings(pos), xref: strings(xref), gloss: strings(gloss) }
}

fn entry(ent_seq: &str, rebs: &[&str], kebs: Option<&[&str]>, senses: Vec<Sense>) -> Entry {
    Entry { ent_seq: ent_seq.to_string(), rebs: strings(rebs), kebs: kebs.map(strings), senses }
}

fn sense_row(id: i64, ent_seq: i64, order: i64, pos: &str, xref: &str, gloss: &str) -> SenseRow {
    SenseRow {
        id,
        ent_seq,
        sense_order: order,
        pos: pos.to_string(),
        xref: xref.to_string(),
        gloss: gloss.to_string(),
    }
}

#[test]
fn lists_are_encoded_as_json() {
    assert_eq!(encode_list(&strings(&["する"])), "[\"する\"]");
    assert_eq!(encode_list(&strings(&["a", "b"])), "[\"a\",\"b\"]");
    assert_eq!(encode_list(&strings(&[])), "[]");
    assert_eq!(encode_list(&strings(&["say \"hi\"", "back\\slash"])), "[\"say \\\"hi\\\"\",\"back\\\\slash\"]");
}

#[test]
fn lists_are_decoded_from_json() {
    assert_eq!(decode_list("[\"する\"]"), Some(strings(&["する"])));
    assert_eq!(decode_list(" [ \"a\" , \"b\" ] "), Some(strings(&["a", "b"])));
    assert_eq!(decode_list("[]"), Some(strings(&[])));
    assert_eq!(decode_list("[\"\\u3059\\n\"]"), Some(strings(&["す\n"])));
}

#[test]
fn what_is_no_list_of_strings_is_refused() {
    assert_eq!(decode_list(""), None);
    assert_eq!(decode_list("する"), None);
    assert_eq!(decode_list("[1]"), None);
    assert_eq!(decode_list("\"a\""), None);
    assert_eq!(decode_list("[\"a\""), None);
    assert_eq!(decode_list("{\"a\":\"b\"}"), None);
    assert_eq!(decode_list("[\"a\"] x"), None);
    assert_eq!(decode_list("null"), None);
}

#[test]
fn an_encoded_list_decodes_to_itself() {
    let list = strings(&["食べる", "", "quote \" and \\ and \n", "&n;"]);
    assert_eq!(decode_list(&encode_list(&list)), Some(list));
}

#[test]
fn membership_is_exact() {
    let list = strings(&["する", "abc"]);
    assert!(list_contains(&list, "する"));
    assert!(list_contains(&list, "abc"));
    assert!(!list_contains(&list, "ABC"));
    assert!(!list_contains(&list, "ab"));
    assert!(!list_contains(&list, "abcd"));
    assert!(!list_contains(&list, ""));
    assert!(!list_contains(&strings(&[]), "する"));
}

#[test]
fn an_entry_is_planned_row_by_row() {
    let e = entry(
        "1000",
        &["する", "す"],
        Some(&["為る"]),
        vec![sense(&["v"], &[], &["to do"]), sense(&["n"], &["x"], &["deed", "act"])],
    );
    let write = plan_entry(&e).unwrap();
    assert_eq!(write.entry.ent_seq, 1000);
    assert_eq!(write.entry.rebs, "[\"する\",\"す\"]");
    assert_eq!(write.entry.kebs, Some("[\"為る\"]".to_string()));
    assert_eq!(write.senses.len(), 2);
    assert_eq!(write.senses[0].ent_seq, 1000);
    assert_eq!(write.senses[0].sense_order, 0);
    assert_eq!(write.senses[0].pos, "[\"v\"]");
    assert_eq!(write.senses[0].xref, "[]");
    assert_eq!(write.senses[0].gloss, "[\"to do\"]");
    assert_eq!(write.senses[1].ent_seq, 1000);
    assert_eq!(write.senses[1].sense_order, 1);
    assert_eq!(write.senses[1].pos, "[\"n\"]");
    assert_eq!(write.senses[1].xref, "[\"x\"]");
    assert_eq!(write.senses[1].gloss, "[\"deed\",\"act\"]");
}

#[test]
fn an_entry_without_kanji_has_an_empty_column() {
    let write = plan_entry(&entry("7", &["する"], None, vec![])).unwrap();
    assert_eq!(write.entry.kebs, None);
    assert!(write.senses.is_empty());
    let empty = plan_entry(&entry("7", &["する"], Some(&[]), vec![])).unwrap();
    assert_eq!(empty.entry.kebs, Some("[]".to_string()));
}

#[test]
fn an_entry_without_a_number_is_not_planned() {
    assert!(plan_entry(&entry("abc", &["する"], None, vec![])).is_none());
    assert!(plan_entry(&entry("", &["する"], None, vec![])).is_none());
    assert!(plan_entry(&entry("12 ", &["する"], None, vec![])).is_none());
}

#[test]
fn a_batch_is_planned_in_order() {
    let batch = vec![entry("2", &["b"], None, vec![]), entry("1", &["a"], None, vec![])];
    let writes = plan_entries(&batch).unwrap();
    assert_eq!(writes.len(), 2);
    assert_eq!(writes[0].entry.ent_seq, 2);
    assert_eq!(writes[1].entry.ent_seq, 1);
    assert!(plan_entries(&Vec::new()).unwrap().is_empty());
}

#[test]
fn a_batch_reports_its_first_bad_entry() {
    let batch = vec![
        entry("1", &["a"], None, vec![]),
        entry("x", &["b"], None, vec![]),
        entry("3", &["c"], None, vec![]),
        entry("y", &["d"], None, vec![]),
    ];
    assert_eq!(plan_entries(&batch).err(), Some(DictError::EntSeq { index: 1 }));
}

#[test]
fn every_entry_has_a_reading() {
    assert!(entry("1", &["a"], None, vec![]).has_reading());
    assert!(!entry("1", &[], None, vec![]).has_reading());
}

#[test]
fn a_document_is_held_to_its_readings() {
    let good = JMDict { entry: vec![entry("1", &["a"], None, vec![]), entry("2", &["b", "c"], None, vec![])] };
    assert_eq!(good.check(), Ok(()));
    assert_eq!(JMDict { entry: Vec::new() }.check(), Ok(()));
    let bad = JMDict {
        entry: vec![
            entry("1", &["a"], None, vec![]),
            entry("2", &[], Some(&["甲"]), vec![]),
            entry("3", &[], None, vec![]),
        ],
    };
    assert_eq!(bad.check(), Err(DictError::Reading { index: 1 }));
}

#[test]
fn rows_make_an_entry() {
    let row = EntryRow { ent_seq: 5, rebs: "[\"たべる\"]".to_string(), kebs: Some("[\"食べる\"]".to_string()) };
    let senses = vec![
        sense_row(10, 5, 0, "[\"v1\"]", "[]", "[\"to eat\"]"),
        sense_row(11, 5, 1, "[]", "[\"x\"]", "[\"to live on\",\"to subsist\"]"),
    ];
    let parsed = assemble_entry(&row, &senses).unwrap();
    assert_eq!(parsed.ent_seq, 5);
    assert_eq!(parsed.rebs, strings(&["たべる"]));
    assert_eq!(parsed.kebs, Some(strings(&["食べる"])));
    assert_eq!(parsed.senses.len(), 2);
    assert_eq!(parsed.senses[0].sense_order, 0);
    assert_eq!(parsed.senses[0].pos, strings(&["v1"]));
    assert_eq!(parsed.senses[0].xref, strings(&[]));
    assert_eq!(parsed.senses[0].gloss, strings(&["to eat"]));
    assert_eq!(parsed.senses[1].sense_order, 1);
    assert_eq!(parsed.senses[1].xref, strings(&["x"]));
    assert_eq!(parsed.senses[1].gloss, strings(&["to live on", "to subsist"]));
}

#[test]
fn rows_without_kanji_make_an_entry_without_kanji() {
    let row = EntryRow { ent_seq: 5, rebs: "[\"する\"]".to_string(), kebs: None };
    let parsed = assemble_entry(&row, &Vec::new()).unwrap();
    assert_eq!(parsed.kebs, None);
    assert!(parsed.senses.is_empty());
}

#[test]
fn a_column_that_does_not_decode_breaks_the_entry() {
    let failure = Some(DictError::Decode { ent_seq: 5 });
    let good = || EntryRow { ent_seq: 5, rebs: "[\"する\"]".to_string(), kebs: None };
    let bad_rebs = EntryRow { ent_seq: 5, rebs: "する".to_string(), kebs: None };
    assert_eq!(assemble_entry(&bad_rebs, &Vec::new()).err(), failure);
    let bad_kebs = EntryRow { ent_seq: 5, rebs: "[]".to_string(), kebs: Some("[1]".to_string()) };
    assert_eq!(assemble_entry(&bad_kebs, &Vec::new()).err(), failure);
    assert_eq!(assemble_entry(&good(), &vec![sense_row(1, 5, 0, "x", "[]", "[]")]).err(), failure);
    assert_eq!(assemble_entry(&good(), &vec![sense_row(1, 5, 0, "[]", "x", "[]")]).err(), failure);
    assert_eq!(
        assemble_entry(&good(), &vec![sense_row(1, 5, 0, "[]", "[]", "[]"), sense_row(2, 5, 1, "[]", "[]", "x")]).err(),
        failure
    );
}

#[test]
fn a_row_is_looked_up_by_either_column() {
    let row = EntryRow { ent_seq: 5, rebs: "[\"たべる\"]".to_string(), kebs: Some("[\"食べる\"]".to_string()) };
    let senses = vec![sense_row(1, 5, 0, "[]", "[]", "[\"to eat\"]")];
    let hit = lookup_entry(&row, &senses, SearchKey::Reading, "たべる").unwrap().unwrap();
    assert_eq!(hit.ent_seq, 5);
    assert_eq!(hit.senses[0].gloss, strings(&["to eat"]));
    assert!(lookup_entry(&row, &senses, SearchKey::Reading, "食べる").unwrap().is_none());
    assert!(lookup_entry(&row, &senses, SearchKey::Kanji, "食べる").unwrap().is_some());
    assert!(lookup_entry(&row, &senses, SearchKey::Kanji, "たべる").unwrap().is_none());
    assert!(lookup_entry(&row, &senses, SearchKey::Kanji, "食べ").unwrap().is_none());
}

#[test]
fn a_row_without_kanji_is_never_found_by_kanji() {
    let row = EntryRow { ent_seq: 5, rebs: "[\"する\"]".to_string(), kebs: None };
    for word in ["する", "", "為る", "null", "[]"] {
        assert!(lookup_entry(&row, &Vec::new(), SearchKey::Kanji, word).unwrap().is_none());
    }
}

#[test]
fn a_broken_column_breaks_the_lookup() {
    let failure = Some(DictError::Decode { ent_seq: 9 });
    let row = EntryRow { ent_seq: 9, rebs: "[\"する\"".to_string(), kebs: Some("{}".to_string()) };
    assert_eq!(lookup_entry(&row, &Vec::new(), SearchKey::Reading, "する").err(), failure);
    assert_eq!(lookup_entry(&row, &Vec::new(), SearchKey::Kanji, "する").err(), failure);
    let half = EntryRow { ent_seq: 9, rebs: "oops".to_string(), kebs: Some("[\"為る\"]".to_string()) };
    assert!(lookup_entry(&half, &Vec::new(), SearchKey::Kanji, "する").unwrap().is_none());
    assert_eq!(lookup_entry(&half, &Vec::new(), SearchKey::Kanji, "為る").err(), failure);
}

#[test]
fn lists_are_compared_string_by_string() {
    assert!(same_list(&strings(&[]), &strings(&[])));
    assert!(same_list(&strings(&["a", "する"]), &strings(&["a", "する"])));
    assert!(!same_list(&strings(&["a", "b"]), &strings(&["b", "a"])));
    assert!(!same_list(&strings(&["a"]), &strings(&["a", "a"])));
    assert!(!same_list(&strings(&["a"]), &strings(&["A"])));
    assert!(!same_list(&strings(&[""]), &strings(&[])));
}

#[test]
fn lists_come_back_from_their_encoding() {
    assert!(comes_back_list(&strings(&[])));
    assert!(comes_back_list(&strings(&["する", "食べる"])));
    assert!(comes_back_list(&strings(&["", "\"", "\\", "\n\t\u{0}\u{1f}", "\u{2028}", "[\"x\"]", "\u{10FFFF}"])));
}

#[test]
fn entries_come_back_from_their_encoding() {
    let e = entry(
        "1",
        &["する", "quote \" here"],
        Some(&["為る", "back\\slash"]),
        vec![sense(&["v"], &[], &["to do\n"]), sense(&[], &["x"], &[])],
    );
    assert!(entry_comes_back(&e));
    assert!(entry_comes_back(&entry("not a number", &[], None, vec![])));
}

#[test]
fn a_checked_plan_is_the_plan() {
    let e = entry("42", &["する"], Some(&["為る"]), vec![sense(&["v"], &[], &["to do"])]);
    let checked = plan_entry_checked(&e).unwrap();
    let plain = plan_entry(&e).unwrap();
    assert_eq!(checked.entry.ent_seq, 42);
    assert_eq!(checked.entry.rebs, plain.entry.rebs);
    assert_eq!(checked.entry.kebs, plain.entry.kebs);
    assert_eq!(checked.senses.len(), 1);
    assert_eq!(checked.senses[0].sense_order, 0);
    assert_eq!(checked.senses[0].gloss, "[\"to do\"]");
    assert!(plan_entry_checked(&entry("x", &["する"], None, vec![])).is_none());
}
