use zorka::genlog::{parse_log, parse_log_line, registration_line, live_ids};
use zorka::restore::{restore, Snapshot};
use zorka::store::{Database, ShortcutEntry};

const ID_A: &str = "aaaaaaaa-aaaa-4aaa-8aaa-aaaaaaaaaaaa";
const ID_B: &str = "bbbbbbbb-bbbb-4bbb-8bbb-bbbbbbbbbbbb";

fn entry(slug: &str, url: &str, status: &str, since: &str, until: &str) -> ShortcutEntry {
    ShortcutEntry {
        slug: slug.to_string(),
        url: url.to_string(),
        status: status.to_string(),
        since: since.to_string(),
        until: until.to_string(),
    }
}

#[test]
fn log_line_parses() {
    let rec = parse_log_line(ID_A).unwrap();
    assert_eq!(rec.id, ID_A);
    assert!(rec.deprecates.is_empty());

    let line = format!("{},{}", ID_B, ID_A);
    let rec = parse_log_line(&line).unwrap();
    assert_eq!(rec.id, ID_B);
    assert_eq!(rec.deprecates, vec![ID_A.to_string()]);
}

#[test]
fn truncated_line_is_discarded() {
    assert!(parse_log_line("").is_none());
    assert!(parse_log_line("aaaaaaaa-aaaa").is_none());
    assert!(parse_log_line(&format!("{},bbbb", ID_A)).is_none());
    assert!(parse_log_line("AAAAAAAA-AAAA-4AAA-8AAA-AAAAAAAAAAAA").is_none());
}

#[test]
fn log_parsing_tolerates_crash_tail() {
    let text = format!("{}\n{},{}\nbbbbbbbb-bb", ID_A, ID_B, ID_A);
    let records = parse_log(&text);
    assert_eq!(records.len(), 2);
    assert_eq!(records[0].id, ID_A);
    assert_eq!(records[1].id, ID_B);
    assert_eq!(records[1].deprecates, vec![ID_A.to_string()]);
}

#[test]
fn live_ids_exclude_deprecated() {
    let text = format!("{}\n{},{}", ID_A, ID_B, ID_A);
    let records = parse_log(&text);
    let live = live_ids(&records);
    assert_eq!(live, vec![ID_B.to_string()]);
}

#[test]
fn registration_line_round_trips() {
    let line = registration_line(&ID_B.to_string(), &vec![ID_A.to_string()]);
    assert_eq!(line, format!("{},{}", ID_B, ID_A));
    let rec = parse_log_line(&line).unwrap();
    assert_eq!(rec.id, ID_B);
    assert_eq!(rec.deprecates, vec![ID_A.to_string()]);

    let bare = registration_line(&ID_A.to_string(), &Vec::new());
    assert_eq!(bare, ID_A);
}

#[test]
fn snapshot_round_trip() {
    let mut db = Database::new(true);
    db.upsert("gh".to_string(), entry("gh", "https://github.com", "trusted", "0", "253370764861000"));
    db.upsert("rs".to_string(), entry("rs", "https://rust-lang.org", "untrusted", "1", "2"));
    let (_, csv) = db.close().unwrap();
    let id = db.instance_id.clone();

    let snaps = vec![Snapshot { id: id.clone(), body: csv }];
    let (restored, report) = restore(false, &id, &snaps, &String::new());
    let mut slugs: Vec<String> = restored.read_all().into_iter().map(|e| e.slug).collect();
    slugs.sort();
    assert_eq!(slugs, vec!["gh".to_string(), "rs".to_string()]);
    let gh = restored.read(&"gh".to_string()).unwrap();
    assert_eq!(
        (gh.slug, gh.url, gh.status, gh.since, gh.until),
        (
            "gh".to_string(),
            "https://github.com".to_string(),
            "trusted".to_string(),
            "0".to_string(),
            "253370764861000".to_string()
        )
    );
    assert_eq!(report.loaded, vec![id.clone()]);
    assert_eq!(report.line, format!("{},{}", restored.instance_id, id));
    assert!(report.dropped.is_empty());
}

#[test]
fn restore_is_idempotent() {
    let log = format!("{}\n", ID_A);
    let snaps = vec![Snapshot {
        id: ID_A.to_string(),
        body: "gh,https://github.com,trusted,0,1".to_string(),
    }];
    let seed = String::new();
    let (db1, _) = restore(false, &log, &snaps, &seed);
    let (db2, _) = restore(false, &log, &snaps, &seed);
    let mut rows1: Vec<String> = db1.read_all().iter().map(|e| e.slug.clone()).collect();
    let mut rows2: Vec<String> = db2.read_all().iter().map(|e| e.slug.clone()).collect();
    rows1.sort();
    rows2.sort();
    assert_eq!(rows1, rows2);
    assert_eq!(rows1, vec!["gh".to_string()]);
}

#[test]
fn deprecated_snapshot_is_ignored() {
    let log = format!("{}\n{},{}\n", ID_A, ID_B, ID_A);
    let snaps = vec![
        Snapshot {
            id: ID_A.to_string(),
            body: "old,https://old.example,trusted,0,1".to_string(),
        },
        Snapshot {
            id: ID_B.to_string(),
            body: "new,https://new.example,trusted,0,1".to_string(),
        },
    ];
    let (db, report) = restore(false, &log, &snaps, &String::new());
    assert!(db.read(&"old".to_string()).is_none());
    assert!(db.read(&"new".to_string()).is_some());
    assert_eq!(report.loaded, vec![ID_B.to_string()]);
}

#[test]
fn live_generation_without_snapshot_is_dropped() {
    let log = format!("{}\n", ID_A);
    let (db, report) = restore(false, &log, &Vec::new(), &String::new());
    assert_eq!(db.read_all().len(), 0);
    assert_eq!(report.dropped, vec![ID_A.to_string()]);
    assert!(report.loaded.is_empty());
}

#[test]
fn seed_fallback_imports_well_formed_rows() {
    let seed = "gh,https://github.com,trusted,0,1\nBAD,https://github.com,trusted,0,1\nrs,https://rust-lang.org,untrusted,2,notdigits\nok,https://ok.example,untrusted,4,5"
        .to_string();
    let (db, report) = restore(false, &String::new(), &Vec::new(), &seed);
    let mut slugs: Vec<String> = db.read_all().iter().map(|e| e.slug.clone()).collect();
    slugs.sort();
    assert_eq!(slugs, vec!["gh".to_string(), "ok".to_string()]);
    assert!(report.loaded.is_empty());
    assert_eq!(report.line, db.instance_id);
}

#[test]
fn seed_is_ignored_when_a_generation_is_live() {
    let log = format!("{}\n", ID_A);
    let snaps = vec![Snapshot {
        id: ID_A.to_string(),
        body: "gh,https://github.com,trusted,0,1".to_string(),
    }];
    let seed = "seeded,https://seed.example,trusted,0,1".to_string();
    let (db, _) = restore(false, &log, &snaps, &seed);
    assert!(db.read(&"seeded".to_string()).is_none());
    assert!(db.read(&"gh".to_string()).is_some());
}

#[test]
fn generation_chaining() {
    // Instance A: one entry, graceful shutdown.
    let mut db_a = Database::new(true);
    db_a.upsert("one".to_string(), entry("one", "https://one.example", "trusted", "0", "9"));
    let (_, csv_a) = db_a.close().unwrap();
    let id_a = db_a.instance_id.clone();
    let mut log = String::new();
    log.push_str(&registration_line(&id_a, &Vec::new()));
    log.push('\n');

    // Instance B: must restore exactly A's entry and deprecate A.
    let snaps = vec![Snapshot { id: id_a.clone(), body: csv_a }];
    let (mut db_b, report_b) = restore(true, &log, &snaps, &String::new());
    assert_eq!(report_b.line, format!("{},{}", db_b.instance_id, id_a));
    let all_b = db_b.read_all();
    assert_eq!(all_b.len(), 1);
    assert_eq!(all_b[0].slug, "one");
    log.push_str(&report_b.line);
    log.push('\n');
    db_b.upsert("two".to_string(), entry("two", "https://two.example", "untrusted", "1", "8"));
    let (_, csv_b) = db_b.close().unwrap();
    let id_b = db_b.instance_id.clone();

    // Instance C: must restore both entries from B's snapshot, and
    // deprecate exactly B; A must never reappear in a deprecation list.
    let snaps = vec![
        Snapshot { id: id_a.clone(), body: "one,https://one.example,trusted,0,9".to_string() },
        Snapshot { id: id_b.clone(), body: csv_b },
    ];
    let (db_c, report_c) = restore(true, &log, &snaps, &String::new());
    let mut slugs: Vec<String> = db_c.read_all().iter().map(|e| e.slug.clone()).collect();
    slugs.sort();
    assert_eq!(slugs, vec!["one".to_string(), "two".to_string()]);
    assert_eq!(report_c.line, format!("{},{}", db_c.instance_id, id_b));
    assert!(!report_c.line.contains(&id_a));
    assert_eq!(report_c.loaded, vec![id_b.clone()]);
}
