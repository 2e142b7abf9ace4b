use zorka::store::{Database, ShortcutEntry};

fn entry(slug: &str, url: &str, status: &str, since: &str, until: &str) -> ShortcutEntry {
    ShortcutEntry {
        slug: slug.to_string(),
        url: url.to_string(),
        status: status.to_string(),
        since: since.to_string(),
        until: until.to_string(),
    }
}

#[test]
fn scenario_upsert_delete_read() {
    let mut db = Database::new(false);
    let ok = db.upsert(
        "gh".to_string(),
        entry("gh", "https://github.com", "trusted", "0", "253370764861000"),
    );
    assert!(ok);
    assert!(!db.delete(&"missing".to_string()));
    assert!(db.delete(&"gh".to_string()));
    assert!(db.read(&"gh".to_string()).is_none());
}

#[test]
fn last_write_per_key_wins() {
    let mut db = Database::new(false);
    db.upsert("a".to_string(), entry("a", "https://one.example", "trusted", "0", "1"));
    db.upsert("b".to_string(), entry("b", "https://two.example", "trusted", "0", "2"));
    db.upsert("a".to_string(), entry("a", "https://three.example", "untrusted", "3", "4"));
    db.delete(&"b".to_string());
    db.upsert("b".to_string(), entry("b", "https://four.example", "trusted", "5", "6"));
    db.upsert("c".to_string(), entry("c", "https://five.example", "trusted", "7", "8"));
    db.delete(&"c".to_string());

    let all = db.read_all();
    assert_eq!(all.len(), 2);
    let a = db.read(&"a".to_string()).unwrap();
    assert_eq!(a.url, "https://three.example");
    assert_eq!(a.status, "untrusted");
    let b = db.read(&"b".to_string()).unwrap();
    assert_eq!(b.url, "https://four.example");
    assert!(db.read(&"c".to_string()).is_none());
}

#[test]
fn read_hands_out_copies() {
    let mut db = Database::new(false);
    db.upsert("x".to_string(), entry("x", "https://x.example", "trusted", "0", "9"));
    let copy = db.read(&"x".to_string()).unwrap();
    db.delete(&"x".to_string());
    assert_eq!(copy.slug, "x");
    assert_eq!(copy.url, "https://x.example");
}

#[test]
fn backups() {
    let mut db = Database::new(true);
    let slug: String = "garmata".into();
    let value = ShortcutEntry {
        slug: slug.clone(),
        url: "https://github.com/litvinav/garmata".into(),
        status: "trusted".into(),
        since: "0".into(),
        until: "253370761200000".into(),
    };
    db.upsert(slug, value);
    let (path, content) = db.close().expect("backups are enabled");
    assert_eq!(content, "garmata,https://github.com/litvinav/garmata,trusted,0,253370761200000");
    assert_eq!(path, format!("backups/{}.csv", db.instance_id));
}

#[test]
fn close_without_backup_writes_nothing() {
    let mut db = Database::new(false);
    db.upsert("a".to_string(), entry("a", "https://a.example", "trusted", "0", "1"));
    assert!(db.close().is_none());
}

#[test]
fn csv_of_empty_store_is_empty() {
    let db = Database::new(false);
    assert_eq!(db.to_csv(), "");
}

#[test]
fn csv_joins_rows_with_newlines() {
    let mut db = Database::new(false);
    db.upsert("a".to_string(), entry("a", "https://a.example", "trusted", "1", "2"));
    db.upsert("b".to_string(), entry("b", "https://b.example", "untrusted", "3", "4"));
    let csv = db.to_csv();
    assert_eq!(csv, "a,https://a.example,trusted,1,2\nb,https://b.example,untrusted,3,4");
}

#[test]
fn instance_id_has_generation_shape() {
    let db = Database::new(false);
    let id: Vec<char> = db.instance_id.chars().collect();
    assert_eq!(id.len(), 36);
    for (i, c) in id.iter().enumerate() {
        if i == 8 || i == 13 || i == 18 || i == 23 {
            assert_eq!(*c, '-');
        } else {
            assert!(c.is_ascii_hexdigit() && !c.is_ascii_uppercase());
        }
    }
    let other = Database::new(false);
    assert_ne!(db.instance_id, other.instance_id);
}
