use notify::protocol::MessagePayload;
use notify::storage::{history_query, migration_statements, rows_into_payloads, HistoryQuery, MessageRow};
use notify::text::{chars_of, trim_range};

fn row(id: i64, text: &str) -> MessageRow {
    MessageRow {
        id,
        topic: "alerts".into(),
        text: text.into(),
        created_at: format!("2026-05-14T00:00:0{id}+00:00"),
    }
}

#[test]
fn schema_script_splits_into_trimmed_statements() {
    let script = "\n CREATE TABLE t (a INTEGER);\n\n  ;CREATE INDEX i ON t (a)  ;\n";
    assert_eq!(
        migration_statements(script),
        vec![
            "CREATE TABLE t (a INTEGER)".to_string(),
            "CREATE INDEX i ON t (a)".to_string()
        ]
    );
    assert!(migration_statements("  ; ;\n").is_empty());
    assert_eq!(migration_statements("SELECT 1"), vec!["SELECT 1".to_string()]);
}

#[test]
fn rows_become_payloads_in_order() {
    let items = rows_into_payloads(vec![row(1, "one"), row(2, "two"), row(3, "three")]);
    assert_eq!(items.len(), 3);
    assert_eq!(
        items[0],
        MessagePayload {
            id: 1,
            topic: "alerts".into(),
            text: "one".into(),
            ts: "2026-05-14T00:00:01+00:00".into(),
        }
    );
    assert_eq!(items[2].text, "three");
    assert_eq!(items[2].ts, "2026-05-14T00:00:03+00:00");
    assert!(rows_into_payloads(Vec::new()).is_empty());
}

#[test]
fn row_converts_to_payload() {
    let p = MessagePayload::from(row(5, "five"));
    assert_eq!(p.id, 5);
    assert_eq!(p.ts, "2026-05-14T00:00:05+00:00");
}

#[test]
fn history_query_follows_cursor() {
    assert_eq!(
        history_query(Some(41), 20),
        HistoryQuery::After {
            since_id: 41,
            limit: 20
        }
    );
    assert_eq!(history_query(None, 50), HistoryQuery::Latest { limit: 50 });
}

#[test]
fn trim_range_strips_unicode_whitespace() {
    let chars = chars_of("\u{3000} ab c\t\n");
    assert_eq!(chars.len(), 8);
    assert_eq!(trim_range(&chars, 0, chars.len()), (2, 6));
    assert_eq!(trim_range(&chars, 0, 1), (1, 1));
}
