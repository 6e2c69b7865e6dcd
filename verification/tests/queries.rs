use lser::database::models::document::DbDocument;
use lser::database::models::word::DbWord;
use lser::database::models::ToQuery;
use lser::database::queries::{doc_word_batches, doc_word_row, insert_all_query, QueryError};

#[test]
fn document_row_renderings() {
    let d = DbDocument { id: 4, path: "a/b.txt".to_string(), total_terms: 120 };
    assert_eq!(d.to_query(), "INSERT INTO T_DOCUMENT (path, total_terms) VALUES (\"a/b.txt\", 120)");
    assert_eq!(d.to_mult_query(), "(a/b.txt, 120)");
    assert_eq!(d.fields(), "(path, total_terms)");
}

#[test]
fn word_row_renderings() {
    let w = DbWord { id: 0, word: "CAT".to_string(), apparitions: 1 };
    assert_eq!(w.to_query(), "INSERT INTO T_WORD (word, apparitions) VALUES (\"CAT\", 1)");
    assert_eq!(w.to_mult_query(), "(\"CAT\", 1)");
    assert_eq!(w.fields(), "(word, apparitions)");
}

#[test]
fn insert_all_joins_rows() {
    let rows = vec!["(\"A\", 1)".to_string(), "(\"B\", 1)".to_string()];
    let q = insert_all_query("T_WORD", "(word, apparitions)", &rows, "ON CONFLICT(word) DO UPDATE SET apparitions = apparitions + 1").unwrap();
    assert_eq!(
        q,
        "INSERT INTO T_WORD (word, apparitions) VALUES (\"A\", 1),(\"B\", 1) ON CONFLICT(word) DO UPDATE SET apparitions = apparitions + 1;"
    );
}

#[test]
fn insert_all_refuses_no_rows() {
    assert_eq!(insert_all_query("T", "(x)", &vec![], ""), Err(QueryError::EmptyBatch));
}

#[test]
fn doc_word_row_rendering() {
    assert_eq!(
        doc_word_row(3, "CAT", 2, "0.5"),
        "(3, (SELECT id FROM T_WORD tw WHERE tw.word LIKE \"CAT%\" LIMIT 1), 2, 0.5)"
    );
}

#[test]
fn batches_hold_full_hundreds_only() {
    let rows: Vec<String> = (0..250).map(|i| format!("({})", i)).collect();
    let batches = doc_word_batches(&rows);
    assert_eq!(batches.len(), 2);
    let first: Vec<String> = (0..100).map(|i| format!("({})", i)).collect();
    assert_eq!(batches[0], format!("INSERT INTO T_DOC_WORD VALUES {};", first.join(",")));
    let second: Vec<String> = (100..200).map(|i| format!("({})", i)).collect();
    assert_eq!(batches[1], format!("INSERT INTO T_DOC_WORD VALUES {};", second.join(",")));
    assert!(doc_word_batches(&rows[..99].to_vec()).is_empty());
    assert_eq!(doc_word_batches(&rows[..100].to_vec()).len(), 1);
}
