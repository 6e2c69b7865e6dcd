use lser::database::models::ToQuery;
use lser::index::{documents_containing, extension_kind, file_kind, index_args, index_from_str, is_valid_file, Document, FileKind};

#[test]
fn document_counts_each_term() {
    let doc = Document::new("the cat and THE dog, the end", "a.txt".to_string());
    assert_eq!(doc.count_words, 7);
    assert_eq!(doc.path, "a.txt");
    assert_eq!(doc.term_freq.get("THE"), Some(&3));
    assert_eq!(doc.term_freq.get("CAT"), Some(&1));
    assert_eq!(doc.term_freq.get("the"), None);
    let entries = doc.entries();
    assert_eq!(
        entries,
        vec![
            ("THE".to_string(), 3),
            ("CAT".to_string(), 1),
            ("AND".to_string(), 1),
            ("DOG".to_string(), 1),
            ("END".to_string(), 1)
        ]
    );
    let total: i32 = entries.iter().map(|e| e.1).sum();
    assert_eq!(total, doc.count_words);
}

#[test]
fn index_from_str_refuses_text_without_words() {
    assert!(index_from_str("  ,;  ", "x.txt").is_none());
    assert!(index_from_str("", "x.txt").is_none());
    let doc = index_from_str("hi", "x.txt").unwrap();
    assert_eq!(doc.count_words, 1);
}

#[test]
fn valid_files_are_pdf_and_txt() {
    assert!(is_valid_file("files/a.txt"));
    assert!(is_valid_file("b.pdf"));
    assert!(!is_valid_file("c.PDF"));
    assert!(!is_valid_file("notes"));
    assert!(!is_valid_file(".txt"));
    assert!(!is_valid_file("a.tar.gz"));
    assert!(is_valid_file("dir.d/a.txt/"));
    assert_eq!(file_kind("x/y.pdf"), Some(FileKind::Pdf));
    assert_eq!(file_kind("y.txt"), Some(FileKind::Txt));
    assert_eq!(file_kind("y.md"), None);
    assert_eq!(extension_kind("txt"), Some(FileKind::Txt));
    assert_eq!(extension_kind("doc"), None);
}

#[test]
fn documents_containing_counts_documents() {
    let owned = vec![
        Document::new("apple pie", "1".to_string()),
        Document::new("apple tart apple", "2".to_string()),
        Document::new("pear", "3".to_string()),
    ];
    let docs: Vec<&Document> = owned.iter().collect();
    assert_eq!(documents_containing("APPLE", &docs), 2);
    assert_eq!(documents_containing("PEAR", &docs), 1);
    assert_eq!(documents_containing("apple", &docs), 0);
}

#[test]
fn last_match_picks_last_present_query_term() {
    let doc = Document::new("red green blue", "d".to_string());
    let query = vec!["GREEN".to_string(), "BLACK".to_string(), "RED".to_string(), "WHITE".to_string()];
    assert_eq!(doc.last_match(&query), Some(2));
    assert_eq!(doc.last_match(&vec!["PINK".to_string()]), None);
    assert_eq!(doc.last_match(&vec![]), None);
}

#[test]
fn with_counts_keeps_later_duplicate() {
    let doc = Document::with_counts(
        "p".to_string(),
        9,
        vec![("A".to_string(), 1), ("B".to_string(), 2), ("A".to_string(), 5)],
    );
    assert_eq!(doc.count_words, 9);
    assert_eq!(doc.term_freq.get("A"), Some(&5));
    assert_eq!(doc.entries(), vec![("A".to_string(), 5), ("B".to_string(), 2)]);
}

#[test]
fn document_rows_for_the_database() {
    let doc = Document::new("x y x", "files/n.txt".to_string());
    let row = doc.db_document();
    assert_eq!(row.id, 0);
    assert_eq!(row.total_terms, 3);
    assert_eq!(row.to_query(), "INSERT INTO T_DOCUMENT (path, total_terms) VALUES (\"files/n.txt\", 3)");
    let words = doc.db_words();
    assert_eq!(words.len(), 2);
    assert_eq!(words[0].word, "X");
    assert_eq!(words[1].word, "Y");
    assert_eq!(words[0].apparitions, 1);
}

#[test]
fn index_args_defaults() {
    assert_eq!(index_args(&vec![]), ("files".to_string(), "indexed.db".to_string()));
    assert_eq!(index_args(&vec!["docs".to_string()]), ("docs".to_string(), "indexed.db".to_string()));
    assert_eq!(
        index_args(&vec!["docs".to_string(), "my.db".to_string(), "extra".to_string()]),
        ("docs".to_string(), "my.db".to_string())
    );
}
