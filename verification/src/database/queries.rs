use vstd::prelude::*;
use vstd::string::StringExecFns;

use crate::commons::{decimal, join_range, seq_join, spec_decimal, strings_view};

verus! {

/// Why a statement could not be built.
#[derive(Clone, Copy, Debug, PartialEq, Eq, Structural)]
pub enum QueryError {
    /// A multi-row insert was asked for with no row at all.
    EmptyBatch,
}

/// How many rows of document terms one statement inserts.
pub const DOC_WORD_BATCH: usize = 100;

/// The statement that inserts all of `rows` into `table` at once.
pub open spec fn spec_insert_all(table: Seq<char>, fields: Seq<char>, rows: Seq<Seq<char>>, extend: Seq<char>) -> Seq<char> {
    "INSERT INTO "@ + table + " "@ + fields + " VALUES "@ + seq_join(rows, ","@) + " "@ + extend + ";"@
}

/// `INSERT INTO <table> <fields> VALUES <row>,<row>,... <extend>;` for the
/// rendered rows `rows`; refused when there is no row.
pub fn insert_all_query(table: &str, fields: &str, rows: &Vec<String>, extend: &str) -> (res: Result<String, QueryError>)
    ensures
        res is Err <==> rows@.len() == 0,
        res matches Err(e) ==> e == QueryError::EmptyBatch,
        res matches Ok(q) ==> q@ == spec_insert_all(table@, fields@, strings_view(rows@), extend@),
{
    if rows.len() == 0 {
        return Err(QueryError::EmptyBatch);
    }
    let mut res = String::from_str("INSERT INTO ");
    res.append(table);
    res.append(" ");
    res.append(fields);
    res.append(" VALUES ");
    let joined = join_range(rows, 0, rows.len(), ",");
    assert(rows@.subrange(0, rows@.len() as int) =~= rows@);
    res.append(joined.as_str());
    res.append(" ");
    res.append(extend);
    res.append(";");
    Ok(res)
}

/// The row that links document `id_doc` to the stored term `word`, with its
/// count and its rendered frequency `tf`.
pub open spec fn spec_doc_word_row(id_doc: nat, word: Seq<char>, apparition: nat, tf: Seq<char>) -> Seq<char> {
    "("@ + spec_decimal(id_doc) + ", (SELECT id FROM T_WORD tw WHERE tw.word LIKE \""@ + word
        + "%\" LIMIT 1), "@ + spec_decimal(apparition) + ", "@ + tf + ")"@
}

/// `(<id_doc>, (SELECT id FROM T_WORD tw WHERE tw.word LIKE "<word>%" LIMIT 1), <apparition>, <tf>)`
pub fn doc_word_row(id_doc: usize, word: &str, apparition: usize, tf: &str) -> (res: String)
    ensures
        res@ == spec_doc_word_row(id_doc as nat, word@, apparition as nat, tf@),
{
    let mut res = String::from_str("(");
    let id = decimal(id_doc);
    res.append(id.as_str());
    res.append(", (SELECT id FROM T_WORD tw WHERE tw.word LIKE \"");
    res.append(word);
    res.append("%\" LIMIT 1), ");
    let count = decimal(apparition);
    res.append(count.as_str());
    res.append(", ");
    res.append(tf);
    res.append(")");
    res
}

/// The statement that inserts the `i`-th full batch of `rows`.
pub open spec fn spec_doc_word_batch(rows: Seq<Seq<char>>, i: int) -> Seq<char> {
    "INSERT INTO T_DOC_WORD VALUES "@ + seq_join(rows.subrange(i * 100, i * 100 + 100), ","@) + ";"@
}

/// The statements that insert the rendered document-term rows `rows`, one
/// per full batch of a hundred rows; the rows after the last full batch are
/// left out.
pub fn doc_word_batches(rows: &Vec<String>) -> (res: Vec<String>)
    ensures
        res@.len() == rows@.len() / 100,
        forall|i: int| 0 <= i < res@.len() ==> (#[trigger] res@[i])@ == spec_doc_word_batch(strings_view(rows@), i),
{
    let total = rows.len();
    let batches = total / DOC_WORD_BATCH;
    let mut res: Vec<String> = Vec::new();
    let mut i: usize = 0;
    while i < batches
        invariant
            batches == rows@.len() / 100,
            total == rows@.len(),
            i <= batches,
            res@.len() == i,
            forall|k: int| 0 <= k < i ==> (#[trigger] res@[k])@ == spec_doc_word_batch(strings_view(rows@), k),
        decreases batches - i,
    {
        assert(i * 100 + 100 <= rows@.len()) by (nonlinear_arith)
            requires
                i < batches,
                batches == rows@.len() / 100,
        ;
        assert(DOC_WORD_BATCH == 100);
        let lo = i * DOC_WORD_BATCH;
        let mut q = String::from_str("INSERT INTO T_DOC_WORD VALUES ");
        let joined = join_range(rows, lo, lo + DOC_WORD_BATCH, ",");
        assert(strings_view(rows@.subrange(lo as int, lo + 100)) =~= strings_view(rows@).subrange(
            i * 100,
            i * 100 + 100,
        ));
        q.append(joined.as_str());
        q.append(";");
        res.push(q);
        i += 1;
    }
    res
}

} // verus!
