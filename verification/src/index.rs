use vstd::prelude::*;
use vstd::hash_map::StringHashMap;
use vstd::string::StringExecFns;

use crate::database::models::document::DbDocument;
use crate::database::models::word::DbWord;
use crate::commons::{opt_string_view, spec_tokens, str_eq, strings_view, tokenize};

verus! {

/// The extension of the file name of `path` as `std::path::Path::extension`
/// finds it: the text after the final `.` of the file name, if there is one.
pub uninterp spec fn path_extension(path: Seq<char>) -> Option<Seq<char>>;

/// Calls `std::path::Path::extension` on `path` and turns the extension into
/// a `String`. Claimed: the result is the value that `path_extension` gives
/// for the characters of `path`, which depends on them alone.
#[verifier::external_body]
fn extension_of(path: &str) -> (res: Option<String>)
    ensures
        opt_string_view(res) == path_extension(path@),
{
    match std::path::Path::new(path).extension() {
        Some(ext) => match ext.to_str() {
            Some(text) => Some(text.to_string()),
            None => None,
        },
        None => None,
    }
}

/// The kinds of file whose text can be indexed.
#[derive(Clone, Copy, Debug, PartialEq, Eq, Structural)]
pub enum FileKind {
    Pdf,
    Txt,
}

/// The kind of file that an extension names, if it is one that is indexed.
pub open spec fn spec_extension_kind(ext: Seq<char>) -> Option<FileKind> {
    if ext == "pdf"@ {
        Some(FileKind::Pdf)
    } else if ext == "txt"@ {
        Some(FileKind::Txt)
    } else {
        None
    }
}

/// The kind of file at `path`, judged by the extension of its name.
pub open spec fn spec_file_kind(path: Seq<char>) -> Option<FileKind> {
    match path_extension(path) {
        Some(ext) => spec_extension_kind(ext),
        None => None,
    }
}

/// The kind of a file depends on the extension of its name alone: `txt`
/// files are read as text, `pdf` files as PDF, and any other extension, or
/// none, is not indexed.
pub proof fn law_file_kind_by_extension(path: Seq<char>)
    ensures
        path_extension(path) == Some("txt"@) ==> spec_file_kind(path) == Some(FileKind::Txt),
        path_extension(path) == Some("pdf"@) ==> spec_file_kind(path) == Some(FileKind::Pdf),
        path_extension(path) matches Some(ext) ==> spec_file_kind(path) == spec_extension_kind(ext),
        path_extension(path) matches Some(ext) && ext != "txt"@ && ext != "pdf"@ ==> spec_file_kind(path).is_none(),
        path_extension(path).is_none() ==> spec_file_kind(path).is_none(),
{
    law_extension_kinds();
}

/// `txt` names text files, `pdf` names PDF files, and other extensions
/// name nothing that is indexed.
pub proof fn law_extension_kinds()
    ensures
        spec_extension_kind("txt"@) == Some(FileKind::Txt),
        spec_extension_kind("pdf"@) == Some(FileKind::Pdf),
        forall|ext: Seq<char>| ext != "txt"@ && ext != "pdf"@ ==> spec_extension_kind(ext).is_none(),
{
    reveal_strlit("txt");
    reveal_strlit("pdf");
    assert("txt"@[0] != "pdf"@[0]);
}

/// Two paths with the same extension are files of the same kind.
pub proof fn law_same_extension_same_kind(p: Seq<char>, q: Seq<char>)
    requires
        path_extension(p) == path_extension(q),
    ensures
        spec_file_kind(p) == spec_file_kind(q),
{
}

/// The kind of file that the extension `ext` names: `pdf` and `txt` only.
pub fn extension_kind(ext: &str) -> (res: Option<FileKind>)
    ensures
        res == spec_extension_kind(ext@),
{
    if str_eq(ext, "pdf") {
        Some(FileKind::Pdf)
    } else if str_eq(ext, "txt") {
        Some(FileKind::Txt)
    } else {
        None
    }
}

/// The kind of file at `path`, judged by its extension.
pub fn file_kind(path: &str) -> (res: Option<FileKind>)
    ensures
        res == spec_file_kind(path@),
{
    match extension_of(path) {
        Some(ext) => extension_kind(ext.as_str()),
        None => None,
    }
}

/// Whether the file at `path` is one that can be indexed: its extension is
/// `pdf` or `txt`.
pub fn is_valid_file(path: &str) -> (res: bool)
    ensures
        res == spec_file_kind(path@).is_some(),
        res == (path_extension(path@) matches Some(ext) && (ext == "pdf"@ || ext == "txt"@)),
{
    file_kind(path).is_some()
}


/// The characters and count of each row.
pub open spec fn rows_view(rows: Seq<(String, i32)>) -> Seq<(Seq<char>, i32)> {
    rows.map_values(|r: (String, i32)| (r.0@, r.1))
}

/// The counts that inserting `rows` in order into an empty map leaves.
pub open spec fn rows_map(rows: Seq<(Seq<char>, i32)>) -> Map<Seq<char>, i32>
    decreases rows.len(),
{
    if rows.len() == 0 {
        Map::empty()
    } else {
        rows_map(rows.drop_last()).insert(rows.last().0, rows.last().1)
    }
}

/// How many times `w` occurs in `toks`.
pub open spec fn occurrences(toks: Seq<Seq<char>>, w: Seq<char>) -> nat
    decreases toks.len(),
{
    if toks.len() == 0 {
        0
    } else {
        occurrences(toks.drop_last(), w) + if toks.last() == w {
            1nat
        } else {
            0nat
        }
    }
}

/// The sum of the counts that `m` gives to each of `terms`.
pub open spec fn sum_counts(terms: Seq<Seq<char>>, m: Map<Seq<char>, i32>) -> int
    decreases terms.len(),
{
    if terms.len() == 0 {
        0
    } else {
        sum_counts(terms.drop_last(), m) + m[terms.last()]
    }
}

/// Occurrences add up over concatenation; a single token occurs once if it
/// is the term and not at all otherwise.
pub proof fn law_occurrences(a: Seq<Seq<char>>, b: Seq<Seq<char>>, w: Seq<char>, x: Seq<char>)
    ensures
        occurrences(a + b, w) == occurrences(a, w) + occurrences(b, w),
        occurrences(seq![x], w) == if x == w { 1nat } else { 0nat },
        occurrences(Seq::empty(), w) == 0,
    decreases b.len(),
{
    assert(seq![x].drop_last() =~= Seq::<Seq<char>>::empty());
    assert(seq![x].last() == x);
    assert(occurrences(Seq::<Seq<char>>::empty(), w) == 0);
    assert(occurrences(seq![x], w) == occurrences(Seq::<Seq<char>>::empty(), w) + if x == w { 1nat } else { 0nat });
    if b.len() == 0 {
        assert(a + b =~= a);
    } else {
        law_occurrences(a, b.drop_last(), w, x);
        assert((a + b).drop_last() =~= a + b.drop_last());
        assert((a + b).last() == b.last());
    }
}

/// A term never occurs more often than there are tokens.
pub proof fn lemma_occurrences_bound(toks: Seq<Seq<char>>, w: Seq<char>)
    ensures
        occurrences(toks, w) <= toks.len(),
        occurrences(toks, w) > 0 <==> toks.contains(w),
    decreases toks.len(),
{
    if toks.len() > 0 {
        lemma_occurrences_bound(toks.drop_last(), w);
        if toks.drop_last().contains(w) {
            let i = choose|i: int| 0 <= i < toks.drop_last().len() && toks.drop_last()[i] == w;
            assert(toks[i] == w);
        }
        if toks.contains(w) && toks.last() != w {
            let i = choose|i: int| 0 <= i < toks.len() && toks[i] == w;
            assert(toks.drop_last()[i] == w);
        }
        if toks.last() == w {
            assert(toks[toks.len() - 1] == w);
        }
    }
}

/// Giving a new count to a term outside `terms` leaves their sum unchanged.
pub proof fn lemma_sum_insert_absent(terms: Seq<Seq<char>>, m: Map<Seq<char>, i32>, w: Seq<char>, v: i32)
    requires
        !terms.contains(w),
    ensures
        sum_counts(terms, m.insert(w, v)) == sum_counts(terms, m),
    decreases terms.len(),
{
    if terms.len() > 0 {
        assert(terms[terms.len() - 1] == terms.last());
        assert(!terms.drop_last().contains(w)) by {
            if terms.drop_last().contains(w) {
                let i = choose|i: int| 0 <= i < terms.drop_last().len() && terms.drop_last()[i] == w;
                assert(terms[i] == w);
            }
        }
        lemma_sum_insert_absent(terms.drop_last(), m, w, v);
    }
}

/// Raising by one the count of a term that occurs once in `terms` raises
/// their sum by one.
pub proof fn lemma_sum_bump(terms: Seq<Seq<char>>, m: Map<Seq<char>, i32>, w: Seq<char>, v: i32)
    requires
        terms.no_duplicates(),
        terms.contains(w),
        v == m[w] + 1,
    ensures
        sum_counts(terms, m.insert(w, v)) == sum_counts(terms, m) + 1,
    decreases terms.len(),
{
    let last = terms.last();
    let init = terms.drop_last();
    assert(terms[terms.len() - 1] == last);
    if last == w {
        assert(!init.contains(w)) by {
            if init.contains(w) {
                let i = choose|i: int| 0 <= i < init.len() && init[i] == w;
                assert(terms[i] == w);
            }
        }
        lemma_sum_insert_absent(init, m, w, v);
    } else {
        let i = choose|i: int| 0 <= i < terms.len() && terms[i] == w;
        assert(init[i] == w);
        assert(init.no_duplicates()) by {
            assert forall|a: int, b: int| 0 <= a < init.len() && 0 <= b < init.len() && a != b implies init[a] != init[b] by {
                assert(init[a] == terms[a] && init[b] == terms[b]);
            }
        }
        lemma_sum_bump(init, m, w, v);
    }
}

/// An indexed document: where it was read from, how many tokens its text
/// holds, and how often each distinct term occurs in it.
pub struct Document {
    pub count_words: i32,
    pub path: String,
    pub term_freq: StringHashMap<i32>,
    /// The distinct terms, in the order in which they first occurred.
    pub terms: Vec<String>,
}

impl Document {
    /// The distinct terms list names exactly the terms that have a count.
    pub open spec fn wf(&self) -> bool {
        &&& strings_view(self.terms@).no_duplicates()
        &&& forall|w: Seq<char>| #[trigger] self.term_freq@.contains_key(w) <==> strings_view(self.terms@).contains(w)
    }

    /// The document holds the counts of the token sequence `toks`: as many
    /// words as tokens, a count for exactly the terms among them, each the
    /// number of its occurrences, and counts that add up to the number of
    /// words.
    pub open spec fn counts_tokens(&self, toks: Seq<Seq<char>>) -> bool {
        &&& self.count_words == toks.len()
        &&& forall|w: Seq<char>| #[trigger] self.term_freq@.contains_key(w) <==> toks.contains(w)
        &&& forall|w: Seq<char>| #[trigger] self.term_freq@.contains_key(w) ==> self.term_freq@[w] == occurrences(toks, w)
        &&& sum_counts(strings_view(self.terms@), self.term_freq@) == self.count_words
    }

    /// Counts the tokens of `text` into an empty document.
    fn populate_term_freq(&mut self, text: &str)
        requires
            old(self).wf(),
            old(self).counts_tokens(Seq::empty()),
            spec_tokens(text@).len() <= i32::MAX,
        ensures
            final(self).wf(),
            final(self).counts_tokens(spec_tokens(text@)),
            final(self).path == old(self).path,
    {
        let words = tokenize(text);
        let ghost toks = strings_view(words@);
        let mut i: usize = 0;
        assert(toks.take(0) =~= Seq::<Seq<char>>::empty());
        while i < words.len()
            invariant
                i <= words@.len(),
                toks == strings_view(words@),
                toks == spec_tokens(text@),
                toks.len() <= i32::MAX,
                self.wf(),
                self.counts_tokens(toks.take(i as int)),
                self.path == old(self).path,
            decreases words@.len() - i,
        {
            let ghost prev = toks.take(i as int);
            let ghost next = toks.take(i + 1);
            let ghost old_map = self.term_freq@;
            let ghost old_terms = strings_view(self.terms@);
            let word = words[i].clone();
            assert(word@ == toks[i as int]);
            assert(next =~= prev.push(word@));
            assert(next.drop_last() =~= prev);
            assert forall|w: Seq<char>| next.contains(w) <==> (prev.contains(w) || w == word@) by {
                if next.contains(w) && w != word@ {
                    let k = choose|k: int| 0 <= k < next.len() && next[k] == w;
                    assert(prev[k] == w);
                }
                if prev.contains(w) {
                    let k = choose|k: int| 0 <= k < prev.len() && prev[k] == w;
                    assert(next[k] == w);
                }
                if w == word@ {
                    assert(next[next.len() - 1] == w);
                }
            }
            proof {
                lemma_occurrences_bound(prev, word@);
            }
            match self.term_freq.get(word.as_str()) {
                Some(count) => {
                    let updated = *count + 1;
                    proof {
                        lemma_sum_bump(old_terms, old_map, word@, updated);
                    }
                    self.term_freq.insert(word, updated);
                },
                None => {
                    proof {
                        lemma_sum_insert_absent(old_terms, old_map, word@, 1);
                    }
                    self.term_freq.insert(word.clone(), 1);
                    self.terms.push(word);
                    assert(strings_view(self.terms@) =~= old_terms.push(word@));
                    assert(strings_view(self.terms@).drop_last() =~= old_terms);
                    assert(strings_view(self.terms@).last() == word@);
                    assert(sum_counts(strings_view(self.terms@), self.term_freq@) == sum_counts(old_terms, self.term_freq@) + 1);
                    assert forall|w: Seq<char>| strings_view(self.terms@).contains(w) <==> (old_terms.contains(w) || w == word@) by {
                        let t = strings_view(self.terms@);
                        if t.contains(w) && w != word@ {
                            let k = choose|k: int| 0 <= k < t.len() && t[k] == w;
                            assert(old_terms[k] == w);
                        }
                        if old_terms.contains(w) {
                            let k = choose|k: int| 0 <= k < old_terms.len() && old_terms[k] == w;
                            assert(t[k] == w);
                        }
                        if w == word@ {
                            assert(t[t.len() - 1] == w);
                        }
                    }
                },
            }
            self.count_words = self.count_words + 1;
            i += 1;
        }
        assert(toks.take(i as int) =~= toks);
    }

    /// Indexes `text`, read from `path`: counts each of its tokens.
    pub fn new(text: &str, path: String) -> (res: Self)
        requires
            spec_tokens(text@).len() <= i32::MAX,
        ensures
            res.wf(),
            res.counts_tokens(spec_tokens(text@)),
            res.path@ == path@,
    {
        let mut doc = Document { count_words: 0, path, term_freq: StringHashMap::new(), terms: Vec::new() };
        assert(strings_view(doc.terms@) =~= Seq::<Seq<char>>::empty());
        doc.populate_term_freq(text);
        doc
    }

    /// A document with the given word total and the counts of `rows`; where a
    /// term comes twice, its later count is the one kept.
    pub fn with_counts(path: String, count_words: i32, rows: Vec<(String, i32)>) -> (res: Self)
        ensures
            res.wf(),
            res.path@ == path@,
            res.count_words == count_words,
            res.term_freq@ == rows_map(rows_view(rows@)),
    {
        let mut doc = Document { count_words, path, term_freq: StringHashMap::new(), terms: Vec::new() };
        let ghost view = rows_view(rows@);
        assert(strings_view(doc.terms@) =~= Seq::<Seq<char>>::empty());
        assert(view.take(0) =~= Seq::<(Seq<char>, i32)>::empty());
        let mut i: usize = 0;
        while i < rows.len()
            invariant
                i <= rows@.len(),
                view == rows_view(rows@),
                doc.wf(),
                doc.path@ == path@,
                doc.count_words == count_words,
                doc.term_freq@ == rows_map(view.take(i as int)),
            decreases rows@.len() - i,
        {
            let ghost old_terms = strings_view(doc.terms@);
            let word = rows[i].0.clone();
            let count = rows[i].1;
            assert(view.take(i + 1).drop_last() =~= view.take(i as int));
            assert(view.take(i + 1).last() == (word@, count));
            if !doc.term_freq.contains_key(word.as_str()) {
                doc.terms.push(word.clone());
                assert(strings_view(doc.terms@) =~= old_terms.push(word@));
                assert forall|w: Seq<char>| strings_view(doc.terms@).contains(w) <==> (old_terms.contains(w) || w == word@) by {
                    let t = strings_view(doc.terms@);
                    if t.contains(w) && w != word@ {
                        let k = choose|k: int| 0 <= k < t.len() && t[k] == w;
                        assert(old_terms[k] == w);
                    }
                    if old_terms.contains(w) {
                        let k = choose|k: int| 0 <= k < old_terms.len() && old_terms[k] == w;
                        assert(t[k] == w);
                    }
                    if w == word@ {
                        assert(t[t.len() - 1] == w);
                    }
                }
            }
            doc.term_freq.insert(word, count);
            i += 1;
        }
        assert(view.take(i as int) =~= view);
        doc
    }

    /// Each distinct term with its count, in the order in which the terms
    /// first occurred.
    pub fn entries(&self) -> (res: Vec<(String, i32)>)
        requires
            self.wf(),
        ensures
            res@.len() == self.terms@.len(),
            forall|i: int| 0 <= i < res@.len() ==> (#[trigger] res@[i]).0@ == self.terms@[i]@
                && res@[i].1 == self.term_freq@[self.terms@[i]@],
    {
        let mut res: Vec<(String, i32)> = Vec::new();
        let mut i: usize = 0;
        while i < self.terms.len()
            invariant
                self.wf(),
                i <= self.terms@.len(),
                res@.len() == i,
                forall|k: int| 0 <= k < i ==> (#[trigger] res@[k]).0@ == self.terms@[k]@
                    && res@[k].1 == self.term_freq@[self.terms@[k]@],
            decreases self.terms@.len() - i,
        {
            let term = self.terms[i].clone();
            assert(strings_view(self.terms@)[i as int] == term@);
            let count = match self.term_freq.get(term.as_str()) {
                Some(c) => *c,
                None => 0,
            };
            res.push((term, count));
            i += 1;
        }
        res
    }

    /// The documents-table row for this document, with no id yet.
    pub fn db_document(&self) -> (res: DbDocument)
        ensures
            res.id == 0,
            res.path@ == self.path@,
            res.total_terms == self.count_words as usize,
    {
        DbDocument { id: 0, path: self.path.clone(), total_terms: self.count_words as usize }
    }

    /// A words-table row for each distinct term, each counting one more
    /// document, in the order in which the terms first occurred.
    pub fn db_words(&self) -> (res: Vec<DbWord>)
        ensures
            res@.len() == self.terms@.len(),
            forall|i: int| 0 <= i < res@.len() ==> (#[trigger] res@[i]).word@ == self.terms@[i]@
                && res@[i].id == 0 && res@[i].apparitions == 1,
    {
        let mut res: Vec<DbWord> = Vec::new();
        let mut i: usize = 0;
        while i < self.terms.len()
            invariant
                i <= self.terms@.len(),
                res@.len() == i,
                forall|k: int| 0 <= k < i ==> (#[trigger] res@[k]).word@ == self.terms@[k]@
                    && res@[k].id == 0 && res@[k].apparitions == 1,
            decreases self.terms@.len() - i,
        {
            res.push(DbWord { id: 0, word: self.terms[i].clone(), apparitions: 1 });
            i += 1;
        }
        res
    }

    /// Whether `term` occurs in the document.
    pub fn contains_term(&self, term: &str) -> (res: bool)
        ensures
            res == self.term_freq@.contains_key(term@),
    {
        self.term_freq.contains_key(term)
    }

    /// The position of the last term of `query` that occurs in the document.
    pub fn last_match(&self, query: &Vec<String>) -> (res: Option<usize>)
        ensures
            match res {
                Some(i) => i < query@.len() && self.term_freq@.contains_key(query@[i as int]@)
                    && forall|j: int| i < j < query@.len() ==> !self.term_freq@.contains_key(#[trigger] query@[j]@),
                None => forall|j: int| 0 <= j < query@.len() ==> !self.term_freq@.contains_key(#[trigger] query@[j]@),
            },
    {
        let mut i: usize = query.len();
        while i > 0
            invariant
                i <= query@.len(),
                forall|j: int| i <= j < query@.len() ==> !self.term_freq@.contains_key(#[trigger] query@[j]@),
            decreases i,
        {
            if self.contains_term(query[i - 1].as_str()) {
                return Some(i - 1);
            }
            i -= 1;
        }
        None
    }
}

/// The document that indexing `text` read from `path` gives, if the text
/// holds any token.
pub fn index_from_str(text: &str, path: &str) -> (res: Option<Document>)
    requires
        spec_tokens(text@).len() <= i32::MAX,
    ensures
        res is None <==> spec_tokens(text@).len() == 0,
        res matches Some(doc) ==> doc.wf() && doc.counts_tokens(spec_tokens(text@)) && doc.path@ == path@,
{
    let doc = Document::new(text, String::from_str(path));
    if doc.count_words == 0 {
        return None;
    }
    Some(doc)
}

/// The directory to index and the database file to write: the first and
/// second arguments, `files` and `indexed.db` where they are missing.
pub fn index_args(args: &Vec<String>) -> (res: (String, String))
    ensures
        res.0@ == if args@.len() > 0 { args@[0]@ } else { "files"@ },
        res.1@ == if args@.len() > 1 { args@[1]@ } else { "indexed.db"@ },
{
    let dir = if args.len() > 0 {
        args[0].clone()
    } else {
        String::from_str("files")
    };
    let db = if args.len() > 1 {
        args[1].clone()
    } else {
        String::from_str("indexed.db")
    };
    (dir, db)
}

/// How many of `docs` contain `term`.
pub open spec fn spec_documents_containing(docs: Seq<Document>, term: Seq<char>) -> nat
    decreases docs.len(),
{
    if docs.len() == 0 {
        0
    } else {
        spec_documents_containing(docs.drop_last(), term) + if docs.last().term_freq@.contains_key(term) {
            1nat
        } else {
            0nat
        }
    }
}

/// The count of documents containing a term adds up over concatenation,
/// and a single document counts one exactly when it contains the term.
pub proof fn law_documents_containing(a: Seq<Document>, b: Seq<Document>, d: Document, term: Seq<char>)
    ensures
        spec_documents_containing(a + b, term) == spec_documents_containing(a, term) + spec_documents_containing(
            b,
            term,
        ),
        spec_documents_containing(seq![d], term) == if d.term_freq@.contains_key(term) {
            1nat
        } else {
            0nat
        },
        spec_documents_containing(a, term) <= a.len(),
    decreases a.len() + b.len(),
{
    assert(seq![d].drop_last() =~= Seq::<Document>::empty());
    assert(seq![d].last() == d);
    assert(spec_documents_containing(Seq::<Document>::empty(), term) == 0);
    assert(spec_documents_containing(seq![d], term) == spec_documents_containing(Seq::<Document>::empty(), term)
        + if d.term_freq@.contains_key(term) { 1nat } else { 0nat });
    if b.len() == 0 {
        assert(a + b =~= a);
        if a.len() > 0 {
            law_documents_containing(a.drop_last(), b, d, term);
        }
    } else {
        law_documents_containing(a, b.drop_last(), d, term);
        assert((a + b).drop_last() =~= a + b.drop_last());
        assert((a + b).last() == b.last());
    }
}

/// How many of `docs` contain `term`.
pub fn documents_containing(term: &str, docs: &Vec<&Document>) -> (res: usize)
    ensures
        res == spec_documents_containing(docs@.map_values(|d: &Document| *d), term@),
        res <= docs@.len(),
{
    let mut count: usize = 0;
    let mut i: usize = 0;
    while i < docs.len()
        invariant
            i <= docs@.len(),
            count == spec_documents_containing(docs@.map_values(|d: &Document| *d).take(i as int), term@),
            count <= i,
        decreases docs@.len() - i,
    {
        let ghost all = docs@.map_values(|d: &Document| *d);
        assert(all.take(i + 1).drop_last() =~= all.take(i as int));
        assert(all.take(i + 1).last() == *docs@[i as int]);
        if docs[i].contains_term(term) {
            count += 1;
        }
        i += 1;
    }
    assert(docs@.map_values(|d: &Document| *d).take(i as int) =~= docs@.map_values(|d: &Document| *d));
    count
}

} // verus!
