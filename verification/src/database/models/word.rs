use vstd::prelude::*;
use vstd::string::StringExecFns;

use super::ToQuery;
use crate::commons::{decimal, spec_decimal};

verus! {

/// A row of the words table: a term and the number of documents it
/// appears in.
pub struct DbWord {
    pub id: usize,
    pub word: String,
    pub apparitions: usize,
}

impl ToQuery for DbWord {
    /// `INSERT INTO T_WORD (word, apparitions) VALUES ("<word>", <apparitions>)`
    fn to_query(&self) -> (res: String)
        ensures
            res@ == "INSERT INTO T_WORD (word, apparitions) VALUES ("@ + "\""@ + self.word@ + "\", "@
                + spec_decimal(self.apparitions as nat) + ")"@,
    {
        let mut res = String::from_str("INSERT INTO T_WORD (word, apparitions) VALUES (");
        res.append("\"");
        res.append(self.word.as_str());
        res.append("\", ");
        let count = decimal(self.apparitions);
        res.append(count.as_str());
        res.append(")");
        res
    }

    /// `("<word>", <apparitions>)`
    fn to_mult_query(&self) -> (res: String)
        ensures
            res@ == "(\""@ + self.word@ + "\", "@ + spec_decimal(self.apparitions as nat) + ")"@,
    {
        let mut res = String::from_str("(\"");
        res.append(self.word.as_str());
        res.append("\", ");
        let count = decimal(self.apparitions);
        res.append(count.as_str());
        res.append(")");
        res
    }

    /// `(word, apparitions)`
    fn fields(&self) -> (res: String)
        ensures
            res@ == "(word, apparitions)"@,
    {
        String::from_str("(word, apparitions)")
    }
}

} // verus!
