use vstd::prelude::*;
use vstd::string::StringExecFns;

use super::ToQuery;
use crate::commons::{decimal, spec_decimal};

verus! {

/// A row of the documents table.
pub struct DbDocument {
    pub id: usize,
    pub path: String,
    pub total_terms: usize,
}

impl ToQuery for DbDocument {
    /// `INSERT INTO T_DOCUMENT (path, total_terms) VALUES ("<path>", <total_terms>)`
    fn to_query(&self) -> (res: String)
        ensures
            res@ == "INSERT INTO T_DOCUMENT (path, total_terms) VALUES (\""@ + self.path@ + "\", "@
                + spec_decimal(self.total_terms as nat) + ")"@,
    {
        let mut res = String::from_str("INSERT INTO T_DOCUMENT (path, total_terms) VALUES (\"");
        res.append(self.path.as_str());
        res.append("\", ");
        let total = decimal(self.total_terms);
        res.append(total.as_str());
        res.append(")");
        res
    }

    /// `(<path>, <total_terms>)`, the path left unquoted.
    fn to_mult_query(&self) -> (res: String)
        ensures
            res@ == "("@ + self.path@ + ", "@ + spec_decimal(self.total_terms as nat) + ")"@,
    {
        let mut res = String::from_str("(");
        res.append(self.path.as_str());
        res.append(", ");
        let total = decimal(self.total_terms);
        res.append(total.as_str());
        res.append(")");
        res
    }

    /// `(path, total_terms)`
    fn fields(&self) -> (res: String)
        ensures
            res@ == "(path, total_terms)"@,
    {
        String::from_str("(path, total_terms)")
    }
}

} // verus!
