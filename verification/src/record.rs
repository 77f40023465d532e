//! The record stream: the first record of a text names the columns, and every
//! later record becomes a row of named, trimmed values.

use vstd::prelude::*;
use crate::text::{chars_of, trim, trimmed};
use crate::tokenizer::{after_record, record_at, CsvReader};

verus! {

/// The value of column `i` in a record: the field at that place with the
/// white space at its ends taken off, and the empty text where the record has
/// no such field.
pub open spec fn value_at(record: Seq<Seq<char>>, i: int) -> Seq<char> {
    if 0 <= i < record.len() {
        trimmed(record[i])
    } else {
        Seq::empty()
    }
}

/// The row that a record makes under the given column names: one pair for
/// each name, in the order of the names. Fields beyond the last name are left
/// out.
pub open spec fn row_of(headers: Seq<Seq<char>>, record: Seq<Seq<char>>) -> Seq<
    (Seq<char>, Seq<char>),
> {
    Seq::new(headers.len(), |i: int| (headers[i], value_at(record, i)))
}

/// A row has one value for each column name, under that name. A record with
/// fewer fields than there are names gives the empty text for the names it
/// does not reach, and the fields of a longer record beyond the last name
/// make no difference to the row.
pub proof fn lemma_row_shape(headers: Seq<Seq<char>>, record: Seq<Seq<char>>)
    ensures
        row_of(headers, record).len() == headers.len(),
        forall|i: int|
            0 <= i < headers.len() ==> (#[trigger] row_of(headers, record)[i]).0 == headers[i],
        forall|i: int|
            0 <= i < headers.len() && i < record.len() ==> (#[trigger] row_of(
                headers,
                record,
            )[i]).1 == trimmed(record[i]),
        forall|i: int|
            record.len() <= i < headers.len() ==> (#[trigger] row_of(headers, record)[i]).1
                == Seq::<char>::empty(),
        record.len() > headers.len() ==> row_of(headers, record) == row_of(
            headers,
            record.take(headers.len() as int),
        ),
{
    if record.len() > headers.len() {
        assert(row_of(headers, record) =~= row_of(headers, record.take(headers.len() as int)));
    }
}

/// The rows of a text, read one by one under the column names of its first
/// record.
pub struct CsvIter {
    rdr: CsvReader,
    headers: Vec<String>,
}

impl CsvIter {
    /// The whole text that is being read.
    pub closed spec fn text(&self) -> Seq<char> {
        self.rdr.text()
    }

    /// The position at which the next record starts.
    pub closed spec fn position(&self) -> int {
        self.rdr.position()
    }

    /// The column names.
    pub closed spec fn headers(&self) -> Seq<Seq<char>> {
        self.headers.deep_view()
    }

    /// Reads the column names from the first record of `text`; a text without
    /// a first record has no columns.
    pub fn from_reader(text: &str) -> (r: CsvIter)
        ensures
            r.text() == text@,
            text@.len() <= usize::MAX,
            r.position() == after_record(text@, 0),
            r.headers() == match record_at(text@, 0) {
                Some(names) => names,
                None => Seq::empty(),
            },
    {
        let mut rdr = CsvReader::new(text);
        let headers = match rdr.next_record() {
            Some(names) => names,
            None => {
                let none: Vec<String> = Vec::new();
                assert(none.deep_view() =~= Seq::<Seq<char>>::empty());
                none
            },
        };
        CsvIter { rdr, headers }
    }

    /// Reads the next record and returns its row; `None` when no record is
    /// left.
    pub fn next(&mut self) -> (r: Option<Vec<(String, String)>>)
        ensures
            final(self).text() == old(self).text(),
            final(self).headers() == old(self).headers(),
            final(self).position() == after_record(old(self).text(), old(self).position()),
            r.deep_view() == match record_at(old(self).text(), old(self).position()) {
                Some(record) => Some(row_of(old(self).headers(), record)),
                None => None,
            },
    {
        let record = match self.rdr.next_record() {
            Some(record) => record,
            None => {
                return None;
            },
        };
        let ghost names = self.headers.deep_view();
        let ghost fields = record.deep_view();
        let mut row: Vec<(String, String)> = Vec::new();
        let mut i: usize = 0;
        while i < self.headers.len()
            invariant
                i <= self.headers@.len(),
                names == self.headers.deep_view(),
                fields == record.deep_view(),
                row.deep_view() == row_of(names, fields).take(i as int),
            decreases self.headers@.len() - i,
        {
            let value = if i < record.len() {
                let chars = chars_of(record[i].as_str());
                trim(&chars)
            } else {
                String::new()
            };
            let ghost before = row.deep_view();
            let ghost pair = (names[i as int], value_at(fields, i as int));
            row.push((self.headers[i].clone(), value));
            assert(row.deep_view() =~= before.push(pair));
            i += 1;
            assert(row.deep_view() =~= row_of(names, fields).take(i as int));
        }
        assert(row.deep_view() =~= row_of(names, fields));
        Some(row)
    }
}

} // verus!
