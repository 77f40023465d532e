//! The delimited-text tokenizer: a two-state scanner that cuts a text into
//! records and each record into fields.
//!
//! Fields are separated by commas. A record ends at a line feed, at a carriage
//! return, or at a carriage return directly followed by a line feed (the pair
//! counts as one terminator). A double quote switches quoting on and off;
//! while quoting is on, commas and line ends are ordinary characters and two
//! double quotes in a row stand for one.

use vstd::prelude::*;
use crate::text::chars_of;

verus! {

/// What scanning one record gives: its fields, and the position at which the
/// next record starts.
pub struct Scan {
    pub fields: Seq<Seq<char>>,
    pub next: int,
}

/// The scanner, as a function of its state: the position `i`, whether quoting
/// is on, the characters gathered for the current field, and the fields
/// already closed.
///
/// At the end of the text the current field is closed only if something was
/// gathered since the record began: a field with characters, or an earlier
/// separator.
pub open spec fn scan(
    text: Seq<char>,
    i: int,
    quoted: bool,
    field: Seq<char>,
    fields: Seq<Seq<char>>,
) -> Scan
    decreases text.len() - i,
{
    if i >= text.len() {
        Scan {
            fields: if field.len() > 0 || fields.len() > 0 {
                fields.push(field)
            } else {
                fields
            },
            next: text.len() as int,
        }
    } else if quoted {
        if text[i] != '"' {
            scan(text, i + 1, true, field.push(text[i]), fields)
        } else if i + 1 < text.len() && text[i + 1] == '"' {
            scan(text, i + 2, true, field.push('"'), fields)
        } else {
            scan(text, i + 1, false, field, fields)
        }
    } else if text[i] == '"' {
        scan(text, i + 1, true, field, fields)
    } else if text[i] == ',' {
        scan(text, i + 1, false, Seq::empty(), fields.push(field))
    } else if text[i] == '\n' {
        Scan { fields: fields.push(field), next: i + 1 }
    } else if text[i] == '\r' {
        Scan {
            fields: fields.push(field),
            next: if i + 1 < text.len() && text[i + 1] == '\n' {
                i + 2
            } else {
                i + 1
            },
        }
    } else {
        scan(text, i + 1, false, field.push(text[i]), fields)
    }
}

/// The scan of the record that starts at `start`.
pub open spec fn scan_at(text: Seq<char>, start: int) -> Scan {
    scan(text, start, false, Seq::empty(), Seq::empty())
}

/// The record that starts at `start`, if there is one: none at or past the end
/// of the text, and none where the rest of the text closes no field.
pub open spec fn record_at(text: Seq<char>, start: int) -> Option<Seq<Seq<char>>> {
    if start >= text.len() || scan_at(text, start).fields.len() == 0 {
        None
    } else {
        Some(scan_at(text, start).fields)
    }
}

/// Where the reader stands after it was asked for the record at `start`.
pub open spec fn after_record(text: Seq<char>, start: int) -> int {
    if start >= text.len() {
        start
    } else {
        scan_at(text, start).next
    }
}

/// Scanning never moves backwards, never leaves the text, and moves forward
/// wherever a character is left to read.
pub proof fn lemma_scan_advances(
    text: Seq<char>,
    i: int,
    quoted: bool,
    field: Seq<char>,
    fields: Seq<Seq<char>>,
)
    requires
        0 <= i <= text.len(),
    ensures
        i <= scan(text, i, quoted, field, fields).next <= text.len(),
        i < text.len() ==> i < scan(text, i, quoted, field, fields).next,
        scan(text, i, quoted, field, fields).fields.len() >= fields.len(),
        scan(text, i, quoted, field, fields).fields.len() == 0 ==> scan(
            text,
            i,
            quoted,
            field,
            fields,
        ).next == text.len(),
    decreases text.len() - i,
{
    if i >= text.len() {
    } else if quoted {
        if text[i] != '"' {
            lemma_scan_advances(text, i + 1, true, field.push(text[i]), fields);
        } else if i + 1 < text.len() && text[i + 1] == '"' {
            lemma_scan_advances(text, i + 2, true, field.push('"'), fields);
        } else {
            lemma_scan_advances(text, i + 1, false, field, fields);
        }
    } else if text[i] == '"' {
        lemma_scan_advances(text, i + 1, true, field, fields);
    } else if text[i] == ',' {
        lemma_scan_advances(text, i + 1, false, Seq::empty(), fields.push(field));
    } else if text[i] == '\n' || text[i] == '\r' {
    } else {
        lemma_scan_advances(text, i + 1, false, field.push(text[i]), fields);
    }
}

/// Where no record starts at a position inside the text, the reader ends up
/// at the end of the text, and no record starts there either.
pub proof fn lemma_no_record_is_final(text: Seq<char>, start: int)
    requires
        0 <= start <= text.len(),
        record_at(text, start) is None,
    ensures
        start <= after_record(text, start) <= text.len(),
        record_at(text, after_record(text, start)) is None,
{
    if start < text.len() {
        lemma_scan_advances(text, start, false, Seq::empty(), Seq::empty());
    }
}

/// A record takes at least one character: the reader moves forward past
/// every record it hands out, and stays inside the text.
pub proof fn lemma_record_advances(text: Seq<char>, start: int)
    requires
        0 <= start <= text.len(),
    ensures
        start <= after_record(text, start) <= text.len(),
        record_at(text, start) is Some ==> start < after_record(text, start),
        record_at(text, start) matches Some(fields) ==> fields.len() > 0,
{
    if start < text.len() {
        lemma_scan_advances(text, start, false, Seq::empty(), Seq::empty());
    }
}

/// All the records from `start` to the end of the text, in order.
pub open spec fn records_from(text: Seq<char>, start: int) -> Seq<Seq<Seq<char>>>
    decreases text.len() - start,
    via records_from_decreases
{
    if 0 <= start {
        match record_at(text, start) {
            Some(fields) => seq![fields] + records_from(text, after_record(text, start)),
            None => Seq::empty(),
        }
    } else {
        Seq::empty()
    }
}

#[via_fn]
proof fn records_from_decreases(text: Seq<char>, start: int) {
    if 0 <= start < text.len() {
        lemma_scan_advances(text, start, false, Seq::empty(), Seq::empty());
    }
}

/// All the records of `text`.
pub open spec fn records(text: Seq<char>) -> Seq<Seq<Seq<char>>> {
    records_from(text, 0)
}

/// The fields of one record written out with a comma between neighbours.
pub open spec fn joined(fields: Seq<Seq<char>>) -> Seq<char>
    decreases fields.len(),
{
    if fields.len() == 0 {
        Seq::empty()
    } else if fields.len() == 1 {
        fields[0]
    } else {
        joined(fields.drop_last()) + seq![','] + fields.last()
    }
}

/// The records written out one per line, each line closed by a line feed.
pub open spec fn lines(records: Seq<Seq<Seq<char>>>) -> Seq<char>
    decreases records.len(),
{
    if records.len() == 0 {
        Seq::empty()
    } else {
        joined(records[0]) + seq!['\n'] + lines(records.drop_first())
    }
}

/// The text from `i` on with every line end written as one line feed. `open`
/// says whether the line that `i` lies in has content before `i`; a last line
/// that has content and no line end is given one.
pub open spec fn normalized_from(text: Seq<char>, i: int, open: bool) -> Seq<char>
    decreases text.len() - i,
{
    if i >= text.len() {
        if open {
            seq!['\n']
        } else {
            Seq::empty()
        }
    } else if text[i] == '\n' {
        seq!['\n'] + normalized_from(text, i + 1, false)
    } else if text[i] == '\r' {
        seq!['\n'] + normalized_from(
            text,
            if i + 1 < text.len() && text[i + 1] == '\n' {
                i + 2
            } else {
                i + 1
            },
            false,
        )
    } else {
        seq![text[i]] + normalized_from(text, i + 1, true)
    }
}

/// The text with normalized line ends: a carriage return, a line feed, or the
/// pair of them, each becomes one line feed, and the last line ends in one.
pub open spec fn normalized(text: Seq<char>) -> Seq<char> {
    normalized_from(text, 0, false)
}

/// No double quote occurs in the text.
pub open spec fn quote_free(text: Seq<char>) -> bool {
    forall|k: int| 0 <= k < text.len() ==> text[k] != '"'
}

proof fn lemma_joined_push(fields: Seq<Seq<char>>, field: Seq<char>)
    ensures
        joined(fields.push(field)) == if fields.len() == 0 {
            field
        } else {
            joined(fields) + seq![','] + field
        },
{
    assert(fields.push(field).drop_last() =~= fields);
}

proof fn lemma_scan_quote_free(text: Seq<char>, i: int, field: Seq<char>, fields: Seq<Seq<char>>)
    requires
        quote_free(text),
        0 <= i <= text.len(),
        i < text.len() || field.len() > 0 || fields.len() > 0,
    ensures
        scan(text, i, false, field, fields).fields.len() > 0,
        joined(scan(text, i, false, field, fields).fields) + seq!['\n'] + normalized_from(
            text,
            scan(text, i, false, field, fields).next,
            false,
        ) == joined(fields.push(field)) + normalized_from(
            text,
            i,
            field.len() > 0 || fields.len() > 0,
        ),
    decreases text.len() - i,
{
    let now = joined(fields.push(field));
    let open = field.len() > 0 || fields.len() > 0;
    lemma_joined_push(fields, field);
    if i >= text.len() {
        assert(now + seq!['\n'] + Seq::<char>::empty() =~= now + seq!['\n']);
    } else if text[i] == ',' {
        let closed = fields.push(field);
        lemma_scan_quote_free(text, i + 1, Seq::empty(), closed);
        lemma_joined_push(closed, Seq::empty());
        assert(joined(closed.push(Seq::empty())) + normalized_from(text, i + 1, true) =~= now + (
        seq![','] + normalized_from(text, i + 1, true)));
    } else if text[i] == '\n' {
        assert(now + seq!['\n'] + normalized_from(text, i + 1, false) =~= now + (seq!['\n']
            + normalized_from(text, i + 1, false)));
    } else if text[i] == '\r' {
        let next = scan(text, i, false, field, fields).next;
        assert(now + seq!['\n'] + normalized_from(text, next, false) =~= now + (seq!['\n']
            + normalized_from(text, next, false)));
    } else {
        let longer = field.push(text[i]);
        lemma_scan_quote_free(text, i + 1, longer, fields);
        lemma_joined_push(fields, longer);
        assert(joined(fields.push(longer)) =~= now + seq![text[i]]);
        assert(now + seq![text[i]] + normalized_from(text, i + 1, true) =~= now + (seq![text[i]]
            + normalized_from(text, i + 1, true)));
    }
}

/// In a text without double quotes, the records from `start` on, written out
/// again with commas and line feeds, are the rest of the text with normalized
/// line ends.
pub proof fn lemma_lines_of_records_from(text: Seq<char>, start: int)
    requires
        quote_free(text),
        0 <= start <= text.len(),
    ensures
        lines(records_from(text, start)) == normalized_from(text, start, false),
    decreases text.len() - start,
{
    if start < text.len() {
        let s = scan_at(text, start);
        lemma_scan_quote_free(text, start, Seq::empty(), Seq::empty());
        lemma_scan_advances(text, start, false, Seq::empty(), Seq::empty());
        lemma_lines_of_records_from(text, s.next);
        let rest = records_from(text, s.next);
        let all = records_from(text, start);
        assert(all == seq![s.fields] + rest);
        assert(all.drop_first() =~= rest);
        assert(joined(Seq::<Seq<char>>::empty().push(Seq::<char>::empty())) =~= Seq::<
            char,
        >::empty());
        assert(Seq::<char>::empty() + normalized_from(text, start, false) =~= normalized_from(
            text,
            start,
            false,
        ));
    }
}

/// Tokenizing a text without double quotes and writing the fields out again,
/// with commas between fields and a line feed after each record, gives the
/// text back with normalized line ends.
pub proof fn lemma_tokenize_then_join(text: Seq<char>)
    requires
        quote_free(text),
    ensures
        lines(records(text)) == normalized(text),
{
    lemma_lines_of_records_from(text, 0);
}

/// A reader that hands out the records of a text one by one.
pub struct CsvReader {
    buf: Vec<char>,
    idx: usize,
}

impl CsvReader {
    /// The whole text that is being read.
    pub closed spec fn text(&self) -> Seq<char> {
        self.buf@
    }

    /// The position at which the next record starts.
    pub closed spec fn position(&self) -> int {
        self.idx as int
    }

    /// A reader at the start of `text`.
    pub fn new(text: &str) -> (r: CsvReader)
        ensures
            r.text() == text@,
            r.position() == 0,
            text@.len() <= usize::MAX,
    {
        let buf = chars_of(text);
        let _: usize = buf.len();
        CsvReader { buf, idx: 0 }
    }

    /// Reads the next record and moves past it.
    pub fn next_record(&mut self) -> (r: Option<Vec<String>>)
        ensures
            final(self).text() == old(self).text(),
            final(self).position() == after_record(old(self).text(), old(self).position()),
            r.deep_view() == record_at(old(self).text(), old(self).position()),
    {
        let n: usize = self.buf.len();
        if self.idx >= n {
            return None;
        }
        let ghost text = self.buf@;
        let ghost goal = scan_at(text, self.idx as int);
        let mut fields: Vec<String> = Vec::new();
        let mut field = String::new();
        let mut quoted = false;
        let mut ended = false;
        let mut i: usize = self.idx;
        assert(fields.deep_view() =~= Seq::<Seq<char>>::empty());
        while i < n && !ended
            invariant
                n == text.len(),
                self.buf@ == text,
                i <= n,
                !ended ==> scan(text, i as int, quoted, field@, fields.deep_view()) == goal,
                ended ==> goal == (Scan { fields: fields.deep_view(), next: i as int })
                    && fields@.len() > 0,
            decreases n - i + (if ended { 0int } else { 1int }),
        {
            let c = self.buf[i];
            let ghost before = fields.deep_view();
            if quoted {
                if c != '"' {
                    field.push(c);
                    i += 1;
                } else if i + 1 < n && self.buf[i + 1] == '"' {
                    field.push('"');
                    i += 2;
                } else {
                    quoted = false;
                    i += 1;
                }
            } else if c == '"' {
                quoted = true;
                i += 1;
            } else if c == ',' || c == '\n' || c == '\r' {
                let ghost closed = field@;
                fields.push(field);
                field = String::new();
                assert(fields.deep_view() =~= before.push(closed));
                if c == '\r' && i + 1 < n && self.buf[i + 1] == '\n' {
                    i += 2;
                } else {
                    i += 1;
                }
                ended = c != ',';
            } else {
                field.push(c);
                i += 1;
            }
        }
        if !ended && (!field.as_str().is_empty() || fields.len() > 0) {
            let ghost before = fields.deep_view();
            let ghost closed = field@;
            fields.push(field);
            assert(fields.deep_view() =~= before.push(closed));
        }
        self.idx = i;
        if fields.len() == 0 {
            None
        } else {
            Some(fields)
        }
    }
}

} // verus!
