//! The document encoder: a row becomes the text of one JSON object.

use vstd::prelude::*;
use crate::json::{escaped, push_escaped, push_typed, typed_literal};

verus! {

/// The floating-point reading that belongs to column `i`: the entry at that
/// place, and none where the list is too short.
pub open spec fn float_at(floats: Seq<Option<Seq<char>>>, i: int) -> Option<Seq<char>> {
    if 0 <= i < floats.len() {
        floats[i]
    } else {
        None
    }
}

/// One member of the object: the escaped name in quotes, a colon, and the
/// typed literal of the value.
pub open spec fn member(name: Seq<char>, value: Seq<char>, float: Option<Seq<char>>) -> Seq<
    char,
> {
    seq!['"'] + escaped(name) + seq!['"', ':'] + typed_literal(value, float)
}

/// The first `n` members of a row, in the order of the row, with a comma
/// between neighbours.
pub open spec fn members(
    row: Seq<(Seq<char>, Seq<char>)>,
    floats: Seq<Option<Seq<char>>>,
    n: int,
) -> Seq<char>
    decreases n,
{
    if n <= 0 {
        Seq::empty()
    } else if n == 1 {
        member(row[0].0, row[0].1, float_at(floats, 0))
    } else {
        members(row, floats, n - 1) + seq![','] + member(
            row[n - 1].0,
            row[n - 1].1,
            float_at(floats, n - 1),
        )
    }
}

/// The JSON object of a row: its members between braces. Every pair of the
/// row gives a member, also where a name occurs twice.
pub open spec fn document(row: Seq<(Seq<char>, Seq<char>)>, floats: Seq<Option<Seq<char>>>) -> Seq<
    char,
> {
    seq!['{'] + members(row, floats, row.len() as int) + seq!['}']
}

/// Writes a row as one JSON object. `floats[i]` is the literal of the value
/// in column `i` read as a floating-point number, where it reads as one;
/// columns beyond the end of `floats` have no such reading.
pub fn dict_to_json(row: &[(String, String)], floats: &[Option<String>]) -> (r: String)
    ensures
        r@ == document(row.deep_view(), floats.deep_view()),
{
    let ghost pairs = row.deep_view();
    let ghost forms = floats.deep_view();
    let mut out = String::new();
    out.push('{');
    let mut i: usize = 0;
    while i < row.len()
        invariant
            i <= row@.len(),
            pairs == row.deep_view(),
            forms == floats.deep_view(),
            out@ == seq!['{'] + members(pairs, forms, i as int),
        decreases row@.len() - i,
    {
        let ghost before = out@;
        if i > 0 {
            out.push(',');
        }
        let float: Option<&str> = if i < floats.len() {
            match &floats[i] {
                Some(f) => Some(f.as_str()),
                None => None,
            }
        } else {
            None
        };
        assert(float.deep_view() == float_at(forms, i as int));
        out.push('"');
        push_escaped(&mut out, row[i].0.as_str());
        out.push('"');
        out.push(':');
        push_typed(&mut out, row[i].1.as_str(), float);
        i += 1;
        assert(out@ =~= seq!['{'] + members(pairs, forms, i as int));
    }
    out.push('}');
    out
}

/// Encoding is repeatable: any two texts that come of encoding one row under
/// the same floating-point readings are the same, character for character
/// and so byte for byte.
pub proof fn lemma_encoding_repeats(
    row: Seq<(Seq<char>, Seq<char>)>,
    floats: Seq<Option<Seq<char>>>,
    first: String,
    second: String,
)
    requires
        first@ == document(row, floats),
        second@ == document(row, floats),
    ensures
        first@ == second@,
        vstd::utf8::encode_utf8(first@) == vstd::utf8::encode_utf8(second@),
{
}

} // verus!
