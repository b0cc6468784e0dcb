//! The rows of the timetable report: the text of a cell, and the three
//! columns (class, time rule, place rule) that a row hands to the parser.

use vstd::prelude::*;

use crate::text::{chars_of, string_of, trim_chars, trimmed};

verus! {

/// The texts of a sequence of strings.
pub open spec fn string_views(s: Seq<String>) -> Seq<Seq<char>> {
    s.map_values(|x: String| x@)
}

/// The pieces `ps[i..]`, each trimmed, run together after `acc`.
pub open spec fn joined_trimmed(ps: Seq<Seq<char>>, i: int, acc: Seq<char>) -> Seq<char>
    decreases ps.len() - i,
{
    if 0 <= i < ps.len() {
        joined_trimmed(ps, i + 1, acc + trimmed(ps[i]))
    } else {
        acc
    }
}

/// The text of a report cell: its text pieces, each trimmed, run together.
pub fn cell_text(pieces: &Vec<String>) -> (r: String)
    ensures
        r@ == joined_trimmed(string_views(pieces@), 0, Seq::empty()),
{
    let ghost ps = string_views(pieces@);
    let mut out = String::new();
    let mut i: usize = 0;
    while i < pieces.len()
        invariant
            ps == string_views(pieces@),
            joined_trimmed(ps, i as int, out@) == joined_trimmed(ps, 0, Seq::empty()),
        decreases pieces@.len() - i,
    {
        assert(ps[i as int] == pieces@[i as int]@);
        let t = string_of(&trim_chars(&chars_of(pieces[i].as_str())));
        out.append(t.as_str());
        i += 1;
    }
    out
}

/// The class, time rule and place rule of a report row: the texts of its
/// second, fourth and fifth cells, or `None` for a row with fewer than five.
pub fn row_fields(cells: &Vec<String>) -> (r: Option<(String, String, String)>)
    ensures
        match r {
            Some((class, times, places)) => {
                &&& cells@.len() >= 5
                &&& class@ == cells@[1]@
                &&& times@ == cells@[3]@
                &&& places@ == cells@[4]@
            },
            None => cells@.len() < 5,
        },
{
    if cells.len() < 5 {
        return None;
    }
    Some((cells[1].clone(), cells[3].clone(), cells[4].clone()))
}

} // verus!
