//! The key under which a student's parsed schedule is stored: the term code
//! written into the class names, as in `Lập trình-2-21 (A17C601)` (key `2-21`).

use vstd::prelude::*;

use crate::schedule::Data;
use crate::text::{back_white, chars_of, string_of, sub_chars, trim_chars, trimmed};

verus! {

/// The last index before `j` where `c` stands in `s`.
pub open spec fn last_index(s: Seq<char>, c: char, j: int) -> Option<int>
    decreases j,
{
    if j <= 0 {
        None
    } else if s[j - 1] == c {
        Some(j - 1)
    } else {
        last_index(s, c, j - 1)
    }
}

/// `s` cut at the last occurrence of `c`: the text before it and the text after it.
pub open spec fn rsplit_once(s: Seq<char>, c: char) -> Option<(Seq<char>, Seq<char>)> {
    match last_index(s, c, s.len() as int) {
        Some(k) => Some((s.subrange(0, k), s.subrange(k + 1, s.len() as int))),
        None => None,
    }
}

/// `s` without the white space at its end.
pub open spec fn trim_end(s: Seq<char>) -> Seq<char> {
    s.subrange(0, back_white(s, 0, s.len() as int))
}

/// The term key of a class name `name-code-year (group)`: `code-year`, taken
/// from the text before the last `(`, trimmed, cut at its last two dashes.
pub open spec fn class_key(n: Seq<char>) -> Option<Seq<char>> {
    match rsplit_once(n, '(') {
        Some((head, _)) => match rsplit_once(trimmed(head), '-') {
            Some((rest, year)) => match rsplit_once(trim_end(rest), '-') {
                Some((_, code)) => Some(code + seq!['-'] + year),
                None => None,
            },
            None => None,
        },
        None => None,
    }
}

/// The key of the first of `classes[i..]` that has one.
pub open spec fn key_from(classes: Seq<Seq<char>>, i: int) -> Option<Seq<char>>
    decreases classes.len() - i,
{
    if 0 <= i < classes.len() {
        match class_key(classes[i]) {
            Some(k) => Some(k),
            None => key_from(classes, i + 1),
        }
    } else {
        None
    }
}

/// The class names of a list of occurrences.
pub open spec fn class_names(data: Seq<Data>) -> Seq<Seq<char>> {
    data.map_values(|d: Data| d.class@)
}

fn rsplit_once_exec(s: &Vec<char>, c: char) -> (r: Option<(Vec<char>, Vec<char>)>)
    ensures
        match r {
            Some((a, b)) => rsplit_once(s@, c) == Some((a@, b@)),
            None => rsplit_once(s@, c) is None,
        },
{
    let n = s.len();
    let mut j: usize = n;
    while j > 0
        invariant
            j <= n == s@.len(),
            last_index(s@, c, n as int) == last_index(s@, c, j as int),
        decreases j,
    {
        if s[j - 1] == c {
            return Some((sub_chars(s, 0, j - 1), sub_chars(s, j, n)));
        }
        j -= 1;
    }
    None
}

fn trim_end_exec(s: &Vec<char>) -> (r: Vec<char>)
    ensures
        r@ == trim_end(s@),
{
    let mut b: usize = s.len();
    while b > 0 && crate::text::white_char(s[b - 1])
        invariant
            b <= s@.len(),
            back_white(s@, 0, s@.len() as int) == back_white(s@, 0, b as int),
        decreases b,
    {
        b -= 1;
    }
    sub_chars(s, 0, b)
}

fn class_key_exec(n: &Vec<char>) -> (r: Option<Vec<char>>)
    ensures
        match r {
            Some(k) => class_key(n@) == Some(k@),
            None => class_key(n@) is None,
        },
{
    let (head, _) = rsplit_once_exec(n, '(')?;
    let (rest, year) = rsplit_once_exec(&trim_chars(&head), '-')?;
    let (_, code) = rsplit_once_exec(&trim_end_exec(&rest), '-')?;
    let mut k = code;
    k.push('-');
    let mut i: usize = 0;
    let ghost start = k@;
    while i < year.len()
        invariant
            i <= year@.len(),
            k@ == start + year@.subrange(0, i as int),
        decreases year@.len() - i,
    {
        k.push(year[i]);
        i += 1;
        assert(k@ =~= start + year@.subrange(0, i as int));
    }
    assert(year@.subrange(0, year@.len() as int) =~= year@);
    Some(k)
}

/// The storage key of a list of occurrences: the term key of the first class
/// name that has one, or `None` where none has.
pub fn schedule_key(data: &Vec<Data>) -> (r: Option<String>)
    ensures
        match r {
            Some(k) => key_from(class_names(data@), 0) == Some(k@),
            None => key_from(class_names(data@), 0) is None,
        },
{
    let ghost names = class_names(data@);
    let mut i: usize = 0;
    while i < data.len()
        invariant
            names == class_names(data@),
            key_from(names, i as int) == key_from(names, 0),
        decreases data@.len() - i,
    {
        assert(names[i as int] == data@[i as int].class@);
        let name = chars_of(data[i].class.as_str());
        if let Some(k) = class_key_exec(&name) {
            return Some(string_of(&k));
        }
        i += 1;
    }
    None
}

} // verus!
