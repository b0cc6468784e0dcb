//! The place rule of a timetable row: either one place for every block, or a
//! table from group index to place, written as `(1,2)Room A(3)Room B`.

use std::collections::HashMap;
use vstd::prelude::*;

use crate::text::{
    chars_of, find_from, lemma_find_char, find_exec, split_exec, split_on, split_once, split_once_exec, string_of,
    trim_chars, trimmed, uint_list, uint_list_of, views,
};

verus! {

broadcast use vstd::std_specs::hash::group_hash_axioms;

/// Where the classes of a row take place.
#[derive(Clone, Debug, PartialEq)]
pub enum PlaceResolution {
    /// One place for every block.
    Default(String),
    /// The place of each group index; an index missing here has no place.
    ByGroup(HashMap<u32, String>),
}

/// The mathematical content of a `PlaceResolution`.
pub enum PlaceView {
    Default(Seq<char>),
    ByGroup(Map<u32, Seq<char>>),
}

/// The texts held by a map of strings.
pub open spec fn text_map(m: Map<u32, String>) -> Map<u32, Seq<char>> {
    m.map_values(|v: String| v@)
}

impl View for PlaceResolution {
    type V = PlaceView;

    open spec fn view(&self) -> PlaceView {
        match self {
            PlaceResolution::Default(s) => PlaceView::Default(s@),
            PlaceResolution::ByGroup(m) => PlaceView::ByGroup(text_map(m@)),
        }
    }
}

/// The marker that opens a list of group indices.
pub open spec fn open_paren() -> Seq<char> {
    seq!['(']
}

/// The marker that closes a list of group indices.
pub open spec fn close_paren() -> Seq<char> {
    seq![')']
}

/// `m` with each of `keys[i..]` mapped to `v`.
pub open spec fn insert_keys(m: Map<u32, Seq<char>>, keys: Seq<u32>, i: int, v: Seq<char>) -> Map<
    u32,
    Seq<char>,
>
    decreases keys.len() - i,
{
    if 0 <= i < keys.len() {
        insert_keys(m.insert(keys[i], v), keys, i + 1, v)
    } else {
        m
    }
}

/// The group table after the fragments `frags[i..]` are read into `m`; each
/// fragment is an index list, a closing parenthesis and a place. A fragment
/// without its closing parenthesis adds nothing, and a later fragment replaces
/// what an earlier one gave the same index.
pub open spec fn groups_from(frags: Seq<Seq<char>>, i: int, m: Map<u32, Seq<char>>) -> Map<
    u32,
    Seq<char>,
>
    decreases frags.len() - i,
{
    if 0 <= i < frags.len() {
        let next = match split_once(frags[i], close_paren()) {
            Some((idx, place)) => insert_keys(m, uint_list(idx), 0, trimmed(place)),
            None => m,
        };
        groups_from(frags, i + 1, next)
    } else {
        m
    }
}

/// What a place rule says: a text with an opening parenthesis is a group
/// table (the text before the first parenthesis is dropped), any other text
/// is, trimmed, the place of every block.
pub open spec fn place_rule(s: Seq<char>) -> PlaceView {
    if find_from(s, open_paren(), 0) is Some {
        PlaceView::ByGroup(groups_from(split_on(s, open_paren()), 1, Map::empty()))
    } else {
        PlaceView::Default(trimmed(s))
    }
}

/// The place of the block with group index `g`: the default place, or the
/// entry of the group table, or the empty text where the table has none.
pub open spec fn place_of(p: PlaceView, g: int) -> Seq<char> {
    match p {
        PlaceView::Default(t) => t,
        PlaceView::ByGroup(m) => if 0 <= g <= u32::MAX && m.contains_key(g as u32) {
            m[g as u32]
        } else {
            Seq::empty()
        },
    }
}

/// A fragment of a group table that gives at least one group index a place.
pub open spec fn has_pair(frag: Seq<char>) -> bool {
    match split_once(frag, close_paren()) {
        Some((idx, _)) => uint_list(idx).len() > 0,
        None => false,
    }
}

proof fn lemma_insert_keys_keeps(m: Map<u32, Seq<char>>, keys: Seq<u32>, i: int, v: Seq<char>, g: u32)
    requires
        m.contains_key(g),
    ensures
        insert_keys(m, keys, i, v).contains_key(g),
    decreases keys.len() - i,
{
    if 0 <= i < keys.len() {
        lemma_insert_keys_keeps(m.insert(keys[i], v), keys, i + 1, v, g);
    }
}

proof fn lemma_groups_keeps(frags: Seq<Seq<char>>, i: int, m: Map<u32, Seq<char>>, g: u32)
    requires
        m.contains_key(g),
    ensures
        groups_from(frags, i, m).contains_key(g),
    decreases frags.len() - i,
{
    if 0 <= i < frags.len() {
        match split_once(frags[i], close_paren()) {
            Some((idx, place)) => {
                lemma_insert_keys_keeps(m, uint_list(idx), 0, trimmed(place), g);
                lemma_groups_keeps(
                    frags,
                    i + 1,
                    insert_keys(m, uint_list(idx), 0, trimmed(place)),
                    g,
                );
            },
            None => {
                lemma_groups_keeps(frags, i + 1, m, g);
            },
        }
    }
}

proof fn lemma_groups_gets(frags: Seq<Seq<char>>, i: int, m: Map<u32, Seq<char>>, k: int)
    requires
        0 <= i <= k < frags.len(),
        has_pair(frags[k]),
    ensures
        exists|g: u32| groups_from(frags, i, m).contains_key(g),
    decreases k - i,
{
    let next = match split_once(frags[i], close_paren()) {
        Some((idx, place)) => insert_keys(m, uint_list(idx), 0, trimmed(place)),
        None => m,
    };
    if i == k {
        let (idx, place) = split_once(frags[i], close_paren())->Some_0;
        let keys = uint_list(idx);
        let v = trimmed(place);
        lemma_insert_keys_keeps(m.insert(keys[0], v), keys, 1, v, keys[0]);
        assert(next == insert_keys(m.insert(keys[0], v), keys, 1, v));
        lemma_groups_keeps(frags, i + 1, next, keys[0]);
        assert(groups_from(frags, i, m) == groups_from(frags, i + 1, next));
        assert(groups_from(frags, i, m).contains_key(keys[0]));
    } else {
        lemma_groups_gets(frags, i + 1, next, k);
        assert(groups_from(frags, i, m) == groups_from(frags, i + 1, next));
    }
}

/// A place rule without an opening parenthesis is one place for every block; one
/// with it is a group table, and that table is not empty once a fragment after
/// a parenthesis pairs a group index with a place.
pub proof fn lemma_place_rule_form(s: Seq<char>)
    ensures
        (forall|j: int| 0 <= j < s.len() ==> s[j] != '(') ==> place_rule(s) is Default,
        (exists|j: int| 0 <= j < s.len() && s[j] == '(') ==> place_rule(s) is ByGroup,
        (exists|j: int| 0 <= j < s.len() && s[j] == '(') && (exists|k: int|
            1 <= k < split_on(s, open_paren()).len() && has_pair(
                #[trigger] split_on(s, open_paren())[k],
            )) ==> exists|g: u32| place_rule(s)->ByGroup_0.contains_key(g),
{
    lemma_find_char(s, '(', 0);
    assert(open_paren() =~= seq!['(']);
    if exists|k: int|
        1 <= k < split_on(s, open_paren()).len() && has_pair(
            #[trigger] split_on(s, open_paren())[k],
        ) {
        let k = choose|k: int|
            1 <= k < split_on(s, open_paren()).len() && has_pair(
                #[trigger] split_on(s, open_paren())[k],
            );
        lemma_groups_gets(split_on(s, open_paren()), 1, Map::empty(), k);
        if exists|j: int| 0 <= j < s.len() && s[j] == '(' {
            assert(find_from(s, open_paren(), 0) is Some);
            assert(place_rule(s)->ByGroup_0 == groups_from(
                split_on(s, open_paren()),
                1,
                Map::empty(),
            ));
        }
    }
}

fn insert_text(m: &mut HashMap<u32, String>, k: u32, v: String)
    ensures
        text_map(final(m)@) == text_map(old(m)@).insert(k, v@),
{
    m.insert(k, v);
    assert(text_map(final(m)@) =~= text_map(old(m)@).insert(k, v@));
}

/// Reads a place rule.
pub fn parse_place_rule(places: &str) -> (r: PlaceResolution)
    ensures
        r@ == place_rule(places@),
{
    let s = chars_of(places);
    let open: Vec<char> = vec!['('];
    let close: Vec<char> = vec![')'];
    assert(open@ =~= open_paren());
    assert(close@ =~= close_paren());
    if find_exec(&s, &open, 0).is_none() {
        let t = trim_chars(&s);
        return PlaceResolution::Default(string_of(&t));
    }
    let frags = split_exec(&s, &open);
    let ghost fv = views(frags@);
    let mut m: HashMap<u32, String> = HashMap::new();
    assert(text_map(m@) =~= Map::<u32, Seq<char>>::empty());
    let mut i: usize = 1;
    while i < frags.len()
        invariant
            fv == views(frags@),
            fv == split_on(s@, open_paren()),
            close@ == close_paren(),
            1 <= i,
            groups_from(fv, i as int, text_map(m@)) == groups_from(fv, 1, Map::empty()),
        decreases frags@.len() - i,
    {
        let ghost m0 = text_map(m@);
        assert(fv[i as int] == frags@[i as int]@);
        if let Some((idx, place)) = split_once_exec(&frags[i], &close) {
            let keys = uint_list_of(&idx);
            let p = string_of(&trim_chars(&place));
            let mut j: usize = 0;
            while j < keys.len()
                invariant
                    insert_keys(text_map(m@), keys@, j as int, p@) == insert_keys(
                        m0,
                        keys@,
                        0,
                        p@,
                    ),
                decreases keys@.len() - j,
            {
                insert_text(&mut m, keys[j], p.clone());
                j += 1;
            }
        }
        i += 1;
    }
    PlaceResolution::ByGroup(m)
}

impl PlaceResolution {
    /// The place of the block with group index `g`.
    pub fn place_for(&self, g: u64) -> (r: String)
        ensures
            r@ == place_of(self@, g as int),
    {
        match self {
            PlaceResolution::Default(t) => t.clone(),
            PlaceResolution::ByGroup(m) => {
                if g > u32::MAX as u64 {
                    return String::new();
                }
                match m.get(&(g as u32)) {
                    Some(t) => t.clone(),
                    None => String::new(),
                }
            },
        }
    }
}

} // verus!
