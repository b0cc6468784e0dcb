//! Character-level scanning: digit runs, whitespace trimming and splitting on
//! literal markers, all stated over `Seq<char>`.

use vstd::prelude::*;

verus! {

/// An ASCII decimal digit.
pub open spec fn is_digit(c: char) -> bool {
    '0' <= c && c <= '9'
}

/// The value of an ASCII decimal digit.
pub open spec fn digit_val(c: char) -> int {
    (c as u32) as int - 48
}

/// The largest value a scanned digit run keeps exactly; longer runs stay at this cap.
pub const RUN_CAP: u64 = 0x1_0000_0000;

/// Extends the value of a digit run by one more digit.
pub open spec fn extend_run(cur: Option<int>, c: char) -> int {
    match cur {
        Some(v) => v * 10 + digit_val(c),
        None => digit_val(c),
    }
}

/// Adds a finished run to the collected values, unless it does not fit in a `u32`.
pub open spec fn close_run(cur: Option<int>, acc: Seq<u32>) -> Seq<u32> {
    match cur {
        Some(v) => if v <= u32::MAX {
            acc.push(v as u32)
        } else {
            acc
        },
        None => acc,
    }
}

/// Scans `s[i..]` for maximal runs of digits, given the run in progress and the
/// values collected so far.
pub open spec fn runs_from(s: Seq<char>, i: int, cur: Option<int>, acc: Seq<u32>) -> Seq<u32>
    decreases s.len() - i,
{
    if i >= s.len() {
        close_run(cur, acc)
    } else if is_digit(s[i]) {
        runs_from(s, i + 1, Some(extend_run(cur, s[i])), acc)
    } else {
        runs_from(s, i + 1, None, close_run(cur, acc))
    }
}

/// The values, in order, of the maximal digit runs of `s` that fit in a `u32`.
pub open spec fn uint_list(s: Seq<char>) -> Seq<u32> {
    runs_from(s, 0, None, Seq::empty())
}

/// The value of the first maximal digit run of `s[i..]`, given the run in progress.
pub open spec fn first_run_from(s: Seq<char>, i: int, cur: Option<int>) -> Option<int>
    decreases s.len() - i,
{
    if i >= s.len() {
        cur
    } else if is_digit(s[i]) {
        first_run_from(s, i + 1, Some(extend_run(cur, s[i])))
    } else if cur is Some {
        cur
    } else {
        first_run_from(s, i + 1, None)
    }
}

/// The value of the first maximal digit run of `s`, if `s` holds a digit.
pub open spec fn first_run(s: Seq<char>) -> Option<int> {
    first_run_from(s, 0, None)
}

/// The exact run value while it is below the cap, the cap otherwise.
pub open spec fn capped(cur: Option<int>) -> Option<u64> {
    match cur {
        Some(v) => Some(if v < RUN_CAP as int {
            v as u64
        } else {
            RUN_CAP
        }),
        None => None,
    }
}

/// Run values are never negative.
pub open spec fn run_ok(cur: Option<int>) -> bool {
    match cur {
        Some(v) => v >= 0,
        None => true,
    }
}

fn digit_char(c: char) -> (r: bool)
    ensures
        r == is_digit(c),
{
    '0' <= c && c <= '9'
}

fn extend_capped(cur: Option<u64>, c: char, Ghost(g): Ghost<Option<int>>) -> (r: u64)
    requires
        is_digit(c),
        run_ok(g),
        cur == capped(g),
    ensures
        Some(r) == capped(Some(extend_run(g, c))),
        extend_run(g, c) >= 0,
{
    let d = (c as u32 - '0' as u32) as u64;
    match cur {
        None => d,
        Some(v) => {
            if v >= RUN_CAP {
                RUN_CAP
            } else {
                let n = v * 10 + d;
                if n >= RUN_CAP {
                    RUN_CAP
                } else {
                    n
                }
            }
        },
    }
}

/// The characters of `s`, in order.
pub fn chars_of(s: &str) -> (r: Vec<char>)
    ensures
        r@ == s@,
{
    let n = s.unicode_len();
    let mut v: Vec<char> = Vec::new();
    let mut i: usize = 0;
    while i < n
        invariant
            n == s@.len(),
            i <= n,
            v@ == s@.subrange(0, i as int),
        decreases n - i,
    {
        v.push(s.get_char(i));
        i += 1;
    }
    assert(v@ =~= s@);
    v
}

/// The values of the maximal digit runs of `s` that fit in a `u32`, in order.
pub fn uint_list_of(s: &Vec<char>) -> (r: Vec<u32>)
    ensures
        r@ == uint_list(s@),
{
    let mut acc: Vec<u32> = Vec::new();
    let mut cur: Option<u64> = None;
    let ghost mut g: Option<int> = None;
    let mut i: usize = 0;
    while i < s.len()
        invariant
            i <= s@.len(),
            run_ok(g),
            cur == capped(g),
            runs_from(s@, i as int, g, acc@) == uint_list(s@),
        decreases s@.len() - i,
    {
        let c = s[i];
        if digit_char(c) {
            let n = extend_capped(cur, c, Ghost(g));
            proof {
                g = Some(extend_run(g, c));
            }
            cur = Some(n);
        } else {
            if let Some(v) = cur {
                if v <= u32::MAX as u64 {
                    acc.push(v as u32);
                }
            }
            cur = None;
            proof {
                g = None;
            }
        }
        i += 1;
    }
    if let Some(v) = cur {
        if v <= u32::MAX as u64 {
            acc.push(v as u32);
        }
    }
    acc
}

/// Parses a list of unsigned integers out of free text: every maximal run of
/// ASCII digits that fits in a `u32` gives one value, separators are ignored.
pub fn parse_list_uint(s: &str) -> (r: Vec<u32>)
    ensures
        r@ == uint_list(s@),
{
    let cs = chars_of(s);
    uint_list_of(&cs)
}

/// The value of the first digit run of `s`, kept exactly below `RUN_CAP` and
/// held at `RUN_CAP` above it.
pub fn first_run_of(s: &Vec<char>) -> (r: Option<u64>)
    ensures
        r == capped(first_run(s@)),
        run_ok(first_run(s@)),
{
    let mut cur: Option<u64> = None;
    let ghost mut g: Option<int> = None;
    let mut i: usize = 0;
    while i < s.len()
        invariant
            i <= s@.len(),
            run_ok(g),
            cur == capped(g),
            first_run_from(s@, i as int, g) == first_run(s@),
        decreases s@.len() - i,
    {
        let c = s[i];
        if digit_char(c) {
            let n = extend_capped(cur, c, Ghost(g));
            proof {
                g = Some(extend_run(g, c));
            }
            cur = Some(n);
        } else if cur.is_some() {
            return cur;
        }
        i += 1;
    }
    cur
}

/// A white-space character in the sense of Unicode's `White_Space` property.
pub open spec fn is_white(c: char) -> bool {
    let u = c as u32;
    (0x09 <= u && u <= 0x0D) || u == 0x20 || u == 0x85 || u == 0xA0 || u == 0x1680 || (0x2000
        <= u && u <= 0x200A) || u == 0x2028 || u == 0x2029 || u == 0x202F || u == 0x205F || u
        == 0x3000
}

/// The first index at or after `i` that does not hold white space.
pub open spec fn skip_white(s: Seq<char>, i: int) -> int
    decreases s.len() - i,
{
    if 0 <= i < s.len() && is_white(s[i]) {
        skip_white(s, i + 1)
    } else {
        i
    }
}

/// The end of `s[lo..j]` once the white space at its end is dropped.
pub open spec fn back_white(s: Seq<char>, lo: int, j: int) -> int
    decreases j - lo,
{
    if lo < j && is_white(s[j - 1]) {
        back_white(s, lo, j - 1)
    } else {
        j
    }
}

/// `s` without the white space at its start and at its end.
pub open spec fn trimmed(s: Seq<char>) -> Seq<char> {
    let a = skip_white(s, 0);
    s.subrange(a, back_white(s, a, s.len() as int))
}

/// `m` stands in `s` at index `i`.
pub open spec fn occurs_at(s: Seq<char>, m: Seq<char>, i: int) -> bool {
    0 <= i && i + m.len() <= s.len() && s.subrange(i, i + m.len()) == m
}

/// The first index at or after `i` where a non-empty `m` stands in `s`.
pub open spec fn find_from(s: Seq<char>, m: Seq<char>, i: int) -> Option<int>
    decreases s.len() - i,
{
    if m.len() == 0 || i + m.len() > s.len() {
        None
    } else if occurs_at(s, m, i) {
        Some(i)
    } else {
        find_from(s, m, i + 1)
    }
}

/// `s` cut at the first occurrence of `m`: the text before it and the text after it.
pub open spec fn split_once(s: Seq<char>, m: Seq<char>) -> Option<(Seq<char>, Seq<char>)> {
    match find_from(s, m, 0) {
        Some(j) => Some((s.subrange(0, j), s.subrange(j + m.len(), s.len() as int))),
        None => None,
    }
}

/// The pieces of `s[start..]` between occurrences of `m`, scanning from `i`,
/// after the pieces already cut (`acc`). Occurrences are taken left to right
/// and do not overlap.
pub open spec fn split_from(
    s: Seq<char>,
    m: Seq<char>,
    start: int,
    i: int,
    acc: Seq<Seq<char>>,
) -> Seq<Seq<char>>
    decreases s.len() - i,
{
    if m.len() == 0 || i + m.len() > s.len() {
        acc.push(s.subrange(start, s.len() as int))
    } else if occurs_at(s, m, i) {
        split_from(s, m, i + m.len(), i + m.len(), acc.push(s.subrange(start, i)))
    } else {
        split_from(s, m, start, i + 1, acc)
    }
}

/// The pieces of `s` between the occurrences of a non-empty marker `m`.
pub open spec fn split_on(s: Seq<char>, m: Seq<char>) -> Seq<Seq<char>> {
    split_from(s, m, 0, 0, Seq::empty())
}

/// The views of a sequence of character vectors.
pub open spec fn views(v: Seq<Vec<char>>) -> Seq<Seq<char>> {
    v.map_values(|x: Vec<char>| x@)
}

pub(crate) fn white_char(c: char) -> (r: bool)
    ensures
        r == is_white(c),
{
    let u = c as u32;
    (0x09 <= u && u <= 0x0D) || u == 0x20 || u == 0x85 || u == 0xA0 || u == 0x1680 || (0x2000
        <= u && u <= 0x200A) || u == 0x2028 || u == 0x2029 || u == 0x202F || u == 0x205F || u
        == 0x3000
}

/// A copy of `s[from..to]`.
pub fn sub_chars(s: &Vec<char>, from: usize, to: usize) -> (r: Vec<char>)
    requires
        from <= to <= s@.len(),
    ensures
        r@ == s@.subrange(from as int, to as int),
{
    let mut v: Vec<char> = Vec::new();
    let mut i: usize = from;
    while i < to
        invariant
            from <= i <= to <= s@.len(),
            v@ == s@.subrange(from as int, i as int),
        decreases to - i,
    {
        v.push(s[i]);
        i += 1;
        assert(v@ =~= s@.subrange(from as int, i as int));
    }
    v
}

/// `s` without the white space at its start and at its end.
pub fn trim_chars(s: &Vec<char>) -> (r: Vec<char>)
    ensures
        r@ == trimmed(s@),
{
    let mut a: usize = 0;
    while a < s.len() && white_char(s[a])
        invariant
            a <= s@.len(),
            skip_white(s@, 0) == skip_white(s@, a as int),
        decreases s@.len() - a,
    {
        a += 1;
    }
    let mut b: usize = s.len();
    while b > a && white_char(s[b - 1])
        invariant
            a <= b <= s@.len(),
            skip_white(s@, 0) == a,
            back_white(s@, a as int, s@.len() as int) == back_white(s@, a as int, b as int),
        decreases b - a,
    {
        b -= 1;
    }
    sub_chars(s, a, b)
}

/// Whether `m` stands in `s` at index `i`.
pub fn occurs_at_exec(s: &Vec<char>, m: &Vec<char>, i: usize) -> (r: bool)
    ensures
        r == occurs_at(s@, m@, i as int),
{
    let n = s.len();
    if i > n || m.len() > n - i {
        return false;
    }
    let mut k: usize = 0;
    while k < m.len()
        invariant
            n == s@.len(),
            k <= m@.len(),
            i + m@.len() <= s@.len(),
            forall|j: int| 0 <= j < k ==> s@[i + j] == m@[j],
        decreases m@.len() - k,
    {
        if s[i + k] != m[k] {
            assert(s@.subrange(i as int, i + m@.len())[k as int] != m@[k as int]);
            return false;
        }
        k += 1;
    }
    assert(s@.subrange(i as int, i + m@.len()) =~= m@);
    true
}

/// The first index at or after `from` where `m` stands in `s`.
pub fn find_exec(s: &Vec<char>, m: &Vec<char>, from: usize) -> (r: Option<usize>)
    requires
        from <= s@.len(),
    ensures
        match r {
            Some(j) => find_from(s@, m@, from as int) == Some(j as int) && occurs_at(
                s@,
                m@,
                j as int,
            ),
            None => find_from(s@, m@, from as int) is None,
        },
{
    let n = s.len();
    if m.len() == 0 {
        return None;
    }
    let mut i: usize = from;
    loop
        invariant
            n == s@.len(),
            m@.len() > 0,
            from <= i <= n,
            find_from(s@, m@, from as int) == find_from(s@, m@, i as int),
        decreases n - i,
    {
        if m.len() > n - i {
            return None;
        }
        if occurs_at_exec(s, m, i) {
            return Some(i);
        }
        if i == n {
            return None;
        }
        i += 1;
    }
}

/// `s` cut at the first occurrence of `m`.
pub fn split_once_exec(s: &Vec<char>, m: &Vec<char>) -> (r: Option<(Vec<char>, Vec<char>)>)
    ensures
        match r {
            Some((a, b)) => split_once(s@, m@) == Some((a@, b@)),
            None => split_once(s@, m@) is None,
        },
{
    let n = s.len();
    match find_exec(s, m, 0) {
        Some(j) => Some((sub_chars(s, 0, j), sub_chars(s, j + m.len(), n))),
        None => None,
    }
}

/// The pieces of `s` between the occurrences of `m`.
pub fn split_exec(s: &Vec<char>, m: &Vec<char>) -> (r: Vec<Vec<char>>)
    ensures
        views(r@) == split_on(s@, m@),
{
    let mut acc: Vec<Vec<char>> = Vec::new();
    let mut start: usize = 0;
    let mut i: usize = 0;
    assert(views(acc@) =~= Seq::<Seq<char>>::empty());
    while m.len() > 0 && i <= s.len() && m.len() <= s.len() - i
        invariant
            start <= i <= s@.len(),
            split_from(s@, m@, start as int, i as int, views(acc@)) == split_on(s@, m@),
        decreases s@.len() + 1 - i,
    {
        if occurs_at_exec(s, m, i) {
            let piece = sub_chars(s, start, i);
            proof {
                assert(views(acc@.push(piece)) =~= views(acc@).push(piece@));
            }
            acc.push(piece);
            i = i + m.len();
            start = i;
        } else {
            i += 1;
        }
    }
    let last = sub_chars(s, start, s.len());
    proof {
        assert(views(acc@.push(last)) =~= views(acc@).push(last@));
    }
    acc.push(last);
    acc
}

/// Splitting yields at least one piece beyond those already cut.
pub proof fn lemma_split_len(s: Seq<char>, m: Seq<char>, start: int, i: int, acc: Seq<Seq<char>>)
    ensures
        split_from(s, m, start, i, acc).len() >= acc.len() + 1,
    decreases s.len() - i,
{
    if m.len() == 0 || i + m.len() > s.len() {
    } else if occurs_at(s, m, i) {
        lemma_split_len(s, m, i + m.len(), i + m.len(), acc.push(s.subrange(start, i)));
    } else {
        lemma_split_len(s, m, start, i + 1, acc);
    }
}

/// Text without digits holds no digit run.
pub proof fn lemma_no_digit_no_run(s: Seq<char>, i: int)
    requires
        0 <= i,
        forall|j: int| i <= j < s.len() ==> !is_digit(#[trigger] s[j]),
    ensures
        first_run_from(s, i, None) is None,
    decreases s.len() - i,
{
    if i < s.len() {
        lemma_no_digit_no_run(s, i + 1);
    }
}

/// A one-character marker is found at or after `i` exactly when its character
/// stands there.
pub proof fn lemma_find_char(s: Seq<char>, c: char, i: int)
    requires
        0 <= i,
    ensures
        find_from(s, seq![c], i) is None <==> forall|j: int| i <= j < s.len() ==> s[j] != c,
    decreases s.len() - i,
{
    if i + 1 <= s.len() {
        if occurs_at(s, seq![c], i) {
            assert(s.subrange(i, i + 1)[0] == s[i]);
        } else {
            if s[i] == c {
                assert(s.subrange(i, i + 1) =~= seq![c]);
            }
            lemma_find_char(s, c, i + 1);
        }
    }
}

/// Relies on `String`'s `FromIterator<char>`: the string holds the given
/// characters, in order.
#[verifier::external_body]
pub(crate) fn string_of(v: &Vec<char>) -> (r: String)
    ensures
        r@ == v@,
{
    v.iter().collect()
}

} // verus!
