//! The login exchange with the report server: the session cookie out of a
//! `set-cookie` header, the view-state fields of the login page, and the form
//! that logs a student in.

use vstd::prelude::*;

use crate::rule::{before, before_exec};
use crate::text::{
    chars_of, find_exec, find_from, lemma_split_len, split_exec, split_on, string_of, sub_chars,
    views,
};

verus! {

/// The marker that a proxy leaves in front of a header value.
pub open spec fn bracket_quote() -> Seq<char> {
    seq!['[', '"']
}

/// The pieces `ps[i..]` run together after `acc`.
pub open spec fn concat_from(ps: Seq<Seq<char>>, i: int, acc: Seq<char>) -> Seq<char>
    decreases ps.len() - i,
{
    if 0 <= i < ps.len() {
        concat_from(ps, i + 1, acc + ps[i])
    } else {
        acc
    }
}

/// `s` with every occurrence of `m`, taken left to right, removed.
pub open spec fn remove_all(s: Seq<char>, m: Seq<char>) -> Seq<char> {
    concat_from(split_on(s, m), 0, Seq::empty())
}

/// The session cookie of a `set-cookie` header: the text before its first
/// `;`, without the `["` marks.
pub open spec fn cookie_of(header: Seq<char>) -> Seq<char> {
    remove_all(before(header, seq![';']), bracket_quote())
}

/// The text of a line without its carriage return.
pub open spec fn strip_cr(l: Seq<char>) -> Seq<char> {
    if l.len() > 0 && l.last() == '\r' {
        l.drop_last()
    } else {
        l
    }
}

/// The word that marks a view-state line.
pub open spec fn view_state_word() -> Seq<char> {
    seq!['V', 'I', 'E', 'W', 'S', 'T', 'A', 'T', 'E']
}

/// The text that opens an attribute value: `value="`.
pub open spec fn value_open() -> Seq<char> {
    seq!['v', 'a', 'l', 'u', 'e', '=', '"']
}

/// The text that closes the input element: `" />`.
pub open spec fn value_close() -> Seq<char> {
    seq!['"', ' ', '/', '>']
}

/// The value of a view-state line: after the last `value="`, up to the
/// first `" />`.
pub open spec fn state_value(line: Seq<char>) -> Seq<char> {
    before(split_on(line, value_open()).last(), value_close())
}

/// The values of the view-state lines among `lines[i..]`, after those in `acc`.
pub open spec fn states_from(lines: Seq<Seq<char>>, i: int, acc: Seq<Seq<char>>) -> Seq<Seq<char>>
    decreases lines.len() - i,
{
    if 0 <= i < lines.len() {
        let l = strip_cr(lines[i]);
        states_from(
            lines,
            i + 1,
            if find_from(l, view_state_word(), 0) is Some {
                acc.push(state_value(l))
            } else {
                acc
            },
        )
    } else {
        acc
    }
}

/// The values of the view-state lines of a page, in order.
pub open spec fn view_states(body: Seq<char>) -> Seq<Seq<char>> {
    states_from(split_on(body, seq!['\n']), 0, Seq::empty())
}

/// The MD5 digest of a text's UTF-8 bytes, as lowercase hexadecimal.
pub uninterp spec fn md5_hex(s: Seq<char>) -> Seq<char>;

/// Relies on `md5::compute` and the digest's `LowerHex` formatting: the 16
/// digest bytes of the text's UTF-8 encoding, two lowercase hex digits each.
#[verifier::external_body]
fn md5_of(s: &str) -> (r: String)
    ensures
        r@ == md5_hex(s@),
        r@.len() == 32,
{
    format!("{:x}", md5::compute(s))
}

/// The texts of a sequence of string pairs.
pub open spec fn pair_texts(v: Seq<(String, String)>) -> Seq<(Seq<char>, Seq<char>)> {
    v.map_values(|p: (String, String)| (p.0@, p.1@))
}

/// The fields of the login form: the student code, the MD5 digest of the
/// password, the two view-state values, and the fixed fields of the page.
pub open spec fn login_fields(user: Seq<char>, password: Seq<char>, v0: Seq<char>, v1: Seq<char>) -> Seq<
    (Seq<char>, Seq<char>),
> {
    seq![
        ("txtUserName"@, user),
        ("txtPassword"@, md5_hex(password)),
        ("btnSubmit"@, "Đăng nhập"@),
        ("__EVENTTARGET"@, Seq::empty()),
        ("__EVENTARGUMENT"@, Seq::empty()),
        ("__LASTFOCUS"@, Seq::empty()),
        ("__VIEWSTATE"@, v0),
        ("__VIEWSTATEGENERATOR"@, v1),
        ("PageHeader1$drpNgonNgu"@, "E43296C6F24C4410A894F46D57D2D3AB"@),
        ("PageHeader1$hidisNotify"@, "0"@),
        ("PageHeader1$hidValueNotify"@, "."@),
        ("hidUserId"@, Seq::empty()),
        ("hidUserFullName"@, Seq::empty()),
        ("hidTrainingSystemId"@, Seq::empty()),
    ]
}

fn joined(ps: &Vec<Vec<char>>) -> (r: Vec<char>)
    ensures
        r@ == concat_from(views(ps@), 0, Seq::empty()),
{
    let ghost pv = views(ps@);
    let mut out: Vec<char> = Vec::new();
    let mut i: usize = 0;
    while i < ps.len()
        invariant
            pv == views(ps@),
            concat_from(pv, i as int, out@) == concat_from(pv, 0, Seq::empty()),
        decreases ps@.len() - i,
    {
        assert(pv[i as int] == ps@[i as int]@);
        let piece = &ps[i];
        let ghost before_out = out@;
        let mut j: usize = 0;
        while j < piece.len()
            invariant
                j <= piece@.len(),
                out@ == before_out + piece@.subrange(0, j as int),
            decreases piece@.len() - j,
        {
            out.push(piece[j]);
            j += 1;
            assert(out@ =~= before_out + piece@.subrange(0, j as int));
        }
        assert(piece@.subrange(0, piece@.len() as int) =~= piece@);
        i += 1;
    }
    out
}

/// The session cookie of a `set-cookie` header.
pub fn session_cookie(header: &str) -> (r: String)
    ensures
        r@ == cookie_of(header@),
{
    let h = chars_of(header);
    let semi: Vec<char> = vec![';'];
    let marks: Vec<char> = vec!['[', '"'];
    assert(marks@ =~= bracket_quote());
    let head = before_exec(&h, &semi);
    assert(semi@ =~= seq![';']);
    let pieces = split_exec(&head, &marks);
    string_of(&joined(&pieces))
}

/// The value of one view-state line.
fn state_value_exec(line: &Vec<char>) -> (r: Vec<char>)
    ensures
        r@ == state_value(line@),
{
    let open: Vec<char> = vec!['v', 'a', 'l', 'u', 'e', '=', '"'];
    let close: Vec<char> = vec!['"', ' ', '/', '>'];
    assert(open@ =~= value_open());
    assert(close@ =~= value_close());
    let pieces = split_exec(line, &open);
    proof {
        lemma_split_len(line@, open@, 0, 0, Seq::empty());
    }
    let last = pieces.len() - 1;
    assert(views(pieces@)[last as int] == pieces@[last as int]@);
    before_exec(&pieces[last], &close)
}

/// The two view-state values of the login page (`__VIEWSTATE` and
/// `__VIEWSTATEGENERATOR`, in page order), or `None` for a page with fewer
/// than two view-state lines.
pub fn view_state(body: &str) -> (r: Option<(String, String)>)
    ensures
        match r {
            Some((a, b)) => {
                &&& view_states(body@).len() >= 2
                &&& a@ == view_states(body@)[0]
                &&& b@ == view_states(body@)[1]
            },
            None => view_states(body@).len() < 2,
        },
{
    let s = chars_of(body);
    let nl: Vec<char> = vec!['\n'];
    assert(nl@ =~= seq!['\n']);
    let word: Vec<char> = vec!['V', 'I', 'E', 'W', 'S', 'T', 'A', 'T', 'E'];
    assert(word@ =~= view_state_word());
    let lines = split_exec(&s, &nl);
    let ghost lv = views(lines@);
    let mut acc: Vec<Vec<char>> = Vec::new();
    assert(views(acc@) =~= Seq::<Seq<char>>::empty());
    let mut i: usize = 0;
    while i < lines.len()
        invariant
            lv == views(lines@),
            lv == split_on(s@, seq!['\n']),
            s@ == body@,
            word@ == view_state_word(),
            states_from(lv, i as int, views(acc@)) == view_states(body@),
        decreases lines@.len() - i,
    {
        assert(lv[i as int] == lines@[i as int]@);
        let raw = &lines[i];
        let line = if raw.len() > 0 && raw[raw.len() - 1] == '\r' {
            let l = sub_chars(raw, 0, raw.len() - 1);
            assert(l@ =~= raw@.drop_last());
            l
        } else {
            sub_chars(raw, 0, raw.len())
        };
        assert(raw@.subrange(0, raw@.len() as int) =~= raw@);
        if find_exec(&line, &word, 0).is_some() {
            let v = state_value_exec(&line);
            proof {
                assert(views(acc@.push(v)) =~= views(acc@).push(v@));
            }
            acc.push(v);
        }
        i += 1;
    }
    if acc.len() < 2 {
        return None;
    }
    assert(views(acc@)[0] == acc@[0]@);
    assert(views(acc@)[1] == acc@[1]@);
    Some((string_of(&acc[0]), string_of(&acc[1])))
}

/// The fields of the login form for a student code and password, given the
/// two view-state values of the login page.
pub fn login_form(username: &str, password: &str, view: &(String, String)) -> (r: Vec<
    (String, String),
>)
    ensures
        pair_texts(r@) == login_fields(username@, password@, view.0@, view.1@),
        r@[1].1@.len() == 32,
{
    let fields: Vec<(String, String)> = vec![
        (String::from_str("txtUserName"), String::from_str(username)),
        (String::from_str("txtPassword"), md5_of(password)),
        (String::from_str("btnSubmit"), String::from_str("Đăng nhập")),
        (String::from_str("__EVENTTARGET"), String::new()),
        (String::from_str("__EVENTARGUMENT"), String::new()),
        (String::from_str("__LASTFOCUS"), String::new()),
        (String::from_str("__VIEWSTATE"), view.0.clone()),
        (String::from_str("__VIEWSTATEGENERATOR"), view.1.clone()),
        (String::from_str("PageHeader1$drpNgonNgu"), String::from_str("E43296C6F24C4410A894F46D57D2D3AB")),
        (String::from_str("PageHeader1$hidisNotify"), String::from_str("0")),
        (String::from_str("PageHeader1$hidValueNotify"), String::from_str(".")),
        (String::from_str("hidUserId"), String::new()),
        (String::from_str("hidUserFullName"), String::new()),
        (String::from_str("hidTrainingSystemId"), String::new()),
    ];
    assert(pair_texts(fields@) =~= login_fields(username@, password@, view.0@, view.1@));
    fields
}

} // verus!
