use vstd::prelude::*;
use vstd::string::{StrSliceExecFns, StringExecFns};
use reqwest::header::{HeaderMap, HeaderValue};
use crate::models::ScrapeError;
use crate::text::{
    is_white_space, lemma_fields_step, split_fields, split_once, split_once_at, white_space,
};

verus! {

#[verifier::external_type_specification]
#[verifier::external_body]
#[verifier::reject_recursive_types(T)]
pub struct ExHeaderMap<T>(HeaderMap<T>);

#[verifier::external_type_specification]
#[verifier::external_body]
pub struct ExHeaderValue(HeaderValue);

/// The text without leading white space.
pub open spec fn trim_start(t: Seq<char>) -> Seq<char>
    decreases t.len(),
{
    if t.len() > 0 && is_white_space(t[0]) {
        trim_start(t.drop_first())
    } else {
        t
    }
}

/// The text without trailing white space.
pub open spec fn trim_end(t: Seq<char>) -> Seq<char>
    decreases t.len(),
{
    if t.len() > 0 && is_white_space(t.last()) {
        trim_end(t.drop_last())
    } else {
        t
    }
}

/// The text without leading and trailing white space (as `str::trim`).
pub open spec fn trimmed(t: Seq<char>) -> Seq<char> {
    trim_end(trim_start(t))
}

/// `s` without leading and trailing white space.
pub fn trim(s: &str) -> (r: &str)
    ensures
        r@ == trimmed(s@),
{
    let n = s.unicode_len();
    let mut a: usize = 0;
    proof {
        assert(s@.subrange(0, n as int) =~= s@);
    }
    while a < n && white_space(s.get_char(a))
        invariant
            n == s@.len(),
            a <= n,
            trim_start(s@) == trim_start(s@.subrange(a as int, n as int)),
        decreases n - a,
    {
        proof {
            assert(s@.subrange(a as int, n as int).drop_first() =~= s@.subrange(a + 1, n as int));
        }
        a = a + 1;
    }
    proof {
        if a < n {
            assert(s@.subrange(a as int, n as int)[0] == s@[a as int]);
        }
    }
    let ghost front = s@.subrange(a as int, n as int);
    let mut b: usize = n;
    while b > a && white_space(s.get_char(b - 1))
        invariant
            n == s@.len(),
            a <= b <= n,
            front == s@.subrange(a as int, n as int),
            trim_start(s@) == front,
            trim_end(front) == trim_end(s@.subrange(a as int, b as int)),
        decreases b - a,
    {
        proof {
            assert(s@.subrange(a as int, b as int).drop_last() =~= s@.subrange(a as int, b - 1));
        }
        b = b - 1;
    }
    proof {
        if b > a {
            assert(s@.subrange(a as int, b as int).last() == s@[b - 1]);
        }
    }
    s.substring_char(a, b)
}

/// The (name, value) pair of one `;`-separated field of a cookie header:
/// the trimmed field split at its first `=`; a field without `=` has none.
pub open spec fn cookie_of(field: Seq<char>) -> Option<(Seq<char>, Seq<char>)> {
    split_once_at(trimmed(field), '=')
}

pub open spec fn cookie_pairs_of(fields: Seq<Seq<char>>) -> Seq<(Seq<char>, Seq<char>)>
    decreases fields.len(),
{
    if fields.len() == 0 {
        Seq::empty()
    } else {
        let prev = cookie_pairs_of(fields.drop_last());
        match cookie_of(fields.last()) {
            Some(p) => prev.push(p),
            None => prev,
        }
    }
}

/// The (name, value) pairs of a cookie header, in order.
pub open spec fn cookie_pairs(s: Seq<char>) -> Seq<(Seq<char>, Seq<char>)> {
    cookie_pairs_of(split_fields(';', s))
}

pub open spec fn pair_views(v: Seq<(String, String)>) -> Seq<(Seq<char>, Seq<char>)> {
    v.map_values(|p: (String, String)| (p.0@, p.1@))
}

/// The value of the last pair named `name`.
pub open spec fn cookie_lookup(pairs: Seq<(Seq<char>, Seq<char>)>, name: Seq<char>) -> Option<Seq<char>>
    decreases pairs.len(),
{
    if pairs.len() == 0 {
        None
    } else if pairs.last().0 == name {
        Some(pairs.last().1)
    } else {
        cookie_lookup(pairs.drop_last(), name)
    }
}

fn push_cookie(out: &mut Vec<(String, String)>, field: &str)
    ensures
        pair_views(final(out)@) == match cookie_of(field@) {
            Some(p) => pair_views(old(out)@).push(p),
            None => pair_views(old(out)@),
        },
{
    let t = trim(field);
    match split_once(t, '=') {
        Some((name, value)) => {
            out.push((String::from_str(name), String::from_str(value)));
            proof {
                assert(pair_views(final(out)@) =~= pair_views(old(out)@).push((name@, value@)));
            }
        },
        None => {},
    }
}

/// The (name, value) pairs of a cookie header such as `a=1; b=2`: fields
/// are split at `;`, trimmed, and split at their first `=`; fields without
/// `=` are left out. A name may occur more than once.
pub fn parse_cookies(cookie_str: &str) -> (r: Vec<(String, String)>)
    ensures
        pair_views(r@) == cookie_pairs(cookie_str@),
{
    let s = cookie_str;
    let n = s.unicode_len();
    let mut out: Vec<(String, String)> = Vec::new();
    let ghost mut fs: Seq<Seq<char>> = Seq::empty();
    let mut start: usize = 0;
    let mut i: usize = 0;
    proof {
        assert(s@.subrange(0, 0) =~= Seq::<char>::empty());
        assert(fs.push(s@.subrange(0, 0)) =~= seq![Seq::<char>::empty()]);
        assert(pair_views(out@) =~= Seq::empty());
    }
    while i < n
        invariant
            n == s@.len(),
            start <= i <= n,
            pair_views(out@) == cookie_pairs_of(fs),
            split_fields(';', s@.subrange(0, i as int)) == fs.push(s@.subrange(start as int, i as int)),
        decreases n - i,
    {
        let c = s.get_char(i);
        proof {
            lemma_fields_step(';', s@, i as int);
        }
        if c == ';' {
            let field = s.substring_char(start, i);
            push_cookie(&mut out, field);
            proof {
                let old_fs = fs;
                fs = fs.push(field@);
                assert(fs.drop_last() =~= old_fs);
                assert(s@.subrange(i + 1, i + 1) =~= Seq::<char>::empty());
                assert(fs.push(s@.subrange(i + 1, i + 1)) =~= old_fs.push(
                    s@.subrange(start as int, i as int),
                ).push(Seq::empty()));
            }
            start = i + 1;
        } else {
            proof {
                assert(s@.subrange(start as int, i + 1) =~= s@.subrange(start as int, i as int).push(
                    c,
                ));
                assert(fs.push(s@.subrange(start as int, i + 1)) =~= fs.push(
                    s@.subrange(start as int, i as int),
                ).update(fs.len() as int, s@.subrange(start as int, i as int).push(c)));
            }
        }
        i = i + 1;
    }
    let last = s.substring_char(start, n);
    push_cookie(&mut out, last);
    proof {
        assert(s@.subrange(0, n as int) =~= s@);
        let all = fs.push(last@);
        assert(all.drop_last() =~= fs);
    }
    out
}

/// The cookies that a response set.
#[derive(Debug)]
pub struct HeaderExtractor {
    pub cookies: Vec<(String, String)>,
}

/// Relies on reqwest's (http's) HeaderMap::get: the first value of the
/// header `name`, if the map has one.
#[verifier::external_body]
fn first_header<'a>(headers: &'a HeaderMap, name: &str) -> (r: Option<&'a HeaderValue>) {
    headers.get(name)
}

/// Relies on reqwest's (http's) HeaderValue::to_str: the text of a value
/// made of visible ASCII only, `None` for any other value.
#[verifier::external_body]
fn header_text(value: &HeaderValue) -> (r: Option<String>) {
    match value.to_str() {
        Ok(t) => Some(t.to_string()),
        Err(_) => None,
    }
}

/// The text of the first `Set-Cookie` header, when it is plain text.
fn set_cookie_header(headers: &HeaderMap) -> (r: Option<String>) {
    match first_header(headers, "Set-Cookie") {
        Some(v) => header_text(v),
        None => None,
    }
}

impl HeaderExtractor {
    /// The cookies of a `Set-Cookie` header text; none without one.
    pub fn from_set_cookie(value: Option<&str>) -> (r: HeaderExtractor)
        ensures
            match value {
                Some(t) => pair_views(r.cookies@) == cookie_pairs(t@),
                None => r.cookies@.len() == 0,
            },
    {
        match value {
            Some(t) => HeaderExtractor { cookies: parse_cookies(t) },
            None => HeaderExtractor { cookies: Vec::new() },
        }
    }

    /// The cookies of the first `Set-Cookie` header of a response; none when
    /// there is no such header or it is not plain text.
    pub fn new(headers: HeaderMap) -> (r: HeaderExtractor)
        ensures
            r.cookies@.len() == 0 || exists|t: Seq<char>| pair_views(r.cookies@) == cookie_pairs(t),
    {
        let value = set_cookie_header(&headers);
        match value {
            Some(t) => HeaderExtractor::from_set_cookie(Some(t.as_str())),
            None => HeaderExtractor::from_set_cookie(None),
        }
    }

    /// The value of the last cookie named `cookie`.
    pub fn get_cookie(&self, cookie: &str) -> (r: Option<String>)
        ensures
            match cookie_lookup(pair_views(self.cookies@), cookie@) {
                Some(v) => (r matches Some(s) && s@ == v),
                None => r is None,
            },
    {
        let ghost pv = pair_views(self.cookies@);
        let mut found: Option<String> = None;
        let mut i: usize = 0;
        while i < self.cookies.len()
            invariant
                i <= self.cookies@.len(),
                pv == pair_views(self.cookies@),
                match cookie_lookup(pv.subrange(0, i as int), cookie@) {
                    Some(v) => (found matches Some(s) && s@ == v),
                    None => found is None,
                },
            decreases self.cookies@.len() - i,
        {
            proof {
                assert(pv.subrange(0, i + 1).drop_last() =~= pv.subrange(0, i as int));
            }
            let (name, value) = &self.cookies[i];
            if compare_names(name.as_str(), cookie) {
                found = Some(value.clone());
            }
            i = i + 1;
        }
        proof {
            assert(pv.subrange(0, self.cookies@.len() as int) =~= pv);
        }
        found
    }
}

fn compare_names(a: &str, b: &str) -> (r: bool)
    ensures
        r == (a@ == b@),
{
    crate::text::compare_text(a, b) == 0
}

/// The `sessionid` cookie that a response set.
pub fn get_session_id(headers: HeaderMap) -> (r: Result<String, ScrapeError>)
    ensures
        r matches Ok(s) ==> exists|t: Seq<char>|
            cookie_lookup(cookie_pairs(t), "sessionid"@) == Some(#[trigger] s@),
{
    match set_cookie_header(&headers) {
        None => Err(ScrapeError::Missing(String::from_str("Cookie not found"))),
        Some(t) => {
            let h = HeaderExtractor::from_set_cookie(Some(t.as_str()));
            match h.get_cookie("sessionid") {
                Some(v) => Ok(v),
                None => Err(
                    ScrapeError::Missing(String::from_str("sessionid not found in cookie_str")),
                ),
            }
        },
    }
}

} // verus!
