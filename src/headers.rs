//! Header lists: names compared without regard to case, overrides that replace
//! or append, the content type, and dropping skipped headers.
use vstd::prelude::*;
use vstd::string::StrSliceExecFns;
use crate::json::opt_view;
use crate::text::{before_semicolon, eq_ignore_case, eq_ignoring_case, media_type};

verus! {

/// The view of a list of headers: (name, value) pairs in order.
pub open spec fn header_views(hs: Seq<(String, String)>) -> Seq<(Seq<char>, Seq<char>)> {
    hs.map_values(|e: (String, String)| (e.0@, e.1@))
}

/// A character allowed in a header name: an HTTP token character.
pub open spec fn is_token_char(c: char) -> bool {
    ||| ('a' <= c && c <= 'z')
    ||| ('A' <= c && c <= 'Z')
    ||| ('0' <= c && c <= '9')
    ||| c == '!' || c == '"' || c == '#' || c == '$' || c == '%' || c == '&' || c == '\''
    ||| c == '*' || c == '+' || c == '-' || c == '.' || c == '^' || c == '_' || c == '`'
    ||| c == '|' || c == '~'
}

/// A character with ASCII upper case folded to lower case.
pub open spec fn ascii_lower(c: char) -> char {
    if 'A' <= c && c <= 'Z' {
        ((c as int) + 32) as char
    } else {
        c
    }
}

/// The normalised form of a header name: a valid name has 1 to 65535 token
/// characters and is written in lower case.
pub open spec fn header_name_of(s: Seq<char>) -> Option<Seq<char>> {
    if 0 < s.len() <= 65535 && forall|i: int| 0 <= i < s.len() ==> is_token_char(#[trigger] s[i]) {
        Some(s.map_values(|c: char| ascii_lower(c)))
    } else {
        None
    }
}

/// Whether text is a valid header value: tabs and visible characters only,
/// no other control character.
pub open spec fn header_value_ok(s: Seq<char>) -> bool {
    forall|i: int| 0 <= i < s.len() ==> (#[trigger] s[i] == '\t' || ((s[i] as int) >= 32 && s[i] != '\x7f'))
}

/// Relies on reqwest::header::HeaderName::from_bytes: accepts a valid header
/// name and gives its normal form.
#[verifier::external_body]
pub(crate) fn header_name(k: &str) -> (r: Option<String>)
    ensures
        match r {
            Some(n) => header_name_of(k@) == Some(n@),
            None => header_name_of(k@) is None,
        },
{
    reqwest::header::HeaderName::from_bytes(k.as_bytes()).ok().map(|n| n.as_str().to_string())
}

/// Relies on reqwest::header::HeaderValue::from_str: whether the text is a
/// valid header value.
#[verifier::external_body]
pub(crate) fn header_value_valid(v: &str) -> (r: bool)
    ensures
        r == header_value_ok(v@),
{
    reqwest::header::HeaderValue::from_str(v).is_ok()
}

/// Whether some header of the list has the name `n`, ignoring case.
pub open spec fn has_header(hs: Seq<(Seq<char>, Seq<char>)>, n: Seq<char>) -> bool {
    exists|i: int| 0 <= i < hs.len() && eq_ignoring_case(#[trigger] hs[i].0, n)
}

/// Sets header `n` to `v`: every header of that name (ignoring case) takes
/// the new name and value in its place; without one, the header is appended.
pub open spec fn put_header(
    hs: Seq<(Seq<char>, Seq<char>)>,
    n: Seq<char>,
    v: Seq<char>,
) -> Seq<(Seq<char>, Seq<char>)> {
    if has_header(hs, n) {
        hs.map_values(
            |e: (Seq<char>, Seq<char>)|
                if eq_ignoring_case(e.0, n) {
                    (n, v)
                } else {
                    e
                },
        )
    } else {
        hs.push((n, v))
    }
}

/// Sets one header in a list, as `put_header` says.
pub fn insert_header(hs: &mut Vec<(String, String)>, n: &str, v: &str)
    ensures
        header_views(final(hs)@) == put_header(header_views(old(hs)@), n@, v@),
{
    let ghost start = header_views(hs@);
    let mut found = false;
    let mut i: usize = 0;
    while i < hs.len()
        invariant
            i <= hs@.len(),
            hs@.len() == start.len(),
            found == exists|k: int| 0 <= k < i && eq_ignoring_case(#[trigger] start[k].0, n@),
            forall|k: int|
                0 <= k < i ==> #[trigger] header_views(hs@)[k] == (if eq_ignoring_case(
                    start[k].0,
                    n@,
                ) {
                    (n@, v@)
                } else {
                    start[k]
                }),
            forall|k: int| i <= k < hs@.len() ==> #[trigger] header_views(hs@)[k] == start[k],
        decreases hs@.len() - i,
    {
        let ghost prev = hs@;
        let ghost was_found = found;
        proof {
            assert(start[i as int] == header_views(hs@)[i as int]);
        }
        if eq_ignore_case(hs[i].0.as_str(), n) {
            hs.set(i, (n.to_owned(), v.to_owned()));
            found = true;
            proof {
                assert(eq_ignoring_case(start[i as int].0, n@));
            }
        }
        proof {
            assert forall|k: int| 0 <= k < hs@.len() && k != i implies #[trigger] header_views(hs@)[k]
                == header_views(prev)[k] by {
                assert(hs@[k] == prev[k]);
            }
            if was_found {
                let w = choose|k: int| 0 <= k < i && eq_ignoring_case(#[trigger] start[k].0, n@);
                assert(0 <= w < i + 1 && eq_ignoring_case(start[w].0, n@));
            }
            if exists|k: int| 0 <= k < i + 1 && eq_ignoring_case(#[trigger] start[k].0, n@) {
                let w = choose|k: int| 0 <= k < i + 1 && eq_ignoring_case(#[trigger] start[k].0, n@);
                if w < i {
                    assert(was_found);
                }
            }
        }
        i = i + 1;
    }
    if found {
        proof {
            assert(has_header(start, n@));
            assert(header_views(hs@) =~= put_header(start, n@, v@));
        }
    } else {
        proof {
            assert(!has_header(start, n@)) by {
                if has_header(start, n@) {
                    let k = choose|k: int| 0 <= k < start.len() && eq_ignoring_case(#[trigger] start[k].0, n@);
                    assert(eq_ignoring_case(start[k].0, n@));
                }
            }
        }
        let ghost before = hs@;
        hs.push((n.to_owned(), v.to_owned()));
        proof {
            assert(header_views(hs@) =~= header_views(before).push((n@, v@)));
            assert(header_views(before) =~= start);
        }
    }
}

/// The first value of header `n` (ignoring case).
pub open spec fn header_value(hs: Seq<(Seq<char>, Seq<char>)>, n: Seq<char>) -> Option<Seq<char>>
    decreases hs.len(),
{
    if hs.len() == 0 {
        None
    } else if eq_ignoring_case(hs[0].0, n) {
        Some(hs[0].1)
    } else {
        header_value(hs.drop_first(), n)
    }
}

proof fn lemma_header_value_none(hs: Seq<(Seq<char>, Seq<char>)>, n: Seq<char>)
    ensures
        (header_value(hs, n) is None) == !has_header(hs, n),
    decreases hs.len(),
{
    if hs.len() > 0 {
        lemma_header_value_none(hs.drop_first(), n);
        if has_header(hs, n) && !eq_ignoring_case(hs[0].0, n) {
            let k = choose|k: int| 0 <= k < hs.len() && eq_ignoring_case(#[trigger] hs[k].0, n);
            assert(hs.drop_first()[k - 1] == hs[k]);
        }
        if has_header(hs.drop_first(), n) {
            let k = choose|k: int| 0 <= k < hs.len() - 1 && eq_ignoring_case(#[trigger] hs.drop_first()[k].0, n);
            assert(hs[k + 1] == hs.drop_first()[k]);
        }
    }
}

/// Looks up the first value of header `n`, ignoring case.
pub fn find_header(hs: &Vec<(String, String)>, n: &str) -> (r: Option<String>)
    ensures
        opt_view(r) == header_value(header_views(hs@), n@),
        (r is None) == !has_header(header_views(hs@), n@),
{
    proof {
        lemma_header_value_none(header_views(hs@), n@);
        assert(header_views(hs@).subrange(0, hs@.len() as int) =~= header_views(hs@));
    }
    let mut i: usize = 0;
    while i < hs.len()
        invariant
            i <= hs@.len(),
            header_value(header_views(hs@), n@) == header_value(
                header_views(hs@).subrange(i as int, hs@.len() as int),
                n@,
            ),
        decreases hs@.len() - i,
    {
        let ghost rest = header_views(hs@).subrange(i as int, hs@.len() as int);
        proof {
            assert(rest.drop_first() =~= header_views(hs@).subrange(i + 1, hs@.len() as int));
            assert(rest[0] == header_views(hs@)[i as int]);
        }
        if eq_ignore_case(hs[i].0.as_str(), n) {
            return Some(hs[i].1.clone());
        }
        i = i + 1;
    }
    None
}

/// The media type of a header list: the `content-type` value without its
/// parameters.
pub open spec fn content_type_of(hs: Seq<(Seq<char>, Seq<char>)>) -> Option<Seq<char>> {
    match header_value(hs, "content-type"@) {
        Some(v) => Some(before_semicolon(v)),
        None => None,
    }
}

/// The media type that the headers declare, if any.
pub fn get_content_type(headers: &Vec<(String, String)>) -> (r: Option<String>)
    ensures
        opt_view(r) == content_type_of(header_views(headers@)),
{
    match find_header(headers, "content-type") {
        Some(v) => Some(media_type(v.as_str())),
        None => None,
    }
}

/// Whether a header name is on a skip list, ignoring case.
pub open spec fn is_skipped(name: Seq<char>, skip: Seq<Seq<char>>) -> bool {
    exists|k: int| 0 <= k < skip.len() && eq_ignoring_case(#[trigger] skip[k], name)
}

/// The headers whose names are not on the skip list, in their order.
pub open spec fn kept_headers(
    hs: Seq<(Seq<char>, Seq<char>)>,
    skip: Seq<Seq<char>>,
) -> Seq<(Seq<char>, Seq<char>)>
    decreases hs.len(),
{
    if hs.len() == 0 {
        hs
    } else if is_skipped(hs.last().0, skip) {
        kept_headers(hs.drop_last(), skip)
    } else {
        kept_headers(hs.drop_last(), skip).push(hs.last())
    }
}

/// Whether `name` is on the skip list, ignoring case.
pub fn skips(skip: &Vec<String>, name: &str) -> (r: bool)
    ensures
        r == is_skipped(name@, crate::text::views(skip@)),
{
    let ghost vs = crate::text::views(skip@);
    let mut i: usize = 0;
    while i < skip.len()
        invariant
            i <= skip@.len(),
            vs == crate::text::views(skip@),
            forall|k: int| 0 <= k < i ==> !eq_ignoring_case(#[trigger] vs[k], name@),
        decreases skip@.len() - i,
    {
        if eq_ignore_case(skip[i].as_str(), name) {
            proof {
                assert(eq_ignoring_case(vs[i as int], name@));
            }
            return true;
        }
        i = i + 1;
    }
    false
}

/// The headers whose names are not on the skip list.
pub fn filter_headers(hs: &Vec<(String, String)>, skip: &Vec<String>) -> (r: Vec<(String, String)>)
    ensures
        header_views(r@) == kept_headers(header_views(hs@), crate::text::views(skip@)),
{
    let ghost vs = crate::text::views(skip@);
    let mut out: Vec<(String, String)> = Vec::new();
    let mut i: usize = 0;
    proof {
        assert(header_views(hs@).subrange(0, 0) =~= Seq::<(Seq<char>, Seq<char>)>::empty());
        assert(header_views(out@) =~= Seq::<(Seq<char>, Seq<char>)>::empty());
    }
    while i < hs.len()
        invariant
            i <= hs@.len(),
            vs == crate::text::views(skip@),
            header_views(out@) == kept_headers(header_views(hs@).subrange(0, i as int), vs),
        decreases hs@.len() - i,
    {
        let ghost pre = header_views(hs@).subrange(0, i + 1);
        proof {
            assert(pre.drop_last() =~= header_views(hs@).subrange(0, i as int));
            assert(pre.last() == header_views(hs@)[i as int]);
        }
        if !skips(skip, hs[i].0.as_str()) {
            let ghost before = out@;
            out.push((hs[i].0.clone(), hs[i].1.clone()));
            proof {
                assert(header_views(out@) =~= header_views(before).push(header_views(hs@)[i as int]));
            }
        }
        i = i + 1;
    }
    proof {
        assert(header_views(hs@).subrange(0, hs@.len() as int) =~= header_views(hs@));
    }
    out
}

} // verus!
