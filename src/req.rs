//! Request profiles, their merge with overrides into a request ready to send,
//! and the normalisation of a response into comparable text.
use vstd::prelude::*;
use crate::error::XdiffError;
use crate::headers::{
    content_type_of, find_header, get_content_type, has_header, header_name, header_name_of,
    header_value_ok, header_value_valid, header_views, insert_header, put_header,
};
use crate::json::{
    empty_object, json_compact, json_fields, json_is_object, json_parse, json_string, json_with,
    no_fields, opt_view, parse_json, set_field, string_value, to_compact, to_form, form_encoded,
};
use crate::cli::ExtraArgs;
use crate::config::ResponseProfile;
use crate::headers::{filter_headers, kept_headers};
use crate::json::{json_pretty, json_without, remove_field, to_pretty};
use crate::text::views;

verus! {

/// A templated HTTP request.
#[derive(Debug, Clone)]
pub struct RequestProfile {
    /// The HTTP verb.
    pub method: String,
    /// The absolute URL.
    pub url: String,
    /// Query parameters; a JSON object where present.
    pub params: Option<serde_json::Value>,
    /// Header names and values.
    pub headers: Vec<(String, String)>,
    /// The body; a JSON object where present.
    pub body: Option<serde_json::Value>,
}

/// Relies on serde_json::Value's `Clone`: an equal value.
#[verifier::external_body]
fn clone_value(v: &serde_json::Value) -> (r: serde_json::Value)
    ensures
        r == *v,
{
    v.clone()
}

/// A copy of a list of string pairs.
pub fn copy_pairs(v: &Vec<(String, String)>) -> (r: Vec<(String, String)>)
    ensures
        header_views(r@) == header_views(v@),
{
    let mut out: Vec<(String, String)> = Vec::new();
    let mut i: usize = 0;
    while i < v.len()
        invariant
            i <= v@.len(),
            header_views(out@) == header_views(v@).subrange(0, i as int),
        decreases v@.len() - i,
    {
        let ghost before = out@;
        out.push((v[i].0.clone(), v[i].1.clone()));
        proof {
            assert(header_views(out@) =~= header_views(before).push(header_views(v@)[i as int]));
            assert(header_views(v@).subrange(0, i + 1) =~= header_views(v@).subrange(0, i as int).push(
                header_views(v@)[i as int],
            ));
        }
        i = i + 1;
    }
    proof {
        assert(header_views(v@).subrange(0, v@.len() as int) =~= header_views(v@));
    }
    out
}

/// Whether the query parameters and the body, where present, are JSON objects.
pub open spec fn profile_ok(p: RequestProfile) -> bool {
    &&& (p.params is Some ==> json_is_object(p.params->Some_0))
    &&& (p.body is Some ==> json_is_object(p.body->Some_0))
}

/// What an override value stands for: the JSON it parses to, else a string.
pub open spec fn override_value(s: Seq<char>) -> serde_json::Value {
    match json_parse(s) {
        Some(v) => v,
        None => json_string(s),
    }
}

/// An object with the overrides set in order.
pub open spec fn with_overrides(
    v: serde_json::Value,
    o: Seq<(Seq<char>, Seq<char>)>,
) -> serde_json::Value
    decreases o.len(),
{
    if o.len() == 0 {
        v
    } else {
        json_with(with_overrides(v, o.drop_last()), o.last().0, override_value(o.last().1))
    }
}

/// The fields of an object after the overrides are set in order.
pub open spec fn merged_fields(
    f: Map<Seq<char>, serde_json::Value>,
    o: Seq<(Seq<char>, Seq<char>)>,
) -> Map<Seq<char>, serde_json::Value>
    decreases o.len(),
{
    if o.len() == 0 {
        f
    } else {
        merged_fields(f, o.drop_last()).insert(o.last().0, override_value(o.last().1))
    }
}

/// The value that the last override of key `k` sets, if one does.
pub open spec fn last_value_for(o: Seq<(Seq<char>, Seq<char>)>, k: Seq<char>) -> Option<Seq<char>>
    decreases o.len(),
{
    if o.len() == 0 {
        None
    } else if o.last().0 == k {
        Some(o.last().1)
    } else {
        last_value_for(o.drop_last(), k)
    }
}

/// Overrides are applied in order and the last write wins: a key that some
/// override sets holds the value of the last such override, and any other key
/// keeps what it held.
pub proof fn law_last_write_wins(
    f: Map<Seq<char>, serde_json::Value>,
    o: Seq<(Seq<char>, Seq<char>)>,
    k: Seq<char>,
)
    ensures
        match last_value_for(o, k) {
            Some(v) => merged_fields(f, o).contains_key(k) && merged_fields(f, o)[k]
                == override_value(v),
            None => merged_fields(f, o).contains_key(k) == f.contains_key(k) && (f.contains_key(k)
                ==> merged_fields(f, o)[k] == f[k]),
        },
    decreases o.len(),
{
    if o.len() > 0 {
        law_last_write_wins(f, o.drop_last(), k);
    }
}

/// The fields that an optional base object starts with.
pub open spec fn base_fields(b: Option<serde_json::Value>) -> Map<Seq<char>, serde_json::Value> {
    match b {
        Some(v) => json_fields(v),
        None => no_fields(),
    }
}

/// `v` is the optional base object, or an empty one, with the overrides set.
pub open spec fn is_merged(
    base: Option<serde_json::Value>,
    o: Seq<(Seq<char>, Seq<char>)>,
    v: serde_json::Value,
) -> bool {
    &&& json_is_object(v)
    &&& json_fields(v) == merged_fields(base_fields(base), o)
    &&& (base is Some ==> v == with_overrides(base->Some_0, o))
}

/// Sets each override on a JSON object, in order.
fn apply_overrides(v: &mut serde_json::Value, o: &Vec<(String, String)>)
    requires
        json_is_object(*old(v)),
    ensures
        json_is_object(*final(v)),
        *final(v) == with_overrides(*old(v), header_views(o@)),
        json_fields(*final(v)) == merged_fields(json_fields(*old(v)), header_views(o@)),
{
    let ghost start = *v;
    let mut i: usize = 0;
    proof {
        assert(header_views(o@).subrange(0, 0) =~= Seq::<(Seq<char>, Seq<char>)>::empty());
    }
    while i < o.len()
        invariant
            i <= o@.len(),
            json_is_object(*v),
            *v == with_overrides(start, header_views(o@).subrange(0, i as int)),
            json_fields(*v) == merged_fields(json_fields(start), header_views(o@).subrange(0, i as int)),
        decreases o@.len() - i,
    {
        let ghost pre = header_views(o@).subrange(0, i + 1);
        proof {
            assert(pre.drop_last() =~= header_views(o@).subrange(0, i as int));
            assert(pre.last() == header_views(o@)[i as int]);
        }
        let x = match parse_json(o[i].1.as_str()) {
            Some(x) => x,
            None => string_value(o[i].1.as_str()),
        };
        set_field(v, o[i].0.as_str(), x);
        i = i + 1;
    }
    proof {
        assert(header_views(o@).subrange(0, o@.len() as int) =~= header_views(o@));
    }
}

/// Whether every header override has a valid name and value.
pub open spec fn header_overrides_ok(o: Seq<(Seq<char>, Seq<char>)>) -> bool {
    forall|i: int|
        0 <= i < o.len() ==> (header_name_of(#[trigger] o[i].0) is Some && header_value_ok(o[i].1))
}

/// Headers with the overrides set in order, under their normalised names.
pub open spec fn with_headers(
    hs: Seq<(Seq<char>, Seq<char>)>,
    o: Seq<(Seq<char>, Seq<char>)>,
) -> Seq<(Seq<char>, Seq<char>)>
    decreases o.len(),
{
    if o.len() == 0 {
        hs
    } else {
        put_header(with_headers(hs, o.drop_last()), header_name_of(o.last().0)->Some_0, o.last().1)
    }
}

/// Headers with `content-type: application/json` added where none is set.
pub open spec fn with_default_type(hs: Seq<(Seq<char>, Seq<char>)>) -> Seq<(Seq<char>, Seq<char>)> {
    if has_header(hs, "content-type"@) {
        hs
    } else {
        hs.push(("content-type"@, "application/json"@))
    }
}

/// The headers that a request is sent with.
pub open spec fn resolved_headers(
    base: Seq<(Seq<char>, Seq<char>)>,
    o: Seq<(Seq<char>, Seq<char>)>,
) -> Seq<(Seq<char>, Seq<char>)> {
    with_default_type(with_headers(base, o))
}

/// Sets each header override, in order; fails on the first invalid one.
fn apply_header_overrides(hs: &mut Vec<(String, String)>, o: &Vec<(String, String)>) -> (r: Result<(), XdiffError>)
    ensures
        r is Ok <==> header_overrides_ok(header_views(o@)),
        r is Ok ==> header_views(final(hs)@) == with_headers(header_views(old(hs)@), header_views(o@)),
        r matches Err(e) ==> e is InvalidHeader,
{
    let ghost start = header_views(hs@);
    let ghost ov = header_views(o@);
    let mut i: usize = 0;
    proof {
        assert(ov.subrange(0, 0) =~= Seq::<(Seq<char>, Seq<char>)>::empty());
    }
    while i < o.len()
        invariant
            i <= o@.len(),
            ov == header_views(o@),
            header_views(hs@) == with_headers(start, ov.subrange(0, i as int)),
            forall|k: int|
                0 <= k < i ==> (header_name_of(#[trigger] ov[k].0) is Some && header_value_ok(ov[k].1)),
        decreases o@.len() - i,
    {
        let ghost pre = ov.subrange(0, i + 1);
        proof {
            assert(ov[i as int] == (o@[i as int].0@, o@[i as int].1@));
            assert(pre.drop_last() =~= ov.subrange(0, i as int));
            assert(pre.last() == ov[i as int]);
        }
        let name = match header_name(o[i].0.as_str()) {
            Some(n) => n,
            None => {
                proof {
                    assert(header_name_of(ov[i as int].0) is None);
                }
                return Err(XdiffError::InvalidHeader(o[i].0.clone()));
            },
        };
        if !header_value_valid(o[i].1.as_str()) {
            proof {
                assert(!header_value_ok(ov[i as int].1));
                assert(header_name_of(ov[i as int].0) is Some);
            }
            return Err(XdiffError::InvalidHeader(o[i].1.clone()));
        }
        insert_header(hs, name.as_str(), o[i].1.as_str());
        i = i + 1;
    }
    proof {
        assert(ov.subrange(0, o@.len() as int) =~= ov);
    }
    Ok(())
}

/// How a request body is written.
#[derive(Debug, Clone, Copy, PartialEq, Eq, Structural)]
pub enum BodyEncoding {
    Json,
    Form,
}

/// The body encoding for a media type: JSON for `application/json`, the
/// `key=value` form for `application/x-www-form-urlencoded` and
/// `multipart/form-data`, none for any other.
pub open spec fn encoding_of(ct: Option<Seq<char>>) -> Option<BodyEncoding> {
    match ct {
        Some(t) => if t == "application/json"@ {
            Some(BodyEncoding::Json)
        } else if t == "application/x-www-form-urlencoded"@ || t == "multipart/form-data"@ {
            Some(BodyEncoding::Form)
        } else {
            None
        },
        None => None,
    }
}

/// Whether two texts are equal.
fn same_text(a: &str, b: &str) -> (r: bool)
    ensures
        r == (a@ == b@),
{
    a.to_owned() == b.to_owned()
}

/// Picks the body encoding for a media type.
pub fn encoding_for(ct: &str) -> (r: Option<BodyEncoding>)
    ensures
        r == encoding_of(Some(ct@)),
{
    if same_text(ct, "application/json") {
        Some(BodyEncoding::Json)
    } else if same_text(ct, "application/x-www-form-urlencoded") || same_text(ct, "multipart/form-data") {
        Some(BodyEncoding::Form)
    } else {
        None
    }
}

/// The text of a body in an encoding, where it has one.
pub open spec fn encoded_text(e: BodyEncoding, v: serde_json::Value) -> Option<Seq<char>> {
    match e {
        BodyEncoding::Json => Some(json_compact(v)),
        BodyEncoding::Form => form_encoded(v),
    }
}

/// Writes a body in an encoding.
pub fn encode_body(e: BodyEncoding, v: &serde_json::Value) -> (r: Result<String, XdiffError>)
    ensures
        match encoded_text(e, *v) {
            Some(t) => r is Ok && r->Ok_0@ == t,
            None => r is Err && r->Err_0 is UnencodableBody,
        },
{
    let t = match e {
        BodyEncoding::Json => to_compact(v),
        BodyEncoding::Form => to_form(v),
    };
    match t {
        Some(t) => Ok(t),
        None => Err(XdiffError::UnencodableBody("body has no form for its content type".to_owned())),
    }
}

impl RequestProfile {
    pub fn new(
        method: String,
        url: String,
        params: Option<serde_json::Value>,
        headers: Vec<(String, String)>,
        body: Option<serde_json::Value>,
    ) -> (r: Self)
        ensures
            r == (RequestProfile { method, url, params, headers, body }),
    {
        RequestProfile { method, url, params, headers, body }
    }

    /// Checks that the query parameters and the body, where present, are
    /// JSON objects.
    pub fn validate(&self) -> (r: Result<(), XdiffError>)
        ensures
            r is Ok <==> profile_ok(*self),
            r matches Err(e) ==> e is InvalidProfile,
    {
        if let Some(params) = &self.params {
            if !params.is_object() {
                return Err(XdiffError::InvalidProfile("params must be an object".to_owned()));
            }
        }
        if let Some(body) = &self.body {
            if !body.is_object() {
                return Err(XdiffError::InvalidProfile("body must be an object".to_owned()));
            }
        }
        Ok(())
    }

    /// Resolves the request to send: headers with the header overrides and a
    /// default content type, the query object with the query overrides, and
    /// the body object with the body overrides, written in the encoding that
    /// the content type names.
    pub fn generate(&self, args: &ExtraArgs) -> (r: Result<(Vec<(String, String)>, serde_json::Value, String), XdiffError>)
        ensures
            !profile_ok(*self) ==> (r matches Err(e) && e is InvalidProfile),
            profile_ok(*self) && !header_overrides_ok(header_views(args.headers@)) ==> (r matches Err(e)
                && e is InvalidHeader),
            profile_ok(*self) && header_overrides_ok(header_views(args.headers@)) ==> {
                let hs = resolved_headers(header_views(self.headers@), header_views(args.headers@));
                let enc = encoding_of(content_type_of(hs));
                &&& enc is None <==> (r matches Err(e) && e is UnsupportedContentType)
                &&& enc is Some ==> exists|bv: serde_json::Value|
                    {
                        &&& is_merged(self.body, header_views(args.body@), bv)
                        &&& #[trigger] encoded_text(enc->Some_0, bv) is Some <==> r is Ok
                        &&& encoded_text(enc->Some_0, bv) is None ==> (r matches Err(e) && e is UnencodableBody)
                        &&& r matches Ok(t) ==> Some(t.2@) == encoded_text(enc->Some_0, bv)
                    }
                &&& r matches Ok(t) ==> header_views(t.0@) == hs && is_merged(
                    self.params,
                    header_views(args.query@),
                    t.1,
                )
            },
    {
        match self.validate() {
            Ok(()) => {},
            Err(e) => {
                return Err(e);
            },
        }
        let mut headers = copy_pairs(&self.headers);
        match apply_header_overrides(&mut headers, &args.headers) {
            Ok(()) => {},
            Err(e) => {
                return Err(e);
            },
        }
        let ghost merged = header_views(headers@);
        if find_header(&headers, "content-type").is_none() {
            headers.push(("content-type".to_owned(), "application/json".to_owned()));
            proof {
                assert(header_views(headers@) =~= merged.push(("content-type"@, "application/json"@)));
            }
        }
        proof {
            assert(header_views(headers@) == resolved_headers(header_views(self.headers@), header_views(args.headers@)));
        }
        let mut query = match &self.params {
            Some(p) => clone_value(p),
            None => empty_object(),
        };
        apply_overrides(&mut query, &args.query);
        let mut body = match &self.body {
            Some(b) => clone_value(b),
            None => empty_object(),
        };
        apply_overrides(&mut body, &args.body);
        let ct = get_content_type(&headers);
        let enc = match &ct {
            Some(t) => encoding_for(t.as_str()),
            None => None,
        };
        let ghost bv = body;
        match enc {
            None => Err(XdiffError::UnsupportedContentType(
                match ct {
                    Some(t) => t,
                    None => String::new(),
                },
            )),
            Some(e) => {
                let text = encode_body(e, &body);
                proof {
                    assert(is_merged(self.body, header_views(args.body@), bv));
                }
                match text {
                    Ok(t) => Ok((headers, query, t)),
                    Err(err) => Err(err),
                }
            },
        }
    }
}


/// An object with each listed field taken out, in order.
pub open spec fn without_fields(v: serde_json::Value, skip: Seq<Seq<char>>) -> serde_json::Value
    decreases skip.len(),
{
    if skip.len() == 0 {
        v
    } else {
        json_without(without_fields(v, skip.drop_last()), skip.last())
    }
}

/// A JSON body after the filter: an object loses the listed fields, any
/// other value stays as it is.
pub open spec fn filtered_body(v: serde_json::Value, skip: Seq<Seq<char>>) -> serde_json::Value {
    if json_is_object(v) {
        without_fields(v, skip)
    } else {
        v
    }
}

/// Takes the listed fields out of a JSON value, if it is an object.
pub fn drop_fields(v: &mut serde_json::Value, skip: &Vec<String>)
    ensures
        *final(v) == filtered_body(*old(v), views(skip@)),
        json_is_object(*old(v)) ==> json_is_object(*final(v)) && json_fields(*final(v))
            == json_fields(*old(v)).remove_keys(views(skip@).to_set()),
{
    if !v.is_object() {
        return;
    }
    let ghost start = *v;
    let mut i: usize = 0;
    proof {
        assert(views(skip@).subrange(0, 0) =~= Seq::<Seq<char>>::empty());
        assert(json_fields(start).remove_keys(Set::empty()) =~= json_fields(start));
        assert(views(skip@).subrange(0, 0).to_set() =~= Set::empty());
    }
    while i < skip.len()
        invariant
            i <= skip@.len(),
            json_is_object(start),
            json_is_object(*v),
            *v == without_fields(start, views(skip@).subrange(0, i as int)),
            json_fields(*v) == json_fields(start).remove_keys(views(skip@).subrange(0, i as int).to_set()),
        decreases skip@.len() - i,
    {
        let ghost pre = views(skip@).subrange(0, i + 1);
        proof {
            assert(pre.drop_last() =~= views(skip@).subrange(0, i as int));
            assert(pre.last() == skip@[i as int]@);
            assert(pre.to_set() =~= views(skip@).subrange(0, i as int).to_set().insert(skip@[i as int]@)) by {
                assert forall|x: Seq<char>| pre.to_set().contains(x) implies
                    views(skip@).subrange(0, i as int).to_set().insert(skip@[i as int]@).contains(x) by {
                    let k = choose|k: int| 0 <= k < pre.len() && pre[k] == x;
                    if k < i {
                        assert(views(skip@).subrange(0, i as int)[k] == x);
                    }
                }
                assert forall|x: Seq<char>| views(skip@).subrange(0, i as int).to_set().insert(skip@[i as int]@).contains(x)
                    implies pre.to_set().contains(x) by {
                    if x == skip@[i as int]@ {
                        assert(pre[i as int] == x);
                    } else {
                        let k = choose|k: int| 0 <= k < i && views(skip@).subrange(0, i as int)[k] == x;
                        assert(pre[k] == x);
                    }
                }
            }
        }
        let ghost before = *v;
        remove_field(v, skip[i].as_str());
        proof {
            assert(json_fields(*v) =~= json_fields(start).remove_keys(pre.to_set()));
        }
        i = i + 1;
    }
    proof {
        assert(views(skip@).subrange(0, skip@.len() as int) =~= views(skip@));
    }
}

/// The pretty text of a JSON body after the filter; `Err` where the body is
/// not JSON.
pub open spec fn filtered_json(text: Seq<char>, skip: Seq<Seq<char>>) -> Result<Seq<char>, ()> {
    match json_parse(text) {
        Some(v) => Ok(json_pretty(filtered_body(v, skip))),
        None => Err(()),
    }
}

/// Parses a JSON body, drops the listed top-level fields and writes it back
/// indented.
pub fn filter_json(text: &str, skip: &Vec<String>) -> (r: Result<String, XdiffError>)
    ensures
        match filtered_json(text@, views(skip@)) {
            Ok(t) => r is Ok && r->Ok_0@ == t,
            Err(()) => r matches Err(e) && e is MalformedBody,
        },
{
    let mut v = match parse_json(text) {
        Some(v) => v,
        None => {
            return Err(XdiffError::MalformedBody(text.to_owned()));
        },
    };
    drop_fields(&mut v, skip);
    match to_pretty(&v) {
        Some(t) => Ok(t),
        None => Err(XdiffError::MalformedBody(text.to_owned())),
    }
}

/// The header lines of a response: `name: value` and a newline for each.
pub open spec fn headers_text(hs: Seq<(Seq<char>, Seq<char>)>) -> Seq<char>
    decreases hs.len(),
{
    if hs.len() == 0 {
        Seq::empty()
    } else {
        headers_text(hs.drop_last()) + hs.last().0 + seq![':', ' '] + hs.last().1 + seq!['\n']
    }
}

/// Whether the media type is JSON.
pub open spec fn is_json_type(ct: Option<Seq<char>>) -> bool {
    ct == Some("application/json"@)
}

/// A response as received: its status line, headers in order and body text.
#[derive(Debug, Clone)]
pub struct ResponseExt {
    /// Protocol version and status, such as `HTTP/1.1 200 OK`.
    pub status_line: String,
    pub headers: Vec<(String, String)>,
    pub body: String,
}

impl ResponseExt {
    pub fn new(status_line: String, headers: Vec<(String, String)>, body: String) -> (r: Self)
        ensures
            r == (ResponseExt { status_line, headers, body }),
    {
        ResponseExt { status_line, headers, body }
    }

    /// The text that the response normalises to under a filter; `Err` where
    /// a body declared as JSON is not.
    pub open spec fn normalized(self, profile: ResponseProfile) -> Result<Seq<char>, ()> {
        let head = self.status_line@ + seq!['\n'] + headers_text(
            kept_headers(header_views(self.headers@), views(profile.skip_headers@)),
        ) + seq!['\n'];
        if is_json_type(content_type_of(header_views(self.headers@))) {
            match filtered_json(self.body@, views(profile.skip_body@)) {
                Ok(b) => Ok(head + b),
                Err(()) => Err(()),
            }
        } else {
            Ok(head + self.body@)
        }
    }

    /// Renders the response as comparable text: the status line, the headers
    /// that the filter keeps, a blank line, and the body, a JSON one without
    /// the skipped fields and indented.
    pub fn filter_text(&self, profile: &ResponseProfile) -> (r: Result<String, XdiffError>)
        ensures
            match self.normalized(*profile) {
                Ok(t) => r is Ok && r->Ok_0@ == t,
                Err(()) => r matches Err(e) && e is MalformedBody,
            },
    {
        let mut out = self.status_line.clone();
        out.append("\n");
        let kept = filter_headers(&self.headers, &profile.skip_headers);
        let ghost kv = header_views(kept@);
        let mut i: usize = 0;
        proof {
            reveal_strlit("\n");
            reveal_strlit(": ");
            assert(kv.subrange(0, 0) =~= Seq::<(Seq<char>, Seq<char>)>::empty());
        }
        while i < kept.len()
            invariant
                i <= kept@.len(),
                kv == header_views(kept@),
                out@ == self.status_line@ + seq!['\n'] + headers_text(kv.subrange(0, i as int)),
            decreases kept@.len() - i,
        {
            let ghost pre = kv.subrange(0, i + 1);
            proof {
                assert(pre.drop_last() =~= kv.subrange(0, i as int));
                assert(pre.last() == kv[i as int]);
            }
            out.append(kept[i].0.as_str());
            out.append(": ");
            out.append(kept[i].1.as_str());
            out.append("\n");
            proof {
                reveal_strlit("\n");
                reveal_strlit(": ");
            }
            i = i + 1;
        }
        proof {
            assert(kv.subrange(0, kept@.len() as int) =~= kv);
        }
        out.append("\n");
        let ct = get_content_type(&self.headers);
        let json = match &ct {
            Some(t) => same_text(t.as_str(), "application/json"),
            None => false,
        };
        if json {
            match filter_json(self.body.as_str(), &profile.skip_body) {
                Ok(b) => {
                    out.append(b.as_str());
                    Ok(out)
                },
                Err(e) => Err(e),
            }
        } else {
            out.append(self.body.as_str());
            Ok(out)
        }
    }
}

/// With empty skip lists nothing is dropped: every header stays, in its
/// order, and a JSON body keeps every field.
pub proof fn law_empty_filter_keeps_all(hs: Seq<(Seq<char>, Seq<char>)>, v: serde_json::Value)
    ensures
        kept_headers(hs, Seq::empty()) == hs,
        filtered_body(v, Seq::empty()) == v,
    decreases hs.len(),
{
    if hs.len() > 0 {
        law_empty_filter_keeps_all(hs.drop_last(), v);
        assert(hs.drop_last().push(hs.last()) =~= hs);
    }
}

/// No header that the filter keeps has a name on the skip list, in any case.
pub proof fn law_skipped_headers_absent(hs: Seq<(Seq<char>, Seq<char>)>, skip: Seq<Seq<char>>)
    ensures
        forall|i: int|
            0 <= i < kept_headers(hs, skip).len() ==> !crate::headers::is_skipped(
                #[trigger] kept_headers(hs, skip)[i].0,
                skip,
            ),
    decreases hs.len(),
{
    if hs.len() > 0 {
        law_skipped_headers_absent(hs.drop_last(), skip);
        let k = kept_headers(hs.drop_last(), skip);
        assert forall|i: int| 0 <= i < kept_headers(hs, skip).len() implies !crate::headers::is_skipped(
            #[trigger] kept_headers(hs, skip)[i].0,
            skip,
        ) by {
            if i < k.len() {
                assert(kept_headers(hs, skip)[i] == k[i]);
            }
        }
    }
}

/// The body fields that the filter keeps: none on the skip list, every other
/// one unchanged.
pub proof fn law_skipped_fields_absent(f: Map<Seq<char>, serde_json::Value>, skip: Seq<Seq<char>>)
    ensures
        forall|k: int| 0 <= k < skip.len() ==> !f.remove_keys(skip.to_set()).contains_key(#[trigger] skip[k]),
        forall|x: Seq<char>| f.contains_key(x) && !skip.contains(x) ==> #[trigger] f.remove_keys(skip.to_set()).contains_key(x)
            && f.remove_keys(skip.to_set())[x] == f[x],
{
    assert forall|k: int| 0 <= k < skip.len() implies !f.remove_keys(skip.to_set()).contains_key(#[trigger] skip[k]) by {
        assert(skip.to_set().contains(skip[k]));
    }
}

} // verus!
