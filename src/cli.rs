//! Command-line values: the run arguments and the override tokens, sorted by
//! where each override goes.
use vstd::prelude::*;
use vstd::string::StrSliceExecFns;
use crate::error::XdiffError;
use crate::headers::header_views;
use crate::text::{first_index, find_char, trim, trimmed};

verus! {

/// The command line of the tool.
#[derive(Debug, Clone)]
pub struct Args {
    pub action: Action,
}

/// What the tool is asked to do.
#[derive(Debug, Clone)]
#[non_exhaustive]
pub enum Action {
    /// Diff two API responses based on a given profile.
    Run(RunArgs),
    /// Ask for two URLs and print a profile for them.
    Parse,
}

/// The arguments of a diff run.
#[derive(Debug, Clone)]
pub struct RunArgs {
    /// Configuration file to use.
    pub config: Option<String>,
    /// Profile name.
    pub profile: String,
    /// Overrides: `key=value` for the query, `%key=value` for a header,
    /// `@key=value` for the body.
    pub extra_params: Vec<KeyVal>,
}

/// Where an override goes.
#[derive(Debug, Clone, Copy, PartialEq, Eq, Structural)]
pub enum KeyValType {
    Query,
    Header,
    Body,
}

/// One override: its destination, key and value.
#[derive(Debug, Clone, PartialEq, Eq)]
pub struct KeyVal {
    pub key_type: KeyValType,
    pub key: String,
    pub val: String,
}

/// Whether `c` is an ASCII letter.
pub open spec fn is_ascii_letter(c: char) -> bool {
    ('a' <= c && c <= 'z') || ('A' <= c && c <= 'Z')
}

/// What an override token means: split at the first `=`, both sides trimmed;
/// a leading `%` routes the key to the headers, `@` to the body, a letter to
/// the query. `None` for a token without `=` or with another first character.
pub open spec fn key_val_of(s: Seq<char>) -> Option<(KeyValType, Seq<char>, Seq<char>)> {
    let i = first_index(s, '=');
    if i >= s.len() {
        None
    } else {
        route_key_val(trimmed(s.subrange(0, i)), trimmed(s.subrange(i + 1, s.len() as int)))
    }
}

/// Where a trimmed key and value go: a leading `%` routes the rest of the key
/// to the headers, `@` to the body, a letter routes the whole key to the query.
pub open spec fn route_key_val(key: Seq<char>, val: Seq<char>) -> Option<(KeyValType, Seq<char>, Seq<char>)> {
    if key.len() == 0 {
        None
    } else if key[0] == '%' {
        Some((KeyValType::Header, key.drop_first(), val))
    } else if key[0] == '@' {
        Some((KeyValType::Body, key.drop_first(), val))
    } else if is_ascii_letter(key[0]) {
        Some((KeyValType::Query, key, val))
    } else {
        None
    }
}

/// Builds an override from its trimmed key and value, routed by the key's
/// first character.
pub fn key_val_from_parts(key: &str, val: &str) -> (r: Result<KeyVal, XdiffError>)
    ensures
        match r {
            Ok(kv) => route_key_val(key@, val@) == Some((kv.key_type, kv.key@, kv.val@)),
            Err(e) => route_key_val(key@, val@) is None && e is InvalidOverride,
        },
{
    let kl = key.unicode_len();
    if kl == 0 {
        return Err(XdiffError::InvalidOverride(key.to_owned()));
    }
    let c = key.get_char(0);
    let (key_type, k) = if c == '%' {
        (KeyValType::Header, key.substring_char(1, kl))
    } else if c == '@' {
        (KeyValType::Body, key.substring_char(1, kl))
    } else if ('a' <= c && c <= 'z') || ('A' <= c && c <= 'Z') {
        (KeyValType::Query, key)
    } else {
        return Err(XdiffError::InvalidOverride(key.to_owned()));
    };
    proof {
        assert(key@.drop_first() =~= key@.subrange(1, kl as int));
    }
    Ok(KeyVal { key_type, key: k.to_owned(), val: val.to_owned() })
}

/// Reads one override token.
pub fn parse_key_val(s: &str) -> (r: Result<KeyVal, XdiffError>)
    ensures
        match r {
            Ok(kv) => key_val_of(s@) == Some((kv.key_type, kv.key@, kv.val@)),
            Err(e) => key_val_of(s@) is None && e is InvalidOverride,
        },
{
    let n = s.unicode_len();
    let i = find_char(s, '=');
    if i >= n {
        return Err(XdiffError::InvalidOverride(s.to_owned()));
    }
    let key = trim(s.substring_char(0, i));
    let val = trim(s.substring_char(i + 1, n));
    match key_val_from_parts(key, val) {
        Ok(kv) => Ok(kv),
        Err(_) => Err(XdiffError::InvalidOverride(s.to_owned())),
    }
}

/// The (key, value) pairs of the overrides of one destination, in order.
pub open spec fn pairs_of(args: Seq<KeyVal>, t: KeyValType) -> Seq<(Seq<char>, Seq<char>)>
    decreases args.len(),
{
    if args.len() == 0 {
        Seq::empty()
    } else if args.last().key_type == t {
        pairs_of(args.drop_last(), t).push((args.last().key@, args.last().val@))
    } else {
        pairs_of(args.drop_last(), t)
    }
}

/// Overrides sorted by destination, each list in the order given.
#[derive(Debug, Clone)]
pub struct ExtraArgs {
    pub headers: Vec<(String, String)>,
    pub query: Vec<(String, String)>,
    pub body: Vec<(String, String)>,
}

impl ExtraArgs {
    /// Sorts overrides by destination, keeping their order.
    pub fn from_key_vals(args: Vec<KeyVal>) -> (r: ExtraArgs)
        ensures
            header_views(r.headers@) == pairs_of(args@, KeyValType::Header),
            header_views(r.query@) == pairs_of(args@, KeyValType::Query),
            header_views(r.body@) == pairs_of(args@, KeyValType::Body),
    {
        let mut headers: Vec<(String, String)> = Vec::new();
        let mut query: Vec<(String, String)> = Vec::new();
        let mut body: Vec<(String, String)> = Vec::new();
        let mut i: usize = 0;
        proof {
            assert(args@.subrange(0, 0) =~= Seq::<KeyVal>::empty());
            assert(header_views(headers@) =~= Seq::<(Seq<char>, Seq<char>)>::empty());
            assert(header_views(query@) =~= Seq::<(Seq<char>, Seq<char>)>::empty());
            assert(header_views(body@) =~= Seq::<(Seq<char>, Seq<char>)>::empty());
        }
        while i < args.len()
            invariant
                i <= args@.len(),
                header_views(headers@) == pairs_of(args@.subrange(0, i as int), KeyValType::Header),
                header_views(query@) == pairs_of(args@.subrange(0, i as int), KeyValType::Query),
                header_views(body@) == pairs_of(args@.subrange(0, i as int), KeyValType::Body),
            decreases args@.len() - i,
        {
            let ghost pre = args@.subrange(0, i + 1);
            let ghost (h0, q0, b0) = (headers@, query@, body@);
            proof {
                assert(pre.drop_last() =~= args@.subrange(0, i as int));
                assert(pre.last() == args@[i as int]);
            }
            let pair = (args[i].key.clone(), args[i].val.clone());
            match args[i].key_type {
                KeyValType::Header => headers.push(pair),
                KeyValType::Query => query.push(pair),
                KeyValType::Body => body.push(pair),
            }
            proof {
                assert(header_views(headers@) =~= if args@[i as int].key_type == KeyValType::Header {
                    header_views(h0).push((args@[i as int].key@, args@[i as int].val@))
                } else {
                    header_views(h0)
                });
                assert(header_views(query@) =~= if args@[i as int].key_type == KeyValType::Query {
                    header_views(q0).push((args@[i as int].key@, args@[i as int].val@))
                } else {
                    header_views(q0)
                });
                assert(header_views(body@) =~= if args@[i as int].key_type == KeyValType::Body {
                    header_views(b0).push((args@[i as int].key@, args@[i as int].val@))
                } else {
                    header_views(b0)
                });
            }
            i = i + 1;
        }
        proof {
            assert(args@.subrange(0, args@.len() as int) =~= args@);
        }
        ExtraArgs { headers, query, body }
    }
}

impl From<Vec<KeyVal>> for ExtraArgs {
    fn from(args: Vec<KeyVal>) -> ExtraArgs {
        ExtraArgs::from_key_vals(args)
    }
}

impl vstd::std_specs::convert::FromSpecImpl<Vec<KeyVal>> for ExtraArgs {
    open spec fn obeys_from_spec() -> bool {
        false
    }

    open spec fn from_spec(v: Vec<KeyVal>) -> ExtraArgs {
        arbitrary()
    }
}

} // verus!
