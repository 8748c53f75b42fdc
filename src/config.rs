//! Named comparison profiles: two request templates and a response filter.
use vstd::prelude::*;
use crate::error::XdiffError;
use crate::req::{profile_ok, RequestProfile, ResponseExt};

verus! {

/// What to leave out of a response before comparing.
#[derive(Debug, Clone)]
pub struct ResponseProfile {
    /// Header names to drop, compared without regard to case.
    pub skip_headers: Vec<String>,
    /// Top-level JSON body fields to drop.
    pub skip_body: Vec<String>,
}

impl ResponseProfile {
    pub fn new(skip_headers: Vec<String>, skip_body: Vec<String>) -> (r: Self)
        ensures
            r == (ResponseProfile { skip_headers, skip_body }),
    {
        ResponseProfile { skip_headers, skip_body }
    }
}

/// One named comparison: the two requests and the response filter.
#[derive(Debug, Clone)]
pub struct DiffProfile {
    pub req1: RequestProfile,
    pub req2: RequestProfile,
    pub res: ResponseProfile,
}

impl DiffProfile {
    pub fn new(req1: RequestProfile, req2: RequestProfile, res: ResponseProfile) -> (r: Self)
        ensures
            r == (DiffProfile { req1, req2, res }),
    {
        DiffProfile { req1, req2, res }
    }

    /// Checks both request templates.
    pub fn validate(&self) -> (r: Result<(), XdiffError>)
        ensures
            r is Ok <==> (profile_ok(self.req1) && profile_ok(self.req2)),
            r matches Err(e) ==> e is InvalidProfile,
    {
        match self.req1.validate() {
            Ok(()) => {},
            Err(e) => {
                return Err(e);
            },
        }
        self.req2.validate()
    }

    /// Normalises both responses with this profile's filter and diffs the
    /// results.
    pub fn diff_responses(&self, res1: &ResponseExt, res2: &ResponseExt) -> (r: Result<String, XdiffError>)
        ensures
            match (res1.normalized(self.res), res2.normalized(self.res)) {
                (Ok(t1), Ok(t2)) => r is Ok && r->Ok_0@ == crate::diff::diff_report(t1, t2),
                (Err(()), _) => r matches Err(e) && e is MalformedBody,
                (Ok(_), Err(())) => r matches Err(e) && e is MalformedBody,
            },
    {
        let t1 = match res1.filter_text(&self.res) {
            Ok(t) => t,
            Err(e) => {
                return Err(e);
            },
        };
        let t2 = match res2.filter_text(&self.res) {
            Ok(t) => t,
            Err(e) => {
                return Err(e);
            },
        };
        Ok(crate::diff::diff_text(t1.as_str(), t2.as_str()))
    }
}

/// Whether the profile names are unique.
pub open spec fn names_unique(p: Seq<(String, DiffProfile)>) -> bool {
    forall|i: int, j: int| 0 <= i < j < p.len() ==> #[trigger] p[i].0@ != #[trigger] p[j].0@
}

/// The comparison profiles, by name.
#[derive(Debug, Clone)]
pub struct DiffConfig {
    pub profiles: Vec<(String, DiffProfile)>,
}

impl DiffConfig {
    /// A configuration from named profiles; `None` where a name repeats.
    pub fn new(profiles: Vec<(String, DiffProfile)>) -> (r: Option<Self>)
        ensures
            r is Some <==> names_unique(profiles@),
            r matches Some(c) ==> c.profiles@ == profiles@,
    {
        let n = profiles.len();
        let mut i: usize = 0;
        while i < n
            invariant
                n == profiles@.len(),
                i <= n,
                forall|a: int, b: int| 0 <= a < b < n && a < i ==> #[trigger] profiles@[a].0@ != #[trigger] profiles@[b].0@,
            decreases n - i,
        {
            let mut j: usize = i + 1;
            while j < n
                invariant
                    n == profiles@.len(),
                    i < j <= n,
                    forall|a: int, b: int| 0 <= a < b < n && a < i ==> #[trigger] profiles@[a].0@ != #[trigger] profiles@[b].0@,
                    forall|b: int| i < b < j ==> profiles@[i as int].0@ != #[trigger] profiles@[b].0@,
                decreases n - j,
            {
                if profiles[i].0 == profiles[j].0 {
                    return None;
                }
                j = j + 1;
            }
            i = i + 1;
        }
        Some(DiffConfig { profiles })
    }

    /// The first profile of a name, if there is one.
    pub fn get_profile(&self, name: &str) -> (r: Option<&DiffProfile>)
        ensures
            match r {
                Some(p) => exists|i: int|
                    0 <= i < self.profiles@.len() && #[trigger] self.profiles@[i].0@ == name@
                        && self.profiles@[i].1 == *p && forall|k: int| 0 <= k < i ==> #[trigger] self.profiles@[k].0@ != name@,
                None => forall|i: int| 0 <= i < self.profiles@.len() ==> #[trigger] self.profiles@[i].0@ != name@,
            },
    {
        let target = name.to_owned();
        let mut i: usize = 0;
        while i < self.profiles.len()
            invariant
                i <= self.profiles@.len(),
                target@ == name@,
                forall|k: int| 0 <= k < i ==> #[trigger] self.profiles@[k].0@ != name@,
            decreases self.profiles@.len() - i,
        {
            if self.profiles[i].0 == target {
                return Some(&self.profiles[i].1);
            }
            i = i + 1;
        }
        None
    }

    /// The first profile of a name, or `ProfileNotFound`.
    pub fn find_profile(&self, name: &str) -> (r: Result<&DiffProfile, XdiffError>)
        ensures
            match r {
                Ok(p) => exists|i: int|
                    0 <= i < self.profiles@.len() && #[trigger] self.profiles@[i].0@ == name@
                        && self.profiles@[i].1 == *p && forall|k: int| 0 <= k < i ==> #[trigger] self.profiles@[k].0@ != name@,
                Err(e) => e is ProfileNotFound && forall|i: int| 0 <= i < self.profiles@.len() ==> #[trigger] self.profiles@[i].0@ != name@,
            },
    {
        match self.get_profile(name) {
            Some(p) => Ok(p),
            None => Err(XdiffError::ProfileNotFound(name.to_owned())),
        }
    }

    /// Checks every profile's request templates.
    pub fn validate(&self) -> (r: Result<(), XdiffError>)
        ensures
            r is Ok <==> forall|i: int| 0 <= i < self.profiles@.len() ==> profile_ok(#[trigger] self.profiles@[i].1.req1) && profile_ok(self.profiles@[i].1.req2),
            r matches Err(e) ==> e is InvalidProfile,
    {
        let mut i: usize = 0;
        while i < self.profiles.len()
            invariant
                i <= self.profiles@.len(),
                forall|k: int| 0 <= k < i ==> profile_ok(#[trigger] self.profiles@[k].1.req1) && profile_ok(self.profiles@[k].1.req2),
            decreases self.profiles@.len() - i,
        {
            match self.profiles[i].1.validate() {
                Ok(()) => {},
                Err(_) => {
                    return Err(XdiffError::InvalidProfile(self.profiles[i].0.clone()));
                },
            }
            i = i + 1;
        }
        Ok(())
    }
}

} // verus!
