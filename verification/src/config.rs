//! Metadata-driven configuration: API namespaces, their endpoint groups
//! and routes, and the per-group root path that tells the Root Unnester
//! where the record list lives.
//!
//! Loading the catalog from disk and decoding its TOML are the calling
//! program's concern; this module holds the validated shape and the logic
//! over it. Lookups are association lists keyed by name; the first binding
//! wins.

use vstd::prelude::*;

use crate::errors::ProcessorError;

verus! {

/// A group of routes sharing processing metadata.
#[derive(Debug)]
pub struct EndpointGroup {
    /// The key under which the record list lives (for example `resultado`
    /// or `dados`); `None` when the document root is already the list.
    pub root_path: Option<String>,
    /// Identification keys mapped to relative paths.
    pub routes: Vec<(String, String)>,
}

/// One API namespace: its entry point and its endpoint groups.
#[derive(Debug)]
pub struct ApiConfig {
    /// The API's base entry point.
    pub base_url: String,
    /// The endpoint groups, by name.
    pub endpoints: Vec<(String, EndpointGroup)>,
}

/// The whole catalog: API namespaces by name.
#[derive(Debug)]
pub struct Config {
    pub apis: Vec<(String, ApiConfig)>,
}

/// The value bound to `key` in an association list; the first binding wins.
pub open spec fn assoc_lookup<V>(m: Seq<(String, V)>, key: Seq<char>) -> Option<V>
    decreases m.len(),
{
    if m.len() == 0 {
        Option::None
    } else if m[0].0@ == key {
        Option::Some(m[0].1)
    } else {
        assoc_lookup(m.skip(1), key)
    }
}

/// The position of `key`'s first binding in an association list.
#[verifier::loop_isolation(false)]
fn assoc_find<V>(m: &Vec<(String, V)>, key: &str) -> (r: Option<usize>)
    ensures
        match r {
            Some(i) => i < m@.len() && assoc_lookup(m@, key@) == Option::Some(m@[i as int].1),
            None => assoc_lookup(m@, key@) is None,
        },
{
    proof {
        assert(m@.skip(0) =~= m@);
    }
    let mut i: usize = 0;
    while i < m.len()
        invariant
            0 <= i <= m@.len(),
            assoc_lookup(m@, key@) == assoc_lookup(m@.skip(i as int), key@),
        decreases m@.len() - i,
    {
        if crate::strutil::str_eq(m[i].0.as_str(), key) {
            proof {
                let s = m@.skip(i as int);
                assert(s[0] == m@[i as int]);
                assert(assoc_lookup(s, key@) == Option::Some(s[0].1));
            }
            return Some(i);
        }
        proof {
            let s = m@.skip(i as int);
            assert(s[0] == m@[i as int]);
            assert(s.skip(1) =~= m@.skip(i + 1));
        }
        i = i + 1;
    }
    proof {
        assert(m@.skip(i as int).len() == 0);
    }
    None
}

/// The base with all trailing slashes removed.
pub open spec fn trim_end_slashes(s: Seq<char>) -> Seq<char>
    decreases s.len(),
{
    if s.len() > 0 && s.last() == '/' {
        trim_end_slashes(s.drop_last())
    } else {
        s
    }
}

/// The path with all leading slashes removed.
pub open spec fn trim_start_slashes(s: Seq<char>) -> Seq<char>
    decreases s.len(),
{
    if s.len() > 0 && s[0] == '/' {
        trim_start_slashes(s.skip(1))
    } else {
        s
    }
}

/// A base and a relative path joined with exactly one slash between them.
pub open spec fn spec_join_urls(base: Seq<char>, path: Seq<char>) -> Seq<char> {
    trim_end_slashes(base) + seq!['/'] + trim_start_slashes(path)
}

/// The resolved URL for `api`/`group`/`key`, when the catalog binds them.
pub open spec fn spec_resolve(c: Config, api: Seq<char>, group: Seq<char>, key: Seq<char>) -> Option<
    Seq<char>,
> {
    match assoc_lookup(c.apis@, api) {
        Option::Some(ac) => match assoc_lookup(ac.endpoints@, group) {
            Option::Some(g) => match assoc_lookup(g.routes@, key) {
                Option::Some(route) => Option::Some(spec_join_urls(ac.base_url@, route@)),
                Option::None => Option::None,
            },
            Option::None => Option::None,
        },
        Option::None => Option::None,
    }
}

impl Config {
    /// Post-load validation, fail-fast: every API must name a base URL and
    /// hold at least one endpoint group. The error message names the
    /// offending API and which of the two rules it breaks.
    pub fn validate(&self) -> (r: Result<(), ProcessorError>)
        ensures
            match r {
                Ok(_) => forall|i: int|
                    0 <= i < self.apis@.len() ==> (#[trigger] self.apis@[i]).1.base_url@.len() > 0
                        && self.apis@[i].1.endpoints@.len() > 0,
                Err(e) => e matches ProcessorError::Schema(m) && exists|i: int|
                    0 <= i < self.apis@.len() && (((#[trigger] self.apis@[i]).1.base_url@.len()
                        == 0 && m@ == "API names no base URL: "@ + self.apis@[i].0@) || (
                    self.apis@[i].1.endpoints@.len() == 0 && m@ == "API holds no endpoint group: "@
                        + self.apis@[i].0@)),
            },
    {
        let mut i: usize = 0;
        while i < self.apis.len()
            invariant
                0 <= i <= self.apis@.len(),
                forall|k: int|
                    0 <= k < i ==> (#[trigger] self.apis@[k]).1.base_url@.len() > 0
                        && self.apis@[k].1.endpoints@.len() > 0,
            decreases self.apis@.len() - i,
        {
            if self.apis[i].1.base_url.as_str().unicode_len() == 0 {
                let mut m = String::from_str("API names no base URL: ");
                m.append(self.apis[i].0.as_str());
                return Err(ProcessorError::Schema(m));
            }
            if self.apis[i].1.endpoints.len() == 0 {
                let mut m = String::from_str("API holds no endpoint group: ");
                m.append(self.apis[i].0.as_str());
                return Err(ProcessorError::Schema(m));
            }
            i = i + 1;
        }
        Ok(())
    }

    /// The full URL for one endpoint: the API's base joined with the
    /// route bound to `key` in `group`. Succeeds exactly when the catalog
    /// binds all three names; the error message names the first level at
    /// which the lookup failed, and the name that was not found.
    pub fn resolve_endpoint_url(&self, api: &str, group: &str, key: &str) -> (r: Result<
        String,
        ProcessorError,
    >)
        ensures
            match r {
                Ok(u) => spec_resolve(*self, api@, group@, key@) == Option::Some(u@),
                Err(e) => {
                    &&& spec_resolve(*self, api@, group@, key@) is None
                    &&& e matches ProcessorError::Schema(m) && m@ == (
                    if assoc_lookup(self.apis@, api@) is None {
                        "API not found: "@ + api@
                    } else if (assoc_lookup(self.apis@, api@) matches Option::Some(ac)
                        && assoc_lookup(ac.endpoints@, group@) is None) {
                        "group not found: "@ + group@
                    } else {
                        "key not found: "@ + key@
                    })
                },
            },
    {
        let ai = match assoc_find(&self.apis, api) {
            Some(i) => i,
            None => {
                let mut m = String::from_str("API not found: ");
                m.append(api);
                return Err(ProcessorError::Schema(m));
            },
        };
        let api_cfg = &self.apis[ai].1;
        let gi = match assoc_find(&api_cfg.endpoints, group) {
            Some(i) => i,
            None => {
                let mut m = String::from_str("group not found: ");
                m.append(group);
                return Err(ProcessorError::Schema(m));
            },
        };
        let group_cfg = &api_cfg.endpoints[gi].1;
        let ri = match assoc_find(&group_cfg.routes, key) {
            Some(i) => i,
            None => {
                let mut m = String::from_str("key not found: ");
                m.append(key);
                return Err(ProcessorError::Schema(m));
            },
        };
        let route = &group_cfg.routes[ri].1;
        Ok(self.join_urls(api_cfg.base_url.as_str(), route.as_str()))
    }

    /// Joins a base URL and a relative path with exactly one slash, however
    /// many either side carries.
    #[verifier::loop_isolation(false)]
    pub fn join_urls(&self, base: &str, path: &str) -> (r: String)
        ensures
            r@ == spec_join_urls(base@, path@),
    {
        let blen = base.unicode_len();
        let mut e: usize = blen;
        proof {
            assert(base@.take(blen as int) =~= base@);
        }
        while e > 0 && base.get_char(e - 1) == '/'
            invariant
                0 <= e <= blen,
                blen == base@.len(),
                trim_end_slashes(base@) == trim_end_slashes(base@.take(e as int)),
            decreases e,
        {
            proof {
                let p = base@.take(e as int);
                assert(p.last() == base@[e - 1]);
                assert(p.drop_last() =~= base@.take(e - 1));
            }
            e = e - 1;
        }
        proof {
            let p = base@.take(e as int);
            if e > 0 {
                assert(p.last() == base@[e - 1]);
            }
            assert(trim_end_slashes(p) == p);
        }
        let trimmed_base = base.substring_char(0, e);

        let plen = path.unicode_len();
        let mut s: usize = 0;
        proof {
            assert(path@.skip(0) =~= path@);
        }
        while s < plen && path.get_char(s) == '/'
            invariant
                0 <= s <= plen,
                plen == path@.len(),
                trim_start_slashes(path@) == trim_start_slashes(path@.skip(s as int)),
            decreases plen - s,
        {
            proof {
                let p = path@.skip(s as int);
                assert(p[0] == path@[s as int]);
                assert(p.skip(1) =~= path@.skip(s + 1));
            }
            s = s + 1;
        }
        proof {
            let p = path@.skip(s as int);
            if s < plen {
                assert(p[0] == path@[s as int]);
            }
            assert(trim_start_slashes(p) == p);
        }
        let trimmed_path = path.substring_char(s, plen);

        let mut out = trimmed_base.to_owned();
        out.append("/");
        out.append(trimmed_path);
        proof {
            reveal_strlit("/");
            assert(trimmed_base@ =~= base@.take(e as int));
            assert(trimmed_path@ =~= path@.skip(s as int));
            assert(out@ =~= spec_join_urls(base@, path@));
        }
        out
    }
}

} // verus!
