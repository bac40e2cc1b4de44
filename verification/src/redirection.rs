use vstd::prelude::*;
use crate::misc::str_eq;

verus! {

/// The decoded body of an insert request: an optional path key and the
/// redirect target, taken verbatim.
pub struct RedirectionRequest {
    pub path: Option<String>,
    pub target: String,
}

impl View for RedirectionRequest {
    type V = (Option<Seq<char>>, Seq<char>);

    open spec fn view(&self) -> (Option<Seq<char>>, Seq<char>) {
        (self.path.deep_view(), self.target@)
    }
}

impl RedirectionRequest {
    /// The path key to store under; a missing path means the root
    /// (empty) key.
    pub open spec fn spec_path(&self) -> Seq<char> {
        match self.path {
            Some(p) => p@,
            None => Seq::<char>::empty(),
        }
    }
}

/// The two body encodings an insert request may declare.
#[derive(Clone, Copy, PartialEq, Eq, Structural, Debug)]
pub enum BodyEncoding {
    Json,
    Form,
}

/// Which decoder a declared content type selects; any other content
/// type is rejected as a malformed request.
pub open spec fn spec_encoding_of(ct: Seq<char>) -> Option<BodyEncoding> {
    if ct == "application/json"@ {
        Some(BodyEncoding::Json)
    } else if ct == "application/x-www-form-urlencoded"@ {
        Some(BodyEncoding::Form)
    } else {
        None
    }
}

/// Select the body decoder for a declared content type.
pub fn encoding_of(content_type: &str) -> (r: Option<BodyEncoding>)
    ensures
        r == spec_encoding_of(content_type@),
{
    if str_eq(content_type, "application/json") {
        Some(BodyEncoding::Json)
    } else if str_eq(content_type, "application/x-www-form-urlencoded") {
        Some(BodyEncoding::Form)
    } else {
        None
    }
}

/// Folds decoded form pairs left to right: a repeated `path` or `target`
/// key rejects the body, unknown keys are skipped, and a body without a
/// `target` decodes to nothing.
pub open spec fn fold_pairs(
    ps: Seq<(Seq<char>, Seq<char>)>,
    path: Option<Seq<char>>,
    target: Option<Seq<char>>,
) -> Option<(Option<Seq<char>>, Seq<char>)>
    decreases ps.len(),
{
    if ps.len() == 0 {
        match target {
            Some(t) => Some((path, t)),
            None => None,
        }
    } else if ps[0].0 == "path"@ {
        if path is Some {
            None
        } else {
            fold_pairs(ps.skip(1), Some(ps[0].1), target)
        }
    } else if ps[0].0 == "target"@ {
        if target is Some {
            None
        } else {
            fold_pairs(ps.skip(1), path, Some(ps[0].1))
        }
    } else {
        fold_pairs(ps.skip(1), path, target)
    }
}

/// The request that a form body's pairs decode to, if any.
pub open spec fn request_of_pairs(
    ps: Seq<(Seq<char>, Seq<char>)>,
) -> Option<(Option<Seq<char>>, Seq<char>)> {
    fold_pairs(ps, None, None)
}

/// What serde_urlencoded yields on a body: the decoded key/value pairs
/// in order, or nothing when the body is not valid form data.
pub uninterp spec fn form_pairs_of(b: Seq<u8>) -> Option<Seq<(Seq<char>, Seq<char>)>>;

/// Relies on serde_urlencoded::from_bytes: decodes an
/// application/x-www-form-urlencoded body into its key/value pairs,
/// percent-decoded, in body order; fails on malformed input.
#[verifier::external_body]
fn decode_form_pairs(body: &[u8]) -> (r: Option<Vec<(String, String)>>)
    ensures
        match r {
            Some(ps) => form_pairs_of(body@) == Some(ps.deep_view()),
            None => form_pairs_of(body@) is None,
        },
{
    serde_urlencoded::from_bytes::<Vec<(String, String)>>(body).ok()
}

impl RedirectionRequest {
    /// Build a request from decoded form pairs: `target` must appear
    /// exactly once, `path` at most once, unknown keys are ignored.
    pub fn from_pairs(pairs: &Vec<(String, String)>) -> (r: Option<RedirectionRequest>)
        ensures
            match r {
                Some(req) => request_of_pairs(pairs.deep_view()) == Some(req@),
                None => request_of_pairs(pairs.deep_view()) is None,
            },
    {
        let ghost pv = pairs.deep_view();
        let mut path: Option<String> = None;
        let mut target: Option<String> = None;
        let n = pairs.len();
        let mut i: usize = 0;
        proof {
            assert(pv.skip(0) =~= pv);
        }
        while i < n
            invariant
                0 <= i <= n,
                n == pairs.len(),
                pv == pairs.deep_view(),
                fold_pairs(pv, None, None) == fold_pairs(
                    pv.skip(i as int),
                    path.deep_view(),
                    target.deep_view(),
                ),
            decreases n - i,
        {
            let ghost rest = pv.skip(i as int);
            proof {
                assert(rest[0] == pv[i as int]);
                assert(pv[i as int] == (pairs@[i as int].0@, pairs@[i as int].1@));
                assert(rest.skip(1) =~= pv.skip(i as int + 1));
            }
            let k = &pairs[i].0;
            if str_eq(k.as_str(), "path") {
                if path.is_some() {
                    return None;
                }
                path = Some(pairs[i].1.clone());
            } else if str_eq(k.as_str(), "target") {
                if target.is_some() {
                    return None;
                }
                target = Some(pairs[i].1.clone());
            }
            i += 1;
        }
        proof {
            assert(pv.skip(n as int) =~= Seq::<(Seq<char>, Seq<char>)>::empty());
        }
        match target {
            Some(t) => Some(RedirectionRequest { path, target: t }),
            None => None,
        }
    }

    /// Decode a form-urlencoded body into a request.
    pub fn from_form_bytes(body: &[u8]) -> (r: Option<RedirectionRequest>)
        ensures
            match form_pairs_of(body@) {
                Some(ps) => match r {
                    Some(req) => request_of_pairs(ps) == Some(req@),
                    None => request_of_pairs(ps) is None,
                },
                None => r is None,
            },
    {
        match decode_form_pairs(body) {
            Some(pairs) => RedirectionRequest::from_pairs(&pairs),
            None => None,
        }
    }
}

} // verus!
