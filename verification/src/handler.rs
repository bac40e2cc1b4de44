use vstd::prelude::*;
use crate::cleaner::ExcessCleaner;
use crate::misc::{normalize_target, normalized, strip_leading, stripped};
use crate::redirection::RedirectionRequest;
use crate::store::{insert_model, lookup_model, RedirectTable};

verus! {

/// Handle one insert request: upsert the row with `expires_at = now +
/// duration`, run the eviction pass synchronously, then report
/// `201 Created`. The caller supplies `now` (seconds since the epoch).
pub fn insert(
    table: &mut RedirectTable,
    req: &RedirectionRequest,
    now: u64,
    duration: u64,
    cleaner: &ExcessCleaner,
) -> (status: u16)
    requires
        old(table).wf(),
        now + duration <= u64::MAX,
    ensures
        final(table).wf(),
        final(table)@ == insert_model(
            old(table)@,
            req.spec_path(),
            req.target@,
            (now + duration) as u64,
            cleaner.limit,
        ),
        final(table)@.len() <= cleaner.limit,
        status == 201,
{
    let expires_at = now + duration;
    let path = match &req.path {
        Some(p) => p.clone(),
        None => String::new(),
    };
    table.upsert(path, req.target.clone(), expires_at);
    cleaner.run(table);
    201
}

/// The outcome of a lookup request, as the HTTP layer reports it.
pub enum RedirectResponse {
    /// A temporary redirect to the scheme-normalized target.
    Temporary(String),
    /// No row is stored under the requested path.
    NotFound,
}

impl RedirectResponse {
    /// The HTTP status of the response: 307 on a hit, 404 on a miss.
    pub fn status_code(&self) -> (code: u16)
        ensures
            code == (match self {
                RedirectResponse::Temporary(_) => 307u16,
                RedirectResponse::NotFound => 404u16,
            }),
    {
        match self {
            RedirectResponse::Temporary(_) => 307,
            RedirectResponse::NotFound => 404,
        }
    }
}

/// Handle one lookup request: strip the leading separators from the
/// request path, match the exact stored key, and normalize the stored
/// target's scheme at read time. Expired rows that the sweeper has not
/// yet removed are still served (lazy expiry).
pub fn redirect(table: &RedirectTable, uri_path: &str) -> (r: RedirectResponse)
    requires
        table.wf(),
    ensures
        match r {
            RedirectResponse::Temporary(t) => lookup_model(table@, stripped(uri_path@)) matches Some(raw)
                && t@ == normalized(raw),
            RedirectResponse::NotFound => lookup_model(table@, stripped(uri_path@)) is None,
        },
{
    let key = strip_leading(uri_path);
    match table.lookup(key) {
        Some(target) => RedirectResponse::Temporary(normalize_target(target.as_str())),
        None => RedirectResponse::NotFound,
    }
}

} // verus!
