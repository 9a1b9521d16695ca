use vstd::prelude::*;

use crate::errors::SyncError;
use crate::revision::Revision;

verus! {

/// The remote fetch boundary: would retrieve missing revisions from the
/// remote authority. This core ships the default implementation, which
/// reports an authoritative empty result — no remote revisions — for every
/// object and never fails; a deployment supplies a working implementation
/// behind the same interface.
pub struct DatabaseViewRevisionCloudService {
    pub token: Vec<u8>,
}

impl DatabaseViewRevisionCloudService {
    pub fn new(token: Vec<u8>) -> (r: Self)
        ensures
            r.token@ == token@,
    {
        DatabaseViewRevisionCloudService { token }
    }

    /// Fetches the remote revisions of an object: here always the empty
    /// list, with no error, whatever the user and object.
    pub fn fetch_object(&self, _user_id: &Vec<u8>, _object_id: &Vec<u8>) -> (r: Result<
        Vec<Revision>,
        SyncError,
    >)
        ensures
            r is Ok,
            (r->Ok_0)@.len() == 0,
    {
        Ok(Vec::new())
    }
}

} // verus!
