//! Saving a URL: the creation protocol reached through the flat request
//! shape.

use vstd::prelude::*;

use crate::errors::StoreError;
use crate::link::bookmark::{bm_create_post, BmCreateReq};
use crate::store::Store;

verus! {

/// What a client sends to save a URL.
#[derive(Debug)]
pub struct SaveRequest {
    pub url: String,
    pub title: Option<String>,
    pub reference: Option<String>,
    pub categories: Vec<String>,
}

/// The identifier of the saved bookmark.
#[derive(Debug, PartialEq, Eq, Structural)]
pub struct SaveResponse {
    pub id: i64,
}

/// The creation request that a save request amounts to: the reference
/// becomes the referrer, the status is left to its default, and the
/// category names are passed through.
pub open spec fn save_as_create(req: SaveRequest, breq: BmCreateReq) -> bool {
    &&& breq.url == req.url
    &&& breq.title == req.title
    &&& breq.content == None::<String>
    &&& breq.referrer == req.reference
    &&& breq.status == None::<String>
    &&& breq.categories == req.categories
}

/// Saves a URL for a user at time `now` by running the bookmark creation
/// protocol; the returned identifier is the new bookmark's.
pub fn save_url(store: &mut Store, user_id: &str, req: SaveRequest, now: i64) -> (r: Result<
    SaveResponse,
    StoreError,
>)
    requires
        old(store).wf(),
    ensures
        final(store).wf(),
        exists|breq: BmCreateReq|
            #![trigger save_as_create(req, breq)]
            save_as_create(req, breq) && bm_create_post(
                *old(store),
                *final(store),
                user_id@,
                breq,
                (match r {
                    Ok(res) => Ok(res.id),
                    Err(e) => Err(e),
                }),
                now,
            ),
{
    let breq = BmCreateReq {
        title: req.title,
        url: req.url,
        content: None,
        referrer: req.reference,
        status: None,
        categories: req.categories,
    };
    let ghost breq0 = breq;
    match crate::link::bookmark::create(store, user_id, breq, now) {
        Ok(id) => {
            proof {
                assert(save_as_create(req, breq0));
            }
            Ok(SaveResponse { id })
        },
        Err(e) => {
            proof {
                assert(save_as_create(req, breq0));
            }
            Err(e)
        },
    }
}

} // verus!
