//! The four operations of the service, each a request-to-response mapping
//! over the store: the status code and JSON body of every outcome are pinned
//! down against the parsed request.

use vstd::prelude::*;
use crate::body::{parse_price_body, spec_parse_body};
use crate::ids::{parse_uuid, spec_parse_uuid};
use crate::json::{
    internal_json, not_found_json, prices_json, record_json, spec_internal_json,
    spec_not_found_json, spec_prices_json, spec_record_json, spec_status_ok_json,
    spec_validation_json, status_ok_json, validation_json,
};
use crate::price::{Price, PriceError, Prices};

verus! {

/// A reply at the HTTP boundary: a status code and a JSON body.
pub struct HttpReply {
    pub status: u16,
    pub body: String,
}

/// Create: read the price out of the body, store it under a freshly
/// generated identifier, and report the new record. A body without a
/// well-formed `price` integer is rejected, not a fault. The
/// internal-failure reply can only follow a collision of the generated
/// identifier with a stored one, so on an empty store creation succeeds.
pub fn create_price(store: &mut Prices, body: &str) -> (r: HttpReply)
    requires
        old(store).wf(),
    ensures
        final(store).wf(),
        match spec_parse_body(body@) {
            Some(v) => {
                if i64::MIN <= v <= i64::MAX {
                    ||| {
                        let p = final(store).prices@.last();
                        &&& r.status == 200
                        &&& final(store).prices@ == old(store).prices@.push(p)
                        &&& p.price as int == v
                        &&& !old(store).contains_id(p.id)
                        &&& r.body@ == spec_record_json(p)
                    }
                    ||| (r.status == 500 && *final(store) == *old(store) && r.body@
                        == spec_internal_json() && old(store).prices@.len() > 0)
                } else {
                    r.status == 400 && *final(store) == *old(store) && r.body@
                        == spec_validation_json()
                }
            },
            None => r.status == 400 && *final(store) == *old(store) && r.body@
                == spec_validation_json(),
        },
{
    match parse_price_body(body) {
        Ok(v) => match store.create(v) {
            Ok(p) => HttpReply { status: 200, body: record_json(&p) },
            Err(_) => HttpReply { status: 500, body: internal_json() },
        },
        Err(_) => HttpReply { status: 400, body: validation_json() },
    }
}

/// Get: read the identifier out of the path segment and report the record
/// stored under it. Text that is no canonical identifier names nothing, so
/// it is reported absent.
pub fn get_price(store: &Prices, id_text: &str) -> (r: HttpReply)
    requires
        store.wf(),
    ensures
        match spec_parse_uuid(id_text@) {
            Some(id) => match store.spec_get(id) {
                Some(p) => r.status == 200 && r.body@ == spec_record_json(p),
                None => r.status == 404 && r.body@ == spec_not_found_json(),
            },
            None => r.status == 404 && r.body@ == spec_not_found_json(),
        },
{
    match parse_uuid(id_text) {
        Some(id) => match store.get(id) {
            Some(p) => HttpReply { status: 200, body: record_json(&p) },
            None => HttpReply { status: 404, body: not_found_json() },
        },
        None => HttpReply { status: 404, body: not_found_json() },
    }
}

/// Delete: remove the record stored under the identifier in the path
/// segment. Deleting an absent identifier reports it absent and changes
/// nothing, so a second delete of the same identifier has no further effect.
pub fn delete_price(store: &mut Prices, id_text: &str) -> (r: HttpReply)
    requires
        old(store).wf(),
    ensures
        final(store).wf(),
        match spec_parse_uuid(id_text@) {
            Some(id) => {
                if old(store).contains_id(id) {
                    &&& r.status == 200
                    &&& r.body@ == spec_status_ok_json()
                    &&& final(store).prices@ == old(store).prices@.remove(old(store).idx_of(id))
                    &&& !final(store).contains_id(id)
                } else {
                    r.status == 404 && r.body@ == spec_not_found_json() && *final(store) == *old(
                        store,
                    )
                }
            },
            None => r.status == 404 && r.body@ == spec_not_found_json() && *final(store) == *old(
                store,
            ),
        },
{
    match parse_uuid(id_text) {
        Some(id) => match store.delete(id) {
            Ok(()) => HttpReply { status: 200, body: status_ok_json() },
            Err(_) => HttpReply { status: 404, body: not_found_json() },
        },
        None => HttpReply { status: 404, body: not_found_json() },
    }
}

/// List: report a snapshot of every stored record.
pub fn get_all_prices(store: &Prices) -> (r: HttpReply)
    ensures
        r.status == 200,
        r.body@ == spec_prices_json(store.prices@),
{
    let list = store.list_all();
    HttpReply { status: 200, body: prices_json(&list) }
}

} // verus!
