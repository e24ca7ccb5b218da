//! The JSON texts of the service's responses: a record, the list of all
//! records, the status body, and the error bodies.

use vstd::prelude::*;
use vstd::string::StringExecFns;
use crate::ids::{hex_char, uuid_chars, uuid_string};
use crate::price::Price;

verus! {

/// The decimal digits of a nonnegative value, most significant first.
pub open spec fn dec_digits(v: int) -> Seq<char>
    recommends
        v >= 0,
    decreases v,
{
    if v < 10 {
        seq![hex_char(v)]
    } else {
        dec_digits(v / 10).push(hex_char(v % 10))
    }
}

/// The decimal text of an integer: its digits, after a minus sign when it is
/// negative.
pub open spec fn dec_chars(v: int) -> Seq<char> {
    if v < 0 {
        seq!['-'] + dec_digits(-v)
    } else {
        dec_digits(v)
    }
}

/// The decimal text of a nonnegative value.
fn dec_u64_string(v: u64) -> (r: String)
    ensures
        r@ =~= dec_digits(v as int),
    decreases v,
{
    if v < 10 {
        crate::ids::hex_digit_str(v as u128).to_owned()
    } else {
        let mut s = dec_u64_string(v / 10);
        s.append(crate::ids::hex_digit_str((v % 10) as u128));
        proof {
            assert(s@ =~= dec_digits(v as int));
        }
        s
    }
}

/// The decimal text of an integer.
pub fn i64_string(v: i64) -> (r: String)
    ensures
        r@ == dec_chars(v as int),
{
    if v >= 0 {
        let s = dec_u64_string(v as u64);
        s
    } else {
        let mag: u64 = if v == i64::MIN {
            9223372036854775808u64
        } else {
            (-v) as u64
        };
        let mut s = "-".to_owned();
        let d = dec_u64_string(mag);
        s.append(d.as_str());
        proof {
            reveal_strlit("-");
            assert(("-")@ =~= seq!['-']);
            assert(s@ =~= dec_chars(v as int));
        }
        s
    }
}

/// The JSON text of one record: its identifier in canonical UUID form, and
/// its price in decimal.
pub open spec fn spec_record_json(p: Price) -> Seq<char> {
    ("{\"id\":\"")@ + uuid_chars(p.id) + ("\",\"price\":")@ + dec_chars(p.price as int) + ("}")@
}

pub fn record_json(p: &Price) -> (r: String)
    ensures
        r@ == spec_record_json(*p),
{
    let mut out = String::new();
    out.append("{\"id\":\"");
    let id_text = uuid_string(p.id);
    out.append(id_text.as_str());
    out.append("\",\"price\":");
    let price_text = i64_string(p.price);
    out.append(price_text.as_str());
    out.append("}");
    proof {
        assert(out@ =~= spec_record_json(*p));
    }
    out
}

/// The JSON texts of a sequence of records, comma-separated.
pub open spec fn spec_records_json(s: Seq<Price>) -> Seq<char>
    decreases s.len(),
{
    if s.len() == 0 {
        Seq::empty()
    } else if s.len() == 1 {
        spec_record_json(s[0])
    } else {
        spec_records_json(s.drop_last()) + (",")@ + spec_record_json(s.last())
    }
}

/// The JSON text of the whole store's snapshot: every record, in the order
/// given, inside a `prices` array.
pub open spec fn spec_prices_json(s: Seq<Price>) -> Seq<char> {
    ("{\"prices\":[")@ + spec_records_json(s) + ("]}")@
}

pub fn prices_json(list: &Vec<Price>) -> (r: String)
    ensures
        r@ == spec_prices_json(list@),
{
    let mut out = String::new();
    out.append("{\"prices\":[");
    let ghost head = ("{\"prices\":[")@;
    let n = list.len();
    let mut i: usize = 0;
    while i < n
        invariant
            n == list@.len(),
            i <= n,
            out@ == head + spec_records_json(list@.subrange(0, i as int)),
        decreases n - i,
    {
        if i > 0 {
            out.append(",");
        }
        let item = record_json(&list[i]);
        out.append(item.as_str());
        proof {
            let pre = list@.subrange(0, i as int);
            let post = list@.subrange(0, i + 1);
            assert(post.drop_last() =~= pre);
            assert(post.last() == list@[i as int]);
            assert(out@ =~= head + spec_records_json(post));
        }
        i += 1;
    }
    proof {
        assert(list@.subrange(0, n as int) =~= list@);
    }
    out.append("]}");
    proof {
        assert(out@ =~= spec_prices_json(list@));
    }
    out
}

/// The body reported when an identifier is absent from the store.
pub open spec fn spec_not_found_json() -> Seq<char> {
    ("{\"error\":\"Price not found\"}")@
}

pub fn not_found_json() -> (r: String)
    ensures
        r@ == spec_not_found_json(),
{
    "{\"error\":\"Price not found\"}".to_owned()
}

/// The body reported on a successful delete.
pub open spec fn spec_status_ok_json() -> Seq<char> {
    ("{\"status\":\"ok\"}")@
}

pub fn status_ok_json() -> (r: String)
    ensures
        r@ == spec_status_ok_json(),
{
    "{\"status\":\"ok\"}".to_owned()
}

/// The body reported when the request carries no well-formed price.
pub open spec fn spec_validation_json() -> Seq<char> {
    ("{\"error\":\"Invalid price\"}")@
}

pub fn validation_json() -> (r: String)
    ensures
        r@ == spec_validation_json(),
{
    "{\"error\":\"Invalid price\"}".to_owned()
}

/// The body reported on an unexpected fault.
pub open spec fn spec_internal_json() -> Seq<char> {
    ("{\"error\":\"Internal error\"}")@
}

pub fn internal_json() -> (r: String)
    ensures
        r@ == spec_internal_json(),
{
    "{\"error\":\"Internal error\"}".to_owned()
}

} // verus!
