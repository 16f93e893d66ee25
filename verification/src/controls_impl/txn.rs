//! The control that places a request inside a transaction.

use vstd::prelude::*;
use vstd::utf8::encode_utf8;
use crate::controls::{ControlModel, RawControl};
use crate::text::string_octets;

verus! {

pub const TXN_REQUEST_OID: &'static str = "1.3.6.1.1.21.2";

/// Transaction Specification control ([RFC 5805](https://tools.ietf.org/html/rfc5805)).
///
/// This control only has the request part, and must be marked as critical.
#[derive(Clone, Debug, Default)]
pub struct TxnSpec<'a> {
    pub txn_id: &'a str,
}

/// The control that names the transaction `txn_id`: critical, with the
/// UTF-8 octets of the identifier as its value.
pub open spec fn txn_control(txn_id: Seq<char>) -> ControlModel {
    ControlModel { ctype: TXN_REQUEST_OID@, crit: true, val: Some(encode_utf8(txn_id)) }
}

impl<'a> From<TxnSpec<'a>> for RawControl {
    fn from(txn: TxnSpec<'a>) -> (r: RawControl)
        ensures
            r@ == txn_control(txn.txn_id@),
    {
        RawControl {
            ctype: TXN_REQUEST_OID.to_owned(),
            crit: true,
            val: Some(string_octets(txn.txn_id)),
        }
    }
}

impl<'a> vstd::std_specs::convert::FromSpecImpl<TxnSpec<'a>> for RawControl {
    open spec fn obeys_from_spec() -> bool {
        false
    }

    open spec fn from_spec(txn: TxnSpec<'a>) -> RawControl {
        arbitrary()
    }
}

} // verus!
