//! A voucher: a single redeemable code, optionally tied to one network
//! profile, carrying redemption and print state.

use vstd::prelude::*;

use crate::sys;

verus! {

/// One redeemable access code.
///
/// Pairing invariant (see [`voucher_valid`]): `used_at` is set if and only if
/// `is_used`, and `printed_at` is set if and only if `is_printed`.
#[derive(Debug)]
pub struct Voucher {
    pub id: String,
    pub code: String,
    pub network_id: Option<String>,
    pub created_at: i64,
    pub is_used: bool,
    pub used_at: Option<i64>,
    pub is_printed: bool,
    pub printed_at: Option<i64>,
}

/// The mathematical model of a [`Voucher`]: the same fields over `Seq<char>`.
pub struct VoucherModel {
    pub id: Seq<char>,
    pub code: Seq<char>,
    pub network_id: Option<Seq<char>>,
    pub created_at: i64,
    pub is_used: bool,
    pub used_at: Option<i64>,
    pub is_printed: bool,
    pub printed_at: Option<i64>,
}

impl View for Voucher {
    type V = VoucherModel;

    open spec fn view(&self) -> VoucherModel {
        VoucherModel {
            id: self.id@,
            code: self.code@,
            network_id: self.network_id.deep_view(),
            created_at: self.created_at,
            is_used: self.is_used,
            used_at: self.used_at,
            is_printed: self.is_printed,
            printed_at: self.printed_at,
        }
    }
}

impl DeepView for Voucher {
    type V = VoucherModel;

    open spec fn deep_view(&self) -> VoucherModel {
        self.view()
    }
}

/// The pairing invariant of a voucher: a redemption timestamp exists exactly
/// when the voucher is used, and a print timestamp exactly when it is printed.
pub open spec fn voucher_valid(v: VoucherModel) -> bool {
    &&& (v.used_at is Some) == v.is_used
    &&& (v.printed_at is Some) == v.is_printed
}

impl Clone for Voucher {
    fn clone(&self) -> (r: Self)
        ensures
            r == *self,
    {
        Voucher {
            id: self.id.clone(),
            code: self.code.clone(),
            network_id: match &self.network_id {
                Some(n) => Some(n.clone()),
                None => None,
            },
            created_at: self.created_at,
            is_used: self.is_used,
            used_at: self.used_at,
            is_printed: self.is_printed,
            printed_at: self.printed_at,
        }
    }
}

impl Voucher {
    /// A fresh, unused, unprinted voucher for `code`, not yet tied to a
    /// network. The identifier and creation time come from the environment,
    /// so nothing is promised of their values.
    pub fn new(code: String) -> (v: Voucher)
        ensures
            v@.code == code@,
            v@.network_id is None,
            !v@.is_used,
            v@.used_at is None,
            !v@.is_printed,
            v@.printed_at is None,
            v@.id.len() == 36,
            voucher_valid(v@),
    {
        Voucher {
            id: sys::fresh_id(),
            code,
            network_id: None,
            created_at: sys::now_ts(),
            is_used: false,
            used_at: None,
            is_printed: false,
            printed_at: None,
        }
    }
}

} // verus!
