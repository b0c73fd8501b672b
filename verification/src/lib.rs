//! Enumerates the usable host addresses of a CIDR block and renders them
//! as plain, CSV or JSON text.

pub mod cidr;
pub mod hosts;
pub mod render;

use vstd::prelude::*;

verus! {

use crate::cidr::{cidr_of, parse_cidr, Net};
use crate::hosts::{select_hosts, selected_seq, AddressSeq};

/// At most this many addresses are produced in all-mode unless the
/// danger-zone override is set.
pub const HARD_LIMIT: usize = 1_048_576;

/// Parses a CIDR string and applies the selection policy: the whole host
/// range with `all` and `danger_zone` set, its first [`HARD_LIMIT`]
/// addresses with `all` alone, and otherwise just the first and last host.
/// A string that is not valid CIDR notation yields an error and nothing
/// else.
pub fn calculate_all_ips(cidr: &str, all: bool, danger_zone: bool) -> (r: Result<
    AddressSeq,
    String,
>)
    ensures
        match r {
            Ok(s) => {
                &&& cidr_of(cidr@) matches Some(t)
                &&& s.wf()
                &&& s.v6 == t.0
                &&& s@ == selected_seq((Net { v6: t.0, bits: t.1, prefix: t.2 }), all, danger_zone)
            },
            Err(_) => cidr_of(cidr@) is None,
        },
{
    match parse_cidr(cidr) {
        Ok(n) => Ok(select_hosts(n, all, danger_zone)),
        Err(e) => Err(e),
    }
}

} // verus!
