pub mod proto;
pub mod wire;
pub mod roundtrip;
pub mod codec;
pub mod frame;
pub mod store;
pub mod hub;
pub mod dispatch;
pub mod config;

use vstd::prelude::*;

verus! {

/// Decimal digit characters of `n`, most significant first.
pub open spec fn dec_digits(n: nat) -> Seq<char>
    decreases n,
{
    if n < 10 {
        seq![(('0' as u8) + n as u8) as char]
    } else {
        dec_digits(n / 10) + seq![(('0' as u8) + (n % 10) as u8) as char]
    }
}

} // verus!
