//! Numbers that are read from the environment.

use crate::text::parse_at_most;
#[allow(unused_imports)]
use crate::text::{
    decimal, parse_unsigned, slice_of, written_numbers_read_back, zero_filled, zero_filled_reads_back,
};
use vstd::prelude::*;

verus! {

/// The number that a setting stands for: the one that it writes, where that is above zero and fits
/// 64 bits, and else the default.
pub open spec fn positive_setting(value: Option<Seq<char>>, default: u64) -> int {
    match value {
        Some(text) => match parse_unsigned(text, u64::MAX as nat) {
            Some(n) => if n > 0 {
                n as int
            } else {
                default as int
            },
            None => default as int,
        },
        None => default as int,
    }
}

/// Reads a setting that has to be above zero; anything else means the default.
pub fn read_env_u64(value: Option<&str>, default: u64) -> (number: u64)
    ensures
        number == positive_setting(slice_of(value), default),
        default > 0 ==> number > 0,
{
    match value {
        Some(text) => match parse_at_most(text, u64::MAX) {
            Some(n) => if n > 0 {
                n
            } else {
                default
            },
            None => default,
        },
        None => default,
    }
}

/// Every number above zero that 64 bits hold can be set, with zeros or a plus sign in front or
/// without. Without a setting, with zero and with anything that is no such number, the default
/// holds.
pub proof fn settings_are_read(text: Seq<char>, n: nat, width: nat, default: u64)
    ensures
        0 < n <= u64::MAX ==> positive_setting(Some(decimal(n)), default) == n,
        0 < n <= u64::MAX ==> positive_setting(Some(zero_filled(decimal(n), width)), default) == n,
        0 < n <= u64::MAX ==> positive_setting(
            Some(seq!['+'] + zero_filled(decimal(n), width)),
            default,
        ) == n,
        n == 0 || n > u64::MAX ==> positive_setting(Some(decimal(n)), default) == default,
        positive_setting(None, default) == default,
        positive_setting(Some(text), default) != default ==> parse_unsigned(
            text,
            u64::MAX as nat,
        ) == Some(positive_setting(Some(text), default) as nat),
        parse_unsigned(text, u64::MAX as nat) is None ==> positive_setting(Some(text), default)
            == default,
{
    let max = u64::MAX as nat;
    written_numbers_read_back(n, width, max);
    written_numbers_read_back(n, 0, max);
    zero_filled_reads_back(n, 0);
}

} // verus!
