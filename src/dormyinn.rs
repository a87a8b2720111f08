//! Member ranks shown by the Dormy Inn member page, in English.

use vstd::prelude::*;

use crate::cocoweb::UnknownStatus;

verus! {

/// The English name of a member rank as the member page shows it.
pub open spec fn rank_in_english(status: Seq<char>) -> Option<Seq<char>> {
    if status == "メンバー"@ {
        Some("Member"@)
    } else if status == "シルバー"@ {
        Some("Silver"@)
    } else if status == "ゴールド"@ {
        Some("Gold"@)
    } else {
        None
    }
}

/// The English name of a member rank as the member page shows it.
pub fn translate_status(status: &str) -> (r: Result<String, UnknownStatus>)
    ensures
        r matches Ok(s) ==> rank_in_english(status@) == Some(s@),
        r is Err ==> rank_in_english(status@) is None,
{
    let s = String::from_str(status);
    if s == String::from_str("メンバー") {
        Ok(String::from_str("Member"))
    } else if s == String::from_str("シルバー") {
        Ok(String::from_str("Silver"))
    } else if s == String::from_str("ゴールド") {
        Ok(String::from_str("Gold"))
    } else {
        Err(UnknownStatus)
    }
}

} // verus!
