//! Stage names shown by the CoCo Web member page, in English.

use vstd::prelude::*;

verus! {

/// A stage name that has no English form here.
#[derive(Clone, Copy, Debug, PartialEq, Eq, Structural)]
pub struct UnknownStatus;

/// The English name of a stage as the member page shows it.
pub open spec fn stage_in_english(status: Seq<char>) -> Option<Seq<char>> {
    if status == "レギュラーステージ"@ {
        Some("Regular Stage"@)
    } else if status == "ブロンドステージ"@ {
        Some("Bronze Stage"@)
    } else if status == "シルバーステージ"@ {
        Some("Silver Stage"@)
    } else if status == "ゴールドステージ"@ {
        Some("Gold Stage"@)
    } else if status == "プラチナステージ"@ {
        Some("Platina Stage"@)
    } else {
        None
    }
}

/// The English name of a stage as the member page shows it.
pub fn translate_status(status: &str) -> (r: Result<String, UnknownStatus>)
    ensures
        r matches Ok(s) ==> stage_in_english(status@) == Some(s@),
        r is Err ==> stage_in_english(status@) is None,
{
    let s = String::from_str(status);
    if s == String::from_str("レギュラーステージ") {
        Ok(String::from_str("Regular Stage"))
    } else if s == String::from_str("ブロンドステージ") {
        Ok(String::from_str("Bronze Stage"))
    } else if s == String::from_str("シルバーステージ") {
        Ok(String::from_str("Silver Stage"))
    } else if s == String::from_str("ゴールドステージ") {
        Ok(String::from_str("Gold Stage"))
    } else if s == String::from_str("プラチナステージ") {
        Ok(String::from_str("Platina Stage"))
    } else {
        Err(UnknownStatus)
    }
}

} // verus!
