//! Region extraction: derives a normalized region string from a game's name
//! under the No-Intro naming convention. Used only for non-arcade systems,
//! whose game names follow that convention.

use shiratsu_naming::naming::nointro::{NoIntroName, NoIntroToken};
use shiratsu_naming::naming::TokenizedName;
use shiratsu_naming::region::Region;
use vstd::prelude::*;

verus! {

/// Why a single game could not be fully reconciled; both kinds are handled
/// without abandoning the import of other games, but a hierarchy failure
/// aborts the whole DAT.
#[derive(Clone, Copy, Debug, PartialEq, Eq, Structural)]
pub enum ImportError {
    /// The game's name does not follow the naming convention; its region
    /// cannot be derived.
    NamingConvention,
    /// A dependent game's clone-of / rom-of reference never resolves within a
    /// bounded number of passes.
    Hierarchy,
}

/// What the No-Intro parser derives from a game name: nothing when the name
/// does not follow the convention, otherwise the normalized region string of
/// the name's first region token (empty when the name has no region token).
/// The result depends on the name's characters alone.
pub uninterp spec fn nointro_regions_of(name: Seq<char>) -> Option<Seq<char>>;

/// Relies on shiratsu_naming: NoIntroName::try_parse tokenizes the name by
/// its characters alone, and Region::to_normalized_region_string renders the
/// first region token's parsed regions.
#[verifier::external_body]
fn parse_name_regions(name: &str) -> (r: Option<String>)
    ensures
        r is Some <==> nointro_regions_of(name@) is Some,
        r is Some ==> r->0@ == nointro_regions_of(name@)->0,
{
    match NoIntroName::try_parse(name) {
        Ok(parsed) => {
            for token in parsed.iter() {
                if let NoIntroToken::Region { regions, .. } = token {
                    return Some(Region::to_normalized_region_string(regions));
                }
            }
            Some(String::new())
        },
        Err(_) => None,
    }
}

/// The normalized region string for a game name, or a naming-convention
/// error when the name does not parse. Callers treat the error as non-fatal:
/// the one game is skipped and the batch continues.
pub fn get_regions_from_game_name(name: &str) -> (r: Result<String, ImportError>)
    ensures
        r is Ok <==> nointro_regions_of(name@) is Some,
        r is Ok ==> r->Ok_0@ == nointro_regions_of(name@)->0,
        r is Err ==> r->Err_0 == ImportError::NamingConvention,
{
    match parse_name_regions(name) {
        Some(s) => Ok(s),
        None => Err(ImportError::NamingConvention),
    }
}

} // verus!
