use vstd::prelude::*;

use crate::error::LedgerError;

verus! {

/// The name a user is listed under: the name of the user's main individual when
/// one is marked, else the user's nickname; with neither the user is not found.
pub fn display_name(main_name: Option<String>, nickname: Option<String>) -> (r: Result<
    String,
    LedgerError,
>)
    ensures
        main_name matches Some(n) ==> r == Ok::<String, LedgerError>(n),
        main_name is None ==> (nickname matches Some(n) ==> r == Ok::<String, LedgerError>(n)),
        main_name is None && nickname is None ==> r == Err::<String, LedgerError>(
            LedgerError::NotFound,
        ),
{
    match main_name {
        Some(n) => Ok(n),
        None => match nickname {
            Some(n) => Ok(n),
            None => Err(LedgerError::NotFound),
        },
    }
}

} // verus!
