//! Where the user's database lives.

use vstd::prelude::*;

use crate::text::string_push_str;

verus! {

/// The SQLite URL of the user's database in the data folder `user_data_path`,
/// opened for reading and writing, created when missing.
pub fn db_path(user_data_path: &str) -> (r: String)
    ensures
        r@ == "sqlite://"@ + user_data_path@ + "/data.db?mode=rwc"@,
{
    let mut path = String::from_str("sqlite://");
    string_push_str(&mut path, user_data_path);
    string_push_str(&mut path, "/data.db?mode=rwc");
    path
}

} // verus!
