//! Whether a database fits the schema of this program.

use vstd::prelude::*;
use crate::number::{signed_decimal, signed_decimal_of};

verus! {

/// Whether a database fits: its schema has the version that is expected, or it
/// is fresh, which is to say that it has no version and none of the tables.
pub open spec fn fits(found: i32, has_tables: bool, version: i32) -> bool {
    found == version || (found == 0 && !has_tables)
}

/// Refuse a database of another schema. `found` is the version that it has, and
/// `has_tables` says whether it has the table that marks one that is in use.
pub fn ensure_compatible_schema(found: i32, has_tables: bool, path: &str, version: i32) -> (r:
    Result<(), String>)
    ensures
        match r {
            Ok(_) => fits(found, has_tables, version),
            Err(msg) => !fits(found, has_tables, version) && msg@ == "incompatible database at "@
                + path@ + ": schema v"@ + signed_decimal(found as int) + ", expected v"@
                + signed_decimal(version as int)
                + ". No automatic migration; delete the file and restart to recreate."@,
        },
{
    if found == version {
        return Ok(());
    }
    if found == 0 && !has_tables {
        return Ok(());
    }
    let mut msg = "incompatible database at ".to_owned();
    msg.append(path);
    msg.append(": schema v");
    let f = signed_decimal_of(found as i64);
    msg.append(f.as_str());
    msg.append(", expected v");
    let v = signed_decimal_of(version as i64);
    msg.append(v.as_str());
    msg.append(". No automatic migration; delete the file and restart to recreate.");
    Err(msg)
}

} // verus!
