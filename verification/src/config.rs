//! Where box keeps its state: the home directory and the box root, from
//! the values of `HOME` and `BOX_ROOT`.
use vstd::prelude::*;
use crate::paths::{join as join_paths, join_path};
use crate::text::copy_str;

verus! {

/// The error when `HOME` gives no directory.
pub open spec fn home_missing_message() -> Seq<char> {
    "HOME environment variable is not set or is empty."@
}

/// The home directory from the value of `HOME`: it must be set and not
/// empty.
pub fn home_dir(home: Option<&str>) -> (r: Result<String, String>)
    ensures
        match home {
            Some(h) if h@.len() > 0 => r matches Ok(x) && x@ == h@,
            _ => r matches Err(m) && m@ == home_missing_message(),
        },
{
    match home {
        Some(h) if h.unicode_len() > 0 => Ok(copy_str(h)),
        _ => Err("HOME environment variable is not set or is empty.".to_string()),
    }
}

/// The box root from the values of `BOX_ROOT` and `HOME`: `BOX_ROOT` when
/// it is set and not empty, else `$HOME/.box`.
pub fn box_root(box_root_var: Option<&str>, home: Option<&str>) -> (r: Result<String, String>)
    ensures
        match box_root_var {
            Some(b) if b@.len() > 0 => r matches Ok(x) && x@ == b@,
            _ => match home {
                Some(h) if h@.len() > 0 => r matches Ok(x) && x@ == join_path(h@, ".box"@),
                _ => r matches Err(m) && m@ == home_missing_message(),
            },
        },
{
    if let Some(b) = box_root_var {
        if b.unicode_len() > 0 {
            return Ok(copy_str(b));
        }
    }
    let h = home_dir(home)?;
    Ok(join_paths(h.as_str(), ".box"))
}

} // verus!
