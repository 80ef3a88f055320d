//! The glob patterns that find the CSS files of a folder.
use vstd::prelude::*;
use vstd::string::*;

verus! {

/// `directory/*pattern`: the matching files directly in the folder.
pub fn glob_pattern(directory: String, pattern: &String) -> (res: String)
    ensures
        res@ == directory@ + "/*"@ + pattern@,
{
    directory.concat("/*").concat(pattern.as_str())
}

/// `directory/**/*pattern`: the matching files anywhere below the folder.
pub fn recursive_glob_pattern(directory: String, pattern: &String) -> (res: String)
    ensures
        res@ == directory@ + "/**/*"@ + pattern@,
{
    directory.concat("/**/*").concat(pattern.as_str())
}

} // verus!
