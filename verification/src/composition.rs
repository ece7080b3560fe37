//! Where cuvm keeps things under its home directory.
use vstd::prelude::*;

use crate::text::{push_char, str_chars, string_of};

verus! {

/// `base` joined with the relative name `name`, as `Path::join` joins on
/// unix: no separator is added after an empty base or one ending in `/`.
pub open spec fn join_relative(base: Seq<char>, name: Seq<char>) -> Seq<char> {
    if base.len() == 0 || base.last() == '/' {
        base + name
    } else {
        base + seq!['/'] + name
    }
}

/// `base` joined with the relative name `name`.
pub fn join_under(base: &str, name: &str) -> (r: String)
    ensures
        r@ == join_relative(base@, name@),
{
    let mut out = string_of(base);
    let v = str_chars(base);
    if v.len() > 0 && v[v.len() - 1] != '/' {
        push_char(&mut out, '/');
    }
    out.append(name);
    out
}

/// The download cache directory: `<home>/cache`.
pub fn cache_dir(home: &str) -> (r: String)
    ensures
        r@ == join_relative(home@, "cache"@),
{
    join_under(home, "cache")
}

} // verus!
