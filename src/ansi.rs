//! Terminal color codes.

use vstd::prelude::*;

verus! {

/// Red text, or a red background when `bg`.
pub fn red(bg: bool) -> (r: String)
    ensures
        r@ == if bg { "\x1b[41m"@ } else { "\x1b[31m"@ },
{
    proof {
        reveal_strlit("\x1b[41m");
        reveal_strlit("\x1b[31m");
    }
    if bg {
        "\x1b[41m".to_owned()
    } else {
        "\x1b[31m".to_owned()
    }
}

/// Green text, or a green background when `bg`.
pub fn green(bg: bool) -> (r: String)
    ensures
        r@ == if bg { "\x1b[42m"@ } else { "\x1b[32m"@ },
{
    proof {
        reveal_strlit("\x1b[42m");
        reveal_strlit("\x1b[32m");
    }
    if bg {
        "\x1b[42m".to_owned()
    } else {
        "\x1b[32m".to_owned()
    }
}

/// Back to the default style.
pub fn reset() -> (r: String)
    ensures
        r@ == "\x1b[0m"@,
{
    "\x1b[0m".to_owned()
}

/// Bold text.
pub fn bold() -> (r: String)
    ensures
        r@ == "\x1b[1m"@,
{
    "\x1b[1m".to_owned()
}

} // verus!
