//! The shared-secret check of the control plane, and the shape of a
//! generated API key.

use vstd::prelude::*;
use vstd::string::StrSliceExecFns;
use vstd::string::StringExecFns;

use crate::config::strings_equal;

verus! {

/// Whether the request carries exactly the supervisor's secret. Every
/// endpoint but the public info endpoint demands this.
pub fn validate_api_key(provided: &Option<String>, expected: &String) -> (r: bool)
    ensures
        r == (provided matches Option::Some(k) && k@ == expected@),
{
    match provided {
        Option::Some(k) => strings_equal(k, expected),
        Option::None => false,
    }
}

/// The hexadecimal digit for a value below sixteen.
pub open spec fn hex_digit(d: u64) -> char
    recommends
        d < 16,
{
    "0123456789abcdef"@[d as int]
}

/// The lowercase hexadecimal rendering of a number, without leading
/// zeros.
pub open spec fn hex_of(n: u64) -> Seq<char>
    decreases n,
{
    if n < 16 {
        seq![hex_digit(n)]
    } else {
        hex_of(n / 16).push(hex_digit(n % 16))
    }
}

/// Renders a number in lowercase hexadecimal.
pub fn fmt_u64_hex(n: u64) -> (s: String)
    ensures
        s@ == hex_of(n),
    decreases n,
{
    proof {
        reveal_strlit("0123456789abcdef");
    }
    let digits: &str = "0123456789abcdef";
    let d = (n % 16) as usize;
    let ds = digits.substring_char(d, d + 1);
    proof {
        assert(ds@ =~= seq![hex_digit(n % 16)]);
    }
    if n < 16 {
        ds.to_owned()
    } else {
        let mut s = fmt_u64_hex(n / 16);
        s.append(ds);
        s
    }
}

/// The API key derived from a random token: the fixed prefix followed
/// by the token in lowercase hexadecimal. The token itself comes from
/// the surrounding binary, which draws it from the clock and the
/// process id.
pub fn generate_api_key(token: u64) -> (r: String)
    ensures
        r@ == "exeio_philo"@ + hex_of(token),
{
    let mut s = String::new();
    s.append("exeio_philo");
    let h = fmt_u64_hex(token);
    s.append(h.as_str());
    proof {
        assert(s@ =~= "exeio_philo"@ + hex_of(token));
    }
    s
}

} // verus!
