//! The upstream registry interface: the record a lookup yields, the request
//! URL it is made with, and the choice of result from an answer.

use vstd::prelude::*;
use vstd::string::*;

verus! {

/// One package's record in the upstream registry's answer.
pub struct AurPackage {
    pub name: String,
    pub version: String,
    pub out_of_date: Option<u64>,
    pub maintainer: Option<String>,
}

/// What `urlencoding::encode` returns for a given string: a function of the
/// characters alone.
pub uninterp spec fn url_encoded(s: Seq<char>) -> Seq<char>;

/// Relies on `urlencoding::encode`: percent-encodes every byte except ASCII
/// alphanumerics and `-`, `_`, `.`, `~`; the result depends on the input alone.
#[verifier::external_body]
fn encode_component(s: &str) -> (r: String)
    ensures
        r@ == url_encoded(s@),
{
    urlencoding::encode(s).into_owned()
}

/// The registry request URL asking for one package's current information.
pub fn aur_info_url(package: &str) -> (u: String)
    ensures
        u@ == "https://aur.archlinux.org/rpc/?v=5&type=info&arg[]="@ + url_encoded(package@),
{
    let base = String::from_str("https://aur.archlinux.org/rpc/?v=5&type=info&arg[]=");
    let enc = encode_component(package);
    base.concat(enc.as_str())
}

/// The package record a registry answer yields: its first result; none
/// means the package is unknown upstream.
pub fn first_package(results: Vec<AurPackage>) -> (r: Option<AurPackage>)
    ensures
        results@.len() == 0 ==> r is None,
        results@.len() > 0 ==> r == Option::Some(results@[0]),
{
    let mut results = results;
    if results.len() == 0 {
        Option::None
    } else {
        let p = results.remove(0);
        Option::Some(p)
    }
}

} // verus!
