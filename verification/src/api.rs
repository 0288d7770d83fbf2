//! Where the WOR catalogue server answers.

use vstd::prelude::*;
use crate::text::push_str;

verus! {

/// The address that lists Windows versions and their builds.
pub const VERSIONS_URL: &'static str = "https://worproject.com/dldserv/esd/getversions.php";

/// The address that lists the ESD files of a build, before its query.
pub const CATALOG_URL: &'static str = "https://worproject.com/dldserv/esd/getcatalog.php";

/// The address of the catalogue of `build`.
pub open spec fn spec_catalog_url(build: Seq<char>) -> Seq<char> {
    CATALOG_URL@ + "?build="@ + build
}

/// The address of the catalogue of `build`.
pub fn catalog_url(build: &str) -> (u: String)
    ensures
        u@ == spec_catalog_url(build@),
{
    let mut u = String::new();
    push_str(&mut u, CATALOG_URL);
    push_str(&mut u, "?build=");
    push_str(&mut u, build);
    u
}

} // verus!
