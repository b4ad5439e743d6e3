//! The databases from which a validator's provider and country are looked
//! up.

use vstd::prelude::*;

verus! {

/// One of the two lookup databases.
#[derive(Clone, Copy, Debug, PartialEq, Eq)]
pub enum Database {
    /// Providers by address.
    Asn,
    /// Countries by address.
    Country,
}

/// Where the database of providers lies.
pub open spec fn isp_db_path() -> Seq<char> {
    "./src/stats/geolite2_dbs/GeoLite2-ASN_20210727/GeoLite2-ASN.mmdb"@
}

/// Where the database of countries lies.
pub open spec fn country_db_path() -> Seq<char> {
    "./src/stats/geolite2_dbs/GeoLite2-Country_20210727/GeoLite2-Country.mmdb"@
}

impl Database {
    /// Where the database lies.
    pub fn path(&self) -> (path: &'static str)
        ensures
            path@ == match self {
                Database::Asn => isp_db_path(),
                Database::Country => country_db_path(),
            },
    {
        match self {
            Database::Asn => "./src/stats/geolite2_dbs/GeoLite2-ASN_20210727/GeoLite2-ASN.mmdb",
            Database::Country => "./src/stats/geolite2_dbs/GeoLite2-Country_20210727/GeoLite2-Country.mmdb",
        }
    }
}

} // verus!
