//! Countries recognized by the ledger and their continents.
//!
//! A `Country` is only ever obtained by parsing one of the fixed recognized
//! spellings (case-sensitive, exact match); every country maps to exactly one
//! `Continent`.

use vstd::prelude::*;

verus! {

#[derive(Debug, Clone, Copy, PartialEq, Eq, Structural)]
pub enum Country {
    UnitedStates,
    Canada,
    UnitedKingdom,
    Germany,
    France,
    Japan,
    Australia,
    China,
    Brazil,
    SouthKorea,
    Ireland,
    Spain,
    India,
    Switzerland,
}

#[derive(Debug, Clone, Copy, PartialEq, Eq, Structural)]
pub enum Continent {
    NorthAmerica,
    Europe,
    Asia,
    Oceania,
    SouthAmerica,
}

/// The continent of each country: a total mapping, defined for every
/// `Country` variant.
pub open spec fn continent_of(c: Country) -> Continent {
    match c {
        Country::UnitedStates | Country::Canada => Continent::NorthAmerica,
        Country::UnitedKingdom | Country::Germany | Country::France | Country::Ireland
            | Country::Spain | Country::Switzerland => Continent::Europe,
        Country::Japan | Country::China | Country::SouthKorea | Country::India => Continent::Asia,
        Country::Australia => Continent::Oceania,
        Country::Brazil => Continent::SouthAmerica,
    }
}

/// The recognized spelling of each country code, or `None` for any other
/// text. The spellings are exact and case-sensitive, and distinct from the
/// variant names ("USA", "UK", "South Korea").
pub open spec fn spec_country_of(s: Seq<char>) -> Option<Country> {
    if s == "USA"@ {
        Some(Country::UnitedStates)
    } else if s == "Canada"@ {
        Some(Country::Canada)
    } else if s == "UK"@ {
        Some(Country::UnitedKingdom)
    } else if s == "Germany"@ {
        Some(Country::Germany)
    } else if s == "France"@ {
        Some(Country::France)
    } else if s == "Japan"@ {
        Some(Country::Japan)
    } else if s == "Australia"@ {
        Some(Country::Australia)
    } else if s == "China"@ {
        Some(Country::China)
    } else if s == "Brazil"@ {
        Some(Country::Brazil)
    } else if s == "South Korea"@ {
        Some(Country::SouthKorea)
    } else if s == "Ireland"@ {
        Some(Country::Ireland)
    } else if s == "Spain"@ {
        Some(Country::Spain)
    } else if s == "India"@ {
        Some(Country::India)
    } else if s == "Switzerland"@ {
        Some(Country::Switzerland)
    } else {
        None
    }
}

/// Character-by-character string equality, specified over the views.
fn str_eq(a: &str, b: &str) -> (r: bool)
    ensures
        r == (a@ == b@),
{
    let alen = a.unicode_len();
    let blen = b.unicode_len();
    if alen != blen {
        return false;
    }
    let mut i: usize = 0;
    while i < alen
        invariant
            i <= alen,
            alen == a@.len(),
            blen == b@.len(),
            alen == blen,
            forall|j: int| 0 <= j < i ==> a@[j] == b@[j],
        decreases alen - i,
    {
        if a.get_char(i) != b.get_char(i) {
            return false;
        }
        i = i + 1;
    }
    proof {
        assert(a@ =~= b@);
    }
    true
}

impl Country {
    /// Parse one of the recognized country spellings; any other text is
    /// rejected with the fixed message.
    pub fn from_code(s: &str) -> (r: Result<Country, &'static str>)
        ensures
            r is Ok <==> spec_country_of(s@) is Some,
            r is Ok ==> spec_country_of(s@) == Some(r->Ok_0),
            r is Err ==> r->Err_0@ == "Invalid country name"@,
    {
        if str_eq(s, "USA") {
            Ok(Country::UnitedStates)
        } else if str_eq(s, "Canada") {
            Ok(Country::Canada)
        } else if str_eq(s, "UK") {
            Ok(Country::UnitedKingdom)
        } else if str_eq(s, "Germany") {
            Ok(Country::Germany)
        } else if str_eq(s, "France") {
            Ok(Country::France)
        } else if str_eq(s, "Japan") {
            Ok(Country::Japan)
        } else if str_eq(s, "Australia") {
            Ok(Country::Australia)
        } else if str_eq(s, "China") {
            Ok(Country::China)
        } else if str_eq(s, "Brazil") {
            Ok(Country::Brazil)
        } else if str_eq(s, "South Korea") {
            Ok(Country::SouthKorea)
        } else if str_eq(s, "Ireland") {
            Ok(Country::Ireland)
        } else if str_eq(s, "Spain") {
            Ok(Country::Spain)
        } else if str_eq(s, "India") {
            Ok(Country::India)
        } else if str_eq(s, "Switzerland") {
            Ok(Country::Switzerland)
        } else {
            Err("Invalid country name")
        }
    }

    /// The continent this country belongs to: total, never fails, defined
    /// for every variant.
    pub fn country_to_continent(&self) -> (r: Continent)
        ensures
            r == continent_of(*self),
    {
        match *self {
            Country::UnitedStates | Country::Canada => Continent::NorthAmerica,
            Country::UnitedKingdom | Country::Germany | Country::France | Country::Ireland
                | Country::Spain | Country::Switzerland => Continent::Europe,
            Country::Japan | Country::China | Country::SouthKorea | Country::India =>
                Continent::Asia,
            Country::Australia => Continent::Oceania,
            Country::Brazil => Continent::SouthAmerica,
        }
    }
}

impl core::str::FromStr for Country {
    type Err = &'static str;

    fn from_str(s: &str) -> Result<Country, &'static str> {
        Country::from_code(s)
    }
}

} // verus!
