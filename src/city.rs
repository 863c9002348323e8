//! Cities: a description, a number of residents, and whether they lie on a
//! coast.
use vstd::prelude::*;
use vstd::string::StringExecFns;
use crate::naming::{decimal, push_decimal};

verus! {

#[derive(Debug, Clone, PartialEq, Eq)]
pub struct City {
    pub description: String,
    pub residents: u64,
    pub is_coastal: bool,
}

/// How large a city is.
#[derive(Debug, Clone, PartialEq, Eq)]
pub enum CitySize {
    /// About a thousand residents.
    Town,
    /// About ten thousand residents.
    City,
    /// About a million residents.
    Metropolis,
}

/// The description of a city of `residents`, after its kind.
pub open spec fn description_spec(kind: Seq<char>, residents: nat) -> Seq<char> {
    kind + " of approximately "@ + decimal(residents) + " residents"@
}

/// The residents that a size of city stands for.
pub open spec fn size_residents(size: CitySize) -> u64 {
    match size {
        CitySize::Town => 1_000,
        CitySize::City => 10_000,
        CitySize::Metropolis => 1_000_000,
    }
}

/// How a city of each size is described.
pub open spec fn size_kind(size: CitySize) -> Seq<char> {
    match size {
        CitySize::Town => "a *town*"@,
        _ => "an *unknown-size city*"@,
    }
}

fn describe(kind: &str, residents: u64) -> (r: String)
    ensures
        r@ == description_spec(kind@, residents as nat),
{
    let mut buf = String::from_str(kind);
    buf.append(" of approximately ");
    push_decimal(&mut buf, residents);
    buf.append(" residents");
    buf
}

/// A city with the given residents, described as a coastal city.
pub fn new_city(residents: u64, is_coastal: bool) -> (r: City)
    ensures
        r.description@ == description_spec("a *coastal* city"@, residents as nat),
        r.residents == residents,
        r.is_coastal == is_coastal,
{
    City { description: describe("a *coastal* city", residents), residents, is_coastal }
}

impl City {
    /// A city of the given size, with the residents that size stands for.
    pub fn new(city_size: CitySize, is_coastal: bool) -> (r: City)
        ensures
            r.residents == size_residents(city_size),
            r.description@ == description_spec(size_kind(city_size), size_residents(city_size) as nat),
            r.is_coastal == is_coastal,
    {
        let (kind, residents): (&str, u64) = match city_size {
            CitySize::Town => ("a *town*", 1_000),
            CitySize::City => ("an *unknown-size city*", 10_000),
            CitySize::Metropolis => ("an *unknown-size city*", 1_000_000),
        };
        City { description: describe(kind, residents), residents, is_coastal }
    }
}

} // verus!
