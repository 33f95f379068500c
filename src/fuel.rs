//! Fuel that a module of a given mass needs: a third of the mass, rounded
//! down, less two; and the total once the fuel's own mass is fuelled too.
use vstd::prelude::*;

verus! {

/// Fuel for `mass` alone (division rounds toward negative infinity).
pub open spec fn fuel_for(mass: int) -> int {
    mass / 3 - 2
}

/// Fuel for `mass`, plus fuel for that fuel, and so on while the amount is
/// positive.
pub open spec fn total_fuel(mass: int) -> int
    decreases (if mass > 0 {
        mass
    } else {
        0
    }),
{
    let req = fuel_for(mass);
    if req <= 0 {
        0
    } else {
        req + total_fuel(req)
    }
}

/// Fuel for `mass` alone.
pub fn fuel_for_mass(mass: i64) -> (r: i64)
    ensures
        r == fuel_for(mass as int),
{
    if mass >= 0 {
        mass / 3 - 2
    } else {
        let k: i64 = -(mass + 1);
        assert(mass as int / 3 == -(k as int / 3) - 1);
        -(k / 3) - 1 - 2
    }
}

/// Fuel for `payload`, counting the fuel that the fuel itself needs.
pub fn calculate_fuel(payload: i64) -> (r: i64)
    ensures
        r == total_fuel(payload as int),
{
    let mut total: i64 = 0;
    let mut m: i64 = payload;
    loop
        invariant
            total >= 0,
            total + total_fuel(m as int) == total_fuel(payload as int),
            m > 0 ==> total + m <= payload,
            m <= 0 ==> total == 0,
        decreases (if m > 0 {
            m as int
        } else {
            0
        }),
    {
        let req = fuel_for_mass(m);
        if req <= 0 {
            return total;
        }
        total = total + req;
        m = req;
    }
}

} // verus!
