//! Fuel accounting: the fuel owed for a module of a given mass, and the
//! total including the fuel needed to carry the fuel itself.

use vstd::prelude::*;

verus! {

/// Fuel owed for a single mass: a third of the mass, rounded down, minus
/// two, floored at zero.
pub open spec fn fuel_for(mass: nat) -> nat {
    if mass / 3 >= 2 {
        (mass / 3 - 2) as nat
    } else {
        0
    }
}

/// Fuel owed for a mass together with the fuel for that fuel, and so on
/// until the added fuel is zero.
pub open spec fn fuel_chain(mass: nat) -> nat
    decreases mass,
{
    if mass == 0 {
        0
    } else {
        fuel_for(mass) + fuel_chain(fuel_for(mass))
    }
}

/// The whole chain of fuel for a mass never exceeds the mass itself.
pub proof fn lemma_fuel_chain_le(mass: nat)
    ensures
        fuel_chain(mass) <= mass,
    decreases mass,
{
    if mass > 0 {
        lemma_fuel_chain_le(fuel_for(mass));
    }
}

pub fn fuel(mass: u32) -> (r: u32)
    ensures
        r == fuel_for(mass as nat),
{
    let third = mass / 3;
    if third >= 2 {
        third - 2
    } else {
        0
    }
}

pub fn fuel2(mass: u32) -> (r: u32)
    ensures
        r == fuel_chain(mass as nat),
{
    proof {
        lemma_fuel_chain_le(mass as nat);
    }
    let mut current = mass;
    let mut answer: u32 = 0;
    while current > 0
        invariant
            answer + fuel_chain(current as nat) == fuel_chain(mass as nat),
            fuel_chain(mass as nat) <= u32::MAX,
        decreases current,
    {
        proof {
            lemma_fuel_chain_le(fuel_for(current as nat));
        }
        current = fuel(current);
        answer = answer + current;
    }
    answer
}

/// Sum of `fuel_for` over a list of masses.
pub open spec fn total_fuel_spec(masses: Seq<u32>) -> nat
    decreases masses.len(),
{
    if masses.len() == 0 {
        0
    } else {
        fuel_for(masses[0] as nat) + total_fuel_spec(masses.skip(1))
    }
}

/// Sum of `fuel_chain` over a list of masses.
pub open spec fn total_fuel2_spec(masses: Seq<u32>) -> nat
    decreases masses.len(),
{
    if masses.len() == 0 {
        0
    } else {
        fuel_chain(masses[0] as nat) + total_fuel2_spec(masses.skip(1))
    }
}

proof fn lemma_total_fuel_bound(masses: Seq<u32>)
    ensures
        total_fuel_spec(masses) <= masses.len() * (u32::MAX as nat),
        total_fuel2_spec(masses) <= masses.len() * (u32::MAX as nat),
    decreases masses.len(),
{
    if masses.len() > 0 {
        lemma_total_fuel_bound(masses.skip(1));
        lemma_fuel_chain_le(masses[0] as nat);
        assert((masses.len() - 1) * (u32::MAX as nat) + (u32::MAX as nat) == masses.len() * (
        u32::MAX as nat)) by (nonlinear_arith);
    }
}

proof fn lemma_total_fuel_fits(masses: Seq<u32>)
    requires
        masses.len() <= 0x1_0000_0000,
    ensures
        total_fuel_spec(masses) <= u64::MAX,
        total_fuel2_spec(masses) <= u64::MAX,
{
    lemma_total_fuel_bound(masses);
    assert(masses.len() * (u32::MAX as nat) <= 0x1_0000_0000 * (u32::MAX as nat))
        by (nonlinear_arith)
        requires
            masses.len() <= 0x1_0000_0000,
    ;
}

/// Total fuel for a list of module masses, without the fuel-for-fuel
/// correction.
pub fn total_fuel(masses: &Vec<u32>) -> (r: u64)
    requires
        masses@.len() <= 0x1_0000_0000,
    ensures
        r == total_fuel_spec(masses@),
{
    proof {
        lemma_total_fuel_fits(masses@);
    }
    assert(masses@.skip(0) =~= masses@);
    let mut r: u64 = 0;
    let mut i: usize = 0;
    while i < masses.len()
        invariant
            i <= masses@.len(),
            r + total_fuel_spec(masses@.skip(i as int)) == total_fuel_spec(masses@),
            total_fuel_spec(masses@) <= u64::MAX,
        decreases masses@.len() - i,
    {
        assert(masses@.skip(i as int)[0] == masses@[i as int]);
        assert(masses@.skip(i as int).skip(1) =~= masses@.skip(i + 1));
        r = r + fuel(masses[i]) as u64;
        i = i + 1;
    }
    assert(masses@.skip(masses@.len() as int) =~= Seq::<u32>::empty());
    r
}

/// Total fuel for a list of module masses, counting the fuel needed to
/// carry the fuel itself.
pub fn total_fuel2(masses: &Vec<u32>) -> (r: u64)
    requires
        masses@.len() <= 0x1_0000_0000,
    ensures
        r == total_fuel2_spec(masses@),
{
    proof {
        lemma_total_fuel_fits(masses@);
    }
    assert(masses@.skip(0) =~= masses@);
    let mut r: u64 = 0;
    let mut i: usize = 0;
    while i < masses.len()
        invariant
            i <= masses@.len(),
            r + total_fuel2_spec(masses@.skip(i as int)) == total_fuel2_spec(masses@),
            total_fuel2_spec(masses@) <= u64::MAX,
        decreases masses@.len() - i,
    {
        assert(masses@.skip(i as int)[0] == masses@[i as int]);
        assert(masses@.skip(i as int).skip(1) =~= masses@.skip(i + 1));
        r = r + fuel2(masses[i]) as u64;
        i = i + 1;
    }
    assert(masses@.skip(masses@.len() as int) =~= Seq::<u32>::empty());
    r
}

} // verus!
