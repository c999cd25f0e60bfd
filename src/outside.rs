use vstd::prelude::*;

verus! {

/// bracket-random's generator, carried opaquely.
#[verifier::external_type_specification]
#[verifier::external_body]
pub struct ExRandomNumberGenerator(bracket_random::prelude::RandomNumberGenerator);

/// bracket-geometry's point, handed to bracket-pathfinding.
#[verifier::external_type_specification]
#[verifier::external_body]
pub struct ExPoint(bracket_geometry::prelude::Point);

} // verus!
