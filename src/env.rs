use vstd::prelude::*;

verus! {

/// The named deployment targets; each one opens its own storage location.
#[derive(Clone, Copy, Debug, PartialEq, Eq, Structural)]
pub enum Env {
    Prod,
    Test,
}

/// The storage location of each target.
pub open spec fn location_of(env: Env) -> Seq<char> {
    match env {
        Env::Prod => "prod"@,
        Env::Test => "test"@,
    }
}

impl Env {
    /// The storage location that this target opens.
    pub fn tbl_name(&self) -> (r: &'static str)
        ensures
            r@ == location_of(*self),
    {
        match self {
            Env::Prod => "prod",
            Env::Test => "test",
        }
    }
}

/// The test target never shares its storage location with the production
/// target, so test runs cannot touch production data.
pub proof fn lemma_locations_distinct()
    ensures
        location_of(Env::Test) != location_of(Env::Prod),
{
    reveal_strlit("prod");
    reveal_strlit("test");
    assert(location_of(Env::Test)[0] != location_of(Env::Prod)[0]);
}

} // verus!
