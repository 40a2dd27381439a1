use vstd::prelude::*;

verus! {

/// The ruler's answer to a request.
#[derive(Clone, Copy, Debug, PartialEq, Eq, Structural)]
pub enum DecisionType {
    Yes,
    No,
}

/// A verdict on the request that the petitioner under the given key presents.
#[derive(Clone, Debug)]
pub enum Decision {
    Yes(String),
    No(String),
}

impl Decision {
    pub open spec fn spec_kind(&self) -> DecisionType {
        match self {
            Decision::Yes(_) => DecisionType::Yes,
            Decision::No(_) => DecisionType::No,
        }
    }

    pub open spec fn spec_key(&self) -> Seq<char> {
        match self {
            Decision::Yes(k) => k@,
            Decision::No(k) => k@,
        }
    }

    /// The key of the petitioner that the verdict is about.
    pub fn key(&self) -> (r: &String)
        ensures
            r@ == self.spec_key(),
    {
        match self {
            Decision::Yes(k) => k,
            Decision::No(k) => k,
        }
    }
}

impl<'a> From<&'a Decision> for DecisionType {
    fn from(value: &'a Decision) -> (r: DecisionType) {
        match value {
            Decision::Yes(_) => DecisionType::Yes,
            Decision::No(_) => DecisionType::No,
        }
    }
}

impl<'a> vstd::std_specs::convert::FromSpecImpl<&'a Decision> for DecisionType {
    open spec fn obeys_from_spec() -> bool {
        true
    }

    open spec fn from_spec(v: &'a Decision) -> DecisionType {
        v.spec_kind()
    }
}

} // verus!
