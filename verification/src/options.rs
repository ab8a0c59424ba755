//! What the caller settles: annotations to pass through and the
//! representation of scalars.

use crate::sequences::views;
use vstd::prelude::*;

verus! {

/// The outside representation of one scalar.
#[derive(Debug, Clone, PartialEq, Eq)]
pub struct ScalarMapping {
    pub scalar: String,
    pub target: String,
}

/// The mathematical value of a [`ScalarMapping`].
pub struct ScalarMappingView {
    pub scalar: Seq<char>,
    pub target: Seq<char>,
}

impl View for ScalarMapping {
    type V = ScalarMappingView;

    open spec fn view(&self) -> ScalarMappingView {
        ScalarMappingView { scalar: self.scalar@, target: self.target@ }
    }
}

/// What the caller settles for one pass.
#[derive(Debug, Clone, PartialEq, Eq)]
pub struct GraphQLClientCodegenOptions {
    /// Annotations for response types, in the order to attach them.
    pub response_derives: Vec<String>,
    /// Annotations for the variables type, in the order to attach them.
    pub variables_derives: Vec<String>,
    /// Representations of scalars; the first entry for a name counts.
    pub scalars: Vec<ScalarMapping>,
    /// The names that the target language keeps for itself.
    pub reserved: Vec<String>,
}

/// The mathematical value of a [`GraphQLClientCodegenOptions`].
pub struct OptionsView {
    pub response_derives: Seq<Seq<char>>,
    pub variables_derives: Seq<Seq<char>>,
    pub scalars: Seq<ScalarMappingView>,
    pub reserved: Seq<Seq<char>>,
}

impl View for GraphQLClientCodegenOptions {
    type V = OptionsView;

    open spec fn view(&self) -> OptionsView {
        OptionsView {
            response_derives: views(self.response_derives@),
            variables_derives: views(self.variables_derives@),
            scalars: views(self.scalars@),
            reserved: views(self.reserved@),
        }
    }
}

/// The target of the first mapping for `scalar` at or after `from`.
pub open spec fn mapped_from(
    mappings: Seq<ScalarMappingView>,
    scalar: Seq<char>,
    from: int,
) -> Option<Seq<char>>
    decreases mappings.len() - from,
{
    if from < 0 || from >= mappings.len() {
        None
    } else if mappings[from].scalar == scalar {
        Some(mappings[from].target)
    } else {
        mapped_from(mappings, scalar, from + 1)
    }
}

impl OptionsView {
    /// The representation supplied for `scalar`, if any.
    pub open spec fn representation(self, scalar: Seq<char>) -> Option<Seq<char>> {
        mapped_from(self.scalars, scalar, 0)
    }
}

impl GraphQLClientCodegenOptions {
    /// The annotations for response types.
    pub fn all_response_derives(&self) -> (r: &Vec<String>)
        ensures
            views(r@) == self@.response_derives,
    {
        &self.response_derives
    }

    /// The annotations for the variables type.
    pub fn all_variable_derives(&self) -> (r: &Vec<String>)
        ensures
            views(r@) == self@.variables_derives,
    {
        &self.variables_derives
    }

    /// Looks up the representation supplied for `scalar`.
    #[verifier::loop_isolation(false)]
    pub fn scalar_target(&self, scalar: &String) -> (r: Option<&String>)
        ensures
            r matches Some(target) ==> self@.representation(scalar@) == Some(target@),
            r is None ==> self@.representation(scalar@) is None,
    {
        let mut i: usize = 0;
        while i < self.scalars.len()
            invariant
                i <= self.scalars.len(),
                mapped_from(self@.scalars, scalar@, 0) == mapped_from(
                    self@.scalars,
                    scalar@,
                    i as int,
                ),
            decreases self.scalars.len() - i,
        {
            assert(self@.scalars[i as int] == self.scalars@[i as int]@);
            if self.scalars[i].scalar == *scalar {
                return Some(&self.scalars[i].target);
            }
            i = i + 1;
        }
        None
    }
}

} // verus!
