//! An operation resolved against a schema: what it selects, the variables it
//! declares and the fragments it can spread.

use crate::field_type::GraphqlTypeQualifier;
use crate::schema::{Schema, SchemaView};
use crate::sequences::{optional_view, views};
use vstd::prelude::*;

verus! {

/// One entry of a selection set.
#[derive(Debug, PartialEq, Eq)]
pub enum Selection {
    /// A field of the enclosing type, by name, with what is selected on it.
    Field { name: String, alias: Option<String>, selection_set: Vec<Selection> },
    /// A spread of the fragment at that place in the operation's table.
    FragmentSpread { fragment: usize },
    /// A selection that applies only to values of the type at `on`.
    InlineFragment { on: usize, selection_set: Vec<Selection> },
}

/// The mathematical value of a [`Selection`].
pub enum SelectionView {
    Field { name: Seq<char>, alias: Option<Seq<char>>, selection_set: Seq<SelectionView> },
    FragmentSpread { fragment: usize },
    InlineFragment { on: usize, selection_set: Seq<SelectionView> },
}

impl Selection {
    /// The value of this entry, with the values of the entries below it.
    pub open spec fn model(&self) -> SelectionView
        decreases self,
    {
        match self {
            Selection::Field { name, alias, selection_set } => SelectionView::Field {
                name: name@,
                alias: optional_view(*alias),
                selection_set: Seq::new(
                    selection_set@.len(),
                    |i: int|
                        if 0 <= i < selection_set@.len() {
                            selection_set@[i].model()
                        } else {
                            arbitrary()
                        },
                ),
            },
            Selection::FragmentSpread { fragment } => SelectionView::FragmentSpread {
                fragment: *fragment,
            },
            Selection::InlineFragment { on, selection_set } => SelectionView::InlineFragment {
                on: *on,
                selection_set: Seq::new(
                    selection_set@.len(),
                    |i: int|
                        if 0 <= i < selection_set@.len() {
                            selection_set@[i].model()
                        } else {
                            arbitrary()
                        },
                ),
            },
        }
    }
}

impl View for Selection {
    type V = SelectionView;

    open spec fn view(&self) -> SelectionView {
        self.model()
    }
}

/// The view of an entry holds the views of the entries below it.
pub proof fn lemma_selection_view(selection: &Selection)
    ensures
        match selection {
            Selection::Field { name, alias, selection_set } => selection@ == (SelectionView::Field {
                name: name@,
                alias: optional_view(*alias),
                selection_set: views(selection_set@),
            }),
            Selection::FragmentSpread { fragment } => selection@ == (SelectionView::FragmentSpread {
                fragment: *fragment,
            }),
            Selection::InlineFragment { on, selection_set } => selection@
                == (SelectionView::InlineFragment { on: *on, selection_set: views(selection_set@) }),
        },
{
    match selection {
        Selection::Field { name, alias, selection_set } => {
            assert(selection@->Field_selection_set =~= views(selection_set@));
        },
        Selection::FragmentSpread { fragment } => {},
        Selection::InlineFragment { on, selection_set } => {
            assert(selection@->InlineFragment_selection_set =~= views(selection_set@));
        },
    }
}

/// A declared variable.
#[derive(Debug, Clone, PartialEq, Eq)]
pub struct Variable {
    pub name: String,
    /// The place of the variable's named type in the schema's table.
    pub target: usize,
    /// The wrappers around that type, outermost first.
    pub qualifiers: Vec<GraphqlTypeQualifier>,
}

/// The mathematical value of a [`Variable`].
pub struct VariableView {
    pub name: Seq<char>,
    pub target: usize,
    pub qualifiers: Seq<GraphqlTypeQualifier>,
}

impl View for Variable {
    type V = VariableView;

    open spec fn view(&self) -> VariableView {
        VariableView { name: self.name@, target: self.target, qualifiers: self.qualifiers@ }
    }
}

/// A named selection set on the type at `on`.
#[derive(Debug, PartialEq, Eq)]
pub struct Fragment {
    pub name: String,
    pub on: usize,
    pub selection_set: Vec<Selection>,
}

/// The mathematical value of a [`Fragment`].
pub struct FragmentView {
    pub name: Seq<char>,
    pub on: usize,
    pub selection_set: Seq<SelectionView>,
}

impl View for Fragment {
    type V = FragmentView;

    open spec fn view(&self) -> FragmentView {
        FragmentView { name: self.name@, on: self.on, selection_set: views(self.selection_set@) }
    }
}

/// An operation. A fragment's identity is its index in `fragments`.
#[derive(Debug, PartialEq, Eq)]
pub struct Operation {
    pub name: String,
    /// The type that the root selection set selects on.
    pub root: usize,
    pub selection_set: Vec<Selection>,
    pub variables: Vec<Variable>,
    pub fragments: Vec<Fragment>,
}

/// The mathematical value of an [`Operation`].
pub struct OperationView {
    pub name: Seq<char>,
    pub root: usize,
    pub selection_set: Seq<SelectionView>,
    pub variables: Seq<VariableView>,
    pub fragments: Seq<FragmentView>,
}

impl View for Operation {
    type V = OperationView;

    open spec fn view(&self) -> OperationView {
        OperationView {
            name: self.name@,
            root: self.root,
            selection_set: views(self.selection_set@),
            variables: views(self.variables@),
            fragments: views(self.fragments@),
        }
    }
}

/// Whether every type condition in `selection` has a place among `count`
/// types.
pub open spec fn selection_within(selection: SelectionView, count: nat) -> bool
    decreases selection,
{
    match selection {
        SelectionView::Field { name, alias, selection_set } => selections_within(
            selection_set,
            0,
            count,
        ),
        SelectionView::FragmentSpread { fragment } => true,
        SelectionView::InlineFragment { on, selection_set } => on < count && selections_within(
            selection_set,
            0,
            count,
        ),
    }
}

/// [`selection_within`] of every entry of `selections` from `from` on.
pub open spec fn selections_within(selections: Seq<SelectionView>, from: nat, count: nat) -> bool
    decreases selections, selections.len() - from,
{
    if from >= selections.len() {
        true
    } else {
        selection_within(selections[from as int], count) && selections_within(
            selections,
            from + 1,
            count,
        )
    }
}

/// Whether every fragment of `fragments` from `from` on stays within `count`
/// types.
pub open spec fn fragments_within(fragments: Seq<FragmentView>, from: nat, count: nat) -> bool
    decreases fragments.len() - from,
{
    if from >= fragments.len() {
        true
    } else {
        fragments[from as int].on < count && selections_within(
            fragments[from as int].selection_set,
            0,
            count,
        ) && fragments_within(fragments, from + 1, count)
    }
}

/// Every entry from `from` on is within the table.
pub proof fn lemma_selections_within(selections: Seq<SelectionView>, from: nat, count: nat, at: int)
    requires
        selections_within(selections, from, count),
        from <= at < selections.len(),
    ensures
        selection_within(selections[at], count),
    decreases selections.len() - from,
{
    if from < at {
        lemma_selections_within(selections, from + 1, count, at);
    }
}

/// Every fragment from `from` on is within the table.
pub proof fn lemma_fragments_within(fragments: Seq<FragmentView>, from: nat, count: nat, at: int)
    requires
        fragments_within(fragments, from, count),
        from <= at < fragments.len(),
    ensures
        fragments[at].on < count,
        selections_within(fragments[at].selection_set, 0, count),
    decreases fragments.len() - from,
{
    if from < at {
        lemma_fragments_within(fragments, from + 1, count, at);
    }
}

/// One entry outside the table puts the whole set outside.
pub proof fn lemma_selections_fail(selections: Seq<SelectionView>, from: nat, count: nat, at: int)
    requires
        from <= at < selections.len(),
        !selection_within(selections[at], count),
    ensures
        !selections_within(selections, from, count),
    decreases selections.len() - from,
{
    if from < at {
        lemma_selections_fail(selections, from + 1, count, at);
    }
}

/// One fragment outside the table puts the whole table outside.
pub proof fn lemma_fragments_fail(fragments: Seq<FragmentView>, from: nat, count: nat, at: int)
    requires
        from <= at < fragments.len(),
        !(fragments[at].on < count && selections_within(fragments[at].selection_set, 0, count)),
    ensures
        !fragments_within(fragments, from, count),
    decreases fragments.len() - from,
{
    if from < at {
        lemma_fragments_fail(fragments, from + 1, count, at);
    }
}

/// Tests [`selection_within`].
#[verifier::loop_isolation(false)]
pub fn selection_is_within(selection: &Selection, count: usize) -> (r: bool)
    ensures
        r == selection_within(selection@, count as nat),
    decreases selection,
{
    proof {
        lemma_selection_view(selection);
    }
    match selection {
        Selection::Field { name, alias, selection_set } => selections_are_within(
            selection_set,
            count,
        ),
        Selection::FragmentSpread { fragment } => true,
        Selection::InlineFragment { on, selection_set } => *on < count && selections_are_within(
            selection_set,
            count,
        ),
    }
}

/// Tests [`selections_within`] from the first entry on.
#[verifier::loop_isolation(false)]
pub fn selections_are_within(selections: &Vec<Selection>, count: usize) -> (r: bool)
    ensures
        r == selections_within(views(selections@), 0, count as nat),
    decreases selections,
{
    let mut i: usize = selections.len();
    while i > 0
        invariant
            i <= selections.len(),
            selections_within(views(selections@), i as nat, count as nat),
        decreases i,
    {
        i = i - 1;
        assert(views(selections@)[i as int] == selections@[i as int]@);
        if !selection_is_within(&selections[i], count) {
            proof {
                lemma_selections_fail(views(selections@), 0, count as nat, i as int);
            }
            return false;
        }
    }
    true
}

impl OperationView {
    /// Whether every type that the operation refers to is in `schema`'s
    /// table. Spreads are not held to that: one that names no fragment is an
    /// error that generation reports.
    pub open spec fn well_formed(self, schema: SchemaView) -> bool {
        &&& self.root < schema.types.len()
        &&& selections_within(self.selection_set, 0, schema.types.len())
        &&& forall|v: int|
            0 <= v < self.variables.len() ==> (#[trigger] self.variables[v]).target
                < schema.types.len()
        &&& fragments_within(self.fragments, 0, schema.types.len())
    }
}

impl Operation {
    /// Tests [`OperationView::well_formed`].
    #[verifier::loop_isolation(false)]
    pub fn is_well_formed(&self, schema: &Schema) -> (r: bool)
        ensures
            r == self@.well_formed(schema@),
    {
        let count = schema.types.len();
        if self.root >= count || !selections_are_within(&self.selection_set, count) {
            return false;
        }
        let mut v: usize = 0;
        while v < self.variables.len()
            invariant
                v <= self.variables.len(),
                forall|k: int| 0 <= k < v ==> (#[trigger] self@.variables[k]).target < count,
            decreases self.variables.len() - v,
        {
            assert(self@.variables[v as int] == self.variables@[v as int]@);
            if self.variables[v].target >= count {
                return false;
            }
            v = v + 1;
        }
        let mut f: usize = self.fragments.len();
        while f > 0
            invariant
                f <= self.fragments.len(),
                fragments_within(self@.fragments, f as nat, count as nat),
            decreases f,
        {
            f = f - 1;
            assert(self@.fragments[f as int] == self.fragments@[f as int]@);
            if self.fragments[f].on >= count || !selections_are_within(
                &self.fragments[f].selection_set,
                count,
            ) {
                proof {
                    lemma_fragments_fail(self@.fragments, 0, count as nat, f as int);
                }
                return false;
            }
        }
        true
    }
}

} // verus!
