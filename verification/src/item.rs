//! The caller-facing payload the application sorts: an item with an editable
//! description. The engine itself never inspects it.

use vstd::prelude::*;

use crate::model::clone_faithful;

verus! {

/// Whether an item's description is currently being edited.
#[derive(Debug, Clone, Copy)]
pub enum State {
    Idle,
    Editing,
}

/// An edit action on one item.
#[derive(Debug, Clone)]
pub enum Message {
    Edit,
    DescriptionEdited(String),
    FinishEdition,
    Delete,
}

/// One prioritizable item.
#[derive(Debug)]
pub struct Item {
    pub description: String,
    pub state: State,
}

/// The item an edit action turns `pre` into: begin editing, replace the
/// description, or leave edit mode — the latter only once the description is
/// non-empty. Deletion is the owning list's concern and changes nothing here.
pub open spec fn updated_item(pre: Item, message: Message) -> Item {
    match message {
        Message::Edit => Item { state: State::Editing, ..pre },
        Message::DescriptionEdited(d) => Item { description: d, ..pre },
        Message::FinishEdition => if pre.description@.len() > 0 {
            Item { state: State::Idle, ..pre }
        } else {
            pre
        },
        Message::Delete => pre,
    }
}

impl Item {
    /// A fresh item with the given description, not being edited.
    pub fn new(description: &str) -> (item: Item)
        ensures
            item.description@ == description@,
            item.state is Idle,
    {
        Item { description: description.to_owned(), state: State::Idle }
    }

    /// Apply one edit action, as [`updated_item`] describes.
    pub fn update(&mut self, message: Message)
        ensures
            *final(self) == updated_item(*old(self), message),
    {
        match message {
            Message::Edit => {
                self.state = State::Editing;
            },
            Message::DescriptionEdited(new_description) => {
                self.description = new_description;
            },
            Message::FinishEdition => {
                if !self.description.as_str().is_empty() {
                    self.state = State::Idle;
                }
            },
            Message::Delete => {},
        }
    }
}

impl Clone for Item {
    /// Cloning an item reproduces it exactly.
    fn clone(&self) -> (other: Item)
        ensures
            other == *self,
    {
        Item { description: self.description.clone(), state: self.state }
    }
}

impl PartialEq for Item {
    /// Items compare equal exactly when their descriptions match.
    fn eq(&self, other: &Item) -> (r: bool) {
        self.description.eq(&other.description)
    }
}

impl vstd::std_specs::cmp::PartialEqSpecImpl for Item {
    open spec fn obeys_eq_spec() -> bool {
        true
    }

    open spec fn eq_spec(&self, other: &Item) -> bool {
        self.description@ == other.description@
    }
}

/// `Item::clone` reproduces its input exactly, so the engine's snapshots of a
/// run over items are exact.
pub proof fn lemma_item_clone_faithful()
    ensures
        clone_faithful::<Item>(),
{
    assert forall|a: Item, b: Item| cloned::<Item>(a, b) implies b == a by {
        // `cloned` is the reflexive closure of `Item::clone`'s postcondition,
        // and that postcondition already forces equality.
        if call_ensures(Item::clone, (&a,), b) {
        }
    }
}

} // verus!
