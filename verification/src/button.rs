//! Inline message buttons: a label plus a serialized action payload,
//! laid out in rows under a message.

use vstd::prelude::*;

verus! {

/// An action a message button triggers. Implementors serialize the action
/// into the button's callback payload and recover it from that payload.
pub trait MessageButtonAction {
    /// Serialize the action into the payload text.
    fn ser(&self) -> String;

    /// Recover the action from the payload text.
    fn deser(input: &str) -> Option<Self> where Self: Sized;
}

/// One inline button: its label and its serialized action payload.
pub struct MessageButton {
    text: String,
    data: String,
}

impl MessageButton {
    /// The button's label, at the specification level.
    pub closed spec fn spec_text(&self) -> Seq<char> {
        self.text@
    }

    /// The serialized payload, at the specification level.
    pub closed spec fn spec_data(&self) -> Seq<char> {
        self.data@
    }

    /// Build a button from its label and the action it triggers; the
    /// action is serialized once, here.
    pub fn new<A: MessageButtonAction>(text: String, action: &A) -> (r: MessageButton)
        ensures
            r.spec_text() == text@,
    {
        let data = action.ser();
        MessageButton { text, data }
    }

    /// The button's label.
    pub fn text(&self) -> (r: &str)
        ensures
            r@ == self.spec_text(),
    {
        self.text.as_str()
    }

    /// The button's serialized action payload.
    pub fn data(&self) -> (r: &str)
        ensures
            r@ == self.spec_data(),
    {
        self.data.as_str()
    }
}

/// The rows of buttons laid out under one message.
pub struct MessageButtons {
    rows: Vec<Vec<MessageButton>>,
}

impl View for MessageButtons {
    type V = Seq<Seq<MessageButton>>;

    closed spec fn view(&self) -> Seq<Seq<MessageButton>> {
        self.rows@.map_values(|row: Vec<MessageButton>| row@)
    }
}

impl MessageButtons {
    /// Lay out the given rows of buttons, in order.
    pub fn new(buttons: Vec<Vec<MessageButton>>) -> (r: MessageButtons)
        ensures
            r@ == buttons@.map_values(|row: Vec<MessageButton>| row@),
    {
        MessageButtons { rows: buttons }
    }

    /// The number of rows.
    pub fn len(&self) -> (r: usize)
        ensures
            r == self@.len(),
    {
        self.rows.len()
    }

    /// The row of buttons at `i`.
    pub fn row(&self, i: usize) -> (r: &Vec<MessageButton>)
        requires
            i < self@.len(),
        ensures
            r@ == self@[i as int],
    {
        &self.rows[i]
    }
}

} // verus!
