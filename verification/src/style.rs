use vstd::prelude::*;
use vstd::std_specs::cmp::PartialEqSpecImpl;

verus! {

/// What a text style is by value.
pub struct TextStyleView {
    pub family: Seq<char>,
    pub bold: bool,
    pub italic: bool,
}

/// The font that a run of text asks for: a family by name, and whether it
/// is to be bold or italic.
#[derive(Debug, Eq, Hash)]
pub struct TextStyle {
    pub family: String,
    pub bold: bool,
    pub italic: bool,
}

impl View for TextStyle {
    type V = TextStyleView;

    open spec fn view(&self) -> TextStyleView {
        TextStyleView { family: self.family@, bold: self.bold, italic: self.italic }
    }
}

impl Clone for TextStyle {
    fn clone(&self) -> (r: TextStyle)
        ensures
            r == *self,
    {
        TextStyle { family: self.family.clone(), bold: self.bold, italic: self.italic }
    }
}

impl PartialEq for TextStyle {
    fn eq(&self, other: &TextStyle) -> (r: bool) {
        self.family == other.family && self.bold == other.bold && self.italic == other.italic
    }
}

impl PartialEqSpecImpl for TextStyle {
    open spec fn obeys_eq_spec() -> bool {
        true
    }

    open spec fn eq_spec(&self, other: &TextStyle) -> bool {
        self@ == other@
    }
}

} // verus!
