use vstd::prelude::*;

verus! {

/// Any string-like value a matcher can be built from or matched against:
/// an owned string, a borrowed slice, or a reference to either. The view
/// is the sequence of characters the value denotes.
pub trait Text {
    spec fn text_view(&self) -> Seq<char>;

    fn text(&self) -> (s: &str)
        ensures
            s@ == self.text_view(),
    ;
}

impl Text for String {
    open spec fn text_view(&self) -> Seq<char> {
        self@
    }

    fn text(&self) -> (s: &str) {
        self.as_str()
    }
}

impl<'a> Text for &'a str {
    open spec fn text_view(&self) -> Seq<char> {
        self@
    }

    fn text(&self) -> (s: &str) {
        *self
    }
}

impl<'a> Text for &'a String {
    open spec fn text_view(&self) -> Seq<char> {
        self@
    }

    fn text(&self) -> (s: &str) {
        self.as_str()
    }
}

} // verus!
