//! A chat message: its text, its title and the time it was written.
use vstd::prelude::*;

verus! {

/// A chat message. The time is left empty until a message is stored.
pub struct Message {
    text: String,
    title: String,
    date_time: String,
}

impl Message {
    pub closed spec fn text_view(&self) -> Seq<char> {
        self.text@
    }

    pub closed spec fn title_view(&self) -> Seq<char> {
        self.title@
    }

    pub closed spec fn date_time_view(&self) -> Seq<char> {
        self.date_time@
    }

    /// A message whose text, title and time are all empty.
    pub fn default() -> (r: Self)
        ensures
            r.text_view() == Seq::<char>::empty(),
            r.title_view() == Seq::<char>::empty(),
            r.date_time_view() == Seq::<char>::empty(),
    {
        Self { text: String::new(), title: String::new(), date_time: String::new() }
    }

    /// A message with the given text and title and an empty time.
    pub fn new(text: &str, title: &str) -> (r: Self)
        ensures
            r.text_view() == text@,
            r.title_view() == title@,
            r.date_time_view() == Seq::<char>::empty(),
    {
        let txt = String::from_str(text);
        let tt = String::from_str(title);
        Self { text: txt, title: tt, date_time: String::new() }
    }

    /// The text.
    pub fn text(&self) -> (r: &str)
        ensures
            r@ == self.text_view(),
    {
        self.text.as_str()
    }

    /// The title.
    pub fn title(&self) -> (r: &str)
        ensures
            r@ == self.title_view(),
    {
        self.title.as_str()
    }

    /// The time it was written, empty while unknown.
    pub fn date_time(&self) -> (r: &str)
        ensures
            r@ == self.date_time_view(),
    {
        self.date_time.as_str()
    }
}

} // verus!
