use vstd::prelude::*;

verus! {

/// One credential: the name it is found by, the account it belongs to, and
/// the secret itself.
#[derive(PartialEq, Debug)]
pub struct PasswordEntry {
    pub name: String,
    pub username: String,
    pub password: String,
}

/// A credential as contracts speak of it: three texts.
pub ghost struct Entry {
    pub name: Seq<char>,
    pub username: Seq<char>,
    pub password: Seq<char>,
}

impl View for PasswordEntry {
    type V = Entry;

    open spec fn view(&self) -> Entry {
        Entry { name: self.name@, username: self.username@, password: self.password@ }
    }
}

/// The credentials of a list, in order.
pub open spec fn entries(data: Seq<PasswordEntry>) -> Seq<Entry> {
    Seq::new(data.len(), |i: int| data[i]@)
}

} // verus!
