use vstd::prelude::*;
use crate::entry::{entries, Entry, PasswordEntry};
use crate::error::{PwError, Refusal};
use crate::text::{shown_text, text_of};

verus! {

/// What the caller found at the store's path.
pub enum Stored {
    /// No file stands there.
    Absent,
    /// A file stands there, and the cipher could not be run or failed to
    /// decrypt it.
    Undecrypted,
    /// What the cipher put out, and why it did not parse as a list of
    /// entries.
    Unparsed(Vec<u8>, serde_json::Error),
    /// The entries that the file holds.
    Entries(Vec<PasswordEntry>),
}

/// What was found at the store's path, as contracts speak of it.
pub ghost enum Found {
    Absent,
    Undecrypted,
    Unparsed(Seq<u8>, serde_json::Error),
    Entries(Seq<Entry>),
}

impl View for Stored {
    type V = Found;

    open spec fn view(&self) -> Found {
        match *self {
            Stored::Absent => Found::Absent,
            Stored::Undecrypted => Found::Undecrypted,
            Stored::Unparsed(raw, cause) => Found::Unparsed(raw@, cause),
            Stored::Entries(data) => Found::Entries(entries(data@)),
        }
    }
}

/// What became of an attempt to write the list back.
pub struct Written {
    /// Why the list did not reach the cipher as JSON, where it did not.
    pub unserialized: Option<serde_json::Error>,
    /// Whether the cipher ran and ended with success.
    pub encrypted: bool,
}

/// Whether some entry of the list has the name.
pub open spec fn has_name(s: Seq<Entry>, name: Seq<char>) -> bool {
    exists|i: int| 0 <= i < s.len() && #[trigger] s[i].name == name
}

/// Whether no two entries of the list share a name.
pub open spec fn unique_names(s: Seq<Entry>) -> bool {
    forall|i: int, j: int|
        0 <= i < j < s.len() ==> #[trigger] s[i].name != #[trigger] s[j].name
}

/// How many entries stand before the first one of that name: its index, or
/// the list's length where no entry has the name.
pub open spec fn position(s: Seq<Entry>, name: Seq<char>) -> nat
    decreases s.len(),
{
    if s.len() == 0 || s.first().name == name {
        0
    } else {
        1 + position(s.drop_first(), name)
    }
}

/// The entry with its account and secret taken from `fresh`, and its name
/// kept.
pub open spec fn refreshed(e: Entry, fresh: Entry) -> Entry {
    Entry { name: e.name, username: fresh.username, password: fresh.password }
}

/// The list without the entries of that name.
pub open spec fn without(s: Seq<Entry>, name: Seq<char>) -> Seq<Entry> {
    s.filter(|e: Entry| e.name != name)
}

/// The list that a read yields, or why there is none.
pub open spec fn read_spec(file: Seq<char>, found: Found) -> Result<Seq<Entry>, Refusal> {
    match found {
        Found::Absent => Err(Refusal::FileNotFound(file)),
        Found::Undecrypted => Err(Refusal::ScryptError),
        Found::Unparsed(raw, cause) => Err(Refusal::InvalidJson(shown_text(raw), cause)),
        Found::Entries(s) => Ok(s),
    }
}

/// What `init` owes for a path shown as `file`, where `exists` says whether a
/// file stands there: a refusal, or the empty list to be written.
pub open spec fn init_spec(file: Seq<char>, exists: bool) -> Result<Seq<Entry>, Refusal> {
    if exists {
        Err(Refusal::FileAlreadyExists(file))
    } else {
        Ok(Seq::empty())
    }
}

/// What `get` owes: the first entry of that name.
pub open spec fn get_spec(file: Seq<char>, found: Found, name: Seq<char>) -> Result<
    Entry,
    Refusal,
> {
    match read_spec(file, found) {
        Err(e) => Err(e),
        Ok(s) => if has_name(s, name) {
            Ok(s[position(s, name) as int])
        } else {
            Err(Refusal::NotFound)
        },
    }
}

/// What `add` owes: the list with the new entry at its end.
pub open spec fn add_spec(file: Seq<char>, found: Found, e: Entry) -> Result<
    Seq<Entry>,
    Refusal,
> {
    match read_spec(file, found) {
        Err(e) => Err(e),
        Ok(s) => if has_name(s, e.name) {
            Err(Refusal::AlreadyExists)
        } else {
            Ok(s.push(e))
        },
    }
}

/// What `update` owes: the list with the first entry of that name refreshed.
pub open spec fn update_spec(file: Seq<char>, found: Found, e: Entry) -> Result<
    Seq<Entry>,
    Refusal,
> {
    match read_spec(file, found) {
        Err(e) => Err(e),
        Ok(s) => if has_name(s, e.name) {
            let at = position(s, e.name) as int;
            Ok(s.update(at, refreshed(s[at], e)))
        } else {
            Err(Refusal::NotFound)
        },
    }
}

/// What `remove` owes: the list without the entries of that name.
pub open spec fn remove_spec(file: Seq<char>, found: Found, name: Seq<char>) -> Result<
    Seq<Entry>,
    Refusal,
> {
    match read_spec(file, found) {
        Err(e) => Err(e),
        Ok(s) => if has_name(s, name) {
            Ok(without(s, name))
        } else {
            Err(Refusal::NotFound)
        },
    }
}

/// What `write` owes for each end of an attempt to write: a failure of the
/// cipher comes first, then a list that did not reach it.
pub open spec fn write_spec(outcome: Written) -> Result<(), Refusal> {
    if !outcome.encrypted {
        Err(Refusal::ScryptError)
    } else {
        match outcome.unserialized {
            Some(cause) => Err(Refusal::InvalidJson(Seq::empty(), cause)),
            None => Ok(()),
        }
    }
}

/// The view of an outcome that carries a list.
pub open spec fn list_outcome(r: Result<Vec<PasswordEntry>, PwError>) -> Result<
    Seq<Entry>,
    Refusal,
> {
    match r {
        Ok(data) => Ok(entries(data@)),
        Err(e) => Err(e@),
    }
}

/// The view of an outcome that carries one entry.
pub open spec fn entry_outcome(r: Result<PasswordEntry, PwError>) -> Result<Entry, Refusal> {
    match r {
        Ok(e) => Ok(e@),
        Err(e) => Err(e@),
    }
}

/// The view of an outcome that carries nothing.
pub open spec fn unit_outcome(r: Result<(), PwError>) -> Result<(), Refusal> {
    match r {
        Ok(u) => Ok(u),
        Err(e) => Err(e@),
    }
}

/// `position` points at the first entry of the name, and past the end where
/// there is none.
pub proof fn lemma_position(s: Seq<Entry>, name: Seq<char>)
    ensures
        position(s, name) <= s.len(),
        forall|j: int| 0 <= j < position(s, name) ==> #[trigger] s[j].name != name,
        position(s, name) < s.len() ==> s[position(s, name) as int].name == name,
        has_name(s, name) <==> position(s, name) < s.len(),
    decreases s.len(),
{
    if s.len() == 0 || s.first().name == name {
    } else {
        let rest = s.drop_first();
        lemma_position(rest, name);
        assert forall|j: int| 0 <= j < position(s, name) implies #[trigger] s[j].name != name by {
            if j > 0 {
                assert(s[j] == rest[j - 1]);
            }
        }
        if position(s, name) < s.len() {
            assert(s[position(s, name) as int] == rest[position(rest, name) as int]);
        }
    }
}

/// The first entry of the name stands at `at` where none before it has the
/// name.
pub proof fn lemma_position_is(s: Seq<Entry>, name: Seq<char>, at: int)
    requires
        0 <= at <= s.len(),
        forall|j: int| 0 <= j < at ==> #[trigger] s[j].name != name,
        at < s.len() ==> s[at].name == name,
    ensures
        position(s, name) == at,
{
    lemma_position(s, name);
    let p = position(s, name) as int;
    if p < at {
        assert(s[p].name != name);
    } else if at < p {
        assert(s[at].name != name);
    }
}

/// Reads the store: the entries found, or the refusal that stands for what
/// was found instead.
pub fn read(file: &str, stored: Stored) -> (r: Result<Vec<PasswordEntry>, PwError>)
    ensures
        list_outcome(r) == read_spec(file@, stored@),
{
    match stored {
        Stored::Absent => Err(PwError::FileNotFound(file.to_owned())),
        Stored::Undecrypted => Err(PwError::ScryptError()),
        Stored::Unparsed(raw, cause) => Err(PwError::InvalidJson(text_of(&raw), cause)),
        Stored::Entries(data) => Ok(data),
    }
}

/// Tells what became of a write: a refusal where the cipher failed, or where
/// it succeeded on a list that did not reach it whole.
pub fn write(outcome: Written) -> (r: Result<(), PwError>)
    ensures
        unit_outcome(r) == write_spec(outcome),
{
    if !outcome.encrypted {
        return Err(PwError::ScryptError());
    }
    match outcome.unserialized {
        Some(cause) => Err(PwError::InvalidJson(String::new(), cause)),
        None => Ok(()),
    }
}

/// Starts a store: refused where a file already stands at the path, else the
/// empty list, which the caller writes.
pub fn init(file: &str, exists: bool) -> (r: Result<Vec<PasswordEntry>, PwError>)
    ensures
        list_outcome(r) == init_spec(file@, exists),
{
    if exists {
        return Err(PwError::FileAlreadyExists(file.to_owned()));
    }
    let data: Vec<PasswordEntry> = Vec::new();
    assert(entries(data@) =~= Seq::<Entry>::empty());
    Ok(data)
}

/// Finds the first entry of that name: its index, or the list's length where
/// no entry has the name.
pub fn find(data: &Vec<PasswordEntry>, name: &String) -> (at: usize)
    ensures
        at == position(entries(data@), name@),
        at <= data.len(),
        at < data.len() <==> has_name(entries(data@), name@),
{
    let ghost s = entries(data@);
    let mut i: usize = 0;
    while i < data.len()
        invariant
            i <= data.len(),
            s == entries(data@),
            forall|j: int| 0 <= j < i ==> #[trigger] s[j].name != name@,
        decreases data.len() - i,
    {
        if data[i].name == *name {
            proof {
                assert(s[i as int] == data@[i as int]@);
                lemma_position_is(s, name@, i as int);
                lemma_position(s, name@);
            }
            return i;
        }
        i += 1;
    }
    proof {
        lemma_position_is(s, name@, s.len() as int);
        lemma_position(s, name@);
    }
    i
}

/// Looks an entry up by its name.
pub fn get(file: &str, stored: Stored, name: &str) -> (r: Result<PasswordEntry, PwError>)
    ensures
        entry_outcome(r) == get_spec(file@, stored@, name@),
{
    let mut data = match read(file, stored) {
        Ok(data) => data,
        Err(e) => { return Err(e); },
    };
    let at = find(&data, &name.to_owned());
    if at < data.len() {
        assert(entries(data@)[at as int] == data@[at as int]@);
        Ok(data.remove(at))
    } else {
        Err(PwError::NotFound())
    }
}

/// Lists the entries in the order in which they are stored.
pub fn list(file: &str, stored: Stored) -> (r: Result<Vec<PasswordEntry>, PwError>)
    ensures
        list_outcome(r) == read_spec(file@, stored@),
{
    read(file, stored)
}

/// Adds an entry under a name that no entry has yet.
pub fn add(file: &str, stored: Stored, new_entry: PasswordEntry) -> (r: Result<
    Vec<PasswordEntry>,
    PwError,
>)
    ensures
        list_outcome(r) == add_spec(file@, stored@, new_entry@),
{
    let mut data = match read(file, stored) {
        Ok(data) => data,
        Err(e) => { return Err(e); },
    };
    if find(&data, &new_entry.name) < data.len() {
        return Err(PwError::AlreadyExists());
    }
    let ghost s = entries(data@);
    data.push(new_entry);
    assert(entries(data@) =~= s.push(new_entry@));
    Ok(data)
}

/// Gives the first entry of that name a new account and secret.
pub fn update(file: &str, stored: Stored, new_entry: PasswordEntry) -> (r: Result<
    Vec<PasswordEntry>,
    PwError,
>)
    ensures
        list_outcome(r) == update_spec(file@, stored@, new_entry@),
{
    let mut data = match read(file, stored) {
        Ok(data) => data,
        Err(e) => { return Err(e); },
    };
    let at = find(&data, &new_entry.name);
    if at >= data.len() {
        return Err(PwError::NotFound());
    }
    let ghost s = entries(data@);
    data[at].username = new_entry.username;
    data[at].password = new_entry.password;
    assert(entries(data@) =~= s.update(at as int, refreshed(s[at as int], new_entry@)));
    Ok(data)
}

/// Removes the entries of that name.
pub fn remove(file: &str, stored: Stored, name: &str) -> (r: Result<Vec<PasswordEntry>, PwError>)
    ensures
        list_outcome(r) == remove_spec(file@, stored@, name@),
{
    let data = match read(file, stored) {
        Ok(data) => data,
        Err(e) => { return Err(e); },
    };
    let wanted = name.to_owned();
    let len_before = data.len();
    let ghost s = entries(data@);
    let ghost keep = |e: Entry| e.name != name@;
    let mut kept: Vec<PasswordEntry> = Vec::new();
    proof {
        reveal(Seq::filter);
        assert(s.take(0).filter(keep) =~= Seq::<Entry>::empty());
        assert(entries(kept@) =~= Seq::<Entry>::empty());
    }
    for e in it: data
        invariant
            wanted@ == name@,
            s.len() == it.seq().len(),
            forall|j: int| 0 <= j < s.len() ==> #[trigger] s[j] == it.seq()[j]@,
            keep == |e: Entry| e.name != name@,
            entries(kept@) == s.take(it.index() as int).filter(keep),
            kept.len() <= it.index(),
            kept.len() == it.index() <==> forall|j: int|
                0 <= j < it.index() ==> #[trigger] s[j].name != name@,
    {
        let ghost k = it.index() as int;
        let ghost before = entries(kept@);
        proof {
            assert(s.take(k + 1) =~= s.take(k).push(s[k]));
            s.take(k).lemma_filter_push(s[k], keep);
        }
        if e.name != wanted {
            kept.push(e);
            assert(entries(kept@) =~= before.push(s[k]));
        }
    }
    proof {
        assert(s.take(s.len() as int) =~= s);
    }
    if kept.len() == len_before {
        return Err(PwError::NotFound());
    }
    Ok(kept)
}

} // verus!
