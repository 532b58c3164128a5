use vstd::prelude::*;
use crate::entry::Entry;
use crate::error::Refusal;
use crate::store::{
    add_spec, get_spec, has_name, lemma_position, lemma_position_is, position, read_spec,
    refreshed, remove_spec, unique_names, update_spec, without, Found,
};

verus! {

/// Where no two entries of a list share a name, none do in the list without
/// its last entry.
pub proof fn lemma_front_unique(s: Seq<Entry>)
    requires
        s.len() > 0,
        unique_names(s),
    ensures
        unique_names(s.drop_last()),
{
    let front = s.drop_last();
    assert forall|i: int, j: int| 0 <= i < j < front.len() implies #[trigger] front[i].name
        != #[trigger] front[j].name by {
        assert(s[i].name != s[j].name);
    }
}

/// A name that an entry before the last has is a name of the list, and its
/// first entry stands before the last.
pub proof fn lemma_front_has_name(s: Seq<Entry>, name: Seq<char>)
    requires
        s.len() > 0,
    ensures
        has_name(s.drop_last(), name) ==> has_name(s, name) && position(s, name) < s.len() - 1,
{
    let front = s.drop_last();
    if has_name(front, name) {
        let k = choose|k: int| 0 <= k < front.len() && #[trigger] front[k].name == name;
        assert(s[k].name == name);
        lemma_position(s, name);
    }
}

/// The entries that stay when a name is taken out are entries of the list,
/// and none of them has the name.
pub proof fn lemma_without(s: Seq<Entry>, name: Seq<char>)
    ensures
        !has_name(without(s, name), name),
        forall|i: int|
            0 <= i < without(s, name).len() ==> s.contains(#[trigger] without(s, name)[i]),
        unique_names(s) ==> unique_names(without(s, name)),
        without(s, name).len() <= s.len(),
        without(s, name).len() == s.len() <==> !has_name(s, name),
    decreases s.len(),
{
    reveal(Seq::filter);
    let keep = |e: Entry| e.name != name;
    let t = without(s, name);
    if s.len() > 0 {
        let front = s.drop_last();
        let u = without(front, name);
        lemma_without(front, name);
        assert forall|i: int| 0 <= i < t.len() implies s.contains(#[trigger] t[i]) by {
            if i < u.len() {
                let k = choose|k: int| 0 <= k < front.len() && front[k] == u[i];
                assert(s[k] == t[i]);
            } else {
                assert(s[s.len() - 1] == t[i]);
            }
        }
        lemma_front_has_name(s, name);
        if has_name(s, name) && keep(s.last()) {
            let k = choose|k: int| 0 <= k < s.len() && #[trigger] s[k].name == name;
            assert(front[k].name == name);
        }
        if unique_names(s) {
            lemma_front_unique(s);
            assert forall|i: int, j: int| 0 <= i < j < t.len() implies #[trigger] t[i].name
                != #[trigger] t[j].name by {
                if j == u.len() {
                    let k = choose|k: int| 0 <= k < front.len() && front[k] == u[i];
                    assert(s[k].name != s[s.len() - 1].name);
                }
            }
        }
    }
}

/// Taking out a name that no entry has leaves the list as it is.
pub proof fn lemma_without_absent(s: Seq<Entry>, name: Seq<char>)
    requires
        !has_name(s, name),
    ensures
        without(s, name) == s,
    decreases s.len(),
{
    reveal(Seq::filter);
    if s.len() > 0 {
        let front = s.drop_last();
        lemma_front_has_name(s, name);
        lemma_without_absent(front, name);
        assert(s[s.len() - 1].name != name);
        assert(front.push(s.last()) =~= s);
    }
}

/// Once an entry is added, adding another under the same name is refused as
/// already there, whatever else the second one holds. A refusal hands back no
/// list to write, so the stored list stays as it is.
pub proof fn second_add_is_refused(file: Seq<char>, found: Found, first: Entry, second: Entry)
    requires
        add_spec(file, found, first) is Ok,
        second.name == first.name,
    ensures
        add_spec(file, Found::Entries(add_spec(file, found, first)->Ok_0), second) == Err::<
            Seq<Entry>,
            Refusal,
        >(Refusal::AlreadyExists),
{
    let s = read_spec(file, found)->Ok_0;
    let t = s.push(first);
    assert(t[s.len() as int].name == second.name);
}

/// An entry that was added is the one found under its name.
pub proof fn added_is_found(file: Seq<char>, found: Found, e: Entry)
    requires
        add_spec(file, found, e) is Ok,
    ensures
        get_spec(file, Found::Entries(add_spec(file, found, e)->Ok_0), e.name) == Ok::<
            Entry,
            Refusal,
        >(e),
{
    let s = read_spec(file, found)->Ok_0;
    let t = s.push(e);
    assert(t[s.len() as int].name == e.name);
    lemma_position_is(t, e.name, s.len() as int);
}

/// After a name is removed, looking it up is refused as not found. This
/// holds of the list that `remove` hands back, and of the stored list where
/// `remove` found no entry of the name and handed none back.
pub proof fn removed_is_not_found(file: Seq<char>, s: Seq<Entry>, name: Seq<char>)
    ensures
        get_spec(
            file,
            Found::Entries(
                match remove_spec(file, Found::Entries(s), name) {
                    Ok(t) => t,
                    Err(_) => s,
                },
            ),
            name,
        ) == Err::<Entry, Refusal>(Refusal::NotFound),
{
    lemma_without(s, name);
}

/// An update keeps the length of the list and the name at every place, and
/// changes one entry only, the first of the name, which takes the account and
/// the secret given.
pub proof fn update_keeps_names_and_places(file: Seq<char>, found: Found, e: Entry)
    requires
        update_spec(file, found, e) is Ok,
    ensures
        ({
            let s = read_spec(file, found)->Ok_0;
            let t = update_spec(file, found, e)->Ok_0;
            let at = position(s, e.name) as int;
            &&& read_spec(file, found) is Ok
            &&& t.len() == s.len()
            &&& 0 <= at < s.len()
            &&& forall|i: int| 0 <= i < s.len() ==> (#[trigger] t[i]).name == s[i].name
            &&& forall|i: int| 0 <= i < s.len() && i != at ==> #[trigger] t[i] == s[i]
            &&& t[at].name == e.name
            &&& t[at].username == e.username
            &&& t[at].password == e.password
        }),
{
    let s = read_spec(file, found)->Ok_0;
    lemma_position(s, e.name);
}

/// Where no two stored entries share a name, none do in the list that `add`,
/// `update` or `remove` hands back.
pub proof fn names_stay_unique(file: Seq<char>, found: Found, e: Entry, name: Seq<char>)
    requires
        read_spec(file, found) is Ok,
        unique_names(read_spec(file, found)->Ok_0),
    ensures
        add_spec(file, found, e) matches Ok(t) ==> unique_names(t),
        update_spec(file, found, e) matches Ok(t) ==> unique_names(t),
        remove_spec(file, found, name) matches Ok(t) ==> unique_names(t),
{
    let s = read_spec(file, found)->Ok_0;
    lemma_without(s, name);
    lemma_position(s, e.name);
    if !has_name(s, e.name) {
        let t = s.push(e);
        assert forall|i: int, j: int| 0 <= i < j < t.len() implies #[trigger] t[i].name
            != #[trigger] t[j].name by {
            if j == s.len() {
                assert(s[i].name != e.name);
            } else {
                assert(s[i].name != s[j].name);
            }
        }
    } else {
        let at = position(s, e.name) as int;
        let t = s.update(at, refreshed(s[at], e));
        assert forall|i: int, j: int| 0 <= i < j < t.len() implies #[trigger] t[i].name
            != #[trigger] t[j].name by {
            assert(s[i].name != s[j].name);
        }
    }
}

/// Where no two stored entries share a name, `remove` takes out exactly one
/// entry, the one of that name, and keeps the others in their order.
pub proof fn remove_takes_one(s: Seq<Entry>, name: Seq<char>)
    requires
        unique_names(s),
        has_name(s, name),
    ensures
        without(s, name) == s.remove(position(s, name) as int),
    decreases s.len(),
{
    reveal(Seq::filter);
    lemma_position(s, name);
    let at = position(s, name) as int;
    let front = s.drop_last();
    lemma_front_unique(s);
    if at == s.len() - 1 {
        lemma_front_has_name(s, name);
        lemma_without_absent(front, name);
        assert(s.remove(at) =~= front);
    } else {
        assert(front[at].name == name);
        assert(s[at].name != s[s.len() - 1].name);
        lemma_position_is(front, name, at);
        remove_takes_one(front, name);
        assert(s.remove(at) =~= front.remove(at).push(s.last()));
    }
}

/// Taking out a name leaves the first entry of every other name the first of
/// its name.
pub proof fn lemma_without_keeps_first(s: Seq<Entry>, name: Seq<char>, other: Seq<char>)
    requires
        other != name,
    ensures
        has_name(without(s, name), other) == has_name(s, other),
        has_name(s, other) ==> without(s, name)[position(without(s, name), other) as int]
            == s[position(s, other) as int],
{
    let keep = |e: Entry| e.name != name;
    let t = without(s, name);
    lemma_position(s, other);
    lemma_without(s, name);
    if has_name(s, other) {
        let p = position(s, other) as int;
        let before = s.take(p);
        let rest = s.skip(p + 1);
        let kept_before = without(before, name);
        assert(s =~= before + (seq![s[p]] + rest));
        Seq::filter_distributes_over_add(before, seq![s[p]] + rest, keep);
        Seq::filter_distributes_over_add(seq![s[p]], rest, keep);
        assert(seq![s[p]].filter(keep) =~= seq![s[p]]) by {
            reveal_with_fuel(Seq::filter, 2);
            assert(seq![s[p]].drop_last() =~= Seq::<Entry>::empty());
        }
        assert(t =~= kept_before + (seq![s[p]] + rest.filter(keep)));
        lemma_without(before, name);
        assert forall|j: int| 0 <= j < kept_before.len() implies #[trigger] t[j].name != other by {
            let k = choose|k: int| 0 <= k < before.len() && before[k] == kept_before[j];
            assert(s[k].name != other);
        }
        assert(t[kept_before.len() as int] == s[p]);
        lemma_position_is(t, other, kept_before.len() as int);
        lemma_position(t, other);
    } else {
        if has_name(t, other) {
            let j = choose|j: int| 0 <= j < t.len() && #[trigger] t[j].name == other;
            let k = choose|k: int| 0 <= k < s.len() && s[k] == t[j];
            assert(s[k].name == other);
        }
    }
}

/// An entry that was updated is found under its name with the account and
/// the secret given.
pub proof fn updated_is_found(file: Seq<char>, found: Found, e: Entry)
    requires
        update_spec(file, found, e) is Ok,
    ensures
        get_spec(file, Found::Entries(update_spec(file, found, e)->Ok_0), e.name) == Ok::<
            Entry,
            Refusal,
        >(e),
{
    let s = read_spec(file, found)->Ok_0;
    lemma_position(s, e.name);
    let at = position(s, e.name) as int;
    let t = s.update(at, refreshed(s[at], e));
    assert(t[at].name == e.name);
    assert forall|j: int| 0 <= j < at implies #[trigger] t[j].name != e.name by {
        assert(s[j].name != e.name);
    }
    lemma_position_is(t, e.name, at);
}

/// What is found under a name is the same before and after `add`, `update`
/// and `remove` have worked on another name.
pub proof fn other_names_are_untouched(
    file: Seq<char>,
    found: Found,
    e: Entry,
    name: Seq<char>,
    other: Seq<char>,
)
    ensures
        other != e.name ==> (add_spec(file, found, e) matches Ok(t) ==> get_spec(
            file,
            Found::Entries(t),
            other,
        ) == get_spec(file, found, other)),
        other != e.name ==> (update_spec(file, found, e) matches Ok(t) ==> get_spec(
            file,
            Found::Entries(t),
            other,
        ) == get_spec(file, found, other)),
        other != name ==> (remove_spec(file, found, name) matches Ok(t) ==> get_spec(
            file,
            Found::Entries(t),
            other,
        ) == get_spec(file, found, other)),
{
    if read_spec(file, found) is Ok {
        let s = read_spec(file, found)->Ok_0;
        lemma_position(s, other);
        let p = position(s, other) as int;
        if other != e.name {
            if !has_name(s, e.name) {
                let t = s.push(e);
                assert forall|j: int| 0 <= j < p && j < t.len() implies #[trigger] t[j].name
                    != other by {
                    assert(s[j].name != other);
                }
                if p < s.len() {
                    assert(t[p].name == other);
                    lemma_position_is(t, other, p);
                } else {
                    lemma_position_is(t, other, t.len() as int);
                }
                lemma_position(t, other);
            } else {
                lemma_position(s, e.name);
                let at = position(s, e.name) as int;
                let t = s.update(at, refreshed(s[at], e));
                assert forall|j: int| 0 <= j < p implies #[trigger] t[j].name != other by {
                    assert(s[j].name != other);
                }
                if p < s.len() {
                    assert(t[p].name == other);
                    assert(p != at);
                }
                lemma_position_is(t, other, p);
                lemma_position(t, other);
            }
        }
        if other != name {
            lemma_without_keeps_first(s, name, other);
        }
    }
}

} // verus!
