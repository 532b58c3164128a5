use vstd::prelude::*;
use rand::{Rng, SeedableRng};
use rand_chacha::ChaCha20Rng;
use crate::text::push_char;

verus! {

/// `rand_chacha::ChaCha20Rng`, a cryptographically secure generator. Nothing
/// is claimed of its state.
#[verifier::external_type_specification]
#[verifier::external_body]
pub struct ExChaCha20Rng(ChaCha20Rng);

/// `SeedableRng::from_entropy` for `ChaCha20Rng`: a generator seeded from what
/// the operating system supplies. Nothing is claimed of it: no two calls need
/// give the same generator. The outside function gives up where the operating
/// system supplies no entropy.
#[verifier::external_body]
fn fresh_rng() -> ChaCha20Rng {
    ChaCha20Rng::from_entropy()
}

/// `Rng::gen_range` over `0..bound`: some index below the bound. Which one is
/// not said; the outside function refuses an empty range, so the bound is to
/// be positive.
#[verifier::external_body]
fn draw(rng: &mut ChaCha20Rng, bound: usize) -> (pick: usize)
    requires
        bound > 0,
    ensures
        pick < bound,
{
    rng.gen_range(0..bound)
}

/// Whether every pick is a place in a charset of that many characters.
pub open spec fn picks_fit(picks: Seq<usize>, size: nat) -> bool {
    forall|i: int| 0 <= i < picks.len() ==> #[trigger] picks[i] < size
}

/// The text whose characters are those of the charset at the places picked,
/// pick by pick.
pub open spec fn spelled(charset: Seq<char>, picks: Seq<usize>) -> Seq<char> {
    Seq::new(picks.len(), |i: int| charset[picks[i] as int])
}

/// The characters of a text, one by one.
pub fn symbols(text: &str) -> (all: Vec<char>)
    ensures
        all@ == text@,
{
    let mut all: Vec<char> = Vec::new();
    for c in it: text.chars()
        invariant
            it.seq() == text@,
            all@ == text@.take(it.index() as int),
    {
        all.push(c);
        assert(text@.take(it.index() + 1) =~= text@.take(it.index() as int).push(c));
    }
    assert(text@.take(text@.len() as int) =~= text@);
    all
}

/// Spells a password: for each pick, the character of the charset at that
/// place.
pub fn spell(charset: &Vec<char>, picks: &Vec<usize>) -> (password: String)
    requires
        picks_fit(picks@, charset@.len()),
    ensures
        password@ == spelled(charset@, picks@),
{
    let mut password = String::new();
    for i in 0..picks.len()
        invariant
            picks_fit(picks@, charset@.len()),
            password@ == spelled(charset@, picks@.take(i as int)),
    {
        push_char(&mut password, charset[picks[i]]);
        assert(password@ =~= spelled(charset@, picks@.take(i + 1)));
    }
    assert(picks@.take(picks@.len() as int) =~= picks@);
    password
}

/// Makes a password of `length` characters, each drawn from the charset by a
/// generator that is seeded anew for this call. A character that stands at
/// several places of the charset is as many times as likely.
pub fn generate_password(length: usize, charset: String) -> (password: String)
    requires
        length == 0 || charset@.len() > 0,
    ensures
        password@.len() == length,
        forall|i: int| 0 <= i < length ==> charset@.contains(#[trigger] password@[i]),
{
    let charset = symbols(charset.as_str());
    let mut rng = fresh_rng();
    let mut picks: Vec<usize> = Vec::new();
    for i in 0..length
        invariant
            length == 0 || charset@.len() > 0,
            picks.len() == i,
            picks_fit(picks@, charset@.len()),
    {
        let pick = draw(&mut rng, charset.len());
        picks.push(pick);
    }
    let password = spell(&charset, &picks);
    assert forall|i: int| 0 <= i < length implies charset@.contains(#[trigger] password@[i]) by {
        assert(password@[i] == charset@[picks@[i] as int]);
    }
    password
}

} // verus!
