//! The keyboard events the overlay reacts to.

use vstd::prelude::*;

verus! {

/// A keyboard event, reduced to what the overlay inspects: the Escape key,
/// a printable character, or anything else.
#[derive(Clone, Copy, Debug, PartialEq, Eq, Structural)]
pub enum KeyPress {
    /// The Escape key.
    Esc,
    /// A character key, with the character it produces.
    Char(char),
    /// Any other key (arrows, Tab, function keys, ...).
    Other,
}

/// Whether a key press dismisses the overlay: Escape, `q` or `Q`.
pub open spec fn is_dismiss_key(key: KeyPress) -> bool {
    key == KeyPress::Esc || key == KeyPress::Char('q') || key == KeyPress::Char('Q')
}

/// The completion flag after one key event: a dismiss key completes the
/// overlay, every other key leaves the flag as it was.
pub open spec fn next_complete(prior: bool, key: KeyPress) -> bool {
    prior || is_dismiss_key(key)
}

/// The completion flag after a whole sequence of key events, oldest first.
pub open spec fn run_keys(prior: bool, keys: Seq<KeyPress>) -> bool
    decreases keys.len(),
{
    if keys.len() == 0 {
        prior
    } else {
        run_keys(next_complete(prior, keys[0]), keys.drop_first())
    }
}

/// A key event other than Escape, `q` and `Q` has no observable effect: any
/// number of them leaves the completion flag exactly as it was.
pub proof fn lemma_non_dismiss_keys_keep_state(prior: bool, keys: Seq<KeyPress>)
    requires
        forall|i: int| 0 <= i < keys.len() ==> !is_dismiss_key(#[trigger] keys[i]),
    ensures
        run_keys(prior, keys) == prior,
    decreases keys.len(),
{
    if keys.len() > 0 {
        assert(!is_dismiss_key(keys[0]));
        lemma_non_dismiss_keys_keep_state(prior, keys.drop_first());
    }
}

/// Completion is absorbing: once the flag is set, any further key events
/// leave it set.
pub proof fn lemma_complete_is_absorbing(keys: Seq<KeyPress>)
    ensures
        run_keys(true, keys),
    decreases keys.len(),
{
    if keys.len() > 0 {
        lemma_complete_is_absorbing(keys.drop_first());
    }
}

/// One dismiss key completes the overlay from any prior state, and it stays
/// complete whatever follows.
pub proof fn lemma_dismiss_completes(prior: bool, key: KeyPress, later: Seq<KeyPress>)
    requires
        is_dismiss_key(key),
    ensures
        next_complete(prior, key),
        run_keys(next_complete(prior, key), later),
{
    lemma_complete_is_absorbing(later);
}

} // verus!
