//! Laws that relate the registry's operations to one another, stated over
//! the abstract transition functions of [`crate::registry`] and proved once
//! for every registry state.

use vstd::prelude::*;

verus! {

use crate::registry::Error;
use crate::registry::NovelMap;
use crate::registry::create_effect;
use crate::registry::create_outcome;
use crate::registry::gate_outcome;
use crate::registry::remove_effect;
use crate::registry::update_effect;

/// Creating an absent title succeeds exactly once: the first `create` binds
/// the title to the caller and the sequence supplied at call time, and any
/// second `create` — by any caller, with any sequence — fails with
/// `NovelAlreadyCreated` and leaves the original binding unchanged.
pub proof fn lemma_create_succeeds_once(
    m: NovelMap,
    caller: u64,
    title: Seq<u8>,
    sequence: u64,
    caller2: u64,
    sequence2: u64,
)
    requires
        !m.dom().contains(title),
    ensures
        create_outcome(m, title) == Ok::<(), Error>(()),
        create_effect(m, caller, title, sequence).dom().contains(title),
        create_effect(m, caller, title, sequence)[title] == (caller, sequence),
        create_outcome(create_effect(m, caller, title, sequence), title) == Err::<(), Error>(
            Error::NovelAlreadyCreated,
        ),
        create_effect(create_effect(m, caller, title, sequence), caller2, title, sequence2)
            == create_effect(m, caller, title, sequence),
{
}

/// On a title that was never created, `read`, `update` and `remove` all fail
/// with `NoSuchNovel`, whoever the caller is, and change nothing.
pub proof fn lemma_absent_gives_no_such_novel(
    m: NovelMap,
    caller: u64,
    title: Seq<u8>,
    sequence: u64,
)
    requires
        !m.dom().contains(title),
    ensures
        gate_outcome(m, caller, title) == Err::<(), Error>(Error::NoSuchNovel),
        update_effect(m, caller, title, sequence) == m,
        remove_effect(m, caller, title) == m,
{
}

/// On a present title owned by `owner`, any caller other than `owner` fails
/// with `NotNovelOwner`, and `update` and `remove` change nothing — in
/// particular the entry under the title keeps its owner and sequence.
pub proof fn lemma_not_owner_rejected(
    m: NovelMap,
    owner: u64,
    caller: u64,
    title: Seq<u8>,
    sequence: u64,
)
    requires
        m.dom().contains(title),
        m[title].0 == owner,
        caller != owner,
    ensures
        gate_outcome(m, caller, title) == Err::<(), Error>(Error::NotNovelOwner),
        update_effect(m, caller, title, sequence) == m,
        remove_effect(m, caller, title) == m,
{
}

/// An owner's `update` succeeds, keeps the owner, sets the recorded sequence
/// to the value supplied at call time, and touches no other title.
pub proof fn lemma_update_refreshes(m: NovelMap, owner: u64, title: Seq<u8>, sequence: u64)
    requires
        m.dom().contains(title),
        m[title].0 == owner,
    ensures
        gate_outcome(m, owner, title) == Ok::<(), Error>(()),
        update_effect(m, owner, title, sequence).dom() == m.dom(),
        update_effect(m, owner, title, sequence)[title] == (owner, sequence),
        forall|other: Seq<u8>|
            other != title && m.dom().contains(other) ==> update_effect(
                m,
                owner,
                title,
                sequence,
            )[other] == m[other],
{
    assert(update_effect(m, owner, title, sequence).dom() =~= m.dom());
}

/// An owner's `remove` succeeds and makes the title absent, so a subsequent
/// `create` of the same title — by any caller — succeeds; no other title is
/// touched.
pub proof fn lemma_remove_frees_title(m: NovelMap, owner: u64, title: Seq<u8>, caller2: u64)
    requires
        m.dom().contains(title),
        m[title].0 == owner,
    ensures
        gate_outcome(m, owner, title) == Ok::<(), Error>(()),
        !remove_effect(m, owner, title).dom().contains(title),
        create_outcome(remove_effect(m, owner, title), title) == Ok::<(), Error>(()),
        forall|other: Seq<u8>|
            other != title ==> (remove_effect(m, owner, title).dom().contains(other)
                == m.dom().contains(other)),
        forall|other: Seq<u8>|
            other != title && m.dom().contains(other) ==> remove_effect(m, owner, title)[other]
                == m[other],
{
}

} // verus!
