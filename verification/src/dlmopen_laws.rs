//! What becomes of a namespace over any number of attempts to load libraries into
//! it, whichever of them succeed.
use vstd::prelude::*;

use crate::linux_dlmopen::{load_result, NamespaceModel, OpenError, OpenReply, LM_ID_NEWLM};

verus! {

/// An attempt to load a library, as the main one or as a dependency.
pub struct Attempt {
    pub path: Seq<u8>,
    pub reply: OpenReply,
    pub main: bool,
    pub result: Result<(), OpenError>,
}

/// Whether `states` are those of a namespace that begins without libraries, before
/// and after each of the attempts.
pub open spec fn is_history(states: Seq<NamespaceModel>, attempts: Seq<Attempt>) -> bool {
    &&& states.len() == attempts.len() + 1
    &&& states[0] == NamespaceModel::empty()
    &&& forall|i: int|
        0 <= i < attempts.len() ==> load_result(
            states[i],
            (#[trigger] attempts[i]).path,
            attempts[i].reply,
            attempts[i].main,
            states[i + 1],
            attempts[i].result,
        )
}

/// The handles that the attempts brought, in their order: one for each that succeeded.
pub open spec fn handles_opened(attempts: Seq<Attempt>) -> Seq<usize>
    decreases attempts.len(),
{
    if attempts.len() == 0 {
        Seq::empty()
    } else {
        let before = handles_opened(attempts.drop_last());
        if attempts.last().result is Ok {
            before.push(attempts.last().reply.handle)
        } else {
            before
        }
    }
}

/// The handle of the main library: the one that was loaded last as such.
pub open spec fn main_opened(attempts: Seq<Attempt>) -> Option<usize>
    decreases attempts.len(),
{
    if attempts.len() == 0 {
        None
    } else if attempts.last().result is Ok && attempts.last().main {
        Some(attempts.last().reply.handle)
    } else {
        main_opened(attempts.drop_last())
    }
}

/// The namespace that became known: the first that was told of a library that was opened.
pub open spec fn namespace_known(attempts: Seq<Attempt>) -> Option<i64>
    decreases attempts.len(),
{
    if attempts.len() == 0 {
        None
    } else {
        match namespace_known(attempts.drop_last()) {
            Some(id) => Some(id),
            None => if attempts.last().result is Ok {
                attempts.last().reply.namespace
            } else {
                None
            },
        }
    }
}

/// The attempts before the last one.
proof fn lemma_history_front(states: Seq<NamespaceModel>, attempts: Seq<Attempt>)
    requires
        is_history(states, attempts),
        attempts.len() > 0,
    ensures
        is_history(states.drop_last(), attempts.drop_last()),
{
    let front = attempts.drop_last();
    assert forall|i: int| 0 <= i < front.len() implies load_result(
        states.drop_last()[i],
        (#[trigger] front[i]).path,
        front[i].reply,
        front[i].main,
        states.drop_last()[i + 1],
        front[i].result,
    ) by {
        assert(front[i] == attempts[i]);
    }
}

/// A namespace holds the handles of all libraries that were opened, in the order in
/// which they were: closed in reverse, what was opened last is closed first. Symbols
/// are looked up in the main library. An attempt that fails changes nothing.
pub proof fn namespace_keeps_what_was_opened(states: Seq<NamespaceModel>, attempts: Seq<Attempt>)
    requires
        is_history(states, attempts),
    ensures
        states.last().handles == handles_opened(attempts),
        states.last().main_handle == main_opened(attempts),
        states.last().namespace_id == namespace_known(attempts),
        states.last().wf(),
        forall|i: int|
            0 <= i < attempts.len() && (#[trigger] attempts[i]).result is Err ==> states[i + 1]
                == states[i],
    decreases attempts.len(),
{
    if attempts.len() > 0 {
        let n = attempts.len() - 1;
        lemma_history_front(states, attempts);
        namespace_keeps_what_was_opened(states.drop_last(), attempts.drop_last());
        assert(states.drop_last().last() == states[n]);
        let last = attempts[n];
        assert(load_result(
            states[n],
            last.path,
            last.reply,
            last.main,
            states[n + 1],
            last.result,
        ));
        if last.result is Ok {
            crate::linux_dlmopen::lemma_opened_wf(
                states[n],
                last.reply.handle,
                last.reply.namespace,
                last.main,
            );
        }
        assert forall|i: int|
            0 <= i < attempts.len() && (#[trigger] attempts[i]).result is Err implies states[i + 1]
            == states[i] by {
            if i < n {
                assert(attempts.drop_last()[i] == attempts[i]);
            }
        }
    }
}

/// Libraries are opened in a new namespace until one is known, and from there on all
/// in that one, whichever attempts fail.
pub proof fn namespace_stays(states: Seq<NamespaceModel>, attempts: Seq<Attempt>, i: int, j: int)
    requires
        is_history(states, attempts),
        0 <= i <= j < states.len(),
    ensures
        states[i].namespace_id is None ==> states[i].lmid() == LM_ID_NEWLM,
        states[i].namespace_id matches Some(id) ==> states[j].lmid() == id,
        states[i].namespace_id is Some ==> states[j].namespace_id == states[i].namespace_id,
    decreases j - i,
{
    if i < j {
        namespace_stays(states, attempts, i, j - 1);
        let last = attempts[j - 1];
        assert(load_result(
            states[j - 1],
            last.path,
            last.reply,
            last.main,
            states[j - 1 + 1],
            last.result,
        ));
    }
}

} // verus!
