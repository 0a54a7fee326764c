//! Which targets a round of file-system events invalidates, when each target
//! has a watcher of its own.

use crate::engine::watcher::{is_tmp_editor_file, is_tmp_editor_name, tmp_editor_file_check};
use crate::paths::path_file_name;
use crate::target::TargetId;
use crate::text::owned;
use vstd::prelude::*;

verus! {

/// What the watcher of a target received since it was last asked.
#[derive(Debug)]
pub enum WatchEvent {
    /// The file or directory at the path changed.
    Changed(String),
    /// Nothing happened.
    Nothing,
    /// The watcher failed, with this error.
    Failed(String),
}

/// The path of a change has a file name.
pub open spec fn has_file_name(e: WatchEvent) -> bool {
    match e {
        WatchEvent::Changed(p) => path_file_name(p@) is Some,
        _ => true,
    }
}

/// What an event says of a target: invalidated (when a file other than a
/// temporary file of an editor changed), or an error.
pub open spec fn invalidation(e: WatchEvent) -> Result<bool, Seq<char>> {
    match e {
        WatchEvent::Changed(p) => Ok(!is_tmp_editor_name(path_file_name(p@)->0)),
        WatchEvent::Nothing => Ok(false),
        WatchEvent::Failed(m) => Err("Watcher received error: "@ + m@),
    }
}

/// Whether the event `event` of the watcher of a target invalidates it.
pub fn is_invalidated(event: &WatchEvent) -> (r: Result<bool, String>)
    requires
        has_file_name(*event),
    ensures
        match invalidation(*event) {
            Ok(b) => r == Ok::<bool, String>(b),
            Err(m) => r matches Err(e) && e@ == m,
        },
{
    match event {
        WatchEvent::Changed(path) => Ok(!is_tmp_editor_file(path.as_str())),
        WatchEvent::Nothing => Ok(false),
        WatchEvent::Failed(message) => {
            let mut r = owned("Watcher received error: ");
            r.append(message.as_str());
            proof {
                reveal_strlit("Watcher received error: ");
            }
            Err(r)
        },
    }
}

/// The first `n` targets that `events` invalidate, in order, or the first error.
pub open spec fn invalidated_targets(events: Seq<WatchEvent>, n: int) -> Result<Seq<nat>, Seq<char>>
    decreases n,
{
    if n <= 0 {
        Ok(Seq::empty())
    } else {
        match invalidated_targets(events, n - 1) {
            Err(m) => Err(m),
            Ok(ids) => match invalidation(events[n - 1]) {
                Err(m) => Err(m),
                Ok(true) => Ok(ids.push((n - 1) as nat)),
                Ok(false) => Ok(ids),
            },
        }
    }
}

/// The targets (numbered by position) that the events of their watchers,
/// `events`, invalidate; or the first error of a watcher.
pub fn get_invalidated_targets(events: &Vec<WatchEvent>) -> (r: Result<Vec<TargetId>, String>)
    requires
        forall|i: int| 0 <= i < events@.len() ==> has_file_name(#[trigger] events@[i]),
    ensures
        match invalidated_targets(events@, events@.len() as int) {
            Ok(ids) => r matches Ok(v) && v@.map_values(|i: usize| i as nat) == ids,
            Err(m) => r matches Err(e) && e@ == m,
        },
{
    let mut invalidated: Vec<TargetId> = Vec::new();
    for i in 0..events.len()
        invariant
            forall|j: int| 0 <= j < events@.len() ==> has_file_name(#[trigger] events@[j]),
            invalidated_targets(events@, i as int) matches Ok(ids)
                && invalidated@.map_values(|k: usize| k as nat) == ids,
    {
        match is_invalidated(&events[i]) {
            Ok(true) => {
                let ghost before = invalidated@;
                invalidated.push(i);
                assert(invalidated@.map_values(|k: usize| k as nat)
                    =~= before.map_values(|k: usize| k as nat).push(i as nat));
            },
            Ok(false) => {},
            Err(e) => {
                proof {
                    lemma_first_error_stays(events@, i + 1, events@.len() as int);
                }
                return Err(e);
            },
        }
    }
    Ok(invalidated)
}

/// Once a round of events holds an error, the first error stays the answer.
pub proof fn lemma_first_error_stays(events: Seq<WatchEvent>, n: int, m: int)
    requires
        0 <= n <= m,
        invalidated_targets(events, n) is Err,
    ensures
        invalidated_targets(events, m) == invalidated_targets(events, n),
    decreases m - n,
{
    if n < m {
        lemma_first_error_stays(events, n, m - 1);
    }
}

/// Like `get_invalidated_targets`, for any events: `None` when a changed path
/// has no file name.
pub fn get_invalidated_targets_checked(events: &Vec<WatchEvent>) -> (r: Option<Result<Vec<TargetId>, String>>)
    ensures
        match r {
            Some(_) => forall|i: int| 0 <= i < events@.len() ==> has_file_name(#[trigger] events@[i]),
            None => exists|i: int| 0 <= i < events@.len() && !has_file_name(#[trigger] events@[i]),
        },
        r matches Some(res) ==> match invalidated_targets(events@, events@.len() as int) {
            Ok(ids) => res matches Ok(v) && v@.map_values(|i: usize| i as nat) == ids,
            Err(m) => res matches Err(e) && e@ == m,
        },
{
    for i in 0..events.len()
        invariant
            forall|j: int| 0 <= j < i ==> has_file_name(#[trigger] events@[j]),
    {
        if let WatchEvent::Changed(path) = &events[i] {
            if tmp_editor_file_check(path.as_str()).is_none() {
                return None;
            }
        }
    }
    Some(get_invalidated_targets(events))
}

} // verus!
