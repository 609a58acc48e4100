//! The decisions of the control commands: pause, resume, status, and the
//! preconditions of starting and stopping.
//!
//! Whether a daemon process is running is established outside (by the
//! recorded process identity) and handed in as a plain boolean; the state
//! store is handed in as a value and written back by the caller.

use vstd::prelude::*;

use crate::errors::DaemonError;
use crate::state::spec_encode_state;
use crate::state::spec_load;
use crate::state::State;
use crate::state::StateStore;

verus! {

/// A daemon may be started only while none is running.
pub fn check_can_start(running: bool) -> (r: Result<(), DaemonError>)
    ensures
        r == if running {
            Err::<(), DaemonError>(DaemonError::AlreadyRunning)
        } else {
            Ok::<(), DaemonError>(())
        },
{
    if running {
        Err(DaemonError::AlreadyRunning)
    } else {
        Ok(())
    }
}

/// A daemon may be stopped only while one is running.
pub fn check_can_stop(running: bool) -> (r: Result<(), DaemonError>)
    ensures
        r == if running {
            Ok::<(), DaemonError>(())
        } else {
            Err::<(), DaemonError>(DaemonError::NotRunning)
        },
{
    if running {
        Ok(())
    } else {
        Err(DaemonError::NotRunning)
    }
}

/// Suppresses further reminders: loads the state, sets `paused`, saves.
///
/// Without a running daemon nothing is touched; unreadable state propagates
/// and nothing is written.
pub fn pause_daemon(store: &mut StateStore, running: bool) -> (r: Result<(), DaemonError>)
    ensures
        !running ==> r == Err::<(), DaemonError>(DaemonError::NotRunning) && *final(store)
            == *old(store),
        running && spec_load(old(store).stored()) is Some ==> r == Ok::<(), DaemonError>(())
            && final(store).stored() == Some(spec_encode_state(true)),
        running && spec_load(old(store).stored()) is None ==> r == Err::<(), DaemonError>(
            DaemonError::CorruptState,
        ) && *final(store) == *old(store),
{
    set_paused(store, running, true)
}

/// Lets reminders fire again: loads the state, clears `paused`, saves.
pub fn resume_daemon(store: &mut StateStore, running: bool) -> (r: Result<(), DaemonError>)
    ensures
        !running ==> r == Err::<(), DaemonError>(DaemonError::NotRunning) && *final(store)
            == *old(store),
        running && spec_load(old(store).stored()) is Some ==> r == Ok::<(), DaemonError>(())
            && final(store).stored() == Some(spec_encode_state(false)),
        running && spec_load(old(store).stored()) is None ==> r == Err::<(), DaemonError>(
            DaemonError::CorruptState,
        ) && *final(store) == *old(store),
{
    set_paused(store, running, false)
}

fn set_paused(store: &mut StateStore, running: bool, paused: bool) -> (r: Result<
    (),
    DaemonError,
>)
    ensures
        !running ==> r == Err::<(), DaemonError>(DaemonError::NotRunning) && *final(store)
            == *old(store),
        running && spec_load(old(store).stored()) is Some ==> r == Ok::<(), DaemonError>(())
            && final(store).stored() == Some(spec_encode_state(paused)),
        running && spec_load(old(store).stored()) is None ==> r == Err::<(), DaemonError>(
            DaemonError::CorruptState,
        ) && *final(store) == *old(store),
{
    if !running {
        return Err(DaemonError::NotRunning);
    }
    let mut state = match store.load() {
        Ok(state) => state,
        Err(e) => {
            return Err(e);
        },
    };
    state.paused = paused;
    store.save(state);
    Ok(())
}

/// Describes the daemon in one line: not running, paused, or active.
pub fn daemon_status(store: &StateStore, running: bool) -> (r: Result<String, DaemonError>)
    ensures
        !running ==> (r matches Ok(msg) && msg@ == "Daemon is not running"@),
        running && spec_load(store.stored()) == Some(true) ==> (r matches Ok(msg) && msg@
            == "Daemon is running (paused)"@),
        running && spec_load(store.stored()) == Some(false) ==> (r matches Ok(msg) && msg@
            == "Daemon is running (active)"@),
        running && spec_load(store.stored()) is None ==> r == Err::<String, DaemonError>(
            DaemonError::CorruptState,
        ),
{
    if !running {
        return Ok("Daemon is not running".to_owned());
    }
    let state = match store.load() {
        Ok(state) => state,
        Err(e) => {
            return Err(e);
        },
    };
    if state.paused {
        Ok("Daemon is running (paused)".to_owned())
    } else {
        Ok("Daemon is running (active)".to_owned())
    }
}

} // verus!
