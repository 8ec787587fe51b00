//! Connection-facing layer: the server's configuration and the command
//! dispatcher that one received text frame runs through. The blocking
//! transport loops live outside the library; they hand every received
//! frame to `handle_command_text` and encode queued events for sending.

use vstd::prelude::*;
use crate::protocol::{Command, Event, CmdModel};
use crate::codec::{decode_command, dec_cmd};
use crate::watcher::WatchManager;

verus! {

/// The service's configuration: the port it listens on and the
/// debounce window, in milliseconds, of every watch's signal source.
pub struct Server {
    pub port: u16,
    pub debounce_ms: u64,
}

impl Server {
    /// A server configured for the given port and debounce window.
    pub fn new(port: u16, debounce_ms: u64) -> (r: Self)
        ensures
            r.port == port,
            r.debounce_ms == debounce_ms,
    {
        Server { port, debounce_ms }
    }
}

/// Applies one received text frame to the registry: decodes it,
/// performs the command, delivers the answering events to the queue,
/// and reports whether the frame asks for shutdown. A frame that does
/// not decode yields an `Error` event without a watch id and changes
/// nothing.
pub fn handle_command_text(manager: &mut WatchManager, text: &str) -> (shutdown: bool)
    requires
        old(manager).wf(),
    ensures
        final(manager).wf(),
        shutdown == (dec_cmd(text@) == Some(CmdModel::Shutdown)),
        match dec_cmd(text@) {
            Some(m) => match m {
                CmdModel::AddWatch { path, id } => final(manager).entries() == old(manager).entries()
                    || final(manager).entries() == old(manager).entries().push((id, path)),
                CmdModel::RemoveWatch { id } => (!old(manager).has_id(id)
                    && final(manager).entries() == old(manager).entries()) || (exists|k: int|
                    0 <= k < old(manager).entries().len() && old(manager).entries()[k].0 == id
                        && final(manager).entries() == old(manager).entries().remove(k)),
                CmdModel::ListWatches => final(manager).entries() == old(manager).entries(),
                CmdModel::Shutdown => final(manager).entries() == old(manager).entries(),
            },
            None => final(manager).entries() == old(manager).entries(),
        },
{
    match decode_command(text) {
        Some(cmd) => match cmd {
            Command::AddWatch { path, id } => {
                let r = manager.add_watch(id.clone(), path);
                match r {
                    Ok(_) => {}
                    Err(e) => {
                        manager.emit(
                            Event::Error { message: e.message(), watch_id: Some(id) },
                        );
                    }
                }
                false
            }
            Command::RemoveWatch { id } => {
                let r = manager.remove_watch(id.as_str());
                match r {
                    Ok(_) => {}
                    Err(e) => {
                        manager.emit(
                            Event::Error { message: e.message(), watch_id: Some(id) },
                        );
                    }
                }
                false
            }
            Command::ListWatches => {
                let watches = manager.list_watches();
                manager.emit(Event::WatchList { watches });
                false
            }
            Command::Shutdown => true,
        },
        None => {
            manager.emit(
                Event::Error {
                    message: String::from_str("Invalid command"),
                    watch_id: None,
                },
            );
            false
        }
    }
}

} // verus!
