//! Wire protocol data types: the commands a client issues and the events
//! the service delivers, together with their mathematical models (views
//! over character sequences) that the codec contracts are stated against.

use vstd::prelude::*;

verus! {

/// One client-issued instruction.
#[derive(Debug, Clone, PartialEq)]
pub enum Command {
    AddWatch { path: String, id: String },
    RemoveWatch { id: String },
    ListWatches,
    Shutdown,
}

/// One `{id, path}` pair of a watch-list snapshot.
#[derive(Debug, Clone, PartialEq)]
pub struct WatchInfo {
    pub id: String,
    pub path: String,
}

/// One notification delivered to the client.
#[derive(Debug, Clone, PartialEq)]
pub enum Event {
    FileAdded { watch_id: String, path: String, relative: String },
    DirAdded { watch_id: String, path: String, relative: String },
    FileRemoved { watch_id: String, path: String, relative: String },
    DirRemoved { watch_id: String, path: String, relative: String },
    Ready { watch_id: String },
    WatchList { watches: Vec<WatchInfo> },
    Error { message: String, watch_id: Option<String> },
}

/// Model of a `Command`: the same shape over character sequences.
pub enum CmdModel {
    AddWatch { path: Seq<char>, id: Seq<char> },
    RemoveWatch { id: Seq<char> },
    ListWatches,
    Shutdown,
}

/// Model of a `WatchInfo`.
pub struct WatchInfoV {
    pub id: Seq<char>,
    pub path: Seq<char>,
}

/// Model of an `Event`.
pub enum EventModel {
    FileAdded { watch_id: Seq<char>, path: Seq<char>, relative: Seq<char> },
    DirAdded { watch_id: Seq<char>, path: Seq<char>, relative: Seq<char> },
    FileRemoved { watch_id: Seq<char>, path: Seq<char>, relative: Seq<char> },
    DirRemoved { watch_id: Seq<char>, path: Seq<char>, relative: Seq<char> },
    Ready { watch_id: Seq<char> },
    WatchList { watches: Seq<WatchInfoV> },
    Error { message: Seq<char>, watch_id: Option<Seq<char>> },
}

impl View for Command {
    type V = CmdModel;

    open spec fn view(&self) -> CmdModel {
        match self {
            Command::AddWatch { path, id } => CmdModel::AddWatch { path: path@, id: id@ },
            Command::RemoveWatch { id } => CmdModel::RemoveWatch { id: id@ },
            Command::ListWatches => CmdModel::ListWatches,
            Command::Shutdown => CmdModel::Shutdown,
        }
    }
}

impl View for WatchInfo {
    type V = WatchInfoV;

    open spec fn view(&self) -> WatchInfoV {
        WatchInfoV { id: self.id@, path: self.path@ }
    }
}

impl View for Event {
    type V = EventModel;

    open spec fn view(&self) -> EventModel {
        match self {
            Event::FileAdded { watch_id, path, relative } => EventModel::FileAdded {
                watch_id: watch_id@,
                path: path@,
                relative: relative@,
            },
            Event::DirAdded { watch_id, path, relative } => EventModel::DirAdded {
                watch_id: watch_id@,
                path: path@,
                relative: relative@,
            },
            Event::FileRemoved { watch_id, path, relative } => EventModel::FileRemoved {
                watch_id: watch_id@,
                path: path@,
                relative: relative@,
            },
            Event::DirRemoved { watch_id, path, relative } => EventModel::DirRemoved {
                watch_id: watch_id@,
                path: path@,
                relative: relative@,
            },
            Event::Ready { watch_id } => EventModel::Ready { watch_id: watch_id@ },
            Event::WatchList { watches } => EventModel::WatchList {
                watches: watches@.map_values(|w: WatchInfo| w@),
            },
            Event::Error { message, watch_id } => EventModel::Error {
                message: message@,
                watch_id: match watch_id {
                    Some(w) => Some(w@),
                    None => None,
                },
            },
        }
    }
}

} // verus!
