//! Wire data model: the values that cross the subscriber/provider boundary.
//!
//! Every type here is a plain value. Equality that matters to the protocol
//! (correlating a response with the plugin it came from) is value equality
//! over the mathematical views, never identity.

use vstd::prelude::*;

verus! {

/// Identity of a loaded plugin as reported by its `info` operation:
/// a display name and an icon hint. Immutable once reported. Used as the
/// correlation key between requests and responses, so equality is
/// value-based.
pub struct PluginInfo {
    pub name: String,
    pub icon: String,
}

/// Mathematical value of a [`PluginInfo`].
pub struct PluginInfoV {
    pub name: Seq<char>,
    pub icon: Seq<char>,
}

impl View for PluginInfo {
    type V = PluginInfoV;

    open spec fn view(&self) -> PluginInfoV {
        PluginInfoV { name: self.name@, icon: self.icon@ }
    }
}

impl DeepView for PluginInfo {
    type V = PluginInfoV;

    open spec fn deep_view(&self) -> PluginInfoV {
        self.view()
    }
}

impl Clone for PluginInfo {
    fn clone(&self) -> (r: Self)
        ensures
            r == *self,
    {
        PluginInfo { name: self.name.clone(), icon: self.icon.clone() }
    }
}

/// Value equality of two plugin identities.
pub fn info_eq(a: &PluginInfo, b: &PluginInfo) -> (r: bool)
    ensures
        r == (a@ == b@),
{
    a.name == b.name && a.icon == b.icon
}

/// One candidate result returned by a plugin for a query. The payload
/// fields (`id` in particular) are plugin-defined and only serve to
/// re-identify the match when it is selected; the engine never inspects
/// them.
pub struct Match {
    pub title: String,
    pub description: Option<String>,
    pub use_pango: bool,
    pub icon: Option<String>,
    pub id: Option<u64>,
}

/// Mathematical value of a [`Match`].
pub struct MatchV {
    pub title: Seq<char>,
    pub description: Option<Seq<char>>,
    pub use_pango: bool,
    pub icon: Option<Seq<char>>,
    pub id: Option<u64>,
}

impl View for Match {
    type V = MatchV;

    open spec fn view(&self) -> MatchV {
        MatchV {
            title: self.title@,
            description: self.description.deep_view(),
            use_pango: self.use_pango,
            icon: self.icon.deep_view(),
            id: self.id,
        }
    }
}

/// The outcome of invoking a plugin on a selected match: a closed set of
/// variants, consumed exactly once by the requester.
pub enum HandleResult {
    /// Shut the subscriber down.
    Close,
    /// Refresh the shown results; the flag requests an exclusive mode for
    /// the plugin.
    Refresh(bool),
    /// Copy the carried bytes.
    Copy(Vec<u8>),
    /// Write the carried bytes to the subscriber's standard output.
    Stdout(Vec<u8>),
}

/// Mathematical value of a [`HandleResult`].
pub enum HandleResultV {
    Close,
    Refresh(bool),
    Copy(Seq<u8>),
    Stdout(Seq<u8>),
}

impl View for HandleResult {
    type V = HandleResultV;

    open spec fn view(&self) -> HandleResultV {
        match self {
            HandleResult::Close => HandleResultV::Close,
            HandleResult::Refresh(exclusive) => HandleResultV::Refresh(*exclusive),
            HandleResult::Copy(bytes) => HandleResultV::Copy(bytes@),
            HandleResult::Stdout(bytes) => HandleResultV::Stdout(bytes@),
        }
    }
}

/// A subscriber-to-provider message. The wire order of requests defines
/// the protocol transitions of the session engine.
pub enum Request {
    /// Re-initialize every plugin and discard pending dispatch state.
    /// Fire-and-forget: no response is emitted.
    Reset,
    /// Ask every registered plugin for matches on the given text.
    Query { text: String },
    /// Ask one plugin, named by value, to act on a selected match.
    Handle { plugin: PluginInfo, selection: Match },
    /// End the session and stop the provider.
    Quit,
}

/// Mathematical value of a [`Request`].
pub enum RequestV {
    Reset,
    Query { text: Seq<char> },
    Handle { plugin: PluginInfoV, selection: MatchV },
    Quit,
}

impl View for Request {
    type V = RequestV;

    open spec fn view(&self) -> RequestV {
        match self {
            Request::Reset => RequestV::Reset,
            Request::Query { text } => RequestV::Query { text: text@ },
            Request::Handle { plugin, selection } => RequestV::Handle {
                plugin: plugin@,
                selection: selection@,
            },
            Request::Quit => RequestV::Quit,
        }
    }
}

/// A provider-to-subscriber message. `Ready` is sent exactly once per
/// connection, first; `Matches` once per plugin per query round, in
/// completion order; `Handled` exactly once per `Handle`.
pub enum Response {
    /// The handshake: the identities of the loaded plugins in load order.
    /// May be shorter than the requested plugin list when some failed to
    /// load.
    Ready { info: Vec<PluginInfo> },
    /// One plugin's results for the current query round.
    Matches { plugin: PluginInfo, matches: Vec<Match> },
    /// The outcome of one `Handle` request.
    Handled { plugin: PluginInfo, result: HandleResult },
}

/// Mathematical value of a [`Response`].
pub enum ResponseV {
    Ready { info: Seq<PluginInfoV> },
    Matches { plugin: PluginInfoV, matches: Seq<MatchV> },
    Handled { plugin: PluginInfoV, result: HandleResultV },
}

impl View for Response {
    type V = ResponseV;

    open spec fn view(&self) -> ResponseV {
        match self {
            Response::Ready { info } => ResponseV::Ready {
                info: info@.map_values(|p: PluginInfo| p@),
            },
            Response::Matches { plugin, matches } => ResponseV::Matches {
                plugin: plugin@,
                matches: matches@.map_values(|m: Match| m@),
            },
            Response::Handled { plugin, result } => ResponseV::Handled {
                plugin: plugin@,
                result: result@,
            },
        }
    }
}

/// An error the provider reports to a subscriber instead of a response.
pub enum Error {
    /// The provider serves one subscriber at a time. A deployment that
    /// refuses a concurrent connection attempt reports this value to the
    /// latecomer; one that instead queues the attempt until the current
    /// session ends never sends it, but subscribers must still expect
    /// it, as part of the wire contract.
    Occupied,
}

} // verus!
