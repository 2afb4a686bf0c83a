//! Command-routing values shared with the host process.
//!
//! The host's engine consumes these when a forwarded command is queued;
//! the unverified layer around the library translates them to the
//! host's ABI representation.

use vstd::prelude::*;

verus! {

/// Where a queued console command came from; the host restricts what
/// each origin may run.
#[derive(Debug)]
pub enum CmdSource {
    /// Added to the console buffer by gameplay code, generally
    /// unrestricted; remote-console commands are forwarded as this.
    Code,
    /// Sent from code via the client-command interface.
    ClientCmd,
    /// Typed at the console or bound to a key.
    UserInput,
    /// Arrived over a net connection as a string command.
    NetClient,
    /// Received from the server while running as the client.
    NetServer,
    /// Played back from a demo file.
    DemoFile,
    /// Cleared / not a real source.
    Invalid,
}

/// Which command buffer of the host receives a queued command.
#[derive(Debug)]
pub enum EcommandTarget {
    /// The first player's buffer.
    CbufFirstPlayer,
    /// The last player's buffer.
    CbufLastPlayer,
    /// The dedicated-server buffer.
    CbufServer,
    /// Number of buffers, not a real target.
    CbufCount,
}

} // verus!
