//! CastagneNet - the state of an online match.
//!
//! Tracks the server address, the number of peers and the synchronisation
//! status, and keeps a log of every network event. Hosting, joining and
//! rollback are not implemented: the events only change this state.

use vstd::prelude::*;
use crate::numbers::{decimal, decimal_chars, signed_decimal, signed_decimal_chars};
use crate::text::{chars_to_string, copy_str};

verus! {

/// Network sync status.
#[derive(Debug, Clone, Copy, PartialEq, Eq, Structural)]
pub enum NetworkSyncStatus {
    Off,
    Starting,
    Ready,
    Stopping,
}

/// Network and rollback management.
pub struct CastagneNet {
    server_ip: String,
    server_port: u16,
    net_log: String,
    nb_peers: usize,
    network_sync_status: NetworkSyncStatus,
}

/// The network state, as plain values.
pub struct NetModel {
    pub server_ip: Seq<char>,
    pub server_port: u16,
    pub net_log: Seq<char>,
    pub nb_peers: usize,
    pub status: NetworkSyncStatus,
}

impl View for CastagneNet {
    type V = NetModel;

    closed spec fn view(&self) -> NetModel {
        NetModel {
            server_ip: self.server_ip@,
            server_port: self.server_port,
            net_log: self.net_log@,
            nb_peers: self.nb_peers,
            status: self.network_sync_status,
        }
    }
}

/// The log with the line of `message` added.
pub open spec fn logged(log: Seq<char>, message: Seq<char>) -> Seq<char> {
    log + "[Net] "@ + message + "\n"@
}

/// `m` with `message` logged, `nb_peers` peers and status `status`.
pub open spec fn after_event(m: NetModel, message: Seq<char>, nb_peers: usize, status: NetworkSyncStatus) -> NetModel {
    NetModel {
        server_ip: m.server_ip,
        server_port: m.server_port,
        net_log: logged(m.net_log, message),
        nb_peers,
        status,
    }
}

/// `m` with `message` logged and nothing else changed.
pub open spec fn after_log(m: NetModel, message: Seq<char>) -> NetModel {
    after_event(m, message, m.nb_peers, m.status)
}

impl CastagneNet {
    /// A network manager for the local server, off, with no peer.
    pub fn new() -> (r: Self)
        ensures
            r@ == (NetModel {
                server_ip: "127.0.0.1"@,
                server_port: 6442,
                net_log: Seq::empty(),
                nb_peers: 0,
                status: NetworkSyncStatus::Off,
            }),
    {
        CastagneNet {
            server_ip: copy_str("127.0.0.1"),
            server_port: 6442,
            net_log: String::new(),
            nb_peers: 0,
            network_sync_status: NetworkSyncStatus::Off,
        }
    }

    /// Sets the server address.
    pub fn set_server_ip(&mut self, ip: String)
        ensures
            final(self)@ == (NetModel {
                server_ip: ip@,
                server_port: old(self)@.server_port,
                net_log: old(self)@.net_log,
                nb_peers: old(self)@.nb_peers,
                status: old(self)@.status,
            }),
    {
        self.server_ip = ip;
    }

    /// Sets the server port.
    pub fn set_server_port(&mut self, port: u16)
        ensures
            final(self)@ == (NetModel {
                server_ip: old(self)@.server_ip,
                server_port: port,
                net_log: old(self)@.net_log,
                nb_peers: old(self)@.nb_peers,
                status: old(self)@.status,
            }),
    {
        self.server_port = port;
    }

    /// The sync status.
    pub fn get_network_sync_status(&self) -> (r: NetworkSyncStatus)
        ensures
            r == self@.status,
    {
        self.network_sync_status
    }

    /// The number of peers.
    pub fn get_nb_peers(&self) -> (r: usize)
        ensures
            r == self@.nb_peers,
    {
        self.nb_peers
    }

    /// Hosts a server: one more peer, starting.
    pub fn host(&mut self)
        requires
            old(self)@.nb_peers < usize::MAX,
        ensures
            final(self)@ == after_event(
                old(self)@,
                "Hosting Server (TODO: Not implemented)"@,
                (old(self)@.nb_peers + 1) as usize,
                NetworkSyncStatus::Starting,
            ),
    {
        self.log("Hosting Server (TODO: Not implemented)");
        self.nb_peers = self.nb_peers + 1;
        self.network_sync_status = NetworkSyncStatus::Starting;
    }

    /// Joins the server: starting.
    pub fn join(&mut self)
        ensures
            final(self)@ == after_event(
                old(self)@,
                "Joining Server at "@ + old(self)@.server_ip + ":"@ + decimal(old(self)@.server_port as nat)
                    + " (TODO: Not implemented)"@,
                old(self)@.nb_peers,
                NetworkSyncStatus::Starting,
            ),
    {
        let mut message = copy_str("Joining Server at ");
        message.append(self.server_ip.as_str());
        message.append(":");
        let port = decimal_chars(self.server_port as u64);
        message.append(chars_to_string(&port).as_str());
        message.append(" (TODO: Not implemented)");
        self.log(message.as_str());
        self.network_sync_status = NetworkSyncStatus::Starting;
    }

    /// Disconnects: no peer, stopping.
    pub fn disconnect(&mut self)
        ensures
            final(self)@ == after_event(old(self)@, "Disconnecting (TODO: Not implemented)"@, 0, NetworkSyncStatus::Stopping),
    {
        self.log("Disconnecting (TODO: Not implemented)");
        self.network_sync_status = NetworkSyncStatus::Stopping;
        self.nb_peers = 0;
    }

    /// Starts synchronisation: ready.
    pub fn start_sync(&mut self)
        ensures
            final(self)@ == after_event(
                old(self)@,
                "Starting Sync (TODO: Not implemented)"@,
                old(self)@.nb_peers,
                NetworkSyncStatus::Ready,
            ),
    {
        self.log("Starting Sync (TODO: Not implemented)");
        self.network_sync_status = NetworkSyncStatus::Ready;
    }

    /// Stops synchronisation: off.
    pub fn stop_sync(&mut self)
        ensures
            final(self)@ == after_event(
                old(self)@,
                "Stopping Sync (TODO: Not implemented)"@,
                old(self)@.nb_peers,
                NetworkSyncStatus::Off,
            ),
    {
        self.log("Stopping Sync (TODO: Not implemented)");
        self.network_sync_status = NetworkSyncStatus::Off;
    }

    /// Starts a network match: only logged.
    pub fn start_network_match(&mut self)
        ensures
            final(self)@ == after_log(old(self)@, "Starting Network Match (TODO: Not implemented)"@),
    {
        self.log("Starting Network Match (TODO: Not implemented)");
    }

    /// Starts logging network events: only logged.
    pub fn start_logging(&mut self)
        ensures
            final(self)@ == after_log(old(self)@, "Starting Logging (TODO: Not implemented)"@),
    {
        self.log("Starting Logging (TODO: Not implemented)");
    }

    /// A peer connected: one more peer.
    pub fn on_network_peer_connected(&mut self, peer_id: i32)
        requires
            old(self)@.nb_peers < usize::MAX,
        ensures
            final(self)@ == after_event(
                old(self)@,
                "Network Peer Connected: "@ + signed_decimal(peer_id as int) + " (TODO: Not implemented)"@,
                (old(self)@.nb_peers + 1) as usize,
                old(self)@.status,
            ),
    {
        let mut message = copy_str("Network Peer Connected: ");
        let id = signed_decimal_chars(peer_id as i64);
        message.append(chars_to_string(&id).as_str());
        message.append(" (TODO: Not implemented)");
        self.log(message.as_str());
        self.nb_peers = self.nb_peers + 1;
    }

    /// A peer disconnected: one peer less, if there was any.
    pub fn on_network_peer_disconnected(&mut self, peer_id: i32)
        ensures
            final(self)@ == after_event(
                old(self)@,
                "Network Peer Disconnected: "@ + signed_decimal(peer_id as int) + " (TODO: Not implemented)"@,
                if old(self)@.nb_peers > 0 {
                    (old(self)@.nb_peers - 1) as usize
                } else {
                    0
                },
                old(self)@.status,
            ),
    {
        let mut message = copy_str("Network Peer Disconnected: ");
        let id = signed_decimal_chars(peer_id as i64);
        message.append(chars_to_string(&id).as_str());
        message.append(" (TODO: Not implemented)");
        self.log(message.as_str());
        if self.nb_peers > 0 {
            self.nb_peers = self.nb_peers - 1;
        }
    }

    /// The server disconnected: logged, then peer 1 disconnects.
    pub fn on_server_disconnected(&mut self)
        ensures
            final(self)@ == after_event(
                after_log(old(self)@, "Server Disconnected (TODO: Not implemented)"@),
                "Network Peer Disconnected: "@ + signed_decimal(1) + " (TODO: Not implemented)"@,
                if old(self)@.nb_peers > 0 {
                    (old(self)@.nb_peers - 1) as usize
                } else {
                    0
                },
                old(self)@.status,
            ),
    {
        self.log("Server Disconnected (TODO: Not implemented)");
        self.on_network_peer_disconnected(1);
    }

    /// Synchronisation started: ready.
    pub fn on_sync_manager_sync_started(&mut self)
        ensures
            final(self)@ == after_event(
                old(self)@,
                "SyncManager Sync Started"@,
                old(self)@.nb_peers,
                NetworkSyncStatus::Ready,
            ),
    {
        self.log("SyncManager Sync Started");
        self.network_sync_status = NetworkSyncStatus::Ready;
    }

    /// Synchronisation stopped: off.
    pub fn on_sync_manager_sync_stopped(&mut self)
        ensures
            final(self)@ == after_event(
                old(self)@,
                "SyncManager Sync Stopped"@,
                old(self)@.nb_peers,
                NetworkSyncStatus::Off,
            ),
    {
        self.log("SyncManager Sync Stopped");
        self.network_sync_status = NetworkSyncStatus::Off;
    }

    /// Synchronisation was lost: only logged.
    pub fn on_sync_manager_sync_lost(&mut self)
        ensures
            final(self)@ == after_log(old(self)@, "SyncManager Sync Lost"@),
    {
        self.log("SyncManager Sync Lost");
    }

    /// Synchronisation was regained: only logged.
    pub fn on_sync_manager_sync_regained(&mut self)
        ensures
            final(self)@ == after_log(old(self)@, "SyncManager Sync Regained"@),
    {
        self.log("SyncManager Sync Regained");
    }

    /// A fatal synchronisation error: logged, and off.
    pub fn on_sync_manager_sync_error(&mut self, msg: &str)
        ensures
            final(self)@ == after_event(
                old(self)@,
                "SyncManager Fatal Sync Error! "@ + msg@,
                old(self)@.nb_peers,
                NetworkSyncStatus::Off,
            ),
    {
        let mut message = copy_str("SyncManager Fatal Sync Error! ");
        message.append(msg);
        self.error(message.as_str());
        self.network_sync_status = NetworkSyncStatus::Off;
    }

    /// The saved state for rollback: nothing is saved.
    pub fn save_state(&self) -> (r: Vec<u8>)
        ensures
            r@ == Seq::<u8>::empty(),
    {
        Vec::new()
    }

    /// Loads a saved state: nothing is loaded.
    pub fn load_state(&mut self, _state: &[u8])
        ensures
            final(self)@ == old(self)@,
    {
    }

    /// The current frame: frames are not tracked.
    pub fn get_current_frame(&self) -> (r: i32)
        ensures
            r == 0,
    {
        0
    }

    /// The input delay in frames: none.
    pub fn get_input_delay(&self) -> (r: i32)
        ensures
            r == 0,
    {
        0
    }

    /// Rolls back to a frame: nothing happens.
    pub fn rollback_to_frame(&mut self, _frame: i32)
        ensures
            final(self)@ == old(self)@,
    {
    }

    /// Adds the line of `message` to the log.
    fn log(&mut self, message: &str)
        ensures
            final(self)@ == after_log(old(self)@, message@),
    {
        self.net_log.append("[Net] ");
        self.net_log.append(message);
        self.net_log.append("\n");
    }

    /// Adds the line of the error `message` to the log.
    fn error(&mut self, message: &str)
        ensures
            final(self)@ == after_log(old(self)@, message@),
    {
        self.net_log.append("[Net] ");
        self.net_log.append(message);
        self.net_log.append("\n");
    }

    /// The whole log.
    pub fn get_net_log(&self) -> (r: &str)
        ensures
            r@ == self@.net_log,
    {
        self.net_log.as_str()
    }

    /// Empties the log.
    pub fn clear_net_log(&mut self)
        ensures
            final(self)@ == (NetModel {
                server_ip: old(self)@.server_ip,
                server_port: old(self)@.server_port,
                net_log: Seq::empty(),
                nb_peers: old(self)@.nb_peers,
                status: old(self)@.status,
            }),
    {
        self.net_log = String::new();
    }
}

impl Default for CastagneNet {
    fn default() -> (r: Self)
        ensures
            r@ == (NetModel {
                server_ip: "127.0.0.1"@,
                server_port: 6442,
                net_log: Seq::empty(),
                nb_peers: 0,
                status: NetworkSyncStatus::Off,
            }),
    {
        Self::new()
    }
}

} // verus!
