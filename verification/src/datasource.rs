//! The state of the FIX data source: whether a connection is up, when the
//! last heartbeat came, which symbols the server listed, and the status and
//! health reports derived from it.  Connecting and running the session are
//! left to the caller, which reports what happened and passes the time.
use vstd::prelude::*;

use crate::fix::symbol_parser::SymbolData;
use crate::text::{chars_eq, chars_of, decimal_string, nat_to_chars, push_decimal, push_str};

verus! {

/// Overall health.
#[derive(Debug, Clone, Copy, PartialEq, Eq, Structural)]
pub enum HealthState {
    Healthy,
    Degraded,
    Unhealthy,
}

/// Whether the FIX connection is up.
#[derive(Debug, Clone, Copy, PartialEq, Eq, Structural)]
pub enum ConnectionState {
    Connected,
    Disconnected,
}

/// Heartbeat freshness: recent, stale, or none received yet.
#[derive(Debug, Clone, Copy, PartialEq, Eq, Structural)]
pub enum HeartbeatState {
    Active,
    Stale,
    NotReceived,
}

/// Times of a connection, in milliseconds since the epoch.
#[derive(Debug, Clone, Copy)]
pub struct ConnectionMetrics {
    pub connected_at: i64,
    pub last_heartbeat: Option<i64>,
}

/// Whole seconds from `from` to `to` (zero if `to` is not later).
pub open spec fn elapsed_seconds(from: i64, to: i64) -> u64 {
    if to <= from {
        0
    } else {
        ((to - from) / 1000) as u64
    }
}

/// Whole seconds from `from` to `to` (zero if `to` is not later).
pub fn seconds_between(from: i64, to: i64) -> (s: u64)
    ensures
        s == elapsed_seconds(from, to),
{
    if to <= from {
        0
    } else {
        let d: i128 = to as i128 - from as i128;
        (d / 1000) as u64
    }
}

impl ConnectionMetrics {
    /// A connection made at `now`, with no heartbeat yet.
    pub fn new(now: i64) -> (m: Self)
        ensures
            m.connected_at == now,
            m.last_heartbeat is None,
    {
        ConnectionMetrics { connected_at: now, last_heartbeat: None }
    }

    /// Seconds the connection has been up at `now`.
    pub fn uptime_seconds(&self, now: i64) -> (s: u64)
        ensures
            s == elapsed_seconds(self.connected_at, now),
    {
        seconds_between(self.connected_at, now)
    }

    /// Seconds since the last heartbeat at `now`, if one came.
    pub fn last_heartbeat_seconds_ago(&self, now: i64) -> (s: Option<u64>)
        ensures
            s == (match self.last_heartbeat {
                Some(t) => Some(elapsed_seconds(t, now)),
                None => None::<u64>,
            }),
    {
        match self.last_heartbeat {
            Some(t) => Some(seconds_between(t, now)),
            None => None,
        }
    }
}

/// A symbol as listed in the status report.
pub struct SymbolInfo {
    pub symbol_id: String,
    pub symbol_name: String,
    pub symbol_digits: u8,
}

/// Status of the data source.
pub struct DatasourceStatus {
    pub connected: bool,
    pub uptime_seconds: Option<u64>,
    pub last_heartbeat_seconds_ago: Option<u64>,
    pub symbols_subscribed: Vec<SymbolInfo>,
    pub total_symbols: usize,
}

/// Health of the data source.  `timestamp` is RFC 3339 text of the time the
/// report was made.
pub struct HealthStatus {
    pub status: HealthState,
    pub fix_connection: ConnectionState,
    pub heartbeat_status: HeartbeatState,
    pub last_heartbeat_seconds_ago: Option<u64>,
    pub uptime_seconds: Option<u64>,
    pub symbols_count: Option<usize>,
    pub warning: Option<String>,
    pub timestamp: String,
}

/// `"No heartbeat received in <s> seconds"`.
pub open spec fn stale_warning(s: u64) -> Seq<char> {
    "No heartbeat received in "@ + nat_to_chars(s as nat) + " seconds"@
}

/// Heartbeat state, health and warning for a connection whose last
/// heartbeat came `last` seconds ago: none yet is degraded; up to 30 s is
/// healthy; up to 60 s is stale and degraded; longer is stale and unhealthy.
pub open spec fn heartbeat_assessment(last: Option<u64>) -> (HeartbeatState, HealthState, Option<
    Seq<char>,
>) {
    match last {
        None => (HeartbeatState::NotReceived, HealthState::Degraded, Some("No heartbeat received yet"@)),
        Some(s) => if s <= 30 {
            (HeartbeatState::Active, HealthState::Healthy, None)
        } else if s <= 60 {
            (HeartbeatState::Stale, HealthState::Degraded, Some(stale_warning(s)))
        } else {
            (HeartbeatState::Stale, HealthState::Unhealthy, Some(stale_warning(s)))
        },
    }
}

/// The view of an optional string.
pub open spec fn opt_chars(o: Option<String>) -> Option<Seq<char>> {
    match o {
        Some(s) => Some(s@),
        None => None,
    }
}

/// Heartbeat state, health and warning text for a connection.
fn assess_heartbeat(last: Option<u64>) -> (r: (HeartbeatState, HealthState, Option<String>))
    ensures
        (r.0, r.1, opt_chars(r.2)) == heartbeat_assessment(last),
{
    match last {
        None => (
            HeartbeatState::NotReceived,
            HealthState::Degraded,
            Some("No heartbeat received yet".to_owned()),
        ),
        Some(s) => {
            if s <= 30 {
                (HeartbeatState::Active, HealthState::Healthy, None)
            } else {
                let mut out: Vec<char> = Vec::new();
                push_str(&mut out, "No heartbeat received in ");
                push_decimal(&mut out, s);
                push_str(&mut out, " seconds");
                let w = crate::text::string_from_chars(out.as_slice());
                if s <= 60 {
                    (HeartbeatState::Stale, HealthState::Degraded, Some(w))
                } else {
                    (HeartbeatState::Stale, HealthState::Unhealthy, Some(w))
                }
            }
        },
    }
}

/// The symbol map built from a security list: symbol id text to name, a
/// later entry replacing an earlier one with the same id.
pub open spec fn name_map(symbols: Seq<(u32, Seq<char>, u8)>) -> Map<Seq<char>, Seq<char>>
    decreases symbols.len(),
{
    if symbols.len() == 0 {
        Map::empty()
    } else {
        let last = symbols.last();
        name_map(symbols.drop_last()).insert(nat_to_chars(last.0 as nat), last.1)
    }
}

/// The views of a list of symbols.
pub open spec fn symbol_views(v: Seq<SymbolData>) -> Seq<(u32, Seq<char>, u8)> {
    v.map_values(|s: SymbolData| s@)
}

/// A copy of a list of symbols.
fn copy_symbols(v: &Vec<SymbolData>) -> (r: Vec<SymbolData>)
    ensures
        symbol_views(r@) == symbol_views(v@),
{
    let mut out: Vec<SymbolData> = Vec::new();
    let mut i: usize = 0;
    while i < v.len()
        invariant
            i <= v@.len(),
            out@.len() == i,
            forall|k: int| 0 <= k < i ==> (#[trigger] out@[k])@ == v@[k]@,
        decreases v.len() - i,
    {
        let s = &v[i];
        out.push(
            SymbolData {
                symbol_id: s.symbol_id,
                symbol_name: s.symbol_name.clone(),
                symbol_digits: s.symbol_digits,
            },
        );
        i = i + 1;
    }
    assert(symbol_views(out@) =~= symbol_views(v@));
    out
}

/// The data source's state: the connection's times (while one is up), the
/// symbols subscribed, and the symbol list the id-to-name map is built from.
pub struct DatasourceManager {
    metrics: Option<ConnectionMetrics>,
    subscribed: Vec<SymbolData>,
    directory: Vec<SymbolData>,
}

/// Abstract state of the data source.
pub struct DatasourceView {
    pub metrics: Option<ConnectionMetrics>,
    pub subscribed: Seq<(u32, Seq<char>, u8)>,
    /// The security list the id-to-name map is built from.
    pub listed: Seq<(u32, Seq<char>, u8)>,
}

impl View for DatasourceManager {
    type V = DatasourceView;

    closed spec fn view(&self) -> DatasourceView {
        DatasourceView {
            metrics: self.metrics,
            subscribed: symbol_views(self.subscribed@),
            listed: symbol_views(self.directory@),
        }
    }
}

/// The status report of a state at time `now`.
pub open spec fn status_fields(v: DatasourceView, now: i64) -> (bool, Option<u64>, Option<u64>, nat) {
    (
        v.subscribed.len() > 0,
        match v.metrics {
            Some(m) => Some(elapsed_seconds(m.connected_at, now)),
            None => None,
        },
        match v.metrics {
            Some(m) => match m.last_heartbeat {
                Some(t) => Some(elapsed_seconds(t, now)),
                None => None,
            },
            None => None,
        },
        v.subscribed.len(),
    )
}

impl DatasourceManager {
    /// No connection and no symbols.
    pub fn new() -> (m: Self)
        ensures
            m@.metrics is None,
            m@.subscribed.len() == 0,
            m@.listed.len() == 0,
    {
        let m = DatasourceManager { metrics: None, subscribed: Vec::new(), directory: Vec::new() };
        assert(symbol_views(m.subscribed@) =~= Seq::empty());
        assert(symbol_views(m.directory@) =~= Seq::empty());
        m
    }

    /// A connection may be started only while no symbols are subscribed.
    pub fn validate_connection_state(&self) -> (r: Result<(), String>)
        ensures
            r is Ok <==> self@.subscribed.len() == 0,
            r matches Err(e) ==> e@ == "Already connected to FIX server"@,
    {
        if self.subscribed.len() > 0 {
            Err("Already connected to FIX server".to_owned())
        } else {
            Ok(())
        }
    }

    /// A connection starts at `now`: fresh times, no symbols, an empty map.
    pub fn reset_connection_state(&mut self, now: i64)
        ensures
            final(self)@.metrics == Some(ConnectionMetrics { connected_at: now, last_heartbeat: None }),
            final(self)@.subscribed.len() == 0,
            final(self)@.listed.len() == 0,
    {
        self.metrics = Some(ConnectionMetrics::new(now));
        self.subscribed = Vec::new();
        self.directory = Vec::new();
        assert(symbol_views(self.subscribed@) =~= Seq::empty());
        assert(symbol_views(self.directory@) =~= Seq::empty());
    }

    /// A heartbeat came at `now`; recorded while a connection is up.
    pub fn record_heartbeat(&mut self, now: i64)
        ensures
            final(self)@.metrics == (match old(self)@.metrics {
                Some(m) => Some(ConnectionMetrics { last_heartbeat: Some(now), ..m }),
                None => None,
            }),
            final(self)@.subscribed == old(self)@.subscribed,
            final(self)@.listed == old(self)@.listed,
    {
        if let Some(m) = self.metrics {
            self.metrics = Some(ConnectionMetrics { last_heartbeat: Some(now), ..m });
        }
    }

    /// The server listed these symbols: they become the subscribed symbols
    /// and the id-to-name map.
    pub fn apply_security_list(&mut self, symbols: Vec<SymbolData>)
        ensures
            final(self)@.metrics == old(self)@.metrics,
            final(self)@.subscribed == symbol_views(symbols@),
            final(self)@.listed == symbol_views(symbols@),
    {
        self.directory = copy_symbols(&symbols);
        self.subscribed = symbols;
    }

    /// The connection stops: no symbols subscribed and no times; the
    /// id-to-name map is kept.
    pub fn stop(&mut self) -> (r: Result<(), String>)
        ensures
            r is Ok,
            final(self)@.metrics is None,
            final(self)@.subscribed.len() == 0,
            final(self)@.listed == old(self)@.listed,
    {
        self.subscribed = Vec::new();
        self.metrics = None;
        assert(symbol_views(self.subscribed@) =~= Seq::empty());
        Ok(())
    }

    /// The symbols subscribed.
    pub fn get_subscribed_symbols(&self) -> (r: Vec<SymbolData>)
        ensures
            symbol_views(r@) == self@.subscribed,
    {
        copy_symbols(&self.subscribed)
    }

    /// The status at time `now`: connected while symbols are subscribed,
    /// the connection's times, and the symbols with their ids as text.
    pub fn get_status(&self, now: i64) -> (r: DatasourceStatus)
        ensures
            (r.connected, r.uptime_seconds, r.last_heartbeat_seconds_ago, r.total_symbols as nat)
                == status_fields(self@, now),
            r.symbols_subscribed@.len() == self@.subscribed.len(),
            forall|i: int|
                0 <= i < r.symbols_subscribed@.len() ==> {
                    let s = #[trigger] r.symbols_subscribed@[i];
                    &&& s.symbol_id@ == nat_to_chars(self@.subscribed[i].0 as nat)
                    &&& s.symbol_name@ == self@.subscribed[i].1
                    &&& s.symbol_digits == self@.subscribed[i].2
                },
    {
        let (uptime, last_hb) = match self.metrics {
            Some(m) => (Some(m.uptime_seconds(now)), m.last_heartbeat_seconds_ago(now)),
            None => (None, None),
        };
        let mut infos: Vec<SymbolInfo> = Vec::new();
        let mut i: usize = 0;
        while i < self.subscribed.len()
            invariant
                i <= self.subscribed@.len(),
                infos@.len() == i,
                forall|k: int|
                    0 <= k < i ==> {
                        let s = #[trigger] infos@[k];
                        &&& s.symbol_id@ == nat_to_chars(self.subscribed@[k].symbol_id as nat)
                        &&& s.symbol_name@ == self.subscribed@[k].symbol_name@
                        &&& s.symbol_digits == self.subscribed@[k].symbol_digits
                    },
            decreases self.subscribed.len() - i,
        {
            let sym = &self.subscribed[i];
            infos.push(
                SymbolInfo {
                    symbol_id: decimal_string(sym.symbol_id as u64),
                    symbol_name: sym.symbol_name.clone(),
                    symbol_digits: sym.symbol_digits,
                },
            );
            i = i + 1;
        }
        let total = infos.len();
        DatasourceStatus {
            connected: total > 0,
            uptime_seconds: uptime,
            last_heartbeat_seconds_ago: last_hb,
            symbols_subscribed: infos,
            total_symbols: total,
        }
    }

    /// The health at time `now`, stamped with `timestamp`.  With a
    /// connection up, health follows the heartbeat (see
    /// `heartbeat_assessment`); without one it is unhealthy with no warning.
    /// The symbol count is given only when symbols are subscribed.
    pub fn get_health(&self, now: i64, timestamp: String) -> (r: HealthStatus)
        ensures
            r.fix_connection == (if self@.subscribed.len() > 0 {
                ConnectionState::Connected
            } else {
                ConnectionState::Disconnected
            }),
            r.symbols_count == (if self@.subscribed.len() > 0 {
                Some(self@.subscribed.len() as usize)
            } else {
                None::<usize>
            }),
            r.timestamp@ == timestamp@,
            match self@.metrics {
                Some(m) => {
                    let last = match m.last_heartbeat {
                        Some(t) => Some(elapsed_seconds(t, now)),
                        None => None::<u64>,
                    };
                    &&& r.uptime_seconds == Some(elapsed_seconds(m.connected_at, now))
                    &&& r.last_heartbeat_seconds_ago == last
                    &&& (r.heartbeat_status, r.status, opt_chars(r.warning))
                        == heartbeat_assessment(last)
                },
                None => {
                    &&& r.uptime_seconds is None
                    &&& r.last_heartbeat_seconds_ago is None
                    &&& r.heartbeat_status == HeartbeatState::NotReceived
                    &&& r.status == HealthState::Unhealthy
                    &&& r.warning is None
                },
            },
    {
        let n = self.subscribed.len();
        let connection = if n > 0 {
            ConnectionState::Connected
        } else {
            ConnectionState::Disconnected
        };
        let (uptime, last_hb, hb, health, warning) = match self.metrics {
            Some(m) => {
                let uptime = m.uptime_seconds(now);
                let last = m.last_heartbeat_seconds_ago(now);
                let (hb, health, warning) = assess_heartbeat(last);
                (Some(uptime), last, hb, health, warning)
            },
            None => (None, None, HeartbeatState::NotReceived, HealthState::Unhealthy, None),
        };
        HealthStatus {
            status: health,
            fix_connection: connection,
            heartbeat_status: hb,
            last_heartbeat_seconds_ago: last_hb,
            uptime_seconds: uptime,
            symbols_count: if n > 0 {
                Some(n)
            } else {
                None
            },
            warning,
            timestamp,
        }
    }

    /// The name of the symbol with this id text, if the map has it.
    pub fn get_symbol_name(&self, symbol_id: &str) -> (r: Option<String>)
        ensures
            match r {
                Some(n) => name_map(self@.listed).contains_key(symbol_id@) && n@ == name_map(
                    self@.listed,
                )[symbol_id@],
                None => !name_map(self@.listed).contains_key(symbol_id@),
            },
    {
        let key = chars_of(symbol_id);
        let ghost all = symbol_views(self.directory@);
        let mut i: usize = self.directory.len();
        assert(all.take(i as int) =~= all);
        while i > 0
            invariant
                i <= self.directory@.len(),
                all == symbol_views(self.directory@),
                key@ == symbol_id@,
                name_map(all).contains_key(key@) == name_map(all.take(i as int)).contains_key(key@),
                name_map(all).contains_key(key@) ==> name_map(all)[key@] == name_map(
                    all.take(i as int),
                )[key@],
            decreases i,
        {
            let sym = &self.directory[i - 1];
            let id_text = decimal_string(sym.symbol_id as u64);
            let id_chars = chars_of(id_text.as_str());
            proof {
                assert(all.take(i as int).drop_last() =~= all.take(i - 1));
                assert(all.take(i as int).last() == all[i - 1]);
            }
            if chars_eq(&id_chars, &key) {
                return Some(sym.symbol_name.clone());
            }
            i = i - 1;
        }
        proof {
            assert(all.take(0) =~= Seq::<(u32, Seq<char>, u8)>::empty());
        }
        None
    }

    /// Symbol ids with their names, in listing order; a later entry for
    /// the same id takes precedence when they are collected into a map.
    pub fn get_symbol_map(&self) -> (r: Vec<(i64, String)>)
        ensures
            r@.len() == self@.listed.len(),
            forall|i: int|
                0 <= i < r@.len() ==> (#[trigger] r@[i]).0 == self@.listed[i].0 as i64 && r@[i].1@
                    == self@.listed[i].1,
    {
        let mut out: Vec<(i64, String)> = Vec::new();
        let mut i: usize = 0;
        while i < self.directory.len()
            invariant
                i <= self.directory@.len(),
                out@.len() == i,
                forall|k: int|
                    0 <= k < i ==> (#[trigger] out@[k]).0 == self.directory@[k].symbol_id as i64
                        && out@[k].1@ == self.directory@[k].symbol_name@,
            decreases self.directory.len() - i,
        {
            let sym = &self.directory[i];
            out.push((sym.symbol_id as i64, sym.symbol_name.clone()));
            i = i + 1;
        }
        out
    }
}

} // verus!
