//! The decisions of a cTrader FIX session: what to send and what to hand on
//! for each message received, and how the byte stream is cut into messages.
//! Connecting, reading, writing and the heartbeat timer are left to the
//! caller, which performs the returned actions.
use vstd::prelude::*;

use super::market_data::{last_entry_of, market_data, MDEntryType, MarketDataParser, MarketTick};
use super::messages::{
    fix_fields, heartbeat_message, heartbeat_message_at, logon_message, logon_message_at,
    market_data_request_at, market_data_request_message, parse_fix_message, security_list_request_at,
    security_list_request_message, str_views,
};
use super::symbol_parser::{parse_security_list_response, security_list, symbols_view, SymbolData};
use crate::text::{decimal_string, nat_to_chars};

verus! {

broadcast use vstd::std_specs::hash::group_hash_axioms;

/// Session identity, credentials and the next outgoing sequence number.
pub struct FixSession {
    pub sender_comp_id: String,
    pub target_comp_id: String,
    pub sender_sub_id: String,
    pub target_sub_id: String,
    pub username: String,
    pub password: String,
    pub msg_seq_num: u32,
    /// Whether market data is turned into ticks for a consumer.
    pub streams_ticks: bool,
    pub parser: MarketDataParser,
}

/// What the caller is to do after a message came in.
pub enum SessionAction {
    /// Nothing.
    Nothing,
    /// Send this message.
    Send(String),
    /// A heartbeat came in: tell whoever watches the connection.
    HeartbeatReceived,
    /// A test request came in: send this heartbeat, and tell the watcher.
    AnswerTestRequest(String),
    /// Hand this market tick on.
    Tick(MarketTick),
    /// A security list came in: request id, result code, symbols, and the
    /// market data request to send, if any.
    SecurityList(String, u32, Vec<SymbolData>, Option<String>),
    /// A security list response that could not be read.
    BadSecurityList,
}

/// The message type (tag 35) of a raw message, if it has one.
pub open spec fn msg_type_of(raw: Seq<char>) -> Option<Seq<char>> {
    if fix_fields(raw).contains_key(35) {
        Some(fix_fields(raw)[35])
    } else {
        None
    }
}

/// The one-character message type of a raw message, if it has one.
pub open spec fn msg_code(raw: Seq<char>) -> Option<char> {
    match msg_type_of(raw) {
        Some(t) => if t.len() == 1 {
            Some(t[0])
        } else {
            None
        },
        None => None,
    }
}

/// Symbol ids as decimal text.
pub open spec fn symbol_id_texts(syms: Seq<(u32, Seq<char>, u8)>) -> Seq<Seq<char>> {
    syms.map_values(|s: (u32, Seq<char>, u8)| nat_to_chars(s.0 as nat))
}

/// A checksum tag `10=` starts at `i`.
pub open spec fn checksum_tag_at(b: Seq<u8>, i: int) -> bool {
    0 <= i && i + 3 <= b.len() && b[i] == 49u8 && b[i + 1] == 48u8 && b[i + 2] == 61u8
}

/// Where the first `10=` starts, among the first `n` positions.
pub open spec fn first_tag(b: Seq<u8>, n: nat) -> Option<int>
    decreases n,
{
    if n == 0 {
        None
    } else {
        match first_tag(b, (n - 1) as nat) {
            Some(i) => Some(i),
            None => if checksum_tag_at(b, n - 1) {
                Some(n - 1)
            } else {
                None
            },
        }
    }
}

/// Where the first SOH is among the `n` bytes from `from` on.
pub open spec fn first_soh_from(b: Seq<u8>, from: int, n: nat) -> Option<int>
    decreases n,
{
    if n == 0 {
        None
    } else {
        match first_soh_from(b, from, (n - 1) as nat) {
            Some(j) => Some(j),
            None => if b[from + n - 1] == 1u8 {
                Some(from + n - 1)
            } else {
                None
            },
        }
    }
}

/// Where the first complete message of the buffer ends: just after the
/// first SOH at or after the first `10=`.
pub open spec fn message_end(b: Seq<u8>) -> Option<int> {
    match first_tag(b, b.len()) {
        None => None,
        Some(i) => match first_soh_from(b, i, (b.len() - i) as nat) {
            None => None,
            Some(j) => Some(j + 1),
        },
    }
}

/// Text of the UTF-8 bytes, when they are valid UTF-8 (`String::from_utf8`).
pub open spec fn utf8_decode(b: Seq<u8>) -> Option<Seq<char>> {
    if vstd::utf8::valid_utf8(b) {
        Some(vstd::utf8::decode_utf8(b))
    } else {
        None
    }
}

/// `String::from_utf8` on a copy of the bytes: `Some` of their text when
/// they are valid UTF-8 (as `vstd::utf8` defines it: shortest encodings of
/// scalar values), `None` otherwise.
#[verifier::external_body]
fn decode_utf8(bytes: &[u8]) -> (r: Option<String>)
    ensures
        match r {
            Some(s) => utf8_decode(bytes@) == Some(s@),
            None => utf8_decode(bytes@) is None,
        },
{
    String::from_utf8(bytes.to_vec()).ok()
}

proof fn lemma_first_tag_mono(b: Seq<u8>, m: nat, n: nat)
    requires
        m <= n,
        first_tag(b, m) is Some,
    ensures
        first_tag(b, n) == first_tag(b, m),
    decreases n - m,
{
    if m < n {
        lemma_first_tag_mono(b, m, (n - 1) as nat);
    }
}

proof fn lemma_first_tag_none(b: Seq<u8>, m: nat, n: nat)
    requires
        m <= n,
        first_tag(b, m) is None,
        forall|k: int| m <= k < n ==> !checksum_tag_at(b, k),
    ensures
        first_tag(b, n) is None,
    decreases n - m,
{
    if m < n {
        lemma_first_tag_none(b, m, (n - 1) as nat);
    }
}

proof fn lemma_first_tag_bound(b: Seq<u8>, n: nat)
    ensures
        first_tag(b, n) matches Some(i) ==> 0 <= i < n && checksum_tag_at(b, i),
    decreases n,
{
    if n > 0 {
        lemma_first_tag_bound(b, (n - 1) as nat);
    }
}

proof fn lemma_first_soh_mono(b: Seq<u8>, from: int, m: nat, n: nat)
    requires
        m <= n,
        first_soh_from(b, from, m) is Some,
    ensures
        first_soh_from(b, from, n) == first_soh_from(b, from, m),
    decreases n - m,
{
    if m < n {
        lemma_first_soh_mono(b, from, m, (n - 1) as nat);
    }
}

proof fn lemma_first_soh_bound(b: Seq<u8>, from: int, n: nat)
    ensures
        first_soh_from(b, from, n) matches Some(j) ==> from <= j < from + n,
    decreases n,
{
    if n > 0 {
        lemma_first_soh_bound(b, from, (n - 1) as nat);
    }
}

/// Where the first `10=` of the bytes starts.
fn find_checksum_tag(b: &Vec<u8>) -> (r: Option<usize>)
    ensures
        r matches Some(i) ==> (first_tag(b@, b@.len()) == Some(i as int) && i < b@.len()),
        r is None ==> first_tag(b@, b@.len()) is None,
{
    let mut i: usize = 0;
    while i < b.len()
        invariant
            i <= b@.len(),
            first_tag(b@, i as nat) is None,
        decreases b.len() - i,
    {
        if b.len() - i >= 3 && b[i] == 49u8 && b[i + 1] == 48u8 && b[i + 2] == 61u8 {
            proof {
                lemma_first_tag_mono(b@, (i + 1) as nat, b@.len());
            }
            return Some(i);
        }
        i = i + 1;
    }
    None
}

/// Where the first SOH at or after `from` is.
fn find_soh_from(b: &Vec<u8>, from: usize) -> (r: Option<usize>)
    requires
        from <= b@.len(),
    ensures
        r matches Some(j) ==> (first_soh_from(b@, from as int, (b@.len() - from) as nat) == Some(
            j as int,
        ) && j < b@.len()),
        r is None ==> first_soh_from(b@, from as int, (b@.len() - from) as nat) is None,
{
    let mut j = from;
    while j < b.len()
        invariant
            from <= j <= b@.len(),
            first_soh_from(b@, from as int, (j - from) as nat) is None,
        decreases b.len() - j,
    {
        if b[j] == 1u8 {
            proof {
                lemma_first_soh_mono(b@, from as int, (j + 1 - from) as nat, (b@.len() - from) as nat);
            }
            return Some(j);
        }
        j = j + 1;
    }
    None
}

/// The bytes `b[lo..hi]`.
fn copy_range(b: &Vec<u8>, lo: usize, hi: usize) -> (r: Vec<u8>)
    requires
        lo <= hi <= b@.len(),
    ensures
        r@ == b@.subrange(lo as int, hi as int),
{
    let mut r: Vec<u8> = Vec::new();
    let mut k = lo;
    while k < hi
        invariant
            lo <= k <= hi <= b@.len(),
            r@ == b@.subrange(lo as int, k as int),
        decreases hi - k,
    {
        r.push(b[k]);
        k = k + 1;
        assert(r@ =~= b@.subrange(lo as int, k as int));
    }
    r
}

/// Cut the first complete message (through the SOH that ends its checksum
/// field) off the front of the buffer.  Nothing is cut while the buffer is
/// not valid UTF-8 or holds no complete message.
pub fn extract_message(buffer: &mut Vec<u8>) -> (r: Option<String>)
    ensures
        match (utf8_decode(old(buffer)@), message_end(old(buffer)@)) {
            (Some(_), Some(end)) => match utf8_decode(old(buffer)@.take(end)) {
                Some(text) => r matches Some(m) && m@ == text && final(buffer)@ == old(buffer)@.skip(
                    end,
                ),
                None => r is None && final(buffer)@ == old(buffer)@,
            },
            _ => r is None && final(buffer)@ == old(buffer)@,
        },
{
    if decode_utf8(buffer.as_slice()).is_none() {
        return None;
    }
    let start = match find_checksum_tag(buffer) {
        Some(i) => i,
        None => {
            return None;
        },
    };
    let found = find_soh_from(buffer, start);
    let j = match found {
        Some(j) => j,
        None => {
            return None;
        },
    };
    let n = buffer.len();
    let end = j + 1;
    let prefix = copy_range(buffer, 0, end);
    proof {
        assert(prefix@ =~= buffer@.take(end as int));
    }
    let message = match decode_utf8(prefix.as_slice()) {
        Some(m) => m,
        None => {
            return None;
        },
    };
    let rest = copy_range(buffer, end, n);
    proof {
        assert(rest@ =~= buffer@.skip(end as int));
    }
    *buffer = rest;
    Some(message)
}

/// Text shown for a security list result code.
pub fn format_security_result_code(result_code: u32) -> (s: &'static str)
    ensures
        s@ == (if result_code == 0 {
            "✅ Valid request"@
        } else if result_code == 1 {
            "❌ Invalid/unsupported request"@
        } else if result_code == 2 {
            "⚠️  No instruments found"@
        } else if result_code == 3 {
            "🔒 Not authorized"@
        } else if result_code == 4 {
            "⏳ Data temporarily unavailable"@
        } else if result_code == 5 {
            "❌ Request not supported"@
        } else {
            "❓ Unknown result"@
        }),
{
    match result_code {
        0 => "✅ Valid request",
        1 => "❌ Invalid/unsupported request",
        2 => "⚠️  No instruments found",
        3 => "🔒 Not authorized",
        4 => "⏳ Data temporarily unavailable",
        5 => "❌ Request not supported",
        _ => "❓ Unknown result",
    }
}

/// The session with its sequence number moved on by one.
pub open spec fn advanced(s: FixSession) -> FixSession {
    FixSession { msg_seq_num: (s.msg_seq_num + 1) as u32, ..s }
}

/// What a session does with a message received (`sending_time` and
/// `millis` stamp what it sends): the action and the session afterwards.
///
/// - Logon (`A`): request the list of all symbols;
/// - heartbeat (`0`): report it;
/// - test request (`1`): answer with a heartbeat, and report it;
/// - market data (`W`, `X`): a tick of the last bid and offer, when ticks
///   are streamed and the message names a symbol;
/// - security list (`y`): the symbols, with a market data request for all of
///   them when there are some and the request was valid;
/// - anything else: nothing.
pub open spec fn session_step(
    s: FixSession,
    raw: Seq<char>,
    sending_time: Seq<char>,
    millis: i64,
    action: SessionAction,
    s2: FixSession,
) -> bool {
    let t = msg_code(raw);
    if t == Some('A') {
        &&& action matches SessionAction::Send(m)
        &&& m@ == security_list_request_message(
            s.sender_comp_id@,
            s.target_comp_id@,
            s.sender_sub_id@,
            s.target_sub_id@,
            s.msg_seq_num,
            None,
            sending_time,
            millis,
        )
        &&& s2 == advanced(s)
    } else if t == Some('0') {
        action is HeartbeatReceived && s2 == s
    } else if t == Some('1') {
        &&& action matches SessionAction::AnswerTestRequest(m)
        &&& m@ == heartbeat_message(
            s.sender_comp_id@,
            s.target_comp_id@,
            s.sender_sub_id@,
            s.target_sub_id@,
            s.msg_seq_num,
            sending_time,
        )
        &&& s2 == advanced(s)
    } else if t == Some('W') || t == Some('X') {
        &&& s2 == s
        &&& if s.streams_ticks && market_data(raw) is Some {
            let (sym, entries) = market_data(raw).unwrap();
            &&& action matches SessionAction::Tick(tick)
            &&& tick.symbol_id@ == sym
            &&& tick.side_view(MDEntryType::Bid) == last_entry_of(entries, MDEntryType::Bid)
            &&& tick.side_view(MDEntryType::Offer) == last_entry_of(entries, MDEntryType::Offer)
        } else {
            action is Nothing
        }
    } else if t == Some('y') {
        match security_list(raw) {
            None => action is BadSecurityList && s2 == s,
            Some((req, code, syms)) => {
                &&& action matches SessionAction::SecurityList(rq, c, sv, request)
                &&& rq@ == req
                &&& c == code
                &&& symbols_view(sv@) == syms
                &&& if syms.len() > 0 && code == 0 {
                    &&& request matches Some(m)
                    &&& m@ == market_data_request_message(
                        s.sender_comp_id@,
                        s.target_comp_id@,
                        s.sender_sub_id@,
                        s.target_sub_id@,
                        s.msg_seq_num,
                        symbol_id_texts(syms),
                        sending_time,
                        millis,
                    )
                    &&& s2 == advanced(s)
                } else {
                    request is None && s2 == s
                }
            },
        }
    } else {
        action is Nothing && s2 == s
    }
}

impl FixSession {
    /// A session that has sent nothing yet (next sequence number 1).
    pub fn new(
        sender_comp_id: String,
        target_comp_id: String,
        sender_sub_id: String,
        target_sub_id: String,
        username: String,
        password: String,
        streams_ticks: bool,
    ) -> (s: FixSession)
        ensures
            s.sender_comp_id == sender_comp_id,
            s.target_comp_id == target_comp_id,
            s.sender_sub_id == sender_sub_id,
            s.target_sub_id == target_sub_id,
            s.username == username,
            s.password == password,
            s.msg_seq_num == 1,
            s.streams_ticks == streams_ticks,
    {
        FixSession {
            sender_comp_id,
            target_comp_id,
            sender_sub_id,
            target_sub_id,
            username,
            password,
            msg_seq_num: 1,
            streams_ticks,
            parser: MarketDataParser::new(),
        }
    }

    /// Take the next outgoing sequence number.
    fn next_seq(&mut self) -> (n: u32)
        requires
            old(self).msg_seq_num < u32::MAX,
        ensures
            n == old(self).msg_seq_num,
            *final(self) == advanced(*old(self)),
    {
        let n = self.msg_seq_num;
        self.msg_seq_num = n + 1;
        n
    }

    /// The logon message, sent at `sending_time`; the sequence moves on.
    pub fn logon_at(&mut self, sending_time: &str) -> (m: String)
        requires
            old(self).msg_seq_num < u32::MAX,
        ensures
            m@ == logon_message(
                old(self).sender_comp_id@,
                old(self).target_comp_id@,
                old(self).sender_sub_id@,
                old(self).target_sub_id@,
                old(self).username@,
                old(self).password@,
                sending_time@,
            ),
            *final(self) == advanced(*old(self)),
    {
        let m = logon_message_at(
            self.sender_comp_id.as_str(),
            self.target_comp_id.as_str(),
            self.sender_sub_id.as_str(),
            self.target_sub_id.as_str(),
            self.username.as_str(),
            self.password.as_str(),
            sending_time,
        );
        self.next_seq();
        m
    }

    /// The periodic heartbeat, sent at `sending_time`, with the next sequence number.
    pub fn heartbeat_at(&mut self, sending_time: &str) -> (m: String)
        requires
            old(self).msg_seq_num < u32::MAX,
        ensures
            m@ == heartbeat_message(
                old(self).sender_comp_id@,
                old(self).target_comp_id@,
                old(self).sender_sub_id@,
                old(self).target_sub_id@,
                old(self).msg_seq_num,
                sending_time@,
            ),
            *final(self) == advanced(*old(self)),
    {
        let seq = self.next_seq();
        heartbeat_message_at(
            self.sender_comp_id.as_str(),
            self.target_comp_id.as_str(),
            self.sender_sub_id.as_str(),
            self.target_sub_id.as_str(),
            seq,
            sending_time,
        )
    }

    /// Decide what to do with a message received; what is sent is stamped
    /// with `sending_time` and `millis`.
    pub fn handle_message_at(&mut self, raw_message: &str, sending_time: &str, millis: i64) -> (a: SessionAction)
        requires
            old(self).msg_seq_num < u32::MAX,
        ensures
            session_step(*old(self), raw_message@, sending_time@, millis, a, *final(self)),
    {
        let fields = parse_fix_message(raw_message);
        let code: Option<char> = match fields.get(&35) {
            Some(v) => {
                let cs = crate::text::chars_of(v.as_str());
                if cs.len() == 1 {
                    Some(cs[0])
                } else {
                    None
                }
            },
            None => None,
        };
        if code == Some('A') {
            let seq = self.next_seq();
            let req = security_list_request_at(
                self.sender_comp_id.as_str(),
                self.target_comp_id.as_str(),
                self.sender_sub_id.as_str(),
                self.target_sub_id.as_str(),
                seq,
                None,
                sending_time,
                millis,
            );
            SessionAction::Send(req)
        } else if code == Some('0') {
            SessionAction::HeartbeatReceived
        } else if code == Some('1') {
            let seq = self.next_seq();
            let hb = heartbeat_message_at(
                self.sender_comp_id.as_str(),
                self.target_comp_id.as_str(),
                self.sender_sub_id.as_str(),
                self.target_sub_id.as_str(),
                seq,
                sending_time,
            );
            SessionAction::AnswerTestRequest(hb)
        } else if code == Some('W') || code == Some('X') {
            self.process_market_data(raw_message)
        } else if code == Some('y') {
            self.handle_security_list_response(raw_message, sending_time, millis)
        } else {
            SessionAction::Nothing
        }
    }

    /// A tick from a market data message, when ticks are streamed.
    fn process_market_data(&self, raw_message: &str) -> (a: SessionAction)
        ensures
            if self.streams_ticks && market_data(raw_message@) is Some {
                let (sym, entries) = market_data(raw_message@).unwrap();
                &&& a matches SessionAction::Tick(tick)
                &&& tick.symbol_id@ == sym
                &&& tick.side_view(MDEntryType::Bid) == last_entry_of(entries, MDEntryType::Bid)
                &&& tick.side_view(MDEntryType::Offer) == last_entry_of(
                    entries,
                    MDEntryType::Offer,
                )
            } else {
                a is Nothing
            },
    {
        if self.streams_ticks {
            match self.parser.parse_market_data(raw_message) {
                Some((symbol_id, entries)) => {
                    let tick = self.parser.build_tick(symbol_id, entries);
                    SessionAction::Tick(tick)
                },
                None => SessionAction::Nothing,
            }
        } else {
            SessionAction::Nothing
        }
    }

    /// The symbols of a security list response, with a market data request
    /// for all of them when there are some and the request was valid.
    fn handle_security_list_response(&mut self, raw_message: &str, sending_time: &str, millis: i64) -> (a: SessionAction)
        requires
            old(self).msg_seq_num < u32::MAX,
        ensures
            match security_list(raw_message@) {
                None => a is BadSecurityList && *final(self) == *old(self),
                Some((req, code, syms)) => {
                    &&& a matches SessionAction::SecurityList(rq, c, sv, request)
                    &&& rq@ == req
                    &&& c == code
                    &&& symbols_view(sv@) == syms
                    &&& if syms.len() > 0 && code == 0 {
                        &&& request matches Some(m)
                        &&& m@ == market_data_request_message(
                            old(self).sender_comp_id@,
                            old(self).target_comp_id@,
                            old(self).sender_sub_id@,
                            old(self).target_sub_id@,
                            old(self).msg_seq_num,
                            symbol_id_texts(syms),
                            sending_time@,
                            millis,
                        )
                        &&& *final(self) == advanced(*old(self))
                    } else {
                        request is None && *final(self) == *old(self)
                    }
                },
            },
    {
        match parse_security_list_response(raw_message) {
            None => SessionAction::BadSecurityList,
            Some((req_id, result, symbols)) => {
                if symbols.len() > 0 && result == 0 {
                    let seq = self.next_seq();
                    let mut symbol_ids: Vec<String> = Vec::new();
                    let mut i: usize = 0;
                    while i < symbols.len()
                        invariant
                            i <= symbols@.len(),
                            symbol_ids@.len() == i,
                            forall|k: int|
                                0 <= k < i ==> (#[trigger] symbol_ids@[k])@ == nat_to_chars(
                                    symbols@[k].symbol_id as nat,
                                ),
                        decreases symbols.len() - i,
                    {
                        symbol_ids.push(decimal_string(symbols[i].symbol_id as u64));
                        i = i + 1;
                    }
                    let mut refs: Vec<&str> = Vec::new();
                    let mut k: usize = 0;
                    while k < symbol_ids.len()
                        invariant
                            k <= symbol_ids@.len(),
                            refs@.len() == k,
                            forall|q: int| 0 <= q < k ==> (#[trigger] refs@[q])@ == symbol_ids@[q]@,
                        decreases symbol_ids.len() - k,
                    {
                        refs.push(symbol_ids[k].as_str());
                        k = k + 1;
                    }
                    proof {
                        assert(str_views(refs@) =~= symbol_id_texts(symbols_view(symbols@)));
                    }
                    let request = market_data_request_at(
                        self.sender_comp_id.as_str(),
                        self.target_comp_id.as_str(),
                        self.sender_sub_id.as_str(),
                        self.target_sub_id.as_str(),
                        seq,
                        refs.as_slice(),
                        sending_time,
                        millis,
                    );
                    SessionAction::SecurityList(req_id, result, symbols, Some(request))
                } else {
                    SessionAction::SecurityList(req_id, result, symbols, None)
                }
            },
        }
    }

    /// The logon message, sent now.
    pub fn logon(&mut self) -> (m: String)
        requires
            old(self).msg_seq_num < u32::MAX,
        ensures
            exists|t: Seq<char>|
                m@ == #[trigger] logon_message(
                    old(self).sender_comp_id@,
                    old(self).target_comp_id@,
                    old(self).sender_sub_id@,
                    old(self).target_sub_id@,
                    old(self).username@,
                    old(self).password@,
                    t,
                ),
            *final(self) == advanced(*old(self)),
    {
        let now = crate::clock::sending_time_now();
        self.logon_at(now.as_str())
    }

    /// The periodic heartbeat, sent now.
    pub fn heartbeat(&mut self) -> (m: String)
        requires
            old(self).msg_seq_num < u32::MAX,
        ensures
            exists|t: Seq<char>|
                m@ == #[trigger] heartbeat_message(
                    old(self).sender_comp_id@,
                    old(self).target_comp_id@,
                    old(self).sender_sub_id@,
                    old(self).target_sub_id@,
                    old(self).msg_seq_num,
                    t,
                ),
            *final(self) == advanced(*old(self)),
    {
        let now = crate::clock::sending_time_now();
        self.heartbeat_at(now.as_str())
    }

    /// Decide what to do with a message received now.
    pub fn handle_message(&mut self, raw_message: &str) -> (a: SessionAction)
        requires
            old(self).msg_seq_num < u32::MAX,
        ensures
            exists|t: Seq<char>, millis: i64|
                #[trigger] session_step(*old(self), raw_message@, t, millis, a, *final(self)),
    {
        let now = crate::clock::sending_time_now();
        let millis = crate::clock::now_millis();
        self.handle_message_at(raw_message, now.as_str(), millis)
    }
}

} // verus!
