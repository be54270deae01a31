//! FIX 4.4 message building and parsing (cTrader dialect).
use std::collections::HashMap;
use vstd::prelude::*;

pub use super::symbol_parser::{parse_security_list_response, SymbolData};

use crate::text::{
    decimal_string, int_to_chars, push_signed, chars_of, first_index_of, lemma_first_index_of, lemma_split_nonempty, lemma_split_step,
    nat_to_chars, parse_u32, parse_unsigned_range, push_decimal, push_str, push_three_digits,
    soh, split_on, split_once, string_from_chars, string_from_range, three_digits,
};

verus! {

broadcast use vstd::std_specs::hash::group_hash_axioms;

// ---------------------------------------------------------------------------
// Specification of the wire format
// ---------------------------------------------------------------------------

/// One `tag=value<SOH>` field.
pub open spec fn field_text(tag: u32, value: Seq<char>) -> Seq<char> {
    nat_to_chars(tag as nat) + seq!['='] + value + seq![soh()]
}

/// Fields in list order.
pub open spec fn fields_text(list: Seq<(u32, Seq<char>)>) -> Seq<char>
    decreases list.len(),
{
    if list.len() == 0 {
        Seq::<char>::empty()
    } else {
        fields_text(list.drop_last()) + field_text(list.last().0, list.last().1)
    }
}

/// The field for `tag` if the map holds one.
pub open spec fn opt_field(m: Map<u32, Seq<char>>, tag: u32) -> Seq<char> {
    if m.contains_key(tag) {
        field_text(tag, m[tag])
    } else {
        Seq::<char>::empty()
    }
}

/// Header fields in their required order: 49, 56, 34, 52, 50, 57.
pub open spec fn header_text(m: Map<u32, Seq<char>>) -> Seq<char> {
    opt_field(m, 49) + opt_field(m, 56) + opt_field(m, 34) + opt_field(m, 52) + opt_field(m, 50)
        + opt_field(m, 57)
}

/// Tags written in the header rather than in insertion order.
pub open spec fn is_header_tag(tag: u32) -> bool {
    tag == 49 || tag == 56 || tag == 34 || tag == 52 || tag == 50 || tag == 57
}

/// Sum of bytes.
pub open spec fn byte_sum(bs: Seq<u8>) -> nat
    decreases bs.len(),
{
    if bs.len() == 0 {
        0
    } else {
        byte_sum(bs.drop_last()) + bs.last() as nat
    }
}

/// FIX checksum: the sum of all bytes modulo 256.
pub open spec fn fix_checksum(bs: Seq<u8>) -> nat {
    byte_sum(bs) % 256
}

/// UTF-8 bytes of some text.
pub open spec fn utf8(s: Seq<char>) -> Seq<u8> {
    vstd::utf8::encode_utf8(s)
}

/// `8=FIX.4.4|9=<body length in bytes>|<body>`.
pub open spec fn frame_head(body: Seq<char>) -> Seq<char> {
    "8=FIX.4.4\x01"@ + "9="@ + nat_to_chars((utf8(body).len() as usize) as nat) + seq![soh()]
        + body
}

/// A complete message: head, then `10=<checksum of the head, three digits>|`.
pub open spec fn frame(body: Seq<char>) -> Seq<char> {
    frame_head(body) + "10="@ + three_digits(fix_checksum(utf8(frame_head(body)))) + seq![
        soh(),
    ]
}

/// `field.split_once('=')`, with the tag parsed as a `u32`.
pub open spec fn fix_field(f: Seq<char>) -> Option<(u32, Seq<char>)> {
    match split_once(f, '=') {
        Some(p) => match parse_u32(p.0) {
            Some(t) => Some((t, p.1)),
            None => None,
        },
        None => None,
    }
}

/// The map built from fields in order (a later tag replaces an earlier one).
pub open spec fn insert_fields(pieces: Seq<Seq<char>>) -> Map<u32, Seq<char>>
    decreases pieces.len(),
{
    if pieces.len() == 0 {
        Map::empty()
    } else {
        let m = insert_fields(pieces.drop_last());
        match fix_field(pieces.last()) {
            Some(p) => m.insert(p.0, p.1),
            None => m,
        }
    }
}

/// All `tag=value` fields of a raw message.
pub open spec fn fix_fields(raw: Seq<char>) -> Map<u32, Seq<char>> {
    insert_fields(split_on(raw, soh()))
}

pub open spec fn string_map_view(m: Map<u32, String>) -> Map<u32, Seq<char>> {
    m.map_values(|s: String| s@)
}

pub open spec fn pairs_view(v: Seq<(u32, String)>) -> Seq<(u32, Seq<char>)> {
    v.map_values(|p: (u32, String)| (p.0, p.1@))
}

/// Display form: every SOH becomes `" | "`.
pub open spec fn display_text(s: Seq<char>) -> Seq<char>
    decreases s.len(),
{
    if s.len() == 0 {
        Seq::<char>::empty()
    } else if s.last() == soh() {
        display_text(s.drop_last()) + " | "@
    } else {
        display_text(s.drop_last()).push(s.last())
    }
}

// ---------------------------------------------------------------------------
// Parsing
// ---------------------------------------------------------------------------

/// The field `cs[lo..hi]` parsed as `tag=value`: the tag and where the value starts.
pub fn field_in_range(cs: &Vec<char>, lo: usize, hi: usize) -> (r: Option<(u32, usize)>)
    requires
        lo <= hi <= cs@.len(),
    ensures
        match r {
            Some(p) => lo < p.1 <= hi && fix_field(cs@.subrange(lo as int, hi as int)) == Some(
                (p.0, cs@.subrange(p.1 as int, hi as int)),
            ),
            None => fix_field(cs@.subrange(lo as int, hi as int)) is None,
        },
{
    let ghost f = cs@.subrange(lo as int, hi as int);
    let mut j = lo;
    while j < hi && cs[j] != '='
        invariant
            lo <= j <= hi <= cs@.len(),
            forall|k: int| lo <= k < j ==> cs@[k] != '=',
        decreases hi - j,
    {
        j = j + 1;
    }
    proof {
        lemma_first_index_of(f, '=');
    }
    if j == hi {
        proof {
            let fi = first_index_of(f, '=');
            if fi >= 0 {
                assert(f[fi] == cs@[lo + fi]);
            }
        }
        return None;
    }
    proof {
        let fi = first_index_of(f, '=');
        assert(f[j - lo] == '=');
        if fi >= 0 {
            assert(f[fi] == cs@[lo + fi]);
        }
        assert(fi == j - lo);
        assert(f.take(fi) =~= cs@.subrange(lo as int, j as int));
        assert(f.skip(fi + 1) =~= cs@.subrange(j + 1, hi as int));
    }
    match parse_unsigned_range(cs, lo, j, 4294967295) {
        Some(t) => Some((t as u32, j + 1)),
        None => None,
    }
}

/// Parse a single `tag=value` field (`split_once('=')`, tag as `u32`).
pub fn parse_fix_field(field: &str) -> (r: Option<(u32, String)>)
    ensures
        match r {
            Some(p) => fix_field(field@) == Some((p.0, p.1@)),
            None => fix_field(field@) is None,
        },
{
    let cs = chars_of(field);
    assert(cs@.subrange(0, cs@.len() as int) =~= field@);
    match field_in_range(&cs, 0, cs.len()) {
        Some(p) => {
            let value = string_from_range(&cs, p.1, cs.len());
            Some((p.0, value))
        },
        None => None,
    }
}

fn add_piece(fields: &mut HashMap<u32, String>, cs: &Vec<char>, lo: usize, hi: usize)
    requires
        lo <= hi <= cs@.len(),
    ensures
        string_map_view(final(fields)@) == (match fix_field(cs@.subrange(lo as int, hi as int)) {
            Some(p) => string_map_view(old(fields)@).insert(p.0, p.1),
            None => string_map_view(old(fields)@),
        }),
{
    match field_in_range(cs, lo, hi) {
        Some(p) => {
            let value = string_from_range(cs, p.1, hi);
            let ghost v = value@;
            fields.insert(p.0, value);
            assert(string_map_view(fields@) =~= string_map_view(old(fields)@).insert(p.0, v));
        },
        None => {},
    }
}

/// Parse a raw FIX message into its fields (later tags replace earlier ones).
pub fn parse_fix_message(raw_message: &str) -> (fields: HashMap<u32, String>)
    ensures
        string_map_view(fields@) == fix_fields(raw_message@),
{
    let cs = chars_of(raw_message);
    let mut fields: HashMap<u32, String> = HashMap::new();
    let mut start: usize = 0;
    let mut i: usize = 0;
    proof {
        assert(cs@.take(0) =~= Seq::<char>::empty());
        assert(string_map_view(fields@) =~= Map::empty());
        assert(split_on(cs@.take(0), soh()).drop_last() =~= Seq::<Seq<char>>::empty());
        assert(cs@.subrange(0, 0) =~= Seq::<char>::empty());
    }
    while i < cs.len()
        invariant
            start <= i <= cs@.len(),
            cs@ == raw_message@,
            split_on(cs@.take(i as int), soh()).last() == cs@.subrange(start as int, i as int),
            string_map_view(fields@) == insert_fields(
                split_on(cs@.take(i as int), soh()).drop_last(),
            ),
        decreases cs.len() - i,
    {
        proof {
            lemma_split_step(cs@, i as int, soh());
            lemma_split_nonempty(cs@.take(i as int), soh());
        }
        let ghost prev = split_on(cs@.take(i as int), soh());
        if cs[i] == '\x01' {
            add_piece(&mut fields, &cs, start, i);
            proof {
                let next = split_on(cs@.take(i + 1), soh());
                assert(next.drop_last() =~= prev);
                assert(prev =~= prev.drop_last().push(prev.last()));
                assert(cs@.subrange(i + 1, i + 1) =~= Seq::<char>::empty());
            }
            start = i + 1;
        } else {
            proof {
                let next = split_on(cs@.take(i + 1), soh());
                assert(next.drop_last() =~= prev.drop_last());
                assert(cs@.subrange(start as int, i + 1) =~= cs@.subrange(
                    start as int,
                    i as int,
                ).push(cs@[i as int]));
            }
        }
        i = i + 1;
    }
    add_piece(&mut fields, &cs, start, cs.len());
    proof {
        assert(cs@.take(cs@.len() as int) =~= cs@);
        let pieces = split_on(cs@, soh());
        lemma_split_nonempty(cs@, soh());
        assert(pieces =~= pieces.drop_last().push(pieces.last()));
    }
    fields
}

/// FIX checksum of a message: the sum of its bytes modulo 256.
pub fn calculate_checksum(message: &str) -> (c: u8)
    ensures
        c as nat == fix_checksum(utf8(message@)),
{
    let bytes = message.as_bytes();
    let ghost bs = bytes@;
    let mut acc: u32 = 0;
    let mut i: usize = 0;
    while i < bytes.len()
        invariant
            i <= bytes@.len(),
            bs == bytes@,
            acc < 256,
            acc as nat == byte_sum(bs.take(i as int)) % 256,
        decreases bytes.len() - i,
    {
        let b = bytes[i];
        proof {
            assert(bs.take(i + 1).drop_last() =~= bs.take(i as int));
            vstd::arithmetic::div_mod::lemma_add_mod_noop(
                byte_sum(bs.take(i as int)) as int,
                b as int,
                256,
            );
        }
        acc = (acc + b as u32) % 256;
        i = i + 1;
    }
    assert(bs.take(i as int) =~= bs);
    acc as u8
}

/// Replace every SOH by `" | "` for display.
pub fn format_for_display(message: &str) -> (s: String)
    ensures
        s@ == display_text(message@),
{
    let cs = chars_of(message);
    let mut out: Vec<char> = Vec::new();
    let mut i: usize = 0;
    while i < cs.len()
        invariant
            i <= cs@.len(),
            cs@ == message@,
            out@ == display_text(cs@.take(i as int)),
        decreases cs.len() - i,
    {
        assert(cs@.take(i + 1).drop_last() =~= cs@.take(i as int));
        if cs[i] == '\x01' {
            push_str(&mut out, " | ");
        } else {
            out.push(cs[i]);
        }
        i = i + 1;
    }
    assert(cs@.take(i as int) =~= cs@);
    string_from_chars(out.as_slice())
}

// ---------------------------------------------------------------------------
// Building
// ---------------------------------------------------------------------------

/// Append one `tag=value<SOH>` field.
pub fn push_field(out: &mut Vec<char>, tag: u32, value: &str)
    ensures
        final(out)@ == old(out)@ + field_text(tag, value@),
{
    push_decimal(out, tag as u64);
    out.push('=');
    push_str(out, value);
    out.push('\x01');
    assert(final(out)@ =~= old(out)@ + field_text(tag, value@));
}

/// Wrap a body into a complete message (begin string, body length, checksum).
pub fn frame_message(body: &Vec<char>) -> (s: String)
    ensures
        s@ == frame(body@),
{
    let body_string = string_from_chars(body.as_slice());
    let body_len = body_string.as_str().len();
    let mut msg: Vec<char> = Vec::new();
    push_str(&mut msg, "8=FIX.4.4\x01");
    push_str(&mut msg, "9=");
    push_decimal(&mut msg, body_len as u64);
    msg.push('\x01');
    let mut i: usize = 0;
    let ghost before = msg@;
    while i < body.len()
        invariant
            i <= body@.len(),
            msg@ == before + body@.take(i as int),
        decreases body.len() - i,
    {
        msg.push(body[i]);
        i = i + 1;
        assert(body@.take(i as int) =~= body@.take(i - 1).push(body@[i - 1]));
    }
    assert(body@.take(i as int) =~= body@);
    assert(msg@ =~= frame_head(body@));
    let head = string_from_chars(msg.as_slice());
    let checksum = calculate_checksum(head.as_str());
    push_str(&mut msg, "10=");
    push_three_digits(&mut msg, checksum as u64);
    msg.push('\x01');
    assert(msg@ =~= frame(body@));
    string_from_chars(msg.as_slice())
}

/// FIX message builder: header fields by tag, body fields and repeating
/// fields in insertion order.
pub struct FixMessage {
    fields: HashMap<u32, String>,
    body_fields: Vec<(u32, String)>,
    repeating_groups: Vec<(u32, String)>,
}

/// Body of a message built from these parts (after `35=<type>|`).
pub open spec fn body_text(
    msg_type: Seq<char>,
    fields: Map<u32, Seq<char>>,
    body_fields: Seq<(u32, Seq<char>)>,
    repeating: Seq<(u32, Seq<char>)>,
) -> Seq<char> {
    "35="@ + msg_type + seq![soh()] + header_text(fields) + fields_text(body_fields)
        + fields_text(repeating)
}

impl FixMessage {
    /// All fields by tag (the last value given for a tag).
    pub closed spec fn fields_view(&self) -> Map<u32, Seq<char>> {
        string_map_view(self.fields@)
    }

    /// Non-header fields in insertion order.
    pub closed spec fn body_view(&self) -> Seq<(u32, Seq<char>)> {
        pairs_view(self.body_fields@)
    }

    /// Repeating fields in insertion order.
    pub closed spec fn repeating_view(&self) -> Seq<(u32, Seq<char>)> {
        pairs_view(self.repeating_groups@)
    }

    pub fn new() -> (m: FixMessage)
        ensures
            m.fields_view() == Map::<u32, Seq<char>>::empty(),
            m.body_view() == Seq::<(u32, Seq<char>)>::empty(),
            m.repeating_view() == Seq::<(u32, Seq<char>)>::empty(),
    {
        let m = FixMessage {
            fields: HashMap::new(),
            body_fields: Vec::new(),
            repeating_groups: Vec::new(),
        };
        assert(m.fields_view() =~= Map::<u32, Seq<char>>::empty());
        assert(m.body_view() =~= Seq::<(u32, Seq<char>)>::empty());
        assert(m.repeating_view() =~= Seq::<(u32, Seq<char>)>::empty());
        m
    }

    /// Add a field; fields other than the header tags keep their insertion order.
    pub fn add_field(&mut self, tag: u32, value: &str)
        ensures
            final(self).fields_view() == old(self).fields_view().insert(tag, value@),
            final(self).body_view() == (if is_header_tag(tag) {
                old(self).body_view()
            } else {
                old(self).body_view().push((tag, value@))
            }),
            final(self).repeating_view() == old(self).repeating_view(),
    {
        let value_str = value.to_string();
        let value_copy = value.to_string();
        self.fields.insert(tag, value_str);
        assert(self.fields_view() =~= old(self).fields_view().insert(tag, value@));
        if tag != 49 && tag != 56 && tag != 34 && tag != 52 && tag != 50 && tag != 57 {
            self.body_fields.push((tag, value_copy));
            assert(self.body_view() =~= old(self).body_view().push((tag, value@)));
        }
    }

    /// Add a repeating field (a tag may occur several times).
    pub fn add_repeating_field(&mut self, tag: u32, value: &str)
        ensures
            final(self).fields_view() == old(self).fields_view(),
            final(self).body_view() == old(self).body_view(),
            final(self).repeating_view() == old(self).repeating_view().push((tag, value@)),
    {
        self.repeating_groups.push((tag, value.to_string()));
        assert(self.repeating_view() =~= old(self).repeating_view().push((tag, value@)));
    }

    fn push_header_field(&self, out: &mut Vec<char>, tag: u32)
        ensures
            final(out)@ == old(out)@ + opt_field(self.fields_view(), tag),
    {
        match self.fields.get(&tag) {
            Some(v) => {
                push_field(out, tag, v.as_str());
            },
            None => {
                assert(final(out)@ =~= old(out)@ + Seq::<char>::empty());
            },
        }
    }

    fn push_list(out: &mut Vec<char>, list: &Vec<(u32, String)>)
        ensures
            final(out)@ == old(out)@ + fields_text(pairs_view(list@)),
    {
        let mut i: usize = 0;
        while i < list.len()
            invariant
                i <= list@.len(),
                out@ == old(out)@ + fields_text(pairs_view(list@.take(i as int))),
            decreases list.len() - i,
        {
            push_field(out, list[i].0, list[i].1.as_str());
            i = i + 1;
            assert(pairs_view(list@.take(i as int)).drop_last() =~= pairs_view(
                list@.take(i - 1),
            ));
            assert(out@ =~= old(out)@ + fields_text(pairs_view(list@.take(i as int))));
        }
        assert(list@.take(i as int) =~= list@);
    }

    /// The complete message of type `msg_type`.
    pub fn build(&self, msg_type: &str) -> (s: String)
        ensures
            s@ == frame(
                body_text(msg_type@, self.fields_view(), self.body_view(), self.repeating_view()),
            ),
    {
        let mut body: Vec<char> = Vec::new();
        push_str(&mut body, "35=");
        push_str(&mut body, msg_type);
        body.push('\x01');
        self.push_header_field(&mut body, 49);
        self.push_header_field(&mut body, 56);
        self.push_header_field(&mut body, 34);
        self.push_header_field(&mut body, 52);
        self.push_header_field(&mut body, 50);
        self.push_header_field(&mut body, 57);
        Self::push_list(&mut body, &self.body_fields);
        Self::push_list(&mut body, &self.repeating_groups);
        assert(body@ =~= body_text(
            msg_type@,
            self.fields_view(),
            self.body_view(),
            self.repeating_view(),
        ));
        frame_message(&body)
    }
}

// ---------------------------------------------------------------------------
// Session messages
// ---------------------------------------------------------------------------

/// Header fields common to the session messages.
pub open spec fn session_fields(
    sender_comp_id: Seq<char>,
    target_comp_id: Seq<char>,
    sender_sub_id: Seq<char>,
    target_sub_id: Seq<char>,
    msg_seq_num: Seq<char>,
    sending_time: Seq<char>,
) -> Map<u32, Seq<char>> {
    Map::<u32, Seq<char>>::empty().insert(49, sender_comp_id).insert(56, target_comp_id).insert(
        50,
        sender_sub_id,
    ).insert(57, target_sub_id).insert(34, msg_seq_num).insert(52, sending_time)
}

fn add_session_fields(
    msg: &mut FixMessage,
    sender_comp_id: &str,
    target_comp_id: &str,
    sender_sub_id: &str,
    target_sub_id: &str,
    msg_seq_num: &str,
    sending_time: &str,
)
    ensures
        final(msg).fields_view() == old(msg).fields_view().union_prefer_right(
            session_fields(
                sender_comp_id@,
                target_comp_id@,
                sender_sub_id@,
                target_sub_id@,
                msg_seq_num@,
                sending_time@,
            ),
        ),
        final(msg).body_view() == old(msg).body_view(),
        final(msg).repeating_view() == old(msg).repeating_view(),
{
    msg.add_field(49, sender_comp_id);
    msg.add_field(56, target_comp_id);
    msg.add_field(50, sender_sub_id);
    msg.add_field(57, target_sub_id);
    msg.add_field(34, msg_seq_num);
    msg.add_field(52, sending_time);
    assert(msg.fields_view() =~= old(msg).fields_view().union_prefer_right(
        session_fields(
            sender_comp_id@,
            target_comp_id@,
            sender_sub_id@,
            target_sub_id@,
            msg_seq_num@,
            sending_time@,
        ),
    ));
}

/// Logon (MsgType=A) for the given session, sent at `sending_time`.
pub open spec fn logon_message(
    sender_comp_id: Seq<char>,
    target_comp_id: Seq<char>,
    sender_sub_id: Seq<char>,
    target_sub_id: Seq<char>,
    username: Seq<char>,
    password: Seq<char>,
    sending_time: Seq<char>,
) -> Seq<char> {
    let body_fields = seq![
        (98u32, "0"@),
        (108u32, "30"@),
        (141u32, "Y"@),
        (553u32, username),
        (554u32, password),
    ];
    let fields = session_fields(
        sender_comp_id,
        target_comp_id,
        sender_sub_id,
        target_sub_id,
        "1"@,
        sending_time,
    ).insert(98, "0"@).insert(108, "30"@).insert(141, "Y"@).insert(553, username).insert(
        554,
        password,
    );
    frame(body_text("A"@, fields, body_fields, Seq::empty()))
}

/// Logon message stamped with the given sending time: sequence number 1,
/// no encryption, 30 s heartbeat interval, sequence reset, credentials.
pub fn logon_message_at(
    sender_comp_id: &str,
    target_comp_id: &str,
    sender_sub_id: &str,
    target_sub_id: &str,
    username: &str,
    password: &str,
    sending_time: &str,
) -> (s: String)
    ensures
        s@ == logon_message(
            sender_comp_id@,
            target_comp_id@,
            sender_sub_id@,
            target_sub_id@,
            username@,
            password@,
            sending_time@,
        ),
{
    let mut msg = FixMessage::new();
    add_session_fields(
        &mut msg,
        sender_comp_id,
        target_comp_id,
        sender_sub_id,
        target_sub_id,
        "1",
        sending_time,
    );
    msg.add_field(98, "0");
    msg.add_field(108, "30");
    msg.add_field(141, "Y");
    msg.add_field(553, username);
    msg.add_field(554, password);
    proof {
        let sf = session_fields(
            sender_comp_id@,
            target_comp_id@,
            sender_sub_id@,
            target_sub_id@,
            "1"@,
            sending_time@,
        );
        assert(Map::<u32, Seq<char>>::empty().union_prefer_right(sf) =~= sf);
        assert(msg.body_view() =~= seq![
            (98u32, "0"@),
            (108u32, "30"@),
            (141u32, "Y"@),
            (553u32, username@),
            (554u32, password@),
        ]);
    }
    msg.build("A")
}

/// Logon message (MsgType=A) stamped with the current time.
pub fn create_logon_message(
    sender_comp_id: &str,
    target_comp_id: &str,
    sender_sub_id: &str,
    target_sub_id: &str,
    username: &str,
    password: &str,
) -> (s: String)
    ensures
        exists|t: Seq<char>|
            s@ == logon_message(
                sender_comp_id@,
                target_comp_id@,
                sender_sub_id@,
                target_sub_id@,
                username@,
                password@,
                t,
            ),
{
    let sending_time = crate::clock::sending_time_now();
    logon_message_at(
        sender_comp_id,
        target_comp_id,
        sender_sub_id,
        target_sub_id,
        username,
        password,
        sending_time.as_str(),
    )
}

/// Heartbeat (MsgType=0) with the given sequence number and sending time.
pub open spec fn heartbeat_message(
    sender_comp_id: Seq<char>,
    target_comp_id: Seq<char>,
    sender_sub_id: Seq<char>,
    target_sub_id: Seq<char>,
    msg_seq_num: u32,
    sending_time: Seq<char>,
) -> Seq<char> {
    let fields = session_fields(
        sender_comp_id,
        target_comp_id,
        sender_sub_id,
        target_sub_id,
        nat_to_chars(msg_seq_num as nat),
        sending_time,
    );
    frame(body_text("0"@, fields, Seq::empty(), Seq::empty()))
}

/// Heartbeat message stamped with the given sending time.
pub fn heartbeat_message_at(
    sender_comp_id: &str,
    target_comp_id: &str,
    sender_sub_id: &str,
    target_sub_id: &str,
    msg_seq_num: u32,
    sending_time: &str,
) -> (s: String)
    ensures
        s@ == heartbeat_message(
            sender_comp_id@,
            target_comp_id@,
            sender_sub_id@,
            target_sub_id@,
            msg_seq_num,
            sending_time@,
        ),
{
    let mut msg = FixMessage::new();
    let seq_text = decimal_string(msg_seq_num as u64);
    add_session_fields(
        &mut msg,
        sender_comp_id,
        target_comp_id,
        sender_sub_id,
        target_sub_id,
        seq_text.as_str(),
        sending_time,
    );
    proof {
        let sf = session_fields(
            sender_comp_id@,
            target_comp_id@,
            sender_sub_id@,
            target_sub_id@,
            nat_to_chars(msg_seq_num as nat),
            sending_time@,
        );
        assert(Map::<u32, Seq<char>>::empty().union_prefer_right(sf) =~= sf);
    }
    msg.build("0")
}

/// Heartbeat message (MsgType=0) stamped with the current time.
pub fn create_heartbeat(
    sender_comp_id: &str,
    target_comp_id: &str,
    sender_sub_id: &str,
    target_sub_id: &str,
    msg_seq_num: u32,
) -> (s: String)
    ensures
        exists|t: Seq<char>|
            s@ == heartbeat_message(
                sender_comp_id@,
                target_comp_id@,
                sender_sub_id@,
                target_sub_id@,
                msg_seq_num,
                t,
            ),
{
    let sending_time = crate::clock::sending_time_now();
    heartbeat_message_at(
        sender_comp_id,
        target_comp_id,
        sender_sub_id,
        target_sub_id,
        msg_seq_num,
        sending_time.as_str(),
    )
}

pub open spec fn opt_str_view(o: Option<&str>) -> Option<Seq<char>> {
    match o {
        Some(x) => Some(x@),
        None => None,
    }
}

/// Security List Request (MsgType=x): request id `SECLST-<millis>`, request
/// type 0 and, when given, the symbol.
pub open spec fn security_list_request_message(
    sender_comp_id: Seq<char>,
    target_comp_id: Seq<char>,
    sender_sub_id: Seq<char>,
    target_sub_id: Seq<char>,
    msg_seq_num: u32,
    symbol_id: Option<Seq<char>>,
    sending_time: Seq<char>,
    millis: i64,
) -> Seq<char> {
    let req_id = "SECLST-"@ + int_to_chars(millis as int);
    let base_fields = session_fields(
        sender_comp_id,
        target_comp_id,
        sender_sub_id,
        target_sub_id,
        nat_to_chars(msg_seq_num as nat),
        sending_time,
    ).insert(320, req_id).insert(559, "0"@);
    let base_body = seq![(320u32, req_id), (559u32, "0"@)];
    match symbol_id {
        Some(sym) => frame(
            body_text("x"@, base_fields.insert(55, sym), base_body.push((55u32, sym)), Seq::empty()),
        ),
        None => frame(body_text("x"@, base_fields, base_body, Seq::empty())),
    }
}

/// Security list request stamped with the given sending time and request clock.
pub fn security_list_request_at(
    sender_comp_id: &str,
    target_comp_id: &str,
    sender_sub_id: &str,
    target_sub_id: &str,
    msg_seq_num: u32,
    symbol_id: Option<&str>,
    sending_time: &str,
    millis: i64,
) -> (s: String)
    ensures
        s@ == security_list_request_message(
            sender_comp_id@,
            target_comp_id@,
            sender_sub_id@,
            target_sub_id@,
            msg_seq_num,
            opt_str_view(symbol_id),
            sending_time@,
            millis,
        ),
{
    let mut msg = FixMessage::new();
    let seq_text = decimal_string(msg_seq_num as u64);
    add_session_fields(
        &mut msg,
        sender_comp_id,
        target_comp_id,
        sender_sub_id,
        target_sub_id,
        seq_text.as_str(),
        sending_time,
    );
    let mut req: Vec<char> = Vec::new();
    push_str(&mut req, "SECLST-");
    push_signed(&mut req, millis);
    let req_id = string_from_chars(req.as_slice());
    msg.add_field(320, req_id.as_str());
    msg.add_field(559, "0");
    let ghost req_v = "SECLST-"@ + int_to_chars(millis as int);
    proof {
        let sf = session_fields(
            sender_comp_id@,
            target_comp_id@,
            sender_sub_id@,
            target_sub_id@,
            nat_to_chars(msg_seq_num as nat),
            sending_time@,
        );
        assert(Map::<u32, Seq<char>>::empty().union_prefer_right(sf) =~= sf);
        assert(req_id@ =~= req_v);
        assert(msg.body_view() =~= seq![(320u32, req_v), (559u32, "0"@)]);
    }
    match symbol_id {
        Some(sym) => {
            msg.add_field(55, sym);
        },
        None => {},
    }
    msg.build("x")
}

/// Security list request (MsgType=x) stamped with the current time.
pub fn create_security_list_request(
    sender_comp_id: &str,
    target_comp_id: &str,
    sender_sub_id: &str,
    target_sub_id: &str,
    msg_seq_num: u32,
    symbol_id: Option<&str>,
) -> (s: String)
    ensures
        exists|t: Seq<char>, ms: i64|
            s@ == #[trigger] security_list_request_message(
                sender_comp_id@,
                target_comp_id@,
                sender_sub_id@,
                target_sub_id@,
                msg_seq_num,
                opt_str_view(symbol_id),
                t,
                ms,
            ),
{
    let sending_time = crate::clock::sending_time_now();
    let millis = crate::clock::now_millis();
    security_list_request_at(
        sender_comp_id,
        target_comp_id,
        sender_sub_id,
        target_sub_id,
        msg_seq_num,
        symbol_id,
        sending_time.as_str(),
        millis,
    )
}

/// `55=<id>|` for each symbol, in order.
pub open spec fn symbol_list_text(ids: Seq<Seq<char>>) -> Seq<char>
    decreases ids.len(),
{
    if ids.len() == 0 {
        Seq::<char>::empty()
    } else {
        symbol_list_text(ids.drop_last()) + field_text(55, ids.last())
    }
}

pub open spec fn str_views(v: Seq<&str>) -> Seq<Seq<char>> {
    v.map_values(|s: &str| s@)
}

/// Market Data Request (MsgType=V): header in the required order, request id
/// `REQ-<millis>`, subscribe / spot depth / incremental updates, the symbol
/// group and the bid + offer entry-type group.
pub open spec fn market_data_request_message(
    sender_comp_id: Seq<char>,
    target_comp_id: Seq<char>,
    sender_sub_id: Seq<char>,
    target_sub_id: Seq<char>,
    msg_seq_num: u32,
    symbol_ids: Seq<Seq<char>>,
    sending_time: Seq<char>,
    millis: i64,
) -> Seq<char> {
    let body = "35=V\x01"@ + field_text(49, sender_comp_id) + field_text(56, target_comp_id)
        + field_text(34, nat_to_chars(msg_seq_num as nat)) + field_text(52, sending_time)
        + field_text(50, sender_sub_id) + field_text(57, target_sub_id) + field_text(
        262,
        "REQ-"@ + int_to_chars(millis as int),
    ) + "263=1\x01"@ + "264=1\x01"@ + "265=1\x01"@ + field_text(
        146,
        nat_to_chars(symbol_ids.len()),
    ) + symbol_list_text(symbol_ids) + "267=2\x01"@ + "269=0\x01"@ + "269=1\x01"@;
    frame(body)
}

/// Market data request stamped with the given sending time and request clock.
pub fn market_data_request_at(
    sender_comp_id: &str,
    target_comp_id: &str,
    sender_sub_id: &str,
    target_sub_id: &str,
    msg_seq_num: u32,
    symbol_ids: &[&str],
    sending_time: &str,
    millis: i64,
) -> (s: String)
    ensures
        s@ == market_data_request_message(
            sender_comp_id@,
            target_comp_id@,
            sender_sub_id@,
            target_sub_id@,
            msg_seq_num,
            str_views(symbol_ids@),
            sending_time@,
            millis,
        ),
{
    let mut body: Vec<char> = Vec::new();
    push_str(&mut body, "35=V\x01");
    push_field(&mut body, 49, sender_comp_id);
    push_field(&mut body, 56, target_comp_id);
    let seq_text = decimal_string(msg_seq_num as u64);
    push_field(&mut body, 34, seq_text.as_str());
    push_field(&mut body, 52, sending_time);
    push_field(&mut body, 50, sender_sub_id);
    push_field(&mut body, 57, target_sub_id);
    let mut req: Vec<char> = Vec::new();
    push_str(&mut req, "REQ-");
    push_signed(&mut req, millis);
    let req_id = string_from_chars(req.as_slice());
    push_field(&mut body, 262, req_id.as_str());
    push_str(&mut body, "263=1\x01");
    push_str(&mut body, "264=1\x01");
    push_str(&mut body, "265=1\x01");
    let count = decimal_string(symbol_ids.len() as u64);
    push_field(&mut body, 146, count.as_str());
    let ghost before = body@;
    let mut i: usize = 0;
    while i < symbol_ids.len()
        invariant
            i <= symbol_ids@.len(),
            body@ == before + symbol_list_text(str_views(symbol_ids@.take(i as int))),
        decreases symbol_ids.len() - i,
    {
        push_field(&mut body, 55, symbol_ids[i]);
        i = i + 1;
        assert(str_views(symbol_ids@.take(i as int)).drop_last() =~= str_views(
            symbol_ids@.take(i - 1),
        ));
        assert(body@ =~= before + symbol_list_text(str_views(symbol_ids@.take(i as int))));
    }
    assert(symbol_ids@.take(i as int) =~= symbol_ids@);
    push_str(&mut body, "267=2\x01");
    push_str(&mut body, "269=0\x01");
    push_str(&mut body, "269=1\x01");
    let s = frame_message(&body);
    assert(s@ =~= market_data_request_message(
        sender_comp_id@,
        target_comp_id@,
        sender_sub_id@,
        target_sub_id@,
        msg_seq_num,
        str_views(symbol_ids@),
        sending_time@,
        millis,
    ));
    s
}

/// Market data request (MsgType=V) stamped with the current time.
pub fn create_market_data_request(
    sender_comp_id: &str,
    target_comp_id: &str,
    sender_sub_id: &str,
    target_sub_id: &str,
    msg_seq_num: u32,
    symbol_ids: &[&str],
) -> (s: String)
    ensures
        exists|t: Seq<char>, ms: i64|
            s@ == #[trigger] market_data_request_message(
                sender_comp_id@,
                target_comp_id@,
                sender_sub_id@,
                target_sub_id@,
                msg_seq_num,
                str_views(symbol_ids@),
                t,
                ms,
            ),
{
    let sending_time = crate::clock::sending_time_now();
    let millis = crate::clock::now_millis();
    market_data_request_at(
        sender_comp_id,
        target_comp_id,
        sender_sub_id,
        target_sub_id,
        msg_seq_num,
        symbol_ids,
        sending_time.as_str(),
        millis,
    )
}

} // verus!
