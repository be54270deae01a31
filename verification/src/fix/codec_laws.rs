//! What the FIX codec promises across writing and reading: fields written
//! with `tag=value<SOH>` are read back as the same tags and values (a later
//! field replacing an earlier one with the same tag), as long as no value
//! holds the SOH delimiter; a message built by `FixMessage::build` reads
//! back as its begin string, body length, type, fields and checksum.
use vstd::prelude::*;

use super::messages::{
    body_text, field_text, fields_text, fix_checksum, fix_field, fix_fields, frame, frame_head,
    header_text, insert_fields, opt_field, utf8, FixMessage,
};
use crate::text::{
    all_digits, digit_char, digit_value, digits_value, first_index_of, is_digit, lemma_first_index_of,
    nat_to_chars, parse_u32, soh, split_on, split_once, three_digits,
};

verus! {

/// The map of a list of fields: a later field replaces an earlier one with
/// the same tag.
pub open spec fn fields_map(list: Seq<(u32, Seq<char>)>) -> Map<u32, Seq<char>>
    decreases list.len(),
{
    if list.len() == 0 {
        Map::empty()
    } else {
        fields_map(list.drop_last()).insert(list.last().0, list.last().1)
    }
}

/// No value of the list holds the SOH delimiter.
pub open spec fn values_without_soh(list: Seq<(u32, Seq<char>)>) -> bool {
    forall|i: int, k: int|
        0 <= i < list.len() && 0 <= k < list[i].1.len() ==> (#[trigger] list[i].1[k]) != soh()
}

/// A field without its delimiter: `tag=value`.
pub open spec fn field_body(tag: u32, value: Seq<char>) -> Seq<char> {
    nat_to_chars(tag as nat) + seq!['='] + value
}

/// The bodies of the fields of a list, in order.
pub open spec fn field_bodies(list: Seq<(u32, Seq<char>)>) -> Seq<Seq<char>> {
    list.map_values(|f: (u32, Seq<char>)| field_body(f.0, f.1))
}

proof fn lemma_digit_char(d: nat)
    requires
        d < 10,
    ensures
        is_digit(digit_char(d)),
        digit_value(digit_char(d)) == d,
{
}

proof fn lemma_nat_to_chars(n: nat)
    ensures
        nat_to_chars(n).len() >= 1,
        all_digits(nat_to_chars(n)),
        digits_value(nat_to_chars(n)) == n,
    decreases n,
{
    if n < 10 {
        lemma_digit_char(n);
        let s = nat_to_chars(n);
        assert(s.drop_last() =~= Seq::<char>::empty());
        assert(digits_value(Seq::<char>::empty()) == 0);
        assert(digits_value(s) == digits_value(s.drop_last()) * 10 + digit_value(s.last()));
    } else {
        lemma_nat_to_chars(n / 10);
        lemma_digit_char(n % 10);
        let s = nat_to_chars(n);
        let p = nat_to_chars(n / 10);
        assert(s.drop_last() =~= p);
        assert(n == (n / 10) * 10 + n % 10) by (nonlinear_arith);
        assert(digits_value(s) == digits_value(p) * 10 + digit_value(s.last()));
        assert(s.last() == digit_char(n % 10));
        assert(digits_value(s) == (n / 10) * 10 + n % 10);
        assert(all_digits(s)) by {
            assert forall|i: int| 0 <= i < s.len() implies is_digit(#[trigger] s[i]) by {
                if i < p.len() {
                    assert(s[i] == p[i]);
                }
            }
        }
    }
}

proof fn lemma_parse_tag(t: u32)
    ensures
        parse_u32(nat_to_chars(t as nat)) == Some(t),
{
    lemma_nat_to_chars(t as nat);
    let s = nat_to_chars(t as nat);
    assert(is_digit(s[0]));
}

proof fn lemma_field_body(t: u32, v: Seq<char>)
    ensures
        fix_field(field_body(t, v)) == Some((t, v)),
{
    let s = nat_to_chars(t as nat);
    let f = field_body(t, v);
    lemma_nat_to_chars(t as nat);
    lemma_first_index_of(f, '=');
    let l = s.len() as int;
    assert(f[l] == '=');
    assert forall|j: int| 0 <= j < l implies f[j] != '=' by {
        assert(f[j] == s[j]);
        assert(is_digit(s[j]));
    }
    let r = first_index_of(f, '=');
    if r >= 0 && r < l {
        assert(f[r] != '=');
    }
    assert(r == l);
    assert(f.take(l) =~= s);
    assert(f.skip(l + 1) =~= v);
    lemma_parse_tag(t);
}

proof fn lemma_split_append(s: Seq<char>, t: Seq<char>, sep: char)
    requires
        forall|k: int| 0 <= k < t.len() ==> t[k] != sep,
    ensures
        split_on(s + t, sep) == split_on(s, sep).drop_last().push(split_on(s, sep).last() + t),
    decreases t.len(),
{
    crate::text::lemma_split_nonempty(s, sep);
    if t.len() == 0 {
        assert(s + t =~= s);
        assert(split_on(s, sep).last() + t =~= split_on(s, sep).last());
        assert(split_on(s, sep).drop_last().push(split_on(s, sep).last()) =~= split_on(s, sep));
    } else {
        let t1 = t.drop_last();
        lemma_split_append(s, t1, sep);
        assert((s + t).drop_last() =~= s + t1);
        assert((s + t).last() == t.last());
        let prev = split_on(s + t1, sep);
        assert(split_on(s, sep).last() + t =~= (split_on(s, sep).last() + t1).push(t.last()));
        assert(prev.update(prev.len() - 1, prev.last().push(t.last())) =~= split_on(s, sep).drop_last().push(
            split_on(s, sep).last() + t,
        ));
    }
}

proof fn lemma_split_fields(list: Seq<(u32, Seq<char>)>)
    requires
        values_without_soh(list),
    ensures
        split_on(fields_text(list), soh()) == field_bodies(list).push(Seq::<char>::empty()),
    decreases list.len(),
{
    if list.len() == 0 {
        assert(field_bodies(list) =~= Seq::<Seq<char>>::empty());
        assert(split_on(Seq::<char>::empty(), soh()) =~= seq![Seq::<char>::empty()]);
    } else {
        let l1 = list.drop_last();
        assert(values_without_soh(l1)) by {
            assert forall|i: int, k: int| 0 <= i < l1.len() && 0 <= k < l1[i].1.len() implies (
            #[trigger] l1[i].1[k]) != soh() by {
                assert(l1[i] == list[i]);
            }
        }
        lemma_split_fields(l1);
        let (t, v) = list.last();
        let body = field_body(t, v);
        let s = fields_text(l1);
        lemma_nat_to_chars(t as nat);
        assert forall|k: int| 0 <= k < body.len() implies body[k] != soh() by {
            let n = nat_to_chars(t as nat);
            if k < n.len() {
                assert(body[k] == n[k]);
                assert(is_digit(n[k]));
            } else if k > n.len() {
                assert(body[k] == v[k - n.len() - 1]);
                assert(list[list.len() - 1].1[k - n.len() - 1] != soh());
            }
        }
        lemma_split_append(s, body, soh());
        assert(field_text(t, v) =~= body.push(soh()));
        assert(fields_text(list) =~= (s + body).push(soh()));
        let sp = split_on(s, soh());
        assert(sp.last() + body =~= body);
        assert(sp.drop_last() =~= field_bodies(l1));
        assert(field_bodies(list) =~= field_bodies(l1).push(body));
        let whole = (s + body).push(soh());
        assert(whole.drop_last() =~= s + body);
        assert(whole.last() == soh());
        assert(split_on(whole, soh()) == split_on(s + body, soh()).push(Seq::<char>::empty()));
        assert(split_on(s + body, soh()) =~= field_bodies(l1).push(body));
    }
}

proof fn lemma_insert_bodies(list: Seq<(u32, Seq<char>)>)
    ensures
        insert_fields(field_bodies(list)) == fields_map(list),
    decreases list.len(),
{
    if list.len() > 0 {
        let l1 = list.drop_last();
        lemma_insert_bodies(l1);
        assert(field_bodies(list).drop_last() =~= field_bodies(l1));
        lemma_field_body(list.last().0, list.last().1);
    } else {
        assert(field_bodies(list) =~= Seq::<Seq<char>>::empty());
    }
}

/// Fields written as `tag=value<SOH>` read back as the same fields: the map
/// read from the text is the map of the list (a later field replacing an
/// earlier one with the same tag), when no value holds SOH.
pub proof fn law_fields_read_back(list: Seq<(u32, Seq<char>)>)
    requires
        values_without_soh(list),
    ensures
        fix_fields(fields_text(list)) == fields_map(list),
{
    lemma_split_fields(list);
    let pieces = field_bodies(list).push(Seq::<char>::empty());
    assert(pieces.drop_last() =~= field_bodies(list));
    lemma_first_index_of(Seq::<char>::empty(), '=');
    assert(split_once(Seq::<char>::empty(), '=') is None);
    lemma_insert_bodies(list);
}

/// The field of `tag`, as a list of at most one field.
pub open spec fn opt_list(m: Map<u32, Seq<char>>, tag: u32) -> Seq<(u32, Seq<char>)> {
    if m.contains_key(tag) {
        seq![(tag, m[tag])]
    } else {
        Seq::empty()
    }
}

/// The header fields present, in their written order: 49, 56, 34, 52, 50, 57.
pub open spec fn header_list(m: Map<u32, Seq<char>>) -> Seq<(u32, Seq<char>)> {
    opt_list(m, 49) + opt_list(m, 56) + opt_list(m, 34) + opt_list(m, 52) + opt_list(m, 50)
        + opt_list(m, 57)
}

/// The fields of a built message in the order they are written: begin
/// string, body length, message type, header, body and repeating fields,
/// checksum.
pub open spec fn built_fields(msg_type: Seq<char>, m: FixMessage) -> Seq<(u32, Seq<char>)> {
    let body = body_text(msg_type, m.fields_view(), m.body_view(), m.repeating_view());
    seq![
        (8u32, "FIX.4.4"@),
        (9u32, nat_to_chars((utf8(body).len() as usize) as nat)),
        (35u32, msg_type),
    ] + header_list(m.fields_view()) + m.body_view() + m.repeating_view() + seq![
        (10u32, three_digits(fix_checksum(utf8(frame_head(body))))),
    ]
}

proof fn lemma_fields_text_append(a: Seq<(u32, Seq<char>)>, b: Seq<(u32, Seq<char>)>)
    ensures
        fields_text(a + b) == fields_text(a) + fields_text(b),
    decreases b.len(),
{
    if b.len() == 0 {
        assert(a + b =~= a);
        assert(fields_text(b) =~= Seq::<char>::empty());
        assert(fields_text(a) + Seq::<char>::empty() =~= fields_text(a));
    } else {
        lemma_fields_text_append(a, b.drop_last());
        assert((a + b).drop_last() =~= a + b.drop_last());
        assert((a + b).last() == b.last());
        assert(fields_text(a) + fields_text(b) =~= fields_text(a) + fields_text(b.drop_last()) + field_text(
            b.last().0,
            b.last().1,
        ));
    }
}

proof fn lemma_fields_text_one(t: u32, v: Seq<char>)
    ensures
        fields_text(seq![(t, v)]) == field_text(t, v),
{
    let l = seq![(t, v)];
    assert(l.drop_last() =~= Seq::<(u32, Seq<char>)>::empty());
    assert(fields_text(l.drop_last()) == Seq::<char>::empty());
    assert(l.last() == (t, v));
    assert(fields_text(l) == fields_text(l.drop_last()) + field_text(t, v));
    assert(Seq::<char>::empty() + field_text(t, v) =~= field_text(t, v));
}

proof fn lemma_opt_list(m: Map<u32, Seq<char>>, tag: u32)
    ensures
        fields_text(opt_list(m, tag)) == opt_field(m, tag),
{
    if m.contains_key(tag) {
        lemma_fields_text_one(tag, m[tag]);
    } else {
        assert(fields_text(opt_list(m, tag)) =~= Seq::<char>::empty());
    }
}

proof fn lemma_header_list(m: Map<u32, Seq<char>>)
    ensures
        fields_text(header_list(m)) == header_text(m),
{
    let (a, b, c, d, e, f) = (
        opt_list(m, 49),
        opt_list(m, 56),
        opt_list(m, 34),
        opt_list(m, 52),
        opt_list(m, 50),
        opt_list(m, 57),
    );
    lemma_opt_list(m, 49);
    lemma_opt_list(m, 56);
    lemma_opt_list(m, 34);
    lemma_opt_list(m, 52);
    lemma_opt_list(m, 50);
    lemma_opt_list(m, 57);
    lemma_fields_text_append(a, b);
    lemma_fields_text_append(a + b, c);
    lemma_fields_text_append(a + b + c, d);
    lemma_fields_text_append(a + b + c + d, e);
    lemma_fields_text_append(a + b + c + d + e, f);
}

proof fn lemma_digits_no_soh(s: Seq<char>)
    requires
        all_digits(s),
    ensures
        forall|k: int| 0 <= k < s.len() ==> s[k] != soh(),
{
    assert forall|k: int| 0 <= k < s.len() implies s[k] != soh() by {
        assert(is_digit(s[k]));
    }
}

/// The text of the first three fields of a built message.
proof fn lemma_head_text(len_text: Seq<char>, msg_type: Seq<char>)
    ensures
        fields_text(seq![(8u32, "FIX.4.4"@), (9u32, len_text), (35u32, msg_type)]) == "8=FIX.4.4\x01"@
            + "9="@ + len_text + seq![soh()] + "35="@ + msg_type + seq![soh()],
{
    reveal_strlit("FIX.4.4");
    reveal_strlit("8=FIX.4.4\x01");
    reveal_strlit("9=");
    reveal_strlit("35=");
    assert(nat_to_chars(8) =~= seq!['8']);
    assert(nat_to_chars(9) =~= seq!['9']);
    assert(nat_to_chars(3) =~= seq!['3']);
    assert(nat_to_chars(35) =~= seq!['3', '5']);
    let a = seq![(8u32, "FIX.4.4"@)];
    let b = seq![(9u32, len_text)];
    let c = seq![(35u32, msg_type)];
    lemma_fields_text_one(8, "FIX.4.4"@);
    lemma_fields_text_one(9, len_text);
    lemma_fields_text_one(35, msg_type);
    lemma_fields_text_append(a, b);
    lemma_fields_text_append(a + b, c);
    assert(a + b + c =~= seq![(8u32, "FIX.4.4"@), (9u32, len_text), (35u32, msg_type)]);
    assert(field_text(8, "FIX.4.4"@) =~= "8=FIX.4.4\x01"@);
    assert(field_text(9, len_text) =~= "9="@ + len_text + seq![soh()]);
    assert(field_text(35, msg_type) =~= "35="@ + msg_type + seq![soh()]);
    assert(field_text(8, "FIX.4.4"@) + field_text(9, len_text) + field_text(35, msg_type) =~= "8=FIX.4.4\x01"@
        + "9="@ + len_text + seq![soh()] + "35="@ + msg_type + seq![soh()]);
}

/// The fields of a built message, written in order, are the message.
proof fn lemma_built_text(msg_type: Seq<char>, m: FixMessage)
    ensures
        fields_text(built_fields(msg_type, m)) == frame(
            body_text(msg_type, m.fields_view(), m.body_view(), m.repeating_view()),
        ),
{
    let body = body_text(msg_type, m.fields_view(), m.body_view(), m.repeating_view());
    let len_text = nat_to_chars((utf8(body).len() as usize) as nat);
    let cs = three_digits(fix_checksum(utf8(frame_head(body))));
    let head = seq![(8u32, "FIX.4.4"@), (9u32, len_text), (35u32, msg_type)];
    let hl = header_list(m.fields_view());
    let tail = seq![(10u32, cs)];
    assert(built_fields(msg_type, m) == head + hl + m.body_view() + m.repeating_view() + tail);
    lemma_head_text(len_text, msg_type);
    lemma_header_list(m.fields_view());
    lemma_fields_text_append(head, hl);
    lemma_fields_text_append(head + hl, m.body_view());
    lemma_fields_text_append(head + hl + m.body_view(), m.repeating_view());
    lemma_fields_text_append(head + hl + m.body_view() + m.repeating_view(), tail);
    lemma_fields_text_one(10, cs);
    reveal_strlit("10=");
    reveal_strlit("35=");
    assert(nat_to_chars(1) =~= seq!['1']);
    assert(nat_to_chars(10) =~= seq!['1', '0']);
    assert(field_text(10, cs) =~= "10="@ + cs + seq![soh()]);
    assert(fields_text(built_fields(msg_type, m)) =~= frame(body));
}

/// No value of a built message's fields holds SOH when neither the type nor
/// any value given holds it.
proof fn lemma_built_no_soh(msg_type: Seq<char>, m: FixMessage)
    requires
        forall|k: int| 0 <= k < msg_type.len() ==> msg_type[k] != soh(),
        values_without_soh(header_list(m.fields_view())),
        values_without_soh(m.body_view()),
        values_without_soh(m.repeating_view()),
    ensures
        values_without_soh(built_fields(msg_type, m)),
{
    let body = body_text(msg_type, m.fields_view(), m.body_view(), m.repeating_view());
    let len_text = nat_to_chars((utf8(body).len() as usize) as nat);
    let n = fix_checksum(utf8(frame_head(body)));
    let cs = three_digits(n);
    let head = seq![(8u32, "FIX.4.4"@), (9u32, len_text), (35u32, msg_type)];
    let hl = header_list(m.fields_view());
    let tail = seq![(10u32, cs)];
    let list = built_fields(msg_type, m);
    assert(list == head + hl + m.body_view() + m.repeating_view() + tail);
    reveal_strlit("FIX.4.4");
    lemma_nat_to_chars((utf8(body).len() as usize) as nat);
    lemma_digits_no_soh(len_text);
    assert(n < 256);
    assert(all_digits(cs)) by {
        assert forall|i: int| 0 <= i < cs.len() implies is_digit(#[trigger] cs[i]) by {
            lemma_digit_char(n / 100);
            lemma_digit_char((n / 10) % 10);
            lemma_digit_char(n % 10);
        }
    }
    lemma_digits_no_soh(cs);
    let a = head.len() as int;
    let b = a + hl.len();
    let c = b + m.body_view().len();
    let d = c + m.repeating_view().len();
    assert forall|i: int, k: int| 0 <= i < list.len() && 0 <= k < list[i].1.len() implies (
    #[trigger] list[i].1[k]) != soh() by {
        if i == 0 {
            assert(list[0].1 == "FIX.4.4"@);
        } else if i == 1 {
            assert(list[1].1 == len_text);
        } else if i == 2 {
            assert(list[2].1 == msg_type);
        } else if i < b {
            assert(list[i] == hl[i - a]);
            assert(hl[i - a].1[k] != soh());
        } else if i < c {
            assert(list[i] == m.body_view()[i - b]);
            assert(m.body_view()[i - b].1[k] != soh());
        } else if i < d {
            assert(list[i] == m.repeating_view()[i - c]);
            assert(m.repeating_view()[i - c].1[k] != soh());
        } else {
            assert(list[i] == (10u32, cs));
        }
    }
}

/// A built message reads back field by field: the map read from it is that
/// of its fields in written order (begin string, body length, type, header,
/// body and repeating fields, checksum; a later field replacing an earlier
/// one with the same tag), when neither the type nor any value holds SOH.
pub proof fn law_built_message_reads_back(msg_type: Seq<char>, m: FixMessage)
    requires
        forall|k: int| 0 <= k < msg_type.len() ==> msg_type[k] != soh(),
        values_without_soh(header_list(m.fields_view())),
        values_without_soh(m.body_view()),
        values_without_soh(m.repeating_view()),
    ensures
        fix_fields(
            frame(body_text(msg_type, m.fields_view(), m.body_view(), m.repeating_view())),
        ) == fields_map(built_fields(msg_type, m)),
{
    lemma_built_text(msg_type, m);
    lemma_built_no_soh(msg_type, m);
    law_fields_read_back(built_fields(msg_type, m));
}

/// Fields after a prefix that never use tag `t` leave its value alone.
proof fn lemma_fields_map_other(a: Seq<(u32, Seq<char>)>, b: Seq<(u32, Seq<char>)>, t: u32)
    requires
        forall|i: int| 0 <= i < b.len() ==> (#[trigger] b[i]).0 != t,
    ensures
        fields_map(a + b).contains_key(t) == fields_map(a).contains_key(t),
        fields_map(a).contains_key(t) ==> fields_map(a + b)[t] == fields_map(a)[t],
    decreases b.len(),
{
    if b.len() == 0 {
        assert(a + b =~= a);
    } else {
        let b1 = b.drop_last();
        assert forall|i: int| 0 <= i < b1.len() implies (#[trigger] b1[i]).0 != t by {
            assert(b1[i] == b[i]);
        }
        lemma_fields_map_other(a, b1, t);
        assert((a + b).drop_last() =~= a + b1);
        assert((a + b).last() == b[b.len() - 1]);
    }
}

/// The fields that frame a built message read back as written: begin
/// string `FIX.4.4`, the body length, the message type and the checksum,
/// when no field given uses tag 8, 9 or 35 and no value holds SOH.
pub proof fn law_built_message_frame_fields(msg_type: Seq<char>, m: FixMessage)
    requires
        forall|k: int| 0 <= k < msg_type.len() ==> msg_type[k] != soh(),
        values_without_soh(header_list(m.fields_view())),
        values_without_soh(m.body_view()),
        values_without_soh(m.repeating_view()),
        forall|i: int|
            0 <= i < m.body_view().len() ==> (#[trigger] m.body_view()[i]).0 != 8 && m.body_view()[i].0
                != 9 && m.body_view()[i].0 != 35 && m.body_view()[i].0 != 10,
        forall|i: int|
            0 <= i < m.repeating_view().len() ==> (#[trigger] m.repeating_view()[i]).0 != 8
                && m.repeating_view()[i].0 != 9 && m.repeating_view()[i].0 != 35,
    ensures
        ({
            let body = body_text(msg_type, m.fields_view(), m.body_view(), m.repeating_view());
            let f = fix_fields(frame(body));
            &&& f.contains_key(8) && f[8] == "FIX.4.4"@
            &&& f.contains_key(9) && f[9] == nat_to_chars((utf8(body).len() as usize) as nat)
            &&& f.contains_key(35) && f[35] == msg_type
            &&& f.contains_key(10) && f[10] == three_digits(fix_checksum(utf8(frame_head(body))))
        }),
{
    law_built_message_reads_back(msg_type, m);
    let body = body_text(msg_type, m.fields_view(), m.body_view(), m.repeating_view());
    let len_text = nat_to_chars((utf8(body).len() as usize) as nat);
    let cs = three_digits(fix_checksum(utf8(frame_head(body))));
    let head = seq![(8u32, "FIX.4.4"@), (9u32, len_text), (35u32, msg_type)];
    let hl = header_list(m.fields_view());
    let rest = hl + m.body_view() + m.repeating_view() + seq![(10u32, cs)];
    let list = built_fields(msg_type, m);
    assert(list =~= head + rest);
    assert(fields_map(head) == Map::<u32, Seq<char>>::empty().insert(8, "FIX.4.4"@).insert(9, len_text).insert(
        35,
        msg_type,
    )) by {
        assert(head.drop_last() =~= seq![(8u32, "FIX.4.4"@), (9u32, len_text)]);
        assert(head.drop_last().drop_last() =~= seq![(8u32, "FIX.4.4"@)]);
        let h0 = head.drop_last().drop_last().drop_last();
        assert(h0 =~= Seq::<(u32, Seq<char>)>::empty());
        assert(fields_map(h0) == Map::<u32, Seq<char>>::empty());
        assert(fields_map(head.drop_last().drop_last()) == Map::<u32, Seq<char>>::empty().insert(
            8,
            "FIX.4.4"@,
        ));
        assert(fields_map(head.drop_last()) == Map::<u32, Seq<char>>::empty().insert(8, "FIX.4.4"@).insert(
            9,
            len_text,
        ));
    }
    assert forall|i: int| 0 <= i < rest.len() implies (#[trigger] rest[i]).0 != 8 && rest[i].0 != 9
        && rest[i].0 != 35 by {
        let a = hl.len() as int;
        let b = a + m.body_view().len();
        let c = b + m.repeating_view().len();
        if i < a {
            assert(rest[i] == hl[i]);
            lemma_header_tags(m.fields_view(), i);
        } else if i < b {
            assert(rest[i] == m.body_view()[i - a]);
        } else if i < c {
            assert(rest[i] == m.repeating_view()[i - b]);
        } else {
            assert(rest[i] == (10u32, cs));
        }
    }
    lemma_fields_map_other(head, rest, 8);
    lemma_fields_map_other(head, rest, 9);
    lemma_fields_map_other(head, rest, 35);
    assert(list.last() == (10u32, cs));
}

proof fn lemma_header_tags(m: Map<u32, Seq<char>>, i: int)
    requires
        0 <= i < header_list(m).len(),
    ensures
        header_list(m)[i].0 == 49 || header_list(m)[i].0 == 56 || header_list(m)[i].0 == 34
            || header_list(m)[i].0 == 52 || header_list(m)[i].0 == 50 || header_list(m)[i].0 == 57,
{
    let (a, b, c, d, e, f) = (
        opt_list(m, 49),
        opt_list(m, 56),
        opt_list(m, 34),
        opt_list(m, 52),
        opt_list(m, 50),
        opt_list(m, 57),
    );
    let h = header_list(m);
    let la = a.len() as int;
    let lb = la + b.len();
    let lc = lb + c.len();
    let ld = lc + d.len();
    let le = ld + e.len();
    if i < la {
        assert(h[i] == a[i]);
    } else if i < lb {
        assert(h[i] == b[i - la]);
    } else if i < lc {
        assert(h[i] == c[i - lb]);
    } else if i < ld {
        assert(h[i] == d[i - lc]);
    } else if i < le {
        assert(h[i] == e[i - ld]);
    } else {
        assert(h[i] == f[i - le]);
    }
}

} // verus!
