//! What the egress rules do to a packet, when a packet filter reads them line
//! by line.

use super::reading::{
    all_lines, is_line, is_word, lemma_is_line_add, lemma_lines_of_unlines, lemma_no_words,
    lemma_number_reads_back, lemma_one_word, lemma_unlines_add, lemma_unlines_one,
    lemma_words_add, lemma_words_of_list, number_of, unlines, with_commas, words,
};
use crate::config::Networking;
use crate::networking::{accept_text, private_ranges, QUOTA_NAME, TABLE};
use crate::text::{decimal_text, free_of, joined, lemma_free_of_add, lemma_joined_free, lines_of};
use vstd::prelude::*;
use vstd::string::*;

verus! {

/// A packet on its way out.
pub struct Packet {
    /// The interface that it leaves by.
    pub interface: Seq<char>,
    pub v6: bool,
    /// The addresses and ranges that its destination lies in, as rules write
    /// them.
    pub places: Set<Seq<char>>,
    /// `tcp`, `udp` or another protocol.
    pub protocol: Seq<char>,
    pub port: nat,
    /// It belongs to a connection that is known.
    pub known: bool,
    /// The bytes that the connection has sent out.
    pub sent: nat,
    /// The bytes that the quota has counted.
    pub counted: nat,
}

pub enum Fate {
    Accept,
    Drop,
}

/// The first place of `word`; behind the end where it does not occur.
pub open spec fn place_of(list: Seq<Seq<char>>, word: Seq<char>) -> int
    decreases list.len(),
{
    if list.len() == 0 || list[0] == word {
        0
    } else {
        1 + place_of(list.skip(1), word)
    }
}

/// A word without the comma at its end.
pub open spec fn without_comma(word: Seq<char>) -> Seq<char> {
    if word.len() > 0 && word.last() == ',' {
        word.drop_last()
    } else {
        word
    }
}

/// One of the words names a place of the packet's destination.
pub open spec fn names_place(list: Seq<Seq<char>>, packet: Packet) -> bool {
    exists|i: int|
        0 <= i < list.len() && packet.places.contains(without_comma(#[trigger] list[i]))
}

/// `line` declares a quota under a name, and more than it allows was counted.
pub open spec fn is_exceeded(line: Seq<char>, name: Seq<char>, packet: Packet) -> bool {
    let list = words(line);
    &&& list.len() == 7
    &&& list[0] == "quota"@
    &&& list[1] == name
    &&& list[2] == "{"@
    &&& list[3] == "over"@
    &&& number_of(list[4]) is Some
    &&& packet.counted > number_of(list[4])->Some_0 * 1024
    &&& list[5] == "kbytes"@
    &&& list[6] == "}"@
}

/// The quota of that name is used up.
pub open spec fn used_up(rules: Seq<Seq<char>>, name: Seq<char>, packet: Packet) -> bool {
    exists|i: int| 0 <= i < rules.len() && is_exceeded(#[trigger] rules[i], name, packet)
}

/// The packet meets the conditions of a rule.
pub open spec fn meets(list: Seq<Seq<char>>, rules: Seq<Seq<char>>, packet: Packet) -> bool
    decreases list.len(),
{
    if list.len() == 0 {
        true
    } else if list[0] == "oifname"@ && list.len() >= 2 {
        list[1] == "\""@ + packet.interface + "\""@ && meets(list.skip(2), rules, packet)
    } else if (list[0] == "ip"@ || list[0] == "ip6"@) && list.len() >= 4 && list[1] == "daddr"@
        && list[2] == "{"@ && place_of(list, "}"@) < list.len() && place_of(list, "}"@) > 2 {
        let end = place_of(list, "}"@);
        &&& packet.v6 == (list[0] == "ip6"@)
        &&& names_place(list.subrange(3, end), packet)
        &&& meets(list.skip(end + 1), rules, packet)
    } else if (list[0] == "tcp"@ || list[0] == "udp"@) && list.len() >= 3 && list[1] == "dport"@ {
        &&& packet.protocol == list[0]
        &&& number_of(list[2]) == Some(packet.port)
        &&& meets(list.skip(3), rules, packet)
    } else if list[0] == "ct"@ && list.len() >= 3 && list[1] == "state"@ && list[2]
        == "established,related"@ {
        packet.known && meets(list.skip(3), rules, packet)
    } else if list[0] == "ct"@ && list.len() >= 5 && list[1] == "original"@ && list[2] == "bytes"@
        && list[3] == ">"@ {
        &&& number_of(list[4]) is Some
        &&& packet.sent > number_of(list[4])->Some_0
        &&& meets(list.skip(5), rules, packet)
    } else if list[0] == "quota"@ && list.len() >= 3 && list[1] == "name"@ && list[2].len() >= 2 {
        &&& used_up(rules, list[2].subrange(1, list[2].len() - 1), packet)
        &&& meets(list.skip(3), rules, packet)
    } else {
        false
    }
}

/// What a line decides about a packet, if anything.
pub open spec fn decision(line: Seq<char>, rules: Seq<Seq<char>>, packet: Packet) -> Option<Fate> {
    let list = words(line);
    if list.len() > 0 && (list.last() == "accept"@ || list.last() == "drop"@) && meets(
        list.drop_last(),
        rules,
        packet,
    ) {
        Some(
            if list.last() == "accept"@ {
                Fate::Accept
            } else {
                Fate::Drop
            },
        )
    } else {
        None
    }
}

/// The first line that decides does, and what no line decides goes out.
pub open spec fn fate_from(
    lines: Seq<Seq<char>>,
    rules: Seq<Seq<char>>,
    packet: Packet,
) -> Fate
    decreases lines.len(),
{
    if lines.len() == 0 {
        Fate::Accept
    } else {
        match decision(lines[0], rules, packet) {
            Some(fate) => fate,
            None => fate_from(lines.skip(1), rules, packet),
        }
    }
}

/// What becomes of a packet under rules in text form.
pub open spec fn fate(rules: Seq<char>, packet: Packet) -> Fate {
    fate_from(lines_of(rules), lines_of(rules), packet)
}

/// The packet goes to a private destination.
pub open spec fn is_private(packet: Packet) -> bool {
    if packet.v6 {
        packet.places.contains("fc00::/7"@) || packet.places.contains("fe80::/10"@)
    } else {
        packet.places.contains("10.0.0.0/8"@) || packet.places.contains("172.16.0.0/12"@)
            || packet.places.contains("192.168.0.0/16"@) || packet.places.contains(
            "169.254.0.0/16"@,
        )
    }
}

/// The packet goes to one of these addresses.
pub open spec fn goes_to(addresses: Seq<Seq<char>>, packet: Packet) -> bool {
    exists|i: int| 0 <= i < addresses.len() && packet.places.contains(#[trigger] addresses[i])
}

/// An address in text form.
pub open spec fn is_address(text: Seq<char>) -> bool {
    &&& text.len() > 0
    &&& forall|i: int|
        0 <= i < text.len() ==> {
            let c = #[trigger] text[i];
            c != ' ' && c != ',' && c != '}' && c != '\n' && c != '\r'
        }
}

pub open spec fn are_addresses(list: Seq<Seq<char>>) -> bool {
    forall|i: int| 0 <= i < list.len() ==> is_address(#[trigger] list[i])
}

impl Networking {
    /// What is to become of a packet. Loopback is free. Where private
    /// destinations are blocked, name lookups are all that reaches them. HTTPS
    /// to the free addresses knows no limit; everything else is held to the
    /// payload limit and the quota.
    pub open spec fn intended(
        &self,
        v4: Seq<Seq<char>>,
        v6: Seq<Seq<char>>,
        packet: Packet,
    ) -> Fate {
        if packet.interface == "lo"@ {
            Fate::Accept
        } else if self.block_private && is_private(packet) {
            if packet.port == 53 && (packet.protocol == "tcp"@ || packet.protocol == "udp"@) {
                Fate::Accept
            } else {
                Fate::Drop
            }
        } else if packet.protocol == "tcp"@ && packet.port == 443 && goes_to(
            if packet.v6 {
                v6
            } else {
                v4
            },
            packet,
        ) {
            Fate::Accept
        } else if packet.known && self.payload_size is Some && packet.sent
            > self.payload_size->Some_0 * 1024 {
            Fate::Drop
        } else if self.quota is Some && packet.counted > self.quota->Some_0 * 1024 {
            Fate::Drop
        } else {
            Fate::Accept
        }
    }
}

proof fn lemma_words_space(text: Seq<char>)
    ensures
        words(seq![' '] + text) == words(text),
{
    let none = Seq::<char>::empty();
    lemma_words_add(none, text);
    lemma_no_words();
    assert(none.push(' ') + text =~= seq![' '] + text);
    assert(words(none) + words(text) =~= words(text));
}

/// Four spaces in front of a line are no part of it.
proof fn lemma_words_indented(text: Seq<char>)
    ensures
        words("    "@ + text) == words(text),
{
    reveal_strlit("    ");
    let one = seq![' '];
    lemma_words_space(text);
    lemma_words_space(one + text);
    lemma_words_space(one + (one + text));
    lemma_words_space(one + (one + (one + text)));
    assert("    "@ + text =~= one + (one + (one + (one + text))));
}

/// The words that rules are made of are different words.
proof fn lemma_keywords()
    ensures
        is_word("accept"@) && is_word("drop"@) && is_word("oifname"@) && is_word("ip"@)
            && is_word("ip6"@) && is_word("daddr"@) && is_word("{"@) && is_word("}"@)
            && is_word("tcp"@) && is_word("udp"@) && is_word("dport"@) && is_word("53"@)
            && is_word("443"@) && is_word("ct"@) && is_word("state"@) && is_word("original"@)
            && is_word("bytes"@) && is_word(">"@) && is_word("established,related"@) && is_word(
            "quota"@,
        ) && is_word("name"@) && is_word("over"@) && is_word("kbytes"@) && is_word("\"lo\""@),
        "accept"@ != "drop"@,
        "oifname"@ != "ip"@ && "oifname"@ != "ip6"@ && "oifname"@ != "tcp"@ && "oifname"@ != "udp"@
            && "oifname"@ != "ct"@ && "oifname"@ != "quota"@,
        "ip"@ != "ip6"@,
        "tcp"@ != "udp"@ && "tcp"@ != "ip"@ && "tcp"@ != "ip6"@ && "udp"@ != "ip"@ && "udp"@
            != "ip6"@,
        "ct"@ != "ip"@ && "ct"@ != "ip6"@ && "ct"@ != "tcp"@ && "ct"@ != "udp"@ && "ct"@
            != "quota"@,
        "quota"@ != "ip"@ && "quota"@ != "ip6"@ && "quota"@ != "tcp"@ && "quota"@ != "udp"@,
        "original"@ != "state"@,
        "ip"@ != "}"@ && "ip6"@ != "}"@ && "daddr"@ != "}"@ && "{"@ != "}"@,
        number_of("53"@) == Some(53nat),
        number_of("443"@) == Some(443nat),
{
    reveal_strlit("accept");
    reveal_strlit("drop");
    reveal_strlit("oifname");
    reveal_strlit("ip");
    reveal_strlit("ip6");
    reveal_strlit("daddr");
    reveal_strlit("{");
    reveal_strlit("}");
    reveal_strlit("tcp");
    reveal_strlit("udp");
    reveal_strlit("dport");
    reveal_strlit("53");
    reveal_strlit("443");
    reveal_strlit("ct");
    reveal_strlit("state");
    reveal_strlit("original");
    reveal_strlit("bytes");
    reveal_strlit(">");
    reveal_strlit("established,related");
    reveal_strlit("quota");
    reveal_strlit("name");
    reveal_strlit("over");
    reveal_strlit("kbytes");
    reveal_strlit("\"lo\"");
    assert("accept"@[0] != "drop"@[0]);
    assert("tcp"@[0] == 't' && "udp"@[0] == 'u');
    assert("ip6"@[0] == 'i' && "ip"@[0] == 'i' && "ct"@[0] == 'c');
    assert("quota"@[0] == 'q' && "daddr"@[0] == 'd');
    assert("{"@[0] == '{' && "}"@[0] == '}');
    reveal_with_fuel(number_of, 4);
    assert("53"@.drop_last() =~= seq!['5']);
    assert("443"@.drop_last() =~= seq!['4', '4']);
    assert(seq!['4', '4'].drop_last() =~= seq!['4']);
}

/// A line that ends in another word than a verdict decides nothing.
proof fn lemma_no_rule(front: Seq<char>, last: Seq<char>, rules: Seq<Seq<char>>, packet: Packet)
    requires
        is_word(last),
        last != "accept"@,
        last != "drop"@,
    ensures
        decision(front.push(' ') + last, rules, packet) is None,
        decision(last, rules, packet) is None,
{
    lemma_words_add(front, last);
    lemma_one_word(last);
    assert((words(front) + seq![last]).last() == last);
}

/// The rule that frees the loopback interface.
proof fn lemma_loopback(rules: Seq<Seq<char>>, packet: Packet)
    ensures
        decision("    oifname \"lo\" accept"@, rules, packet) == (if packet.interface == "lo"@ {
            Some(Fate::Accept)
        } else {
            None
        }),
        is_line("    oifname \"lo\" accept"@),
{
    let line = "    oifname \"lo\" accept"@;
    reveal_strlit("    oifname \"lo\" accept");
    reveal_strlit("    ");
    reveal_strlit("oifname");
    reveal_strlit("\"lo\"");
    reveal_strlit("accept");
    reveal_strlit("lo");
    reveal_strlit("\"");
    lemma_keywords();
    let inner = ("oifname"@.push(' ') + "\"lo\""@).push(' ') + "accept"@;
    assert(line =~= "    "@ + inner);
    lemma_words_indented(inner);
    lemma_words_add("oifname"@.push(' ') + "\"lo\""@, "accept"@);
    lemma_words_add("oifname"@, "\"lo\""@);
    lemma_one_word("oifname"@);
    lemma_one_word("\"lo\""@);
    lemma_one_word("accept"@);
    let list = words(line);
    assert(list =~= seq!["oifname"@, "\"lo\""@, "accept"@]);
    assert(list.drop_last() =~= seq!["oifname"@, "\"lo\""@]);
    reveal_with_fuel(meets, 2);
    let quoted = "\""@ + packet.interface + "\""@;
    if "\"lo\""@ == quoted {
        assert(quoted.subrange(1, quoted.len() - 1) =~= packet.interface);
        assert("\"lo\""@.subrange(1, 3) =~= "lo"@);
    }
    if packet.interface == "lo"@ {
        assert("\"lo\""@ =~= quoted);
    }
}

proof fn lemma_place_of(front: Seq<Seq<char>>, word: Seq<char>, rest: Seq<Seq<char>>)
    requires
        forall|i: int| 0 <= i < front.len() ==> #[trigger] front[i] != word,
    ensures
        place_of(front + seq![word] + rest, word) == front.len(),
    decreases front.len(),
{
    let list = front + seq![word] + rest;
    if front.len() > 0 {
        assert(list[0] == front[0]);
        assert forall|i: int| 0 <= i < front.skip(1).len() implies #[trigger] front.skip(1)[i]
            != word by {
            assert(front[i + 1] != word);
        }
        lemma_place_of(front.skip(1), word, rest);
        assert(list.skip(1) =~= front.skip(1) + seq![word] + rest);
    } else {
        assert(list[0] == word);
    }
}

proof fn lemma_addresses_are_words(items: Seq<Seq<char>>)
    requires
        are_addresses(items),
    ensures
        forall|i: int| 0 <= i < items.len() ==> is_word(#[trigger] items[i]),
        free_of(joined(items, ", "@), '\n'),
{
    reveal_strlit(", ");
    assert forall|i: int| 0 <= i < items.len() implies is_word(#[trigger] items[i]) by {
        assert(is_address(items[i]));
    }
    assert forall|i: int| 0 <= i < items.len() implies free_of(#[trigger] items[i], '\n') by {
        assert(is_address(items[i]));
    }
    lemma_joined_free(items, ", "@, '\n');
}

proof fn lemma_with_commas(items: Seq<Seq<char>>, packet: Packet)
    requires
        are_addresses(items),
    ensures
        forall|i: int|
            0 <= i < items.len() ==> #[trigger] with_commas(items)[i] != "}"@ && without_comma(
                with_commas(items)[i],
            ) == items[i],
        names_place(with_commas(items), packet) == goes_to(items, packet),
{
    reveal_strlit("}");
    let list = with_commas(items);
    assert forall|i: int| 0 <= i < items.len() implies #[trigger] list[i] != "}"@
        && without_comma(list[i]) == items[i] by {
        assert(is_address(items[i]));
        assert(items[i][0] != '}');
        assert(list[i][0] == items[i][0]);
        assert("}"@[0] == '}');
        if i + 1 < items.len() {
            assert(items[i].push(',').drop_last() =~= items[i]);
        } else {
            assert(items[i][items[i].len() - 1] != ',');
        }
    }
    if names_place(list, packet) {
        let i = choose|i: int|
            0 <= i < list.len() && packet.places.contains(without_comma(#[trigger] list[i]));
        assert(packet.places.contains(items[i]));
    }
    if goes_to(items, packet) {
        let i = choose|i: int|
            0 <= i < items.len() && packet.places.contains(#[trigger] items[i]);
        assert(packet.places.contains(without_comma(list[i])));
    }
}

/// The words of a rule about destinations.
proof fn lemma_set_words(family: Seq<char>, items: Seq<Seq<char>>, tail: Seq<char>)
    requires
        is_word(family),
        are_addresses(items),
        items.len() > 0,
    ensures
        words("    "@ + family + " daddr { "@ + joined(items, ", "@) + " } "@ + tail) == seq![
            family,
            "daddr"@,
            "{"@,
        ] + with_commas(items) + seq!["}"@] + words(tail),
{
    lemma_keywords();
    lemma_addresses_are_words(items);
    lemma_words_of_list(items);
    reveal_strlit(" daddr { ");
    reveal_strlit(" } ");
    reveal_strlit("daddr");
    reveal_strlit("{");
    reveal_strlit("}");
    let list = joined(items, ", "@);
    let one = family;
    let two = one.push(' ') + "daddr"@;
    let three = two.push(' ') + "{"@;
    let four = three.push(' ') + list;
    let five = four.push(' ') + "}"@;
    let six = five.push(' ') + tail;
    assert("    "@ + family + " daddr { "@ + list + " } "@ + tail =~= "    "@ + six);
    lemma_words_indented(six);
    lemma_words_add(five, tail);
    lemma_words_add(four, "}"@);
    lemma_words_add(three, list);
    lemma_words_add(two, "{"@);
    lemma_words_add(one, "daddr"@);
    lemma_one_word(one);
    lemma_one_word("daddr"@);
    lemma_one_word("{"@);
    lemma_one_word("}"@);
    assert(words(six) =~= seq![family, "daddr"@, "{"@] + with_commas(items) + seq!["}"@] + words(
        tail,
    ));
}

/// The conditions of a rule about destinations.
proof fn lemma_set_meets(
    family: Seq<char>,
    items: Seq<Seq<char>>,
    rest: Seq<Seq<char>>,
    rules: Seq<Seq<char>>,
    packet: Packet,
)
    requires
        family == "ip"@ || family == "ip6"@,
        are_addresses(items),
        items.len() > 0,
    ensures
        meets(
            seq![family, "daddr"@, "{"@] + with_commas(items) + seq!["}"@] + rest,
            rules,
            packet,
        ) == (packet.v6 == (family == "ip6"@) && goes_to(items, packet) && meets(
            rest,
            rules,
            packet,
        )),
{
    lemma_keywords();
    lemma_with_commas(items, packet);
    let front = seq![family, "daddr"@, "{"@] + with_commas(items);
    let list = front + seq!["}"@] + rest;
    assert forall|i: int| 0 <= i < front.len() implies #[trigger] front[i] != "}"@ by {
        if i >= 3 {
            assert(front[i] == with_commas(items)[i - 3]);
        }
    }
    lemma_place_of(front, "}"@, rest);
    let end = front.len() as int;
    assert(list.subrange(3, end) =~= with_commas(items));
    assert(list.skip(end + 1) =~= rest);
    assert(list[0] == family);
    assert(list[1] == "daddr"@);
    assert(list[2] == "{"@);
}

/// A rule that drops what goes to one of `items`.
proof fn lemma_drop_rule(
    family: Seq<char>,
    items: Seq<Seq<char>>,
    rules: Seq<Seq<char>>,
    packet: Packet,
)
    requires
        family == "ip"@ || family == "ip6"@,
        are_addresses(items),
        items.len() > 0,
    ensures
        decision(
            "    "@ + family + " daddr { "@ + joined(items, ", "@) + " } "@ + "drop"@,
            rules,
            packet,
        ) == (if packet.v6 == (family == "ip6"@) && goes_to(items, packet) {
            Some(Fate::Drop)
        } else {
            None
        }),
{
    lemma_keywords();
    lemma_set_words(family, items, "drop"@);
    lemma_one_word("drop"@);
    let none = Seq::<Seq<char>>::empty();
    lemma_set_meets(family, items, none, rules, packet);
    let front = seq![family, "daddr"@, "{"@] + with_commas(items) + seq!["}"@];
    let list = front + seq!["drop"@];
    assert(list.drop_last() =~= front + none);
    assert(list.last() == "drop"@);
}

/// A rule that accepts one protocol and port to one of `items`.
proof fn lemma_accept_rule(
    family: Seq<char>,
    items: Seq<Seq<char>>,
    protocol: Seq<char>,
    port: Seq<char>,
    rules: Seq<Seq<char>>,
    packet: Packet,
)
    requires
        family == "ip"@ || family == "ip6"@,
        are_addresses(items),
        items.len() > 0,
        protocol == "tcp"@ || protocol == "udp"@,
        is_word(port),
    ensures
        decision(
            "    "@ + family + " daddr { "@ + joined(items, ", "@) + " } "@ + (protocol
                + " dport "@ + port + " accept"@),
            rules,
            packet,
        ) == (if packet.v6 == (family == "ip6"@) && goes_to(items, packet) && packet.protocol
            == protocol && number_of(port) == Some(packet.port) {
            Some(Fate::Accept)
        } else {
            None
        }),
{
    lemma_keywords();
    reveal_strlit(" dport ");
    reveal_strlit(" accept");
    reveal_strlit("dport");
    reveal_strlit("accept");
    let tail = protocol + " dport "@ + port + " accept"@;
    let one = protocol.push(' ') + "dport"@;
    let two = one.push(' ') + port;
    assert(tail =~= two.push(' ') + "accept"@);
    lemma_words_add(two, "accept"@);
    lemma_words_add(one, port);
    lemma_words_add(protocol, "dport"@);
    lemma_one_word(protocol);
    lemma_one_word("dport"@);
    lemma_one_word(port);
    lemma_one_word("accept"@);
    let rest = seq![protocol, "dport"@, port];
    assert(words(tail) =~= rest.push("accept"@));
    lemma_set_words(family, items, tail);
    lemma_set_meets(family, items, rest, rules, packet);
    let front = seq![family, "daddr"@, "{"@] + with_commas(items) + seq!["}"@];
    let list = front + words(tail);
    assert(list.drop_last() =~= front + rest);
    assert(list.last() == "accept"@);
    assert(rest.skip(3) =~= Seq::empty());
    reveal_with_fuel(meets, 2);
}

spec fn payload_line(limit: nat) -> Seq<char> {
    "    ct state established,related ct original bytes > "@ + decimal_text(limit) + " drop"@
}

/// The rule that ends a connection which has sent too much.
proof fn lemma_payload_rule(limit: nat, rules: Seq<Seq<char>>, packet: Packet)
    ensures
        decision(payload_line(limit), rules, packet) == (if packet.known && packet.sent > limit {
            Some(Fate::Drop)
        } else {
            None
        }),
        is_line(payload_line(limit)),
        words(payload_line(limit)).len() > 0 && words(payload_line(limit)).last() == "drop"@,
{
    lemma_keywords();
    lemma_number_reads_back(limit);
    reveal_strlit("    ct state established,related ct original bytes > ");
    reveal_strlit("    ");
    reveal_strlit(" drop");
    reveal_strlit("drop");
    reveal_strlit("ct");
    reveal_strlit("state");
    reveal_strlit("established,related");
    reveal_strlit("original");
    reveal_strlit("bytes");
    reveal_strlit(">");
    let number = decimal_text(limit);
    let two = "ct"@.push(' ') + "state"@;
    let three = two.push(' ') + "established,related"@;
    let four = three.push(' ') + "ct"@;
    let five = four.push(' ') + "original"@;
    let six = five.push(' ') + "bytes"@;
    let seven = six.push(' ') + ">"@;
    let eight = seven.push(' ') + number;
    let nine = eight.push(' ') + "drop"@;
    assert("    ct state established,related ct original bytes > "@ =~= "    "@ + seven.push(' '));
    let line = payload_line(limit);
    assert(line =~= "    "@ + nine);
    lemma_words_indented(nine);
    lemma_words_add(eight, "drop"@);
    lemma_words_add(seven, number);
    lemma_words_add(six, ">"@);
    lemma_words_add(five, "bytes"@);
    lemma_words_add(four, "original"@);
    lemma_words_add(three, "ct"@);
    lemma_words_add(two, "established,related"@);
    lemma_words_add("ct"@, "state"@);
    lemma_one_word("ct"@);
    lemma_one_word("state"@);
    lemma_one_word("established,related"@);
    lemma_one_word("original"@);
    lemma_one_word("bytes"@);
    lemma_one_word(">"@);
    lemma_one_word(number);
    lemma_one_word("drop"@);
    let front = seq![
        "ct"@,
        "state"@,
        "established,related"@,
        "ct"@,
        "original"@,
        "bytes"@,
        ">"@,
        number,
    ];
    assert(words(line) =~= front.push("drop"@));
    assert(words(line).drop_last() =~= front);
    let rest = seq!["ct"@, "original"@, "bytes"@, ">"@, number];
    assert(front.skip(3) =~= rest);
    assert(rest.skip(5) =~= Seq::empty());
    assert(meets(rest.skip(5), rules, packet));
    assert(meets(rest, rules, packet) == (packet.sent > limit));
    assert(meets(front, rules, packet) == (packet.known && packet.sent > limit));
    lemma_free_of_add("    ct state established,related ct original bytes > "@, number, '\n');
    lemma_is_line_add(
        "    ct state established,related ct original bytes > "@ + number,
        " drop"@,
    );
}

spec fn quota_rule() -> Seq<char> {
    "    quota name \""@ + QUOTA_NAME@ + "\" drop"@
}

spec fn quota_decl(limit: nat) -> Seq<char> {
    "  quota "@ + QUOTA_NAME@ + " { over "@ + decimal_text(limit) + " kbytes }"@
}

/// The rule that drops everything once the quota is used up.
proof fn lemma_quota_rule(rules: Seq<Seq<char>>, packet: Packet)
    ensures
        decision(quota_rule(), rules, packet) == (if used_up(rules, QUOTA_NAME@, packet) {
            Some(Fate::Drop)
        } else {
            None
        }),
        is_line(quota_rule()),
        words(quota_rule()).len() > 0 && words(quota_rule()).last() == "drop"@,
{
    lemma_keywords();
    reveal_strlit("    quota name \"");
    reveal_strlit("    ");
    reveal_strlit("global_egress");
    reveal_strlit("\" drop");
    reveal_strlit("drop");
    reveal_strlit("quota");
    reveal_strlit("name");
    reveal_strlit("\"");
    let called = "\""@ + QUOTA_NAME@ + "\""@;
    assert(is_word(called)) by {
        assert forall|i: int| 0 <= i < called.len() implies #[trigger] called[i] != ' ' by {
            if 1 <= i <= QUOTA_NAME@.len() {
                assert(called[i] == QUOTA_NAME@[i - 1]);
            }
        }
    }
    let two = "quota"@.push(' ') + "name"@;
    let three = two.push(' ') + called;
    let four = three.push(' ') + "drop"@;
    let line = quota_rule();
    assert("    quota name \""@ =~= "    "@ + two.push(' ') + "\""@);
    assert(line =~= "    "@ + four);
    lemma_words_indented(four);
    lemma_words_add(three, "drop"@);
    lemma_words_add(two, called);
    lemma_words_add("quota"@, "name"@);
    lemma_one_word("quota"@);
    lemma_one_word("name"@);
    lemma_one_word(called);
    lemma_one_word("drop"@);
    let front = seq!["quota"@, "name"@, called];
    assert(words(line) =~= front.push("drop"@));
    assert(words(line).drop_last() =~= front);
    assert(front.skip(3) =~= Seq::empty());
    assert(meets(front.skip(3), rules, packet));
    assert(called.subrange(1, called.len() - 1) =~= QUOTA_NAME@);
    lemma_free_of_add("    quota name \""@, QUOTA_NAME@, '\n');
    lemma_is_line_add("    quota name \""@ + QUOTA_NAME@, "\" drop"@);
}

/// The declaration of the quota.
proof fn lemma_quota_decl(limit: nat, rules: Seq<Seq<char>>, packet: Packet)
    ensures
        is_exceeded(quota_decl(limit), QUOTA_NAME@, packet) == (packet.counted > limit * 1024),
        decision(quota_decl(limit), rules, packet) is None,
        is_line(quota_decl(limit)),
{
    lemma_keywords();
    lemma_number_reads_back(limit);
    reveal_strlit("  quota ");
    reveal_strlit("global_egress");
    reveal_strlit(" { over ");
    reveal_strlit(" kbytes }");
    reveal_strlit("quota");
    reveal_strlit("{");
    reveal_strlit("over");
    reveal_strlit("kbytes");
    reveal_strlit("}");
    reveal_strlit("accept");
    reveal_strlit("drop");
    assert("}"@.len() != "accept"@.len() && "}"@.len() != "drop"@.len());
    let number = decimal_text(limit);
    let called = QUOTA_NAME@;
    assert(is_word(called));
    let two = "quota"@.push(' ') + called;
    let three = two.push(' ') + "{"@;
    let four = three.push(' ') + "over"@;
    let five = four.push(' ') + number;
    let six = five.push(' ') + "kbytes"@;
    let seven = six.push(' ') + "}"@;
    let line = quota_decl(limit);
    let one = seq![' '];
    assert(line =~= one + (one + seven));
    lemma_words_space(seven);
    lemma_words_space(one + seven);
    lemma_words_add(six, "}"@);
    lemma_words_add(five, "kbytes"@);
    lemma_words_add(four, number);
    lemma_words_add(three, "over"@);
    lemma_words_add(two, "{"@);
    lemma_words_add("quota"@, called);
    lemma_one_word("quota"@);
    lemma_one_word(called);
    lemma_one_word("{"@);
    lemma_one_word("over"@);
    lemma_one_word(number);
    lemma_one_word("kbytes"@);
    lemma_one_word("}"@);
    assert(words(line) =~= seq!["quota"@, called, "{"@, "over"@, number, "kbytes"@, "}"@]);
    lemma_free_of_add("  quota "@, called, '\n');
    lemma_free_of_add("  quota "@ + called, " { over "@, '\n');
    lemma_free_of_add("  quota "@ + called + " { over "@, number, '\n');
    lemma_is_line_add("  quota "@ + called + " { over "@ + number, " kbytes }"@);
}

spec fn set_line(family: Seq<char>, items: Seq<Seq<char>>, tail: Seq<char>) -> Seq<char> {
    "    "@ + family + " daddr { "@ + joined(items, ", "@) + " } "@ + tail
}

spec fn port_tail(protocol: Seq<char>, port: Seq<char>) -> Seq<char> {
    protocol + " dport "@ + port + " accept"@
}

spec fn v6_ranges() -> Seq<Seq<char>> {
    seq!["fc00::/7"@, "fe80::/10"@]
}

proof fn lemma_ranges()
    ensures
        are_addresses(private_ranges()),
        are_addresses(v6_ranges()),
        joined(v6_ranges(), ", "@) == "fc00::/7, fe80::/10"@,
{
    reveal_strlit("10.0.0.0/8");
    reveal_strlit("172.16.0.0/12");
    reveal_strlit("192.168.0.0/16");
    reveal_strlit("169.254.0.0/16");
    reveal_strlit("fc00::/7");
    reveal_strlit("fe80::/10");
    reveal_strlit("fc00::/7, fe80::/10");
    reveal_strlit(", ");
    assert forall|i: int| 0 <= i < private_ranges().len() implies is_address(
        #[trigger] private_ranges()[i],
    ) by {
        assert(i == 0 || i == 1 || i == 2 || i == 3);
    }
    assert forall|i: int| 0 <= i < v6_ranges().len() implies is_address(#[trigger] v6_ranges()[i]) by {
        assert(i == 0 || i == 1);
    }
    reveal_with_fuel(joined, 2);
    assert(v6_ranges().drop_last() =~= seq!["fc00::/7"@]);
    assert(joined(v6_ranges(), ", "@) =~= "fc00::/7, fe80::/10"@);
}

proof fn lemma_set_line(family: Seq<char>, items: Seq<Seq<char>>, tail: Seq<char>)
    requires
        family == "ip"@ || family == "ip6"@,
        are_addresses(items),
        is_line(tail),
        tail.len() > 0,
    ensures
        is_line(set_line(family, items, tail)),
{
    reveal_strlit("    ");
    reveal_strlit("ip");
    reveal_strlit("ip6");
    reveal_strlit(" daddr { ");
    reveal_strlit(" } ");
    lemma_addresses_are_words(items);
    lemma_free_of_add("    "@, family, '\n');
    lemma_free_of_add("    "@ + family, " daddr { "@, '\n');
    lemma_free_of_add("    "@ + family + " daddr { "@, joined(items, ", "@), '\n');
    lemma_free_of_add("    "@ + family + " daddr { "@ + joined(items, ", "@), " } "@, '\n');
    lemma_is_line_add("    "@ + family + " daddr { "@ + joined(items, ", "@) + " } "@, tail);
}

proof fn lemma_tails()
    ensures
        is_line("drop"@) && "drop"@.len() > 0,
        is_line(port_tail("tcp"@, "53"@)) && is_line(port_tail("udp"@, "53"@)) && is_line(
            port_tail("tcp"@, "443"@),
        ),
        port_tail("tcp"@, "53"@) == "tcp dport 53 accept"@,
        port_tail("udp"@, "53"@) == "udp dport 53 accept"@,
        port_tail("tcp"@, "443"@) == "tcp dport 443 accept"@,
        "tcp dport 53 accept"@.len() > 0 && "udp dport 53 accept"@.len() > 0
            && "tcp dport 443 accept"@.len() > 0,
{
    reveal_strlit("drop");
    reveal_strlit("tcp");
    reveal_strlit("udp");
    reveal_strlit(" dport ");
    reveal_strlit("53");
    reveal_strlit("443");
    reveal_strlit(" accept");
    reveal_strlit("tcp dport 53 accept");
    reveal_strlit("udp dport 53 accept");
    reveal_strlit("tcp dport 443 accept");
    assert(port_tail("tcp"@, "53"@) =~= "tcp dport 53 accept"@);
    assert(port_tail("udp"@, "53"@) =~= "udp dport 53 accept"@);
    assert(port_tail("tcp"@, "443"@) =~= "tcp dport 443 accept"@);
}

/// The last word of a rule about destinations is its verdict.
proof fn lemma_set_verdict(
    family: Seq<char>,
    items: Seq<Seq<char>>,
    front: Seq<char>,
    verdict: Seq<char>,
)
    requires
        is_word(verdict),
    ensures
        words(set_line(family, items, front.push(' ') + verdict)).len() > 0,
        words(set_line(family, items, front.push(' ') + verdict)).last() == verdict,
        words(set_line(family, items, verdict)).len() > 0,
        words(set_line(family, items, verdict)).last() == verdict,
{
    reveal_strlit(" } ");
    let before = "    "@ + family + " daddr { "@ + joined(items, ", "@) + " }"@;
    reveal_strlit(" }");
    lemma_one_word(verdict);
    lemma_words_add(before, verdict);
    assert(set_line(family, items, verdict) =~= before.push(' ') + verdict);
    let more = before.push(' ') + front;
    lemma_words_add(more, verdict);
    assert(set_line(family, items, front.push(' ') + verdict) =~= more.push(' ') + verdict);
    assert((words(before) + seq![verdict]).last() == verdict);
    assert((words(more) + seq![verdict]).last() == verdict);
}

spec fn private_lines(networking: Networking) -> Seq<Seq<char>> {
    if networking.block_private {
        seq![
            set_line("ip"@, private_ranges(), port_tail("tcp"@, "53"@)),
            set_line("ip"@, private_ranges(), port_tail("udp"@, "53"@)),
            set_line("ip"@, private_ranges(), "drop"@),
            set_line("ip6"@, v6_ranges(), port_tail("tcp"@, "53"@)),
            set_line("ip6"@, v6_ranges(), port_tail("udp"@, "53"@)),
            set_line("ip6"@, v6_ranges(), "drop"@),
        ]
    } else {
        Seq::empty()
    }
}

proof fn lemma_unlines_six(
    a: Seq<char>,
    b: Seq<char>,
    c: Seq<char>,
    d: Seq<char>,
    e: Seq<char>,
    f: Seq<char>,
)
    ensures
        unlines(seq![a, b, c, d, e, f]) == a.push('\n') + b.push('\n') + c.push('\n') + d.push(
            '\n',
        ) + e.push('\n') + f.push('\n'),
{
    let all = seq![a, b, c, d, e, f];
    reveal_with_fuel(unlines, 7);
    assert(all.drop_last() =~= seq![a, b, c, d, e]);
    assert(seq![a, b, c, d, e].drop_last() =~= seq![a, b, c, d]);
    assert(seq![a, b, c, d].drop_last() =~= seq![a, b, c]);
    assert(seq![a, b, c].drop_last() =~= seq![a, b]);
    assert(seq![a, b].drop_last() =~= seq![a]);
    assert(seq![a].drop_last() =~= Seq::empty());
    assert(unlines(all) =~= a.push('\n') + b.push('\n') + c.push('\n') + d.push('\n') + e.push(
        '\n',
    ) + f.push('\n'));
}

proof fn lemma_private_lines(networking: Networking)
    ensures
        unlines(private_lines(networking)) == networking.private_text(),
        all_lines(private_lines(networking)),
{
    if networking.block_private {
        lemma_ranges();
        lemma_tails();
        reveal_strlit("    ip daddr { ");
        reveal_strlit("    ");
        reveal_strlit("ip");
        reveal_strlit("ip6");
        reveal_strlit(" daddr { ");
        reveal_strlit(" } ");
        reveal_strlit(" } tcp dport 53 accept\n");
        reveal_strlit(" } udp dport 53 accept\n");
        reveal_strlit(" } drop\n");
        reveal_strlit("drop");
        reveal_strlit("tcp dport 53 accept");
        reveal_strlit("udp dport 53 accept");
        reveal_strlit("fc00::/7, fe80::/10");
        reveal_strlit("    ip6 daddr { fc00::/7, fe80::/10 } tcp dport 53 accept\n");
        reveal_strlit("    ip6 daddr { fc00::/7, fe80::/10 } udp dport 53 accept\n");
        reveal_strlit("    ip6 daddr { fc00::/7, fe80::/10 } drop\n");
        let ranges = joined(private_ranges(), ", "@);
        let all = private_lines(networking);
        assert("    ip daddr { "@ =~= "    "@ + "ip"@ + " daddr { "@);
        assert(" } tcp dport 53 accept\n"@ =~= (" } "@ + "tcp dport 53 accept"@).push('\n'));
        assert(" } udp dport 53 accept\n"@ =~= (" } "@ + "udp dport 53 accept"@).push('\n'));
        assert(" } drop\n"@ =~= (" } "@ + "drop"@).push('\n'));
        assert(all[0].push('\n') =~= "    ip daddr { "@ + ranges + " } tcp dport 53 accept\n"@);
        assert(all[1].push('\n') =~= "    ip daddr { "@ + ranges + " } udp dport 53 accept\n"@);
        assert(all[2].push('\n') =~= "    ip daddr { "@ + ranges + " } drop\n"@);
        assert(all[3].push('\n')
            =~= "    ip6 daddr { fc00::/7, fe80::/10 } tcp dport 53 accept\n"@);
        assert(all[4].push('\n')
            =~= "    ip6 daddr { fc00::/7, fe80::/10 } udp dport 53 accept\n"@);
        assert(all[5].push('\n') =~= "    ip6 daddr { fc00::/7, fe80::/10 } drop\n"@);
        lemma_unlines_six(all[0], all[1], all[2], all[3], all[4], all[5]);
        assert(all =~= seq![all[0], all[1], all[2], all[3], all[4], all[5]]);
        assert(unlines(all) =~= networking.private_text());
        lemma_set_line("ip"@, private_ranges(), port_tail("tcp"@, "53"@));
        lemma_set_line("ip"@, private_ranges(), port_tail("udp"@, "53"@));
        lemma_set_line("ip"@, private_ranges(), "drop"@);
        lemma_set_line("ip6"@, v6_ranges(), port_tail("tcp"@, "53"@));
        lemma_set_line("ip6"@, v6_ranges(), port_tail("udp"@, "53"@));
        lemma_set_line("ip6"@, v6_ranges(), "drop"@);
    }
}

spec fn free_lines(family: Seq<char>, addresses: Seq<Seq<char>>) -> Seq<Seq<char>> {
    if addresses.len() == 0 {
        Seq::empty()
    } else {
        seq![set_line(family, addresses, port_tail("tcp"@, "443"@))]
    }
}

proof fn lemma_free_lines(family: Seq<char>, addresses: Seq<Seq<char>>)
    requires
        family == "ip"@ || family == "ip6"@,
        are_addresses(addresses),
    ensures
        unlines(free_lines(family, addresses)) == accept_text(family, addresses),
        all_lines(free_lines(family, addresses)),
{
    if addresses.len() > 0 {
        lemma_tails();
        reveal_strlit(" } tcp dport 443 accept\n");
        reveal_strlit("tcp dport 443 accept");
        reveal_strlit(" } ");
        let line = set_line(family, addresses, port_tail("tcp"@, "443"@));
        lemma_unlines_one(line);
        assert(" } tcp dport 443 accept\n"@ =~= (" } "@ + "tcp dport 443 accept"@).push('\n'));
        assert(line.push('\n') =~= accept_text(family, addresses));
        lemma_set_line(family, addresses, port_tail("tcp"@, "443"@));
    }
}

spec fn limit_lines(networking: Networking) -> Seq<Seq<char>> {
    (match networking.payload_size {
        Some(size) => seq![payload_line(crate::networking::kib_in_bytes(size as nat))],
        None => Seq::empty(),
    }) + (if networking.quota is Some {
        seq![quota_rule()]
    } else {
        Seq::empty()
    }) + seq!["  }"@, "}"@]
}

proof fn lemma_limit_lines(networking: Networking, rules: Seq<Seq<char>>, packet: Packet)
    ensures
        unlines(limit_lines(networking)) == networking.payload_text()
            + networking.quota_drop_text() + "  }\n}\n"@,
        all_lines(limit_lines(networking)),
{
    reveal_strlit("  }\n}\n");
    reveal_strlit("  }");
    reveal_strlit("}");
    reveal_strlit(" drop\n");
    reveal_strlit(" drop");
    reveal_strlit("\" drop\n");
    reveal_strlit("\" drop");
    let none = Seq::<Seq<char>>::empty();
    let one = match networking.payload_size {
        Some(size) => seq![payload_line(crate::networking::kib_in_bytes(size as nat))],
        None => none,
    };
    let two = if networking.quota is Some {
        seq![quota_rule()]
    } else {
        none
    };
    let three = seq!["  }"@, "}"@];
    lemma_unlines_add(one, two);
    lemma_unlines_add(one + two, three);
    assert(" drop\n"@ =~= " drop"@.push('\n'));
    assert("\" drop\n"@ =~= "\" drop"@.push('\n'));
    if let Some(size) = networking.payload_size {
        let limit = crate::networking::kib_in_bytes(size as nat);
        lemma_unlines_one(payload_line(limit));
        lemma_payload_rule(limit, rules, packet);
        assert(payload_line(limit).push('\n') =~= networking.payload_text());
    }
    if networking.quota is Some {
        lemma_unlines_one(quota_rule());
        lemma_quota_rule(rules, packet);
        assert(quota_rule().push('\n') =~= networking.quota_drop_text());
    }
    assert(unlines(none) =~= Seq::empty());
    lemma_unlines_add(seq!["  }"@], seq!["}"@]);
    lemma_unlines_one("  }"@);
    lemma_unlines_one("}"@);
    assert(three =~= seq!["  }"@] + seq!["}"@]);
    assert(unlines(three) =~= "  }\n}\n"@);
    assert(unlines(one) == networking.payload_text());
    assert(unlines(two) == networking.quota_drop_text());
}

spec fn top_lines(networking: Networking) -> Seq<Seq<char>> {
    seq!["table inet "@ + TABLE@ + " {"@] + (match networking.quota {
        Some(quota) => seq![quota_decl(quota as nat)],
        None => Seq::empty(),
    }) + seq![
        Seq::<char>::empty(),
        "  chain output {"@,
        "    type filter hook output priority filter; policy accept;"@,
        "    oifname \"lo\" accept"@,
    ]
}

proof fn lemma_top_lines(networking: Networking, rules: Seq<Seq<char>>, packet: Packet)
    ensures
        unlines(top_lines(networking)) == "table inet "@ + TABLE@ + " {\n"@
            + networking.quota_text() + "\n  chain output {\n"@
            + "    type filter hook output priority filter; policy accept;\n"@
            + "    oifname \"lo\" accept\n"@,
        all_lines(top_lines(networking)),
{
    reveal_strlit("table inet ");
    reveal_strlit("pithos-egress");
    reveal_strlit(" {\n");
    reveal_strlit(" {");
    reveal_strlit("\n  chain output {\n");
    reveal_strlit("  chain output {");
    reveal_strlit("    type filter hook output priority filter; policy accept;\n");
    reveal_strlit("    type filter hook output priority filter; policy accept;");
    reveal_strlit("    oifname \"lo\" accept\n");
    reveal_strlit("    oifname \"lo\" accept");
    reveal_strlit(" kbytes }\n");
    reveal_strlit(" kbytes }");
    let none = Seq::<Seq<char>>::empty();
    let first = "table inet "@ + TABLE@ + " {"@;
    let one = seq![first];
    let two = match networking.quota {
        Some(quota) => seq![quota_decl(quota as nat)],
        None => none,
    };
    let blank = Seq::<char>::empty();
    let chain = "  chain output {"@;
    let policy = "    type filter hook output priority filter; policy accept;"@;
    let lo = "    oifname \"lo\" accept"@;
    let three = seq![blank, chain, policy, lo];
    lemma_unlines_add(one, two);
    lemma_unlines_add(one + two, three);
    lemma_unlines_one(first);
    assert(" {\n"@ =~= " {"@.push('\n'));
    assert(first.push('\n') =~= "table inet "@ + TABLE@ + " {\n"@);
    assert(unlines(none) =~= Seq::empty());
    if let Some(quota) = networking.quota {
        lemma_unlines_one(quota_decl(quota as nat));
        lemma_quota_decl(quota as nat, rules, packet);
        assert(" kbytes }\n"@ =~= " kbytes }"@.push('\n'));
        assert(quota_decl(quota as nat).push('\n') =~= networking.quota_text());
    }
    assert(unlines(two) == networking.quota_text());
    lemma_unlines_one(blank);
    lemma_unlines_one(chain);
    lemma_unlines_one(policy);
    lemma_unlines_one(lo);
    lemma_unlines_add(seq![blank], seq![chain]);
    lemma_unlines_add(seq![blank] + seq![chain], seq![policy]);
    lemma_unlines_add(seq![blank] + seq![chain] + seq![policy], seq![lo]);
    assert(three =~= seq![blank] + seq![chain] + seq![policy] + seq![lo]);
    assert("\n  chain output {\n"@ =~= blank.push('\n') + chain.push('\n'));
    assert("    type filter hook output priority filter; policy accept;\n"@ =~= policy.push('\n'));
    assert("    oifname \"lo\" accept\n"@ =~= lo.push('\n'));
    assert(unlines(top_lines(networking)) =~= "table inet "@ + TABLE@ + " {\n"@
        + networking.quota_text() + "\n  chain output {\n"@
        + "    type filter hook output priority filter; policy accept;\n"@
        + "    oifname \"lo\" accept\n"@);
    lemma_free_of_add("table inet "@, TABLE@, '\n');
    lemma_is_line_add("table inet "@ + TABLE@, " {"@);
}

proof fn lemma_fate_step(
    line: Seq<char>,
    rest: Seq<Seq<char>>,
    rules: Seq<Seq<char>>,
    packet: Packet,
)
    ensures
        fate_from(seq![line] + rest, rules, packet) == (match decision(line, rules, packet) {
            Some(fate) => fate,
            None => fate_from(rest, rules, packet),
        }),
{
    let lines = seq![line] + rest;
    assert(lines[0] == line);
    assert(lines.skip(1) =~= rest);
}

proof fn lemma_top_fate(
    networking: Networking,
    rest: Seq<Seq<char>>,
    rules: Seq<Seq<char>>,
    packet: Packet,
)
    ensures
        fate_from(top_lines(networking) + rest, rules, packet) == (if packet.interface == "lo"@ {
            Fate::Accept
        } else {
            fate_from(rest, rules, packet)
        }),
        forall|i: int|
            0 <= i < top_lines(networking).len() ==> is_exceeded(
                #[trigger] top_lines(networking)[i],
                QUOTA_NAME@,
                packet,
            ) == (i == 1 && networking.quota is Some && packet.counted > networking.quota->Some_0
                * 1024),
{
    reveal_strlit("table inet ");
    reveal_strlit("pithos-egress");
    reveal_strlit(" {");
    reveal_strlit("{");
    reveal_strlit("}");
    reveal_strlit("accept");
    reveal_strlit("drop");
    reveal_strlit("accept;");
    reveal_strlit("  chain output {");
    reveal_strlit("  chain output");
    reveal_strlit("    type filter hook output priority filter; policy accept;");
    reveal_strlit("    type filter hook output priority filter; policy");
    lemma_keywords();
    let first = "table inet "@ + TABLE@ + " {"@;
    let blank = Seq::<char>::empty();
    let chain = "  chain output {"@;
    let policy = "    type filter hook output priority filter; policy accept;"@;
    let lo = "    oifname \"lo\" accept"@;
    assert(first =~= ("table inet "@ + TABLE@).push(' ') + "{"@);
    assert(chain =~= "  chain output"@.push(' ') + "{"@);
    assert(policy =~= "    type filter hook output priority filter; policy"@.push(' ')
        + "accept;"@);
    assert("accept;"@.len() != "accept"@.len() && "accept;"@.len() != "drop"@.len());
    assert(is_word("accept;"@));
    lemma_no_rule("table inet "@ + TABLE@, "{"@, rules, packet);
    lemma_no_rule("  chain output"@, "{"@, rules, packet);
    lemma_no_rule(
        "    type filter hook output priority filter; policy"@,
        "accept;"@,
        rules,
        packet,
    );
    lemma_no_words();
    lemma_loopback(rules, packet);
    lemma_last_word("table inet "@ + TABLE@, "{"@);
    lemma_last_word("  chain output"@, "{"@);
    lemma_last_word("    type filter hook output priority filter; policy"@, "accept;"@);
    lemma_loopback_words();
    assert("{"@ != "}"@ && "accept;"@.len() != "}"@.len() && "accept"@.len() != "}"@.len());
    let from_lo = seq![lo] + rest;
    let from_policy = seq![policy] + from_lo;
    let from_chain = seq![chain] + from_policy;
    let from_blank = seq![blank] + from_chain;
    lemma_fate_step(lo, rest, rules, packet);
    lemma_fate_step(policy, from_lo, rules, packet);
    lemma_fate_step(chain, from_policy, rules, packet);
    lemma_fate_step(blank, from_chain, rules, packet);
    match networking.quota {
        Some(quota) => {
            lemma_quota_decl(quota as nat, rules, packet);
            lemma_fate_step(quota_decl(quota as nat), from_blank, rules, packet);
            let from_quota = seq![quota_decl(quota as nat)] + from_blank;
            lemma_fate_step(first, from_quota, rules, packet);
            assert(top_lines(networking) + rest =~= seq![first] + from_quota);
        },
        None => {
            lemma_fate_step(first, from_blank, rules, packet);
            assert(top_lines(networking) + rest =~= seq![first] + from_blank);
        },
    }
    let all = top_lines(networking);
    assert forall|i: int| 0 <= i < all.len() implies is_exceeded(
        #[trigger] all[i],
        QUOTA_NAME@,
        packet,
    ) == (i == 1 && networking.quota is Some && packet.counted > networking.quota->Some_0
        * 1024) by {
        match networking.quota {
            Some(quota) => {
                assert(i == 0 || i == 1 || i == 2 || i == 3 || i == 4 || i == 5);
                assert(all[1] == quota_decl(quota as nat));
            },
            None => {
                assert(i == 0 || i == 1 || i == 2 || i == 3 || i == 4);
            },
        }
    }
}

proof fn lemma_last_word(front: Seq<char>, last: Seq<char>)
    requires
        is_word(last),
    ensures
        words(front.push(' ') + last).len() > 0,
        words(front.push(' ') + last).last() == last,
{
    lemma_words_add(front, last);
    lemma_one_word(last);
    assert((words(front) + seq![last]).last() == last);
}

proof fn lemma_loopback_words()
    ensures
        words("    oifname \"lo\" accept"@).len() > 0,
        words("    oifname \"lo\" accept"@).last() == "accept"@,
{
    reveal_strlit("    oifname \"lo\" accept");
    reveal_strlit("    oifname \"lo\"");
    reveal_strlit("accept");
    lemma_keywords();
    assert("    oifname \"lo\" accept"@ =~= "    oifname \"lo\""@.push(' ') + "accept"@);
    lemma_last_word("    oifname \"lo\""@, "accept"@);
}

/// A rule's last word, its verdict, is no closing brace.
proof fn lemma_not_exceeded(line: Seq<char>, packet: Packet)
    requires
        words(line).len() > 0,
        words(line).last() == "accept"@ || words(line).last() == "drop"@,
    ensures
        !is_exceeded(line, QUOTA_NAME@, packet),
{
    reveal_strlit("accept");
    reveal_strlit("drop");
    reveal_strlit("}");
    assert("accept"@.len() == 6 && "drop"@.len() == 4 && "}"@.len() == 1);
    let list = words(line);
    if list.len() == 7 {
        assert(list[6] == list.last());
    }
}

proof fn lemma_private_goes_to(packet: Packet)
    ensures
        is_private(packet) == (if packet.v6 {
            goes_to(v6_ranges(), packet)
        } else {
            goes_to(private_ranges(), packet)
        }),
{
    let four = private_ranges();
    let six = v6_ranges();
    assert(four[0] == "10.0.0.0/8"@ && four[1] == "172.16.0.0/12"@ && four[2]
        == "192.168.0.0/16"@ && four[3] == "169.254.0.0/16"@);
    assert(six[0] == "fc00::/7"@ && six[1] == "fe80::/10"@);
    if goes_to(four, packet) {
        let i = choose|i: int| 0 <= i < four.len() && packet.places.contains(#[trigger] four[i]);
        assert(i == 0 || i == 1 || i == 2 || i == 3);
    }
    if goes_to(six, packet) {
        let i = choose|i: int| 0 <= i < six.len() && packet.places.contains(#[trigger] six[i]);
        assert(i == 0 || i == 1);
    }
}

proof fn lemma_private_fate(
    networking: Networking,
    rest: Seq<Seq<char>>,
    rules: Seq<Seq<char>>,
    packet: Packet,
)
    ensures
        fate_from(private_lines(networking) + rest, rules, packet) == (
        if networking.block_private && is_private(packet) {
            if packet.port == 53 && (packet.protocol == "tcp"@ || packet.protocol == "udp"@) {
                Fate::Accept
            } else {
                Fate::Drop
            }
        } else {
            fate_from(rest, rules, packet)
        }),
        forall|i: int|
            0 <= i < private_lines(networking).len() ==> !is_exceeded(
                #[trigger] private_lines(networking)[i],
                QUOTA_NAME@,
                packet,
            ),
{
    let all = private_lines(networking);
    if networking.block_private {
        lemma_keywords();
        lemma_ranges();
        lemma_private_goes_to(packet);
        lemma_accept_rule("ip"@, private_ranges(), "tcp"@, "53"@, rules, packet);
        lemma_accept_rule("ip"@, private_ranges(), "udp"@, "53"@, rules, packet);
        lemma_drop_rule("ip"@, private_ranges(), rules, packet);
        lemma_accept_rule("ip6"@, v6_ranges(), "tcp"@, "53"@, rules, packet);
        lemma_accept_rule("ip6"@, v6_ranges(), "udp"@, "53"@, rules, packet);
        lemma_drop_rule("ip6"@, v6_ranges(), rules, packet);
        let six = seq![all[5]] + rest;
        let five = seq![all[4]] + six;
        let four = seq![all[3]] + five;
        let three = seq![all[2]] + four;
        let two = seq![all[1]] + three;
        lemma_fate_step(all[5], rest, rules, packet);
        lemma_fate_step(all[4], six, rules, packet);
        lemma_fate_step(all[3], five, rules, packet);
        lemma_fate_step(all[2], four, rules, packet);
        lemma_fate_step(all[1], three, rules, packet);
        lemma_fate_step(all[0], two, rules, packet);
        assert(all + rest =~= seq![all[0]] + two);
        reveal_strlit(" accept");
        reveal_strlit("accept");
        let tcp = "tcp"@ + " dport "@ + "53"@;
        let udp = "udp"@ + " dport "@ + "53"@;
        assert(port_tail("tcp"@, "53"@) =~= tcp.push(' ') + "accept"@);
        assert(port_tail("udp"@, "53"@) =~= udp.push(' ') + "accept"@);
        lemma_set_verdict("ip"@, private_ranges(), tcp, "accept"@);
        lemma_set_verdict("ip"@, private_ranges(), udp, "accept"@);
        lemma_set_verdict("ip"@, private_ranges(), udp, "drop"@);
        lemma_set_verdict("ip6"@, v6_ranges(), tcp, "accept"@);
        lemma_set_verdict("ip6"@, v6_ranges(), udp, "accept"@);
        lemma_set_verdict("ip6"@, v6_ranges(), udp, "drop"@);
        assert forall|i: int| 0 <= i < all.len() implies !is_exceeded(
            #[trigger] all[i],
            QUOTA_NAME@,
            packet,
        ) by {
            assert(i == 0 || i == 1 || i == 2 || i == 3 || i == 4 || i == 5);
            lemma_not_exceeded(all[i], packet);
        }
    } else {
        assert(all + rest =~= rest);
    }
}

proof fn lemma_free_fate(
    family: Seq<char>,
    addresses: Seq<Seq<char>>,
    rest: Seq<Seq<char>>,
    rules: Seq<Seq<char>>,
    packet: Packet,
)
    requires
        family == "ip"@ || family == "ip6"@,
        are_addresses(addresses),
    ensures
        fate_from(free_lines(family, addresses) + rest, rules, packet) == (if packet.v6 == (family
            == "ip6"@) && packet.protocol == "tcp"@ && packet.port == 443 && goes_to(
            addresses,
            packet,
        ) {
            Fate::Accept
        } else {
            fate_from(rest, rules, packet)
        }),
        forall|i: int|
            0 <= i < free_lines(family, addresses).len() ==> !is_exceeded(
                #[trigger] free_lines(family, addresses)[i],
                QUOTA_NAME@,
                packet,
            ),
{
    if addresses.len() > 0 {
        lemma_keywords();
        lemma_accept_rule(family, addresses, "tcp"@, "443"@, rules, packet);
        let line = set_line(family, addresses, port_tail("tcp"@, "443"@));
        lemma_fate_step(line, rest, rules, packet);
        reveal_strlit(" accept");
        reveal_strlit("accept");
        let tcp = "tcp"@ + " dport "@ + "443"@;
        assert(port_tail("tcp"@, "443"@) =~= tcp.push(' ') + "accept"@);
        lemma_set_verdict(family, addresses, tcp, "accept"@);
        lemma_not_exceeded(line, packet);
    } else {
        assert(free_lines(family, addresses) + rest =~= rest);
    }
}

proof fn lemma_limit_fate(networking: Networking, rules: Seq<Seq<char>>, packet: Packet)
    requires
        packet.sent <= u64::MAX,
    ensures
        fate_from(limit_lines(networking), rules, packet) == (if packet.known
            && networking.payload_size is Some && packet.sent > networking.payload_size->Some_0
            * 1024 {
            Fate::Drop
        } else if networking.quota is Some && used_up(rules, QUOTA_NAME@, packet) {
            Fate::Drop
        } else {
            Fate::Accept
        }),
        forall|i: int|
            0 <= i < limit_lines(networking).len() ==> !is_exceeded(
                #[trigger] limit_lines(networking)[i],
                QUOTA_NAME@,
                packet,
            ),
{
    reveal_strlit("  }");
    reveal_strlit(" ");
    reveal_strlit("}");
    reveal_strlit("accept");
    reveal_strlit("drop");
    lemma_keywords();
    let none = Seq::<Seq<char>>::empty();
    assert("  }"@ =~= seq![' '].push(' ') + "}"@);
    lemma_no_rule(seq![' '], "}"@, rules, packet);
    lemma_one_word("}"@);
    lemma_words_space("}"@);
    lemma_words_space(seq![' '] + "}"@);
    assert("  }"@ =~= seq![' '] + (seq![' '] + "}"@));
    lemma_fate_step("}"@, none, rules, packet);
    lemma_fate_step("  }"@, seq!["}"@] + none, rules, packet);
    let bottom = seq!["  }"@] + (seq!["}"@] + none);
    let one = match networking.payload_size {
        Some(size) => seq![payload_line(crate::networking::kib_in_bytes(size as nat))],
        None => none,
    };
    let two = if networking.quota is Some {
        seq![quota_rule()]
    } else {
        none
    };
    let all = limit_lines(networking);
    assert(all =~= one + (two + bottom));
    if networking.quota is Some {
        lemma_quota_rule(rules, packet);
        lemma_not_exceeded(quota_rule(), packet);
        lemma_fate_step(quota_rule(), bottom, rules, packet);
    } else {
        assert(two + bottom =~= bottom);
    }
    match networking.payload_size {
        Some(size) => {
            let limit = crate::networking::kib_in_bytes(size as nat);
            lemma_payload_rule(limit, rules, packet);
            lemma_not_exceeded(payload_line(limit), packet);
            lemma_fate_step(payload_line(limit), two + bottom, rules, packet);
        },
        None => {
            assert(one + (two + bottom) =~= two + bottom);
        },
    }
    assert forall|i: int| 0 <= i < all.len() implies !is_exceeded(
        #[trigger] all[i],
        QUOTA_NAME@,
        packet,
    ) by {
        if i < one.len() {
            assert(all[i] == one[i]);
        } else if i < one.len() + two.len() {
            assert(all[i] == two[i - one.len()]);
        } else {
            assert(all[i] == bottom[i - one.len() - two.len()]);
        }
    }
}

spec fn rule_lines(
    networking: Networking,
    v4: Seq<Seq<char>>,
    v6: Seq<Seq<char>>,
) -> Seq<Seq<char>> {
    top_lines(networking) + (private_lines(networking) + (free_lines("ip"@, v4) + (free_lines(
        "ip6"@,
        v6,
    ) + limit_lines(networking))))
}

proof fn lemma_regrouped(
    a: Seq<char>,
    b: Seq<char>,
    c: Seq<char>,
    d: Seq<char>,
    e: Seq<char>,
    f: Seq<char>,
    g: Seq<char>,
)
    ensures
        a + b + c + d + e + f + g == a + (b + (c + (d + (e + f + g)))),
{
    assert(a + b + c + d + e + f + g =~= a + (b + (c + (d + (e + f + g)))));
}

proof fn lemma_rule_lines(
    networking: Networking,
    v4: Seq<Seq<char>>,
    v6: Seq<Seq<char>>,
    packet: Packet,
)
    requires
        are_addresses(v4),
        are_addresses(v6),
    ensures
        lines_of(networking.rules_text(v4, v6)) == rule_lines(networking, v4, v6),
{
    let top = top_lines(networking);
    let private = private_lines(networking);
    let four = free_lines("ip"@, v4);
    let six = free_lines("ip6"@, v6);
    let limits = limit_lines(networking);
    let rules = rule_lines(networking, v4, v6);
    lemma_top_lines(networking, rules, packet);
    lemma_private_lines(networking);
    lemma_free_lines("ip"@, v4);
    lemma_free_lines("ip6"@, v6);
    lemma_limit_lines(networking, rules, packet);
    lemma_unlines_add(six, limits);
    lemma_unlines_add(four, six + limits);
    lemma_unlines_add(private, four + (six + limits));
    lemma_unlines_add(top, private + (four + (six + limits)));
    lemma_regrouped(
        unlines(top),
        unlines(private),
        unlines(four),
        unlines(six),
        networking.payload_text(),
        networking.quota_drop_text(),
        "  }\n}\n"@,
    );
    assert(networking.rules_text(v4, v6) == unlines(rules));
    assert forall|i: int| 0 <= i < rules.len() implies is_line(#[trigger] rules[i]) by {
        lemma_in_which(top, private, four, six, limits, i);
    }
    lemma_lines_of_unlines(rules);
}

proof fn lemma_used_up(
    networking: Networking,
    v4: Seq<Seq<char>>,
    v6: Seq<Seq<char>>,
    packet: Packet,
)
    requires
        are_addresses(v4),
        are_addresses(v6),
        packet.sent <= u64::MAX,
    ensures
        used_up(rule_lines(networking, v4, v6), QUOTA_NAME@, packet) == (networking.quota is Some
            && packet.counted > networking.quota->Some_0 * 1024),
{
    let top = top_lines(networking);
    let private = private_lines(networking);
    let four = free_lines("ip"@, v4);
    let six = free_lines("ip6"@, v6);
    let limits = limit_lines(networking);
    let rules = rule_lines(networking, v4, v6);
    lemma_limit_fate(networking, rules, packet);
    lemma_free_fate("ip6"@, v6, limits, rules, packet);
    lemma_free_fate("ip"@, v4, six + limits, rules, packet);
    lemma_private_fate(networking, four + (six + limits), rules, packet);
    lemma_top_fate(networking, private + (four + (six + limits)), rules, packet);
    if used_up(rules, QUOTA_NAME@, packet) {
        let i = choose|i: int|
            0 <= i < rules.len() && is_exceeded(#[trigger] rules[i], QUOTA_NAME@, packet);
        lemma_in_which(top, private, four, six, limits, i);
    }
    if networking.quota is Some && packet.counted > networking.quota->Some_0 * 1024 {
        lemma_in_which(top, private, four, six, limits, 1);
        assert(is_exceeded(top[1], QUOTA_NAME@, packet));
        assert(is_exceeded(rules[1], QUOTA_NAME@, packet));
    }
}

/// The rules do to every packet what they are for: loopback is free, private
/// destinations are reached for name lookups alone where they are blocked,
/// HTTPS to the free addresses is not limited, and the payload limit and the
/// quota hold for all the rest.
pub proof fn lemma_rules_filter_packets(
    networking: &Networking,
    v4: Seq<Seq<char>>,
    v6: Seq<Seq<char>>,
    packet: Packet,
)
    requires
        are_addresses(v4),
        are_addresses(v6),
        packet.sent <= u64::MAX,
    ensures
        fate(networking.rules_text(v4, v6), packet) == networking.intended(v4, v6, packet),
{
    let private = private_lines(*networking);
    let four = free_lines("ip"@, v4);
    let six = free_lines("ip6"@, v6);
    let limits = limit_lines(*networking);
    let rules = rule_lines(*networking, v4, v6);
    lemma_rule_lines(*networking, v4, v6, packet);
    lemma_used_up(*networking, v4, v6, packet);
    lemma_keywords();
    lemma_limit_fate(*networking, rules, packet);
    lemma_free_fate("ip6"@, v6, limits, rules, packet);
    lemma_free_fate("ip"@, v4, six + limits, rules, packet);
    lemma_private_fate(*networking, four + (six + limits), rules, packet);
    lemma_top_fate(*networking, private + (four + (six + limits)), rules, packet);
}

proof fn lemma_in_which(
    a: Seq<Seq<char>>,
    b: Seq<Seq<char>>,
    c: Seq<Seq<char>>,
    d: Seq<Seq<char>>,
    e: Seq<Seq<char>>,
    i: int,
)
    requires
        0 <= i < (a + (b + (c + (d + e)))).len(),
    ensures
        ({
            let item = (a + (b + (c + (d + e))))[i];
            let j = i - a.len();
            let k = j - b.len();
            let l = k - c.len();
            let m = l - d.len();
            if j < 0 {
                item == a[i]
            } else if k < 0 {
                item == b[j]
            } else if l < 0 {
                item == c[k]
            } else if m < 0 {
                item == d[l]
            } else {
                m < e.len() && item == e[m]
            }
        }),
{
}

} // verus!
