//! Egress rules: which hosts a session reaches freely, and the nftables
//! program that limits the rest.

pub mod cache;
pub mod enforcement;
pub mod hook;

use crate::config::{default_whitelist, default_whitelist_hosts, Networking};
use crate::order::{is_sorted_unique, sorted_unique};
use crate::podman::push_all;
use crate::text::{
    cat2, cat3, cat5, contains_part, decimal, decimal_text, ends_with, free_of, has_suffix, join,
    joined, lemma_contains_inside, lemma_free_of_add, lemma_joined_free, lemma_line_between,
    lemma_lines_free, lemma_nothing_replaced, lemma_replaced_char_free, lemma_texts_push,
    lemma_trimmed_contains, lemma_trimmed_free, lines, lines_of, occurs_at, replace_char,
    replaced_char, texts, trim, trimmed, CharSet,
};
use vstd::prelude::*;
use vstd::string::*;

verus! {

pub const TABLE: &'static str = "pithos-egress";

pub const QUOTA_NAME: &'static str = "global_egress";

/// The variable that carries the rules into the container, whose entrypoint
/// loads them before it drops its privileges.
pub const RULES_ENV: &'static str = "PITHOS_EGRESS_RULES";

/// The IPv4 ranges that are out of reach while private destinations are
/// blocked. The rules and the check on them share this list.
pub open spec fn private_ranges() -> Seq<Seq<char>> {
    seq!["10.0.0.0/8"@, "172.16.0.0/12"@, "192.168.0.0/16"@, "169.254.0.0/16"@]
}

pub fn private_v4_ranges() -> (r: Vec<String>)
    ensures
        texts(r@) == private_ranges(),
{
    let r = vec![
        "10.0.0.0/8".to_owned(),
        "172.16.0.0/12".to_owned(),
        "192.168.0.0/16".to_owned(),
        "169.254.0.0/16".to_owned(),
    ];
    assert(texts(r@) =~= private_ranges());
    r
}

/// The bytes in `kib` KiB, as far as a `u64` holds them.
pub open spec fn kib_in_bytes(kib: nat) -> nat {
    if kib * 1024 <= u64::MAX {
        kib * 1024
    } else {
        u64::MAX as nat
    }
}

impl Networking {
    /// The hosts that the limits do not touch: `defaults`, where the
    /// configuration wants them, and the configured ones.
    pub open spec fn free_hosts(&self, defaults: Seq<Seq<char>>) -> Seq<Seq<char>> {
        (if self.use_default_whitelist {
            defaults
        } else {
            Seq::empty()
        }) + texts(self.whitelist@)
    }

    pub fn whitelist_with(&self, defaults: &[String]) -> (r: Vec<String>)
        ensures
            texts(r@) == self.free_hosts(texts(defaults@)),
    {
        let mut hosts: Vec<String> = Vec::new();
        assert(texts(hosts@) =~= Seq::empty());
        if self.use_default_whitelist {
            push_all(&mut hosts, defaults);
            assert(texts(hosts@) =~= texts(defaults@));
        }
        push_all(&mut hosts, self.whitelist.as_slice());
        hosts
    }

    pub fn effective_whitelist(&self) -> (r: Vec<String>)
        ensures
            texts(r@) == self.free_hosts(default_whitelist_hosts()),
    {
        let defaults = default_whitelist();
        self.whitelist_with(defaults.as_slice())
    }

    pub open spec fn quota_text(&self) -> Seq<char> {
        match self.quota {
            Some(quota) => "  quota "@ + QUOTA_NAME@ + " { over "@ + decimal_text(quota as nat)
                + " kbytes }\n"@,
            None => Seq::empty(),
        }
    }

    /// Private destinations are dropped, but for name lookups.
    pub open spec fn private_text(&self) -> Seq<char> {
        if self.block_private {
            let ranges = joined(private_ranges(), ", "@);
            "    ip daddr { "@ + ranges + " } tcp dport 53 accept\n"@ + "    ip daddr { "@ + ranges
                + " } udp dport 53 accept\n"@ + "    ip daddr { "@ + ranges + " } drop\n"@
                + "    ip6 daddr { fc00::/7, fe80::/10 } tcp dport 53 accept\n"@
                + "    ip6 daddr { fc00::/7, fe80::/10 } udp dport 53 accept\n"@
                + "    ip6 daddr { fc00::/7, fe80::/10 } drop\n"@
        } else {
            Seq::empty()
        }
    }

    pub open spec fn payload_text(&self) -> Seq<char> {
        match self.payload_size {
            Some(size) => "    ct state established,related ct original bytes > "@ + decimal_text(
                kib_in_bytes(size as nat),
            ) + " drop\n"@,
            None => Seq::empty(),
        }
    }

    pub open spec fn quota_drop_text(&self) -> Seq<char> {
        if self.quota is Some {
            "    quota name \""@ + QUOTA_NAME@ + "\" drop\n"@
        } else {
            Seq::empty()
        }
    }

    /// The rules of a session; `v4` and `v6` are the addresses of the hosts
    /// that the limits do not touch. Loopback comes first, and private drops
    /// come before those addresses, so that they win.
    pub open spec fn rules_text(&self, v4: Seq<Seq<char>>, v6: Seq<Seq<char>>) -> Seq<char> {
        "table inet "@ + TABLE@ + " {\n"@ + self.quota_text() + "\n  chain output {\n"@
            + "    type filter hook output priority filter; policy accept;\n"@
            + "    oifname \"lo\" accept\n"@ + self.private_text() + accept_text("ip"@, v4)
            + accept_text("ip6"@, v6) + self.payload_text() + self.quota_drop_text() + "  }\n}\n"@
    }

    fn quota_line(&self) -> (r: String)
        ensures
            r@ == self.quota_text(),
    {
        match self.quota {
            Some(quota) => {
                let number = decimal(quota);
                cat5("  quota ", QUOTA_NAME, " { over ", number.as_str(), " kbytes }\n")
            },
            None => String::new(),
        }
    }

    fn private_lines(&self) -> (r: String)
        ensures
            r@ == self.private_text(),
    {
        if !self.block_private {
            return String::new();
        }
        let list = private_v4_ranges();
        let ranges = join(list.as_slice(), ", ");
        let mut out = "    ip daddr { ".to_owned();
        out.append(ranges.as_str());
        out.append(" } tcp dport 53 accept\n");
        out.append("    ip daddr { ");
        out.append(ranges.as_str());
        out.append(" } udp dport 53 accept\n");
        out.append("    ip daddr { ");
        out.append(ranges.as_str());
        out.append(" } drop\n");
        out.append("    ip6 daddr { fc00::/7, fe80::/10 } tcp dport 53 accept\n");
        out.append("    ip6 daddr { fc00::/7, fe80::/10 } udp dport 53 accept\n");
        out.append("    ip6 daddr { fc00::/7, fe80::/10 } drop\n");
        out
    }

    fn payload_line(&self) -> (r: String)
        ensures
            r@ == self.payload_text(),
    {
        match self.payload_size {
            Some(size) => {
                let bytes: u64 = if size <= u64::MAX / 1024 {
                    size * 1024
                } else {
                    u64::MAX
                };
                let number = decimal(bytes);
                cat3(
                    "    ct state established,related ct original bytes > ",
                    number.as_str(),
                    " drop\n",
                )
            },
            None => String::new(),
        }
    }

    fn quota_drop_line(&self) -> (r: String)
        ensures
            r@ == self.quota_drop_text(),
    {
        if self.quota.is_some() {
            cat3("    quota name \"", QUOTA_NAME, "\" drop\n")
        } else {
            String::new()
        }
    }

    /// Renders the rules of a session. The addresses are in text form.
    pub fn render_rules(&self, v4_whitelist: &[String], v6_whitelist: &[String]) -> (r: String)
        ensures
            r@ == self.rules_text(texts(v4_whitelist@), texts(v6_whitelist@)),
    {
        let mut rules = cat3("table inet ", TABLE, " {\n");
        rules.append(self.quota_line().as_str());
        rules.append("\n  chain output {\n");
        rules.append("    type filter hook output priority filter; policy accept;\n");
        rules.append("    oifname \"lo\" accept\n");
        rules.append(self.private_lines().as_str());
        rules.append(accept_line("ip", v4_whitelist).as_str());
        rules.append(accept_line("ip6", v6_whitelist).as_str());
        rules.append(self.payload_line().as_str());
        rules.append(self.quota_drop_line().as_str());
        rules.append("  }\n}\n");
        rules
    }

    /// The variable that hands the rules to the container, where the
    /// configuration limits sessions at all.
    pub fn rules_variable(&self, v4_whitelist: &[String], v6_whitelist: &[String]) -> (r: Option<
        (String, String),
    >)
        ensures
            (match r {
                Some(pair) => self.enabled && pair.0@ == RULES_ENV@ && pair.1@ == serialized(
                    self.rules_text(texts(v4_whitelist@), texts(v6_whitelist@)),
                ),
                None => !self.enabled,
            }),
    {
        if self.enabled {
            let rules = self.render_rules(v4_whitelist, v6_whitelist);
            Some((RULES_ENV.to_owned(), serialize_rules(rules.as_str())))
        } else {
            None
        }
    }
}

/// The rule that lets HTTPS through to `addresses`, where there are any.
pub open spec fn accept_text(family: Seq<char>, addresses: Seq<Seq<char>>) -> Seq<char> {
    if addresses.len() == 0 {
        Seq::empty()
    } else {
        "    "@ + family + " daddr { "@ + joined(addresses, ", "@) + " } tcp dport 443 accept\n"@
    }
}

fn accept_line(family: &str, addresses: &[String]) -> (r: String)
    ensures
        r@ == accept_text(family@, texts(addresses@)),
{
    if addresses.len() == 0 {
        return String::new();
    }
    let list = join(addresses, ", ");
    cat5("    ", family, " daddr { ", list.as_str(), " } tcp dport 443 accept\n")
}

/// A line of rules without its surroundings and its quotation marks.
pub open spec fn bare_line(line: Seq<char>) -> Seq<char> {
    replaced_char(trimmed(line, CharSet::WhiteSpace), '"', ""@)
}

/// What a line contributes: nothing, or one statement with its separator.
pub open spec fn statement(line: Seq<char>) -> Seq<Seq<char>> {
    let bare = bare_line(line);
    if bare.len() == 0 {
        Seq::empty()
    } else if has_suffix(bare, "{"@) || has_suffix(bare, ";"@) {
        seq![bare]
    } else {
        seq![bare + ";"@]
    }
}

pub open spec fn statements(lines: Seq<Seq<char>>) -> Seq<Seq<char>>
    decreases lines.len(),
{
    if lines.len() == 0 {
        Seq::empty()
    } else {
        statements(lines.drop_last()) + statement(lines.last())
    }
}

/// Rules on one line and without quotation marks.
pub open spec fn serialized(rules: Seq<char>) -> Seq<char> {
    joined(statements(lines_of(rules)), " "@)
}

/// Puts rules on one line, so that a variable can carry them. An opening
/// brace needs no separator; a closing one is a statement like any other.
pub fn serialize_rules(rules: &str) -> (r: String)
    ensures
        r@ == serialized(rules@),
{
    let list = lines(rules);
    let ghost all = lines_of(rules@);
    let mut out: Vec<String> = Vec::new();
    let mut i: usize = 0;
    assert(all.take(0) =~= Seq::empty());
    assert(texts(out@) =~= Seq::empty());
    while i < list.len()
        invariant
            i <= list@.len(),
            all == texts(list@),
            texts(out@) == statements(all.take(i as int)),
        decreases list@.len() - i,
    {
        broadcast use lemma_texts_push;

        proof {
            assert(all.take(i + 1).drop_last() =~= all.take(i as int));
            assert(all.take(i + 1).last() == list@[i as int]@);
        }
        let ghost before = texts(out@);
        let inner = trim(list[i].as_str());
        let line = replace_char(inner.as_str(), '"', "");
        if !line.as_str().is_empty() {
            if ends_with(line.as_str(), "{") || ends_with(line.as_str(), ";") {
                out.push(line);
            } else {
                out.push(cat2(line.as_str(), ";"));
            }
        }
        assert(texts(out@) =~= before + statement(all[i as int]));
        i += 1;
    }
    assert(all.take(i as int) =~= all);
    join(out.as_slice(), " ")
}

proof fn lemma_statements_free(lines: Seq<Seq<char>>)
    requires
        forall|i: int| 0 <= i < lines.len() ==> free_of(#[trigger] lines[i], '\n'),
    ensures
        forall|i: int|
            0 <= i < statements(lines).len() ==> free_of(#[trigger] statements(lines)[i], '\n')
                && free_of(statements(lines)[i], '"'),
    decreases lines.len(),
{
    if lines.len() > 0 {
        let front = lines.drop_last();
        assert forall|i: int| 0 <= i < front.len() implies free_of(#[trigger] front[i], '\n') by {
            assert(free_of(lines[i], '\n'));
        }
        lemma_statements_free(front);
        let line = lines.last();
        assert(free_of(lines[lines.len() - 1], '\n'));
        let inner = trimmed(line, CharSet::WhiteSpace);
        lemma_trimmed_free(line, CharSet::WhiteSpace, '\n');
        reveal_strlit("");
        reveal_strlit(";");
        lemma_replaced_char_free(inner, '"', ""@, '\n');
        lemma_replaced_char_free(inner, '"', ""@, '"');
        let bare = bare_line(line);
        lemma_free_of_add(bare, ";"@, '\n');
        lemma_free_of_add(bare, ";"@, '"');
        let before = statements(front);
        let all = statements(lines);
        assert forall|i: int| 0 <= i < all.len() implies free_of(#[trigger] all[i], '\n')
            && free_of(all[i], '"') by {
            if i < before.len() {
                assert(all[i] == before[i]);
                assert(free_of(before[i], '\n'));
            } else {
                assert(all[i] == statement(line)[i - before.len()]);
            }
        }
    }
}

/// Whatever the rules, they travel on one line and without quotation marks.
pub proof fn lemma_serialized_is_one_line(rules: Seq<char>)
    ensures
        free_of(serialized(rules), '\n'),
        free_of(serialized(rules), '"'),
{
    lemma_lines_free(rules);
    lemma_statements_free(lines_of(rules));
    reveal_strlit(" ");
    lemma_joined_free(statements(lines_of(rules)), " "@, '\n');
    lemma_joined_free(statements(lines_of(rules)), " "@, '"');
}

/// A ruleset shows the drops of every private range.
pub open spec fn shows_private_drops(ruleset: Seq<char>) -> bool {
    contains_part(ruleset, "drop"@) && forall|i: int|
        0 <= i < private_ranges().len() ==> contains_part(ruleset, #[trigger] private_ranges()[i])
}

proof fn lemma_joined_contains(list: Seq<Seq<char>>, separator: Seq<char>, i: int)
    requires
        0 <= i < list.len(),
    ensures
        contains_part(joined(list, separator), list[i]),
    decreases list.len(),
{
    let none = Seq::<char>::empty();
    let all = joined(list, separator);
    if list.len() == 1 {
        assert(all.subrange(0, all.len() as int) =~= list[i]);
        assert(occurs_at(all, list[i], 0));
    } else if i == list.len() - 1 {
        let before = joined(list.drop_last(), separator) + separator;
        assert(list[i].subrange(0, list[i].len() as int) =~= list[i]);
        assert(occurs_at(list[i], list[i], 0));
        lemma_contains_inside(before, list[i], none, list[i]);
        assert(before + list[i] + none =~= all);
    } else {
        lemma_joined_contains(list.drop_last(), separator, i);
        lemma_contains_inside(none, joined(list.drop_last(), separator), separator + list.last(), list[i]);
        assert(none + joined(list.drop_last(), separator) + (separator + list.last()) =~= all);
    }
}

proof fn lemma_statement_stays(lines: Seq<Seq<char>>, line: Seq<char>, part: Seq<char>)
    requires
        lines.contains(line),
        contains_part(bare_line(line), part),
        part.len() > 0,
    ensures
        contains_part(joined(statements(lines), " "@), part),
{
    let i = choose|i: int| 0 <= i < lines.len() && lines[i] == line;
    lemma_statement_listed(lines, i);
    let all = statements(lines);
    let k = choose|k: int| 0 <= k < all.len() && all[k] == statement(line)[0];
    let none = Seq::<char>::empty();
    let bare = bare_line(line);
    lemma_contains_inside(none, bare, ";"@, part);
    assert(none + bare + ";"@ =~= bare + ";"@);
    assert(contains_part(all[k], part));
    lemma_joined_keeps(all, " "@, k, part);
}

proof fn lemma_statement_listed(lines: Seq<Seq<char>>, i: int)
    requires
        0 <= i < lines.len(),
        bare_line(lines[i]).len() > 0,
    ensures
        statements(lines).contains(statement(lines[i])[0]),
    decreases lines.len(),
{
    let front = lines.drop_last();
    let before = statements(front);
    let all = statements(lines);
    if i == lines.len() - 1 {
        assert(all[before.len() as int] == statement(lines[i])[0]);
    } else {
        assert(front[i] == lines[i]);
        lemma_statement_listed(front, i);
        let k = choose|k: int| 0 <= k < before.len() && before[k] == statement(lines[i])[0];
        assert(all[k] == before[k]);
    }
}

proof fn lemma_joined_keeps(list: Seq<Seq<char>>, separator: Seq<char>, i: int, part: Seq<char>)
    requires
        0 <= i < list.len(),
        contains_part(list[i], part),
    ensures
        contains_part(joined(list, separator), part),
{
    lemma_joined_contains(list, separator, i);
    let all = joined(list, separator);
    let at = choose|at: int| occurs_at(all, list[i], at);
    let before = all.take(at);
    let after = all.skip(at + list[i].len());
    lemma_contains_inside(before, list[i], after, part);
    assert(before + list[i] + after =~= all);
}

/// The line that drops what goes to a private range.
spec fn drop_line() -> Seq<char> {
    "    ip daddr { "@ + joined(private_ranges(), ", "@) + " } drop\n"@.drop_last()
}

proof fn lemma_drop_line(part: Seq<char>)
    requires
        part == "drop"@ || private_ranges().contains(part),
    ensures
        free_of(drop_line(), '\n'),
        free_of(drop_line(), '"'),
        drop_line().last() != '\r',
        contains_part(drop_line(), part),
        part.len() > 0,
        !CharSet::WhiteSpace.holds(part[0]),
        !CharSet::WhiteSpace.holds(part.last()),
{
    reveal_strlit("    ip daddr { ");
    reveal_strlit(" } drop\n");
    reveal_strlit("drop");
    reveal_strlit(", ");
    reveal_strlit("10.0.0.0/8");
    reveal_strlit("172.16.0.0/12");
    reveal_strlit("192.168.0.0/16");
    reveal_strlit("169.254.0.0/16");
    let first = "    ip daddr { "@;
    let ranges = joined(private_ranges(), ", "@);
    let last = " } drop\n"@.drop_last();
    assert forall|i: int| 0 <= i < private_ranges().len() implies free_of(
        #[trigger] private_ranges()[i],
        '\n',
    ) && free_of(private_ranges()[i], '"') by {}
    lemma_joined_free(private_ranges(), ", "@, '\n');
    lemma_joined_free(private_ranges(), ", "@, '"');
    lemma_free_of_add(first, ranges, '\n');
    lemma_free_of_add(first, ranges, '"');
    lemma_free_of_add(first + ranges, last, '\n');
    lemma_free_of_add(first + ranges, last, '"');
    assert(drop_line().last() == last.last());
    let none = Seq::<char>::empty();
    if part == "drop"@ {
        assert(last.subrange(3, 7) =~= "drop"@);
        assert(occurs_at(last, "drop"@, 3));
        lemma_contains_inside(first + ranges, last, none, part);
        assert(first + ranges + last + none =~= drop_line());
    } else {
        let i = choose|i: int| 0 <= i < private_ranges().len() && private_ranges()[i] == part;
        lemma_joined_contains(private_ranges(), ", "@, i);
        lemma_contains_inside(first, ranges, last, part);
    }
}

/// The same holds of the rules on one line, as the container is given them.
proof fn lemma_serialized_pass_the_check(
    networking: &Networking,
    v4: Seq<Seq<char>>,
    v6: Seq<Seq<char>>,
)
    requires
        networking.block_private,
    ensures
        shows_private_drops(serialized(networking.rules_text(v4, v6))),
{
    reveal_strlit(" } udp dport 53 accept\n");
    reveal_strlit(" } drop\n");
    let ranges = joined(private_ranges(), ", "@);
    let rules = networking.rules_text(v4, v6);
    let udp = " } udp dport 53 accept\n"@;
    let before = "table inet "@ + TABLE@ + " {\n"@ + networking.quota_text()
        + "\n  chain output {\n"@
        + "    type filter hook output priority filter; policy accept;\n"@
        + "    oifname \"lo\" accept\n"@ + ("    ip daddr { "@ + ranges
        + " } tcp dport 53 accept\n"@ + "    ip daddr { "@ + ranges + udp.drop_last());
    let after = "    ip6 daddr { fc00::/7, fe80::/10 } tcp dport 53 accept\n"@
        + "    ip6 daddr { fc00::/7, fe80::/10 } udp dport 53 accept\n"@
        + "    ip6 daddr { fc00::/7, fe80::/10 } drop\n"@ + accept_text("ip"@, v4) + accept_text(
        "ip6"@,
        v6,
    ) + networking.payload_text() + networking.quota_drop_text() + "  }\n}\n"@;
    let line = drop_line();
    assert(udp =~= udp.drop_last().push('\n'));
    assert(" } drop\n"@ =~= " } drop\n"@.drop_last().push('\n'));
    assert(rules =~= before.push('\n') + (line.push('\n') + after));
    assert forall|part: Seq<char>|
        part == "drop"@ || private_ranges().contains(part) implies #[trigger] contains_part(
        serialized(rules),
        part,
    ) by {
        lemma_drop_line(part);
        lemma_line_between(before, line, after);
        let inner = trimmed(line, CharSet::WhiteSpace);
        lemma_trimmed_contains(line, CharSet::WhiteSpace, part);
        lemma_trimmed_free(line, CharSet::WhiteSpace, '"');
        lemma_nothing_replaced(inner, '"', ""@);
        lemma_statement_stays(lines_of(rules), line, part);
    }
    assert forall|i: int| 0 <= i < private_ranges().len() implies contains_part(
        serialized(rules),
        #[trigger] private_ranges()[i],
    ) by {
        assert(private_ranges().contains(private_ranges()[i]));
    }
}

/// Where private destinations are blocked, the rules of a session are ones
/// that the check on a running session accepts, as they are rendered and as
/// they travel.
pub proof fn lemma_rules_pass_the_check(
    networking: &Networking,
    v4: Seq<Seq<char>>,
    v6: Seq<Seq<char>>,
)
    requires
        networking.block_private,
    ensures
        shows_private_drops(networking.rules_text(v4, v6)),
        shows_private_drops(serialized(networking.rules_text(v4, v6))),
{
    lemma_serialized_pass_the_check(networking, v4, v6);
    let ranges = joined(private_ranges(), ", "@);
    let head = "table inet "@ + TABLE@ + " {\n"@ + networking.quota_text()
        + "\n  chain output {\n"@
        + "    type filter hook output priority filter; policy accept;\n"@
        + "    oifname \"lo\" accept\n"@;
    let tail = accept_text("ip"@, v4) + accept_text("ip6"@, v6) + networking.payload_text()
        + networking.quota_drop_text() + "  }\n}\n"@;
    let private = networking.private_text();
    let rules = networking.rules_text(v4, v6);
    assert(rules =~= head + private + tail);
    let first = "    ip daddr { "@;
    let rest = " } tcp dport 53 accept\n"@ + "    ip daddr { "@ + ranges
        + " } udp dport 53 accept\n"@ + "    ip daddr { "@ + ranges + " } drop\n"@
        + "    ip6 daddr { fc00::/7, fe80::/10 } tcp dport 53 accept\n"@
        + "    ip6 daddr { fc00::/7, fe80::/10 } udp dport 53 accept\n"@
        + "    ip6 daddr { fc00::/7, fe80::/10 } drop\n"@;
    assert(private =~= first + ranges + rest);
    assert forall|i: int| 0 <= i < private_ranges().len() implies contains_part(
        rules,
        #[trigger] private_ranges()[i],
    ) by {
        lemma_joined_contains(private_ranges(), ", "@, i);
        lemma_contains_inside(first, ranges, rest, private_ranges()[i]);
        lemma_contains_inside(head, private, tail, private_ranges()[i]);
    }
    let last = "    ip6 daddr { fc00::/7, fe80::/10 } drop\n"@;
    reveal_strlit("    ip6 daddr { fc00::/7, fe80::/10 } drop\n");
    reveal_strlit("drop");
    assert(last.subrange(38, 42) =~= "drop"@);
    assert(occurs_at(last, "drop"@, 38));
    let before = first + ranges + (" } tcp dport 53 accept\n"@ + "    ip daddr { "@ + ranges
        + " } udp dport 53 accept\n"@ + "    ip daddr { "@ + ranges + " } drop\n"@
        + "    ip6 daddr { fc00::/7, fe80::/10 } tcp dport 53 accept\n"@
        + "    ip6 daddr { fc00::/7, fe80::/10 } udp dport 53 accept\n"@);
    lemma_contains_inside(before, last, Seq::empty(), "drop"@);
    assert(before + last + Seq::<char>::empty() =~= private);
    lemma_contains_inside(head, private, tail, "drop"@);
}

/// An address of a host.
pub enum Address {
    V4(u32),
    V6(u128),
}

/// What came back for one host.
pub enum Lookup {
    Found(Vec<Address>),
    NotFound(String),
    /// Nothing more will come back in time.
    OutOfTime,
}

pub open spec fn v4_of(list: Seq<Address>) -> Seq<u32>
    decreases list.len(),
{
    if list.len() == 0 {
        Seq::empty()
    } else {
        match list.last() {
            Address::V4(ip) => v4_of(list.drop_last()).push(ip),
            Address::V6(_) => v4_of(list.drop_last()),
        }
    }
}

pub open spec fn v6_of(list: Seq<Address>) -> Seq<u128>
    decreases list.len(),
{
    if list.len() == 0 {
        Seq::empty()
    } else {
        match list.last() {
            Address::V4(_) => v6_of(list.drop_last()),
            Address::V6(ip) => v6_of(list.drop_last()).push(ip),
        }
    }
}

/// The budget for all lookups together, in milliseconds.
pub const RESOLVE_TIMEOUT_MS: u64 = 3000;

/// The lookups of a session's hosts, as they come back.
pub struct Resolution {
    /// How many hosts have not come back.
    pub waiting: usize,
    pub v4: Vec<u32>,
    pub v6: Vec<u128>,
}

impl Resolution {
    pub fn start(hosts: usize) -> (r: Resolution)
        ensures
            r.waiting == hosts,
            r.v4@.len() == 0,
            r.v6@.len() == 0,
    {
        Resolution { waiting: hosts, v4: Vec::new(), v6: Vec::new() }
    }

    /// How long to wait for the next host, if for any.
    pub fn patience(&self, elapsed_ms: u64) -> (r: Option<u64>)
        ensures
            r == (if self.waiting > 0 && elapsed_ms < RESOLVE_TIMEOUT_MS {
                Some((RESOLVE_TIMEOUT_MS - elapsed_ms) as u64)
            } else {
                None
            }),
    {
        if self.waiting > 0 && elapsed_ms < RESOLVE_TIMEOUT_MS {
            Some(RESOLVE_TIMEOUT_MS - elapsed_ms)
        } else {
            None
        }
    }

    /// Takes in what came back; a host that has no address is warned about
    /// and passed over.
    pub fn record(&mut self, lookup: Lookup) -> (r: Option<String>)
        ensures
            (match lookup {
                Lookup::Found(list) => r is None && final(self).v4@ == old(self).v4@ + v4_of(list@)
                    && final(self).v6@ == old(self).v6@ + v6_of(list@),
                Lookup::NotFound(host) => r is Some && r->Some_0@
                    == "warning: cannot resolve whitelist host "@ + host@ + ", skipping"@
                    && final(self).v4@ == old(self).v4@ && final(self).v6@ == old(self).v6@,
                Lookup::OutOfTime => r is None && final(self).v4@ == old(self).v4@
                    && final(self).v6@ == old(self).v6@,
            }),
            final(self).waiting == (if lookup is OutOfTime || old(self).waiting == 0 {
                0
            } else {
                (old(self).waiting - 1) as usize
            }),
    {
        if self.waiting > 0 {
            self.waiting = self.waiting - 1;
        }
        match lookup {
            Lookup::Found(list) => {
                let ghost v4 = self.v4@;
                let ghost v6 = self.v6@;
                let ghost waiting = self.waiting;
                let mut i: usize = 0;
                assert(list@.take(0) =~= Seq::empty());
                assert(v4 + Seq::<u32>::empty() =~= v4);
                assert(v6 + Seq::<u128>::empty() =~= v6);
                while i < list.len()
                    invariant
                        i <= list@.len(),
                        self.waiting == waiting,
                        self.v4@ == v4 + v4_of(list@.take(i as int)),
                        self.v6@ == v6 + v6_of(list@.take(i as int)),
                    decreases list@.len() - i,
                {
                    proof {
                        assert(list@.take(i + 1).drop_last() =~= list@.take(i as int));
                        assert(list@.take(i + 1).last() == list@[i as int]);
                    }
                    match &list[i] {
                        Address::V4(ip) => self.v4.push(*ip),
                        Address::V6(ip) => self.v6.push(*ip),
                    }
                    i += 1;
                    assert(self.v4@ =~= v4 + v4_of(list@.take(i as int)));
                    assert(self.v6@ =~= v6 + v6_of(list@.take(i as int)));
                }
                assert(list@.take(i as int) =~= list@);
                None
            },
            Lookup::NotFound(host) => Some(
                cat3("warning: cannot resolve whitelist host ", host.as_str(), ", skipping"),
            ),
            Lookup::OutOfTime => {
                self.waiting = 0;
                None
            },
        }
    }

    /// The addresses in order, each once.
    pub fn finish(self) -> (r: (Vec<u32>, Vec<u128>))
        ensures
            is_sorted_unique(self.v4@, r.0@),
            is_sorted_unique(self.v6@, r.1@),
    {
        (sorted_unique(self.v4), sorted_unique(self.v6))
    }
}

} // verus!
