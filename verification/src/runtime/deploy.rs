//! The text the terminal side is given: each broker's Expert Advisor file
//! name and source header, and the per-terminal routing table.

use crate::contracts::config::BrokerConfig;
use crate::text::{chars_of, dec, digit_char, push_dec, push_str, string_of};
use vstd::prelude::*;

verus! {

/// An ASCII letter or digit.
pub open spec fn is_ascii_alnum(c: char) -> bool {
    ('0' <= c && c <= '9') || ('A' <= c && c <= 'Z') || ('a' <= c && c <= 'z')
}

/// A character of a broker name as it may stand in a file name: letters,
/// digits and `-` stay, anything else becomes `_`.
pub open spec fn ea_name_char(c: char) -> char {
    if is_ascii_alnum(c) || c == '-' {
        c
    } else {
        '_'
    }
}

/// `ea_name_char` applied to each character of `s`.
pub open spec fn ea_name_chars(s: Seq<char>) -> Seq<char>
    decreases s.len(),
{
    if s.len() == 0 {
        Seq::empty()
    } else {
        ea_name_chars(s.drop_last()).push(ea_name_char(s.last()))
    }
}

/// At most the first `n` characters of `s`.
pub open spec fn prefix_of(s: Seq<char>, n: nat) -> Seq<char> {
    if s.len() <= n {
        s
    } else {
        s.take(n as int)
    }
}

/// `TickCollector_<id>_<name>.mq5`, the name cut to 64 characters.
pub open spec fn broker_ea_text(id: nat, name: Seq<char>) -> Seq<char> {
    "TickCollector_"@ + dec(id) + "_"@ + ea_name_chars(prefix_of(name, 64)) + ".mq5"@
}

/// The file name of a broker's Expert Advisor.
pub fn broker_ea_name(broker: &BrokerConfig) -> (r: String)
    ensures
        r@ == broker_ea_text(broker.id as nat, broker.name@),
{
    let name = chars_of(broker.name.as_str());
    let n: usize = if name.len() <= 64 { name.len() } else { 64 };
    let mut out = string_of("TickCollector_");
    push_dec(&mut out, broker.id as u64);
    push_str(&mut out, "_");
    let ghost head = out@;
    let mut i: usize = 0;
    while i < n
        invariant
            n <= name@.len(),
            n == prefix_of(name@, 64).len(),
            name@ == broker.name@,
            i <= n,
            out@ == head + ea_name_chars(name@.take(i as int)),
        decreases n - i,
    {
        let c = name[i];
        let m = if ('0' <= c && c <= '9') || ('A' <= c && c <= 'Z') || ('a' <= c && c <= 'z') || c == '-' {
            c
        } else {
            '_'
        };
        proof {
            assert(name@.take(i as int + 1).drop_last() =~= name@.take(i as int));
        }
        let ghost before = out@;
        crate::text::push_char(&mut out, m);
        proof {
            assert(out@ =~= head + ea_name_chars(name@.take(i as int + 1)));
        }
        i = i + 1;
    }
    proof {
        assert(name@.take(n as int) =~= prefix_of(name@, 64));
    }
    push_str(&mut out, ".mq5");
    proof {
        assert(out@ =~= broker_ea_text(broker.id as nat, broker.name@));
    }
    out
}

/// A character as it may stand in a tab-separated field: tabs and line
/// breaks become spaces.
pub open spec fn tsv_char(c: char) -> char {
    if c == '\t' || c == '\r' || c == '\n' {
        ' '
    } else {
        c
    }
}

/// `tsv_char` applied to each character of `s`.
pub open spec fn tsv_text(s: Seq<char>) -> Seq<char>
    decreases s.len(),
{
    if s.len() == 0 {
        Seq::empty()
    } else {
        tsv_text(s.drop_last()).push(tsv_char(s.last()))
    }
}

fn push_tsv_safe(out: &mut String, value: &str)
    ensures
        final(out)@ == old(out)@ + tsv_text(value@),
{
    let v = chars_of(value);
    let ghost head = out@;
    let mut i: usize = 0;
    while i < v.len()
        invariant
            v@ == value@,
            i <= v@.len(),
            out@ == head + tsv_text(v@.take(i as int)),
        decreases v@.len() - i,
    {
        let c = v[i];
        let m = if c == '\t' || c == '\r' || c == '\n' { ' ' } else { c };
        proof {
            assert(v@.take(i as int + 1).drop_last() =~= v@.take(i as int));
        }
        crate::text::push_char(out, m);
        proof {
            assert(out@ =~= head + tsv_text(v@.take(i as int + 1)));
        }
        i = i + 1;
    }
    proof {
        assert(v@.take(v@.len() as int) =~= v@);
    }
}

/// One line of the routing table: id, server hint, symbol and port.
pub open spec fn connection_row(b: BrokerConfig) -> Seq<char> {
    dec(b.id as nat) + "\t"@ + tsv_text(b.name@) + "\t"@ + tsv_text(b.symbol@) + "\t"@ + dec(b.port as nat) + "\n"@
}

/// The lines of the routing table for `bs`, in order.
pub open spec fn connection_rows(bs: Seq<BrokerConfig>) -> Seq<char>
    decreases bs.len(),
{
    if bs.len() == 0 {
        Seq::empty()
    } else {
        connection_rows(bs.drop_last()) + connection_row(bs.last())
    }
}

/// The pieces of `s` between the separators `c`, in order: one more piece
/// than there are separators.
pub open spec fn split_on(s: Seq<char>, c: char) -> Seq<Seq<char>>
    decreases s.len(),
{
    if s.len() == 0 {
        seq![Seq::empty()]
    } else {
        let f = split_on(s.drop_last(), c);
        if s.last() == c {
            f.push(Seq::empty())
        } else {
            f.update(f.len() - 1, f.last().push(s.last()))
        }
    }
}

proof fn lemma_split_on_len(s: Seq<char>, c: char)
    ensures
        split_on(s, c).len() >= 1,
    decreases s.len(),
{
    if s.len() > 0 {
        lemma_split_on_len(s.drop_last(), c);
    }
}

/// Text without a separator extends the last piece.
proof fn lemma_split_on_append(x: Seq<char>, y: Seq<char>, c: char)
    requires
        !y.contains(c),
    ensures
        split_on(x + y, c) == split_on(x, c).update(
            split_on(x, c).len() - 1,
            split_on(x, c).last() + y,
        ),
    decreases y.len(),
{
    lemma_split_on_len(x, c);
    let f = split_on(x, c);
    if y.len() == 0 {
        assert(x + y =~= x);
        assert(f.last() + y =~= f.last());
        assert(f.update(f.len() - 1, f.last() + y) =~= f);
    } else {
        let y1 = y.drop_last();
        assert(!y1.contains(c)) by {
            if y1.contains(c) {
                let k = choose|k: int| 0 <= k < y1.len() && y1[k] == c;
                assert(y[k] == c);
            }
        }
        lemma_split_on_append(x, y1, c);
        assert((x + y).drop_last() =~= x + y1);
        assert((x + y).last() == y.last());
        assert(y.last() != c) by {
            assert(y[y.len() - 1] == y.last());
        }
        lemma_split_on_len(x + y1, c);
        assert((f.last() + y1).push(y.last()) =~= f.last() + y);
        assert(split_on(x + y, c) =~= f.update(f.len() - 1, f.last() + y));
    }
}

/// A separator starts a new, empty piece.
proof fn lemma_split_on_sep(x: Seq<char>, c: char)
    ensures
        split_on(x.push(c), c) == split_on(x, c).push(Seq::empty()),
{
    assert(x.push(c).drop_last() =~= x);
}

/// A decimal numeral holds digits only.
proof fn lemma_dec_digits(n: nat)
    ensures
        forall|i: int| 0 <= i < dec(n).len() ==> '0' <= #[trigger] dec(n)[i] <= '9',
    decreases n,
{
    let d = n % 10;
    assert('0' <= digit_char(d) <= '9');
    if n >= 10 {
        lemma_dec_digits(n / 10);
        let q = dec(n / 10);
        assert(dec(n) == q.push(digit_char(d)));
        assert forall|i: int| 0 <= i < dec(n).len() implies '0' <= #[trigger] dec(n)[i] <= '9' by {
            if i < q.len() {
                assert(dec(n)[i] == q[i]);
            }
        }
    } else {
        assert(dec(n) == seq![digit_char(n)]);
    }
}

/// A tab-safe text holds no tab and no line break.
proof fn lemma_tsv_text_clean(s: Seq<char>)
    ensures
        forall|i: int| 0 <= i < tsv_text(s).len() ==> #[trigger] tsv_text(s)[i] != '\t'
            && tsv_text(s)[i] != '\n',
        tsv_text(s).len() == s.len(),
    decreases s.len(),
{
    if s.len() > 0 {
        lemma_tsv_text_clean(s.drop_last());
    }
}

/// The routing table's body read line by line, each line split on tabs,
/// as the Expert Advisor reads it: the `i`-th line holds the id, the name,
/// the symbol and the port of the `i`-th broker (fields 0 to 3), and the
/// body ends with a line break.
#[verifier::spinoff_prover]
#[verifier::rlimit(40)]
pub proof fn lemma_routing_table_columns(bs: Seq<BrokerConfig>)
    ensures
        split_on(connection_rows(bs), '\n').len() == bs.len() + 1,
        split_on(connection_rows(bs), '\n').last() == Seq::<char>::empty(),
        forall|i: int|
            0 <= i < bs.len() ==> split_on(#[trigger] split_on(connection_rows(bs), '\n')[i], '\t')
                == seq![
                dec(bs[i].id as nat),
                tsv_text(bs[i].name@),
                tsv_text(bs[i].symbol@),
                dec(bs[i].port as nat),
            ],
    decreases bs.len(),
{
    reveal_strlit("\t");
    reveal_strlit("\n");
    if bs.len() == 0 {
        assert(connection_rows(bs) =~= Seq::<char>::empty());
    } else {
        let p = bs.drop_last();
        let b = bs.last();
        lemma_routing_table_columns(p);
        let lp = split_on(connection_rows(p), '\n');
        let di = dec(b.id as nat);
        let tn = tsv_text(b.name@);
        let ts = tsv_text(b.symbol@);
        let dp = dec(b.port as nat);
        lemma_dec_digits(b.id as nat);
        lemma_dec_digits(b.port as nat);
        lemma_tsv_text_clean(b.name@);
        lemma_tsv_text_clean(b.symbol@);
        let body = di + seq!['\t'] + tn + seq!['\t'] + ts + seq!['\t'] + dp;
        assert(connection_row(b) =~= body.push('\n'));
        // The row splits into its four fields on tabs.
        assert(!di.contains('\t') && !di.contains('\n')) by {
            if di.contains('\t') || di.contains('\n') {
                let k = choose|k: int| 0 <= k < di.len() && (di[k] == '\t' || di[k] == '\n');
                assert('0' <= di[k] <= '9');
            }
        }
        assert(!dp.contains('\t') && !dp.contains('\n')) by {
            if dp.contains('\t') || dp.contains('\n') {
                let k = choose|k: int| 0 <= k < dp.len() && (dp[k] == '\t' || dp[k] == '\n');
                assert('0' <= dp[k] <= '9');
            }
        }
        assert(!tn.contains('\t') && !tn.contains('\n')) by {
            if tn.contains('\t') || tn.contains('\n') {
                let k = choose|k: int| 0 <= k < tn.len() && (tn[k] == '\t' || tn[k] == '\n');
                assert(tn[k] != '\t' && tn[k] != '\n');
            }
        }
        assert(!ts.contains('\t') && !ts.contains('\n')) by {
            if ts.contains('\t') || ts.contains('\n') {
                let k = choose|k: int| 0 <= k < ts.len() && (ts[k] == '\t' || ts[k] == '\n');
                assert(ts[k] != '\t' && ts[k] != '\n');
            }
        }
        let e = Seq::<char>::empty();
        let s1 = di;
        let s2 = s1.push('\t');
        let s3 = s2 + tn;
        let s4 = s3.push('\t');
        let s5 = s4 + ts;
        let s6 = s5.push('\t');
        let s7 = s6 + dp;
        assert(e + di =~= di);
        lemma_split_on_append(e, di, '\t');
        assert(split_on(s1, '\t') =~= seq![di]);
        lemma_split_on_sep(s1, '\t');
        lemma_split_on_append(s2, tn, '\t');
        assert(e + tn =~= tn);
        assert(split_on(s3, '\t') =~= seq![di, tn]);
        lemma_split_on_sep(s3, '\t');
        lemma_split_on_append(s4, ts, '\t');
        assert(e + ts =~= ts);
        assert(split_on(s5, '\t') =~= seq![di, tn, ts]);
        lemma_split_on_sep(s5, '\t');
        lemma_split_on_append(s6, dp, '\t');
        assert(e + dp =~= dp);
        assert(s7 =~= body);
        assert(split_on(body, '\t') =~= seq![di, tn, ts, dp]);
        // The new line ends the body.
        assert(!body.contains('\n')) by {
            if body.contains('\n') {
                let k = choose|k: int| 0 <= k < body.len() && body[k] == '\n';
                if k < di.len() {
                    assert(body[k] == di[k]);
                } else if k == di.len() {
                } else if k < di.len() + 1 + tn.len() {
                    assert(body[k] == tn[k - di.len() - 1]);
                } else if k == di.len() + 1 + tn.len() {
                } else if k < di.len() + 2 + tn.len() + ts.len() {
                    assert(body[k] == ts[k - di.len() - 2 - tn.len()]);
                } else if k == di.len() + 2 + tn.len() + ts.len() {
                } else {
                    assert(body[k] == dp[k - di.len() - 3 - tn.len() - ts.len()]);
                }
            }
        }
        let rp = connection_rows(p);
        assert(connection_rows(bs) =~= (rp + body).push('\n'));
        lemma_split_on_sep(rp + body, '\n');
        lemma_split_on_append(rp, body, '\n');
        assert(lp.last() + body =~= body);
        let l = split_on(connection_rows(bs), '\n');
        assert(l =~= lp.update(lp.len() - 1, body).push(e));
        assert forall|i: int| 0 <= i < bs.len() implies split_on(#[trigger] l[i], '\t')
            == seq![
                dec(bs[i].id as nat),
                tsv_text(bs[i].name@),
                tsv_text(bs[i].symbol@),
                dec(bs[i].port as nat),
            ] by {
            if i < p.len() {
                assert(l[i] == lp[i]);
                assert(bs[i] == p[i]);
            } else {
                assert(l[i] == body);
            }
        }
    }
}

/// The per-terminal routing table read by the shared Expert Advisor: a
/// version line, one line per broker, and an `END` line by which a reader
/// tells a whole table from a partly written one.
pub fn connection_map_contents(brokers: &[BrokerConfig]) -> (r: String)
    ensures
        r@ == "TICKSCOPE\t1\n"@ + connection_rows(brokers@) + "END\n"@,
{
    let mut contents = string_of("TICKSCOPE\t1\n");
    let mut i: usize = 0;
    while i < brokers.len()
        invariant
            i <= brokers@.len(),
            contents@ == "TICKSCOPE\t1\n"@ + connection_rows(brokers@.take(i as int)),
        decreases brokers@.len() - i,
    {
        let b = &brokers[i];
        proof {
            assert(brokers@.take(i as int + 1).drop_last() =~= brokers@.take(i as int));
        }
        push_dec(&mut contents, b.id as u64);
        push_str(&mut contents, "\t");
        push_tsv_safe(&mut contents, b.name.as_str());
        push_str(&mut contents, "\t");
        push_tsv_safe(&mut contents, b.symbol.as_str());
        push_str(&mut contents, "\t");
        push_dec(&mut contents, b.port as u64);
        push_str(&mut contents, "\n");
        proof {
            assert(contents@ =~= "TICKSCOPE\t1\n"@ + connection_rows(brokers@.take(i as int + 1)));
        }
        i = i + 1;
    }
    proof {
        assert(brokers@.take(brokers@.len() as int) =~= brokers@);
    }
    push_str(&mut contents, "END\n");
    contents
}

/// The host the Expert Advisor dials: a wildcard listening address is
/// reached through the loopback address of its family.
pub open spec fn ea_host(host: Seq<char>) -> Seq<char> {
    if host == "0.0.0.0"@ {
        "127.0.0.1"@
    } else if host == "::"@ {
        "::1"@
    } else {
        host
    }
}

/// The escape of one character inside a double-quoted MQL5 string.
pub open spec fn escape_char(c: char) -> Seq<char> {
    if c == '\\' {
        "\\\\"@
    } else if c == '"' {
        "\\\""@
    } else if c == '\r' {
        "\\r"@
    } else if c == '\n' {
        "\\n"@
    } else {
        seq![c]
    }
}

/// `escape_char` applied to each character of `s`.
pub open spec fn escape_text(s: Seq<char>) -> Seq<char>
    decreases s.len(),
{
    if s.len() == 0 {
        Seq::empty()
    } else {
        escape_text(s.drop_last()) + escape_char(s.last())
    }
}

/// The header that configures a broker's Expert Advisor, followed by the
/// shared collector source.
pub open spec fn broker_ea_source_text(b: BrokerConfig, collector: Seq<char>) -> Seq<char> {
    "// Written by TickScope. Connection settings come from the app config.\n#define TICKSCOPE_BROKER_ID "@
        + dec(b.id as nat) + "\n#define TICKSCOPE_SERVER_HOST \""@ + escape_text(ea_host(b.host@))
        + "\"\n#define TICKSCOPE_SERVER_PORT "@ + dec(b.port as nat) + "\n"@ + collector
}

/// The source of a broker's Expert Advisor.
pub fn broker_ea_source(broker: &BrokerConfig, tick_collector: &str) -> (r: String)
    ensures
        r@ == broker_ea_source_text(*broker, tick_collector@),
{
    let raw = chars_of(broker.host.as_str());
    let wildcard4 = crate::text::chars_eq(raw.as_slice(), "0.0.0.0");
    let wildcard6 = crate::text::chars_eq(raw.as_slice(), "::");
    let host = if wildcard4 {
        chars_of("127.0.0.1")
    } else if wildcard6 {
        chars_of("::1")
    } else {
        raw
    };
    let mut out = string_of("// Written by TickScope. Connection settings come from the app config.\n#define TICKSCOPE_BROKER_ID ");
    push_dec(&mut out, broker.id as u64);
    push_str(&mut out, "\n#define TICKSCOPE_SERVER_HOST \"");
    let ghost head = out@;
    let mut i: usize = 0;
    while i < host.len()
        invariant
            host@ == ea_host(broker.host@),
            i <= host@.len(),
            out@ == head + escape_text(host@.take(i as int)),
        decreases host@.len() - i,
    {
        let c = host[i];
        proof {
            assert(host@.take(i as int + 1).drop_last() =~= host@.take(i as int));
        }
        if c == '\\' {
            push_str(&mut out, "\\\\");
        } else if c == '"' {
            push_str(&mut out, "\\\"");
        } else if c == '\r' {
            push_str(&mut out, "\\r");
        } else if c == '\n' {
            push_str(&mut out, "\\n");
        } else {
            crate::text::push_char(&mut out, c);
        }
        proof {
            assert(out@ =~= head + escape_text(host@.take(i as int + 1)));
        }
        i = i + 1;
    }
    proof {
        assert(host@.take(host@.len() as int) =~= host@);
    }
    push_str(&mut out, "\"\n#define TICKSCOPE_SERVER_PORT ");
    push_dec(&mut out, broker.port as u64);
    push_str(&mut out, "\n");
    push_str(&mut out, tick_collector);
    proof {
        assert(out@ =~= broker_ea_source_text(*broker, tick_collector@));
    }
    out
}

/// What a deployment run does before it looks for terminals.
#[derive(Clone, Copy, Debug, PartialEq, Eq, Structural)]
pub enum DeployPlan {
    /// Automatic deployment is switched off: nothing is written.
    Disabled,
    /// No broker is configured: nothing is written, and the report says why.
    NoBrokers,
    /// Deploy the common Expert Advisor and the connection map.
    Deploy,
}

/// The plan for an automatic deployment with `broker_count` brokers
/// configured: the switch comes first, then the brokers.
pub fn deploy_plan(auto_deploy: bool, broker_count: usize) -> (r: DeployPlan)
    ensures
        r == (if !auto_deploy {
            DeployPlan::Disabled
        } else if broker_count == 0 {
            DeployPlan::NoBrokers
        } else {
            DeployPlan::Deploy
        }),
{
    if !auto_deploy {
        DeployPlan::Disabled
    } else if broker_count == 0 {
        DeployPlan::NoBrokers
    } else {
        DeployPlan::Deploy
    }
}

/// The warning a deployment without brokers reports.
pub fn no_brokers_warning() -> (r: String)
    ensures
        r@ == "Broker configuration is required to deploy the common TickCollector EA and its connection map."@,
{
    string_of(
        "Broker configuration is required to deploy the common TickCollector EA and its connection map.",
    )
}

} // verus!
