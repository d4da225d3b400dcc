//! What the program makes of the arguments that it is given.
//!
//! The arguments are read here as the program reads them, option by option. That what is read is
//! what was meant is stated of every rule.

use crate::probability::probability;
use crate::rule::{
    comment_words, flag_words, line_args, matching_words, rule_words, target_words, LineView,
    MatchingView, RuleView, TargetView,
};
use crate::text::{decimal, signed_decimal};
use vstd::prelude::*;

verus! {

/// What a packet has to meet, as read.
pub enum ReadMatching {
    Any,
    Remember { list: Seq<char> },
    Remembered { list: Seq<char>, seconds: Seq<char> },
    Marked { mark: Seq<char> },
    Random { probability: Seq<char> },
}

/// What is done with a packet, as read.
pub enum ReadTarget {
    Continue,
    Jump { chain: Seq<char> },
    Redirect { to: Seq<char> },
    Mark { mark: Seq<char> },
}

/// A command that appends a rule, as read.
pub struct Reading {
    pub table: Seq<char>,
    pub chain: Seq<char>,
    pub destination: Option<Seq<char>>,
    pub protocol: Option<Seq<char>>,
    pub dport: Option<Seq<char>>,
    pub matching: ReadMatching,
    pub target: ReadTarget,
    pub comment: Option<Seq<char>>,
    /// How many words were read.
    pub length: int,
}

/// Whether the word stands at the position.
pub open spec fn word_at(words: Seq<Seq<char>>, p: int, word: Seq<char>) -> bool {
    0 <= p < words.len() && words[p] == word
}

/// The value of an option, if the option stands at the position.
pub open spec fn read_option(words: Seq<Seq<char>>, p: int, flag: Seq<char>) -> Option<Seq<char>> {
    if word_at(words, p, flag) {
        Some(words[p + 1])
    } else {
        None
    }
}

/// Where an option ends that may stand at the position.
pub open spec fn past_option(words: Seq<Seq<char>>, p: int, flag: Seq<char>) -> int {
    if word_at(words, p, flag) {
        p + 2
    } else {
        p
    }
}

/// The match that stands at the position, and where it ends.
pub open spec fn read_matching(words: Seq<Seq<char>>, p: int) -> (ReadMatching, int) {
    if !word_at(words, p, "-m"@) {
        (ReadMatching::Any, p)
    } else if word_at(words, p + 1, "recent"@) && word_at(words, p + 2, "--name"@) {
        if word_at(words, p + 4, "--set"@) {
            (ReadMatching::Remember { list: words[p + 3] }, p + 5)
        } else if word_at(words, p + 4, "--rcheck"@) && word_at(words, p + 5, "--seconds"@)
            && word_at(words, p + 7, "--reap"@) {
            (ReadMatching::Remembered { list: words[p + 3], seconds: words[p + 6] }, p + 8)
        } else {
            (ReadMatching::Any, p)
        }
    } else if word_at(words, p + 1, "connmark"@) && word_at(words, p + 2, "--mark"@) {
        (ReadMatching::Marked { mark: words[p + 3] }, p + 4)
    } else if word_at(words, p + 1, "statistic"@) && word_at(words, p + 2, "--mode"@) && word_at(
        words,
        p + 3,
        "random"@,
    ) && word_at(words, p + 4, "--probability"@) {
        (ReadMatching::Random { probability: words[p + 5] }, p + 6)
    } else {
        (ReadMatching::Any, p)
    }
}

/// The target that stands at the position, and where it ends.
pub open spec fn read_target(words: Seq<Seq<char>>, p: int) -> (ReadTarget, int) {
    if !word_at(words, p, "-j"@) {
        (ReadTarget::Continue, p)
    } else if word_at(words, p + 1, "DNAT"@) && word_at(words, p + 2, "--to-destination"@) {
        (ReadTarget::Redirect { to: words[p + 3] }, p + 4)
    } else if word_at(words, p + 1, "CONNMARK"@) && word_at(words, p + 2, "--set-mark"@) {
        (ReadTarget::Mark { mark: words[p + 3] }, p + 4)
    } else {
        (ReadTarget::Jump { chain: words[p + 1] }, p + 2)
    }
}

/// Reads the arguments of a command that appends a rule.
pub open spec fn read(args: Seq<Seq<char>>) -> Option<Reading> {
    if word_at(args, 0, "-t"@) && word_at(args, 2, "-A"@) {
        let d = past_option(args, 4, "-d"@);
        let p = past_option(args, d, "-p"@);
        let port = past_option(args, p, "--dport"@);
        let (matching, m) = read_matching(args, port);
        let (target, t) = read_target(args, m);
        let commented = word_at(args, t, "-m"@) && word_at(args, t + 1, "comment"@) && word_at(
            args,
            t + 2,
            "--comment"@,
        );
        Some(
            Reading {
                table: args[1],
                chain: args[3],
                destination: read_option(args, 4, "-d"@),
                protocol: read_option(args, d, "-p"@),
                dport: read_option(args, p, "--dport"@),
                matching,
                target,
                comment: if commented {
                    Some(args[t + 3])
                } else {
                    None
                },
                length: if commented {
                    t + 4
                } else {
                    t
                },
            },
        )
    } else {
        None
    }
}

/// What is to be read of a match.
pub open spec fn meant_matching(m: MatchingView) -> ReadMatching {
    match m {
        MatchingView::Any => ReadMatching::Any,
        MatchingView::RecentSet { name } => ReadMatching::Remember { list: name },
        MatchingView::RecentCheck { name, seconds } => ReadMatching::Remembered {
            list: name,
            seconds: signed_decimal(seconds),
        },
        MatchingView::Connmark { mark } => ReadMatching::Marked { mark: decimal(mark) },
        MatchingView::Statistic { weight } => ReadMatching::Random {
            probability: probability(weight),
        },
    }
}

/// What is to be read of a target.
pub open spec fn meant_target(t: TargetView) -> ReadTarget {
    match t {
        TargetView::Continue => ReadTarget::Continue,
        TargetView::Jump { chain } => ReadTarget::Jump { chain },
        TargetView::Dnat { ip, port } => ReadTarget::Redirect { to: ip + ":"@ + decimal(port) },
        TargetView::SetMark { mark } => ReadTarget::Mark { mark: decimal(mark) },
    }
}

/// What is to be read of a port.
pub open spec fn meant_port(port: Option<nat>) -> Option<Seq<char>> {
    match port {
        Some(p) => Some(decimal(p)),
        None => None,
    }
}

proof fn lemma_flags_differ()
    ensures
        "-d"@ != "-p"@,
        "-d"@ != "--dport"@,
        "-d"@ != "-m"@,
        "-d"@ != "-j"@,
        "-p"@ != "--dport"@,
        "-p"@ != "-m"@,
        "-p"@ != "-j"@,
        "--dport"@ != "-m"@,
        "--dport"@ != "-j"@,
        "-m"@ != "-j"@,
        "--set"@ != "--rcheck"@,
        "recent"@ != "connmark"@,
        "recent"@ != "statistic"@,
        "recent"@ != "comment"@,
        "connmark"@ != "statistic"@,
        "connmark"@ != "comment"@,
        "statistic"@ != "comment"@,
        "DNAT"@ != "CONNMARK"@,
        "--to-destination"@ != "-m"@,
        "--set-mark"@ != "-m"@,
{
    reveal_strlit("-d");
    reveal_strlit("-p");
    reveal_strlit("--dport");
    reveal_strlit("-m");
    reveal_strlit("-j");
    reveal_strlit("--set");
    reveal_strlit("--rcheck");
    reveal_strlit("recent");
    reveal_strlit("connmark");
    reveal_strlit("statistic");
    reveal_strlit("comment");
    reveal_strlit("DNAT");
    reveal_strlit("CONNMARK");
    reveal_strlit("--to-destination");
    reveal_strlit("--set-mark");
    assert("-d"@[1] == 'd' && "-p"@[1] == 'p' && "-m"@[1] == 'm' && "-j"@[1] == 'j');
    assert("--dport"@.len() == 7);
    assert("--set"@.len() != "--rcheck"@.len());
    assert("recent"@.len() == 6 && "connmark"@.len() == 8);
    assert("statistic"@.len() == 9 && "comment"@.len() == 7);
    assert("DNAT"@.len() != "CONNMARK"@.len());
}

/// An option is read where it stands, and not where something else does.
proof fn lemma_option(
    before: Seq<Seq<char>>,
    flag: Seq<char>,
    value: Option<Seq<char>>,
    after: Seq<Seq<char>>,
)
    requires
        after.len() == 0 || after[0] != flag,
    ensures
        ({
            let words = before + flag_words(flag, value) + after;
            let p = before.len() as int;
            &&& read_option(words, p, flag) == value
            &&& past_option(words, p, flag) == p + flag_words(flag, value).len()
        }),
{
    let words = before + flag_words(flag, value) + after;
    let p = before.len() as int;
    match value {
        Some(v) => {
            assert(words[p] == flag);
            assert(words[p + 1] == v);
        },
        None => {
            if after.len() > 0 {
                assert(words[p] == after[0]);
            }
        },
    }
}

proof fn lemma_matching(before: Seq<Seq<char>>, m: MatchingView, after: Seq<Seq<char>>)
    requires
        after.len() == 0 || after[0] == "-j"@ || (after.len() > 1 && after[0] == "-m"@ && after[1]
            == "comment"@),
    ensures
        read_matching(before + matching_words(m) + after, before.len() as int) == (
            meant_matching(m),
            (before.len() + matching_words(m).len()) as int,
        ),
{
    lemma_flags_differ();
    let words = before + matching_words(m) + after;
    let p = before.len() as int;
    let own = matching_words(m);
    assert forall|i: int| 0 <= i < own.len() implies words[p + i] == #[trigger] own[i] by {}
    match m {
        MatchingView::Any => {
            if after.len() > 0 {
                assert(words[p] == after[0]);
            }
            if after.len() > 1 {
                assert(words[p + 1] == after[1]);
            }
        },
        MatchingView::RecentSet { .. } => {
            assert(words[p + 0] == own[0]);
            assert(words[p + 1] == own[1]);
            assert(words[p + 2] == own[2]);
            assert(words[p + 3] == own[3]);
            assert(words[p + 4] == own[4]);
        },
        MatchingView::RecentCheck { .. } => {
            assert(words[p + 0] == own[0]);
            assert(words[p + 1] == own[1]);
            assert(words[p + 2] == own[2]);
            assert(words[p + 3] == own[3]);
            assert(words[p + 4] == own[4]);
            assert(words[p + 5] == own[5]);
            assert(words[p + 6] == own[6]);
            assert(words[p + 7] == own[7]);
        },
        MatchingView::Connmark { .. } => {
            assert(words[p + 0] == own[0]);
            assert(words[p + 1] == own[1]);
            assert(words[p + 2] == own[2]);
            assert(words[p + 3] == own[3]);
        },
        MatchingView::Statistic { .. } => {
            assert(words[p + 0] == own[0]);
            assert(words[p + 1] == own[1]);
            assert(words[p + 2] == own[2]);
            assert(words[p + 3] == own[3]);
            assert(words[p + 4] == own[4]);
            assert(words[p + 5] == own[5]);
        },
    }
}

proof fn lemma_target(before: Seq<Seq<char>>, t: TargetView, after: Seq<Seq<char>>)
    requires
        after.len() == 0 || after[0] == "-m"@,
    ensures
        read_target(before + target_words(t) + after, before.len() as int) == (
            meant_target(t),
            (before.len() + target_words(t).len()) as int,
        ),
{
    lemma_flags_differ();
    let words = before + target_words(t) + after;
    let p = before.len() as int;
    let own = target_words(t);
    match t {
        TargetView::Continue => {
            if after.len() > 0 {
                assert(words[p] == after[0]);
            }
        },
        TargetView::Jump { .. } => {
            assert(words[p + 0] == own[0]);
            assert(words[p + 1] == own[1]);
            if after.len() > 0 {
                assert(words[p + 2] == after[0]);
            }
        },
        TargetView::Dnat { .. } => {
            assert(words[p + 0] == own[0]);
            assert(words[p + 1] == own[1]);
            assert(words[p + 2] == own[2]);
            assert(words[p + 3] == own[3]);
        },
        TargetView::SetMark { .. } => {
            assert(words[p + 0] == own[0]);
            assert(words[p + 1] == own[1]);
            assert(words[p + 2] == own[2]);
            assert(words[p + 3] == own[3]);
        },
    }
}

proof fn lemma_same_args(r: RuleView)
    ensures
        line_args(LineView::Append(r)) == seq!["-t"@, "nat"@, "-A"@, r.chain] + flag_words(
            "-d"@,
            r.destination,
        ) + flag_words("-p"@, r.protocol) + flag_words("--dport"@, meant_port(r.dport))
            + matching_words(r.matching) + target_words(r.target) + comment_words(r.comment),
{
    let d = flag_words("-d"@, r.destination);
    let p = flag_words("-p"@, r.protocol);
    let q = flag_words("--dport"@, meant_port(r.dport));
    let m = matching_words(r.matching);
    let t = target_words(r.target);
    let c = comment_words(r.comment);
    lemma_prefix(seq!["-t"@, "nat"@], seq!["-A"@, r.chain], d, p, q, m, t, c);
    assert(seq!["-t"@, "nat"@] + seq!["-A"@, r.chain] =~= seq!["-t"@, "nat"@, "-A"@, r.chain]);
    assert(rule_words(r) == seq!["-A"@, r.chain] + d + p + q + m + t + c);
}

proof fn lemma_prefix(
    x: Seq<Seq<char>>,
    h: Seq<Seq<char>>,
    d: Seq<Seq<char>>,
    p: Seq<Seq<char>>,
    q: Seq<Seq<char>>,
    m: Seq<Seq<char>>,
    t: Seq<Seq<char>>,
    c: Seq<Seq<char>>,
)
    ensures
        x + (h + d + p + q + m + t + c) == (x + h) + d + p + q + m + t + c,
{
    assert(x + (h + d + p + q + m + t + c) =~= (x + h) + d + p + q + m + t + c);
}

proof fn lemma_regroup(
    h: Seq<Seq<char>>,
    d: Seq<Seq<char>>,
    p: Seq<Seq<char>>,
    q: Seq<Seq<char>>,
    m: Seq<Seq<char>>,
    t: Seq<Seq<char>>,
    c: Seq<Seq<char>>,
)
    ensures
        ({
            let all = h + d + p + q + m + t + c;
            &&& all == h + d + (p + (q + (m + (t + c))))
            &&& all == (h + d) + p + (q + (m + (t + c)))
            &&& all == (h + d + p) + q + (m + (t + c))
            &&& all == (h + d + p + q) + m + (t + c)
        }),
{
    let all = h + d + p + q + m + t + c;
    assert(all =~= (h + d + p + q) + m + (t + c));
    assert(all =~= (h + d + p) + q + (m + (t + c)));
    assert(all =~= (h + d) + p + (q + (m + (t + c))));
    assert(all =~= h + d + (p + (q + (m + (t + c)))));
}

proof fn lemma_first(a: Seq<Seq<char>>, b: Seq<Seq<char>>)
    ensures
        a.len() > 0 ==> (a + b)[0] == a[0],
        a.len() == 0 ==> a + b == b,
{
    if a.len() == 0 {
        assert(a + b =~= b);
    }
}

proof fn lemma_ends(
    head: Seq<Seq<char>>,
    body: Seq<Seq<char>>,
    c: Seq<Seq<char>>,
    args: Seq<Seq<char>>,
)
    requires
        head.len() == 4,
        body.len() >= 4,
        forall|i: int| 0 <= i < 4 ==> body[i] == head[i],
        args == body + c,
    ensures
        forall|i: int| 0 <= i < 4 ==> args[i] == head[i],
        args.len() == body.len() + c.len(),
        c.len() > 0 ==> args[body.len() as int] == c[0],
        c.len() > 1 ==> args[body.len() as int + 1] == c[1],
        c.len() > 2 ==> args[body.len() as int + 2] == c[2],
        c.len() > 3 ==> args[body.len() as int + 3] == c[3],
        args[0] == head[0],
        args[1] == head[1],
        args[2] == head[2],
        args[3] == head[3],
{
}

/// The program understands every rule as it is meant: it reads the NAT table, the chain, the
/// destination, the protocol, the port, the match, the target and the comment of the rule, and
/// nothing besides. A chain is made by `-N` with its name.
#[verifier::rlimit(60)]
pub proof fn law_commands_are_understood(line: LineView)
    ensures
        match line {
            LineView::Append(r) => read(line_args(line)) == Some(
                Reading {
                    table: "nat"@,
                    chain: r.chain,
                    destination: r.destination,
                    protocol: r.protocol,
                    dport: meant_port(r.dport),
                    matching: meant_matching(r.matching),
                    target: meant_target(r.target),
                    comment: r.comment,
                    length: line_args(line).len() as int,
                },
            ),
            LineView::Chain(chain) => line_args(line) == seq!["-t"@, "nat"@, "-N"@, chain],
        },
{
    if let LineView::Append(r) = line {
        lemma_flags_differ();
        let args = line_args(line);
        let head = seq!["-t"@, "nat"@, "-A"@, r.chain];
        let d = flag_words("-d"@, r.destination);
        let p = flag_words("-p"@, r.protocol);
        let q = flag_words("--dport"@, meant_port(r.dport));
        let m = matching_words(r.matching);
        let t = target_words(r.target);
        let c = comment_words(r.comment);
        let after_t = c;
        let after_m = t + c;
        let after_q = m + (t + c);
        let after_p = q + (m + (t + c));
        let after_d = p + (q + (m + (t + c)));
        lemma_same_args(r);
        lemma_regroup(head, d, p, q, m, t, c);
        lemma_first(t, c);
        lemma_first(m, after_m);
        lemma_first(q, after_q);
        lemma_first(p, after_p);
        assert(t.len() > 0 ==> t[0] == "-j"@);
        assert(m.len() > 0 ==> m[0] == "-m"@);
        assert(c.len() > 0 ==> c.len() > 1 && c[0] == "-m"@ && c[1] == "comment"@);
        if t.len() == 0 {
            assert(after_m =~= c);
        }
        lemma_option(head, "-d"@, r.destination, after_d);
        lemma_option(head + d, "-p"@, r.protocol, after_p);
        lemma_option(head + d + p, "--dport"@, meant_port(r.dport), after_q);
        lemma_matching(head + d + p + q, r.matching, after_m);
        lemma_target(head + d + p + q + m, r.target, after_t);
        lemma_ends(head, head + d + p + q + m + t, c, args);
    }
}

} // verus!
