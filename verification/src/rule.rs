//! Rules of the NAT table and the two ways to write them: as the arguments of one
//! `iptables` command, and as a line of `iptables-restore` input.

use crate::probability::{probability, probability_text};
use crate::text::{
    decimal, decimal_text, join, joined, option_text, push_word, signed_decimal,
    signed_decimal_text, texts,
};
use vstd::prelude::*;

verus! {

/// What a packet has to meet besides address, protocol and port.
pub enum Matching {
    /// Nothing more.
    Any,
    /// Always met; remembers the source address in the named list.
    RecentSet { name: String },
    /// The source address was put on the named list within the last `seconds`.
    RecentCheck { name: String, seconds: i32 },
    /// The connection carries the mark.
    Connmark { mark: u128 },
    /// One packet in `weight`, at random.
    Statistic { weight: usize },
}

/// What is done with a packet that meets a rule.
pub enum Target {
    /// Nothing: the next rule is tried.
    Continue,
    /// Another chain decides.
    Jump { chain: String },
    /// The destination is rewritten.
    Dnat { ip: String, port: u16 },
    /// The connection gets a mark.
    SetMark { mark: u128 },
}

/// One rule, to be appended to a chain.
pub struct Rule {
    pub chain: String,
    pub destination: Option<String>,
    pub protocol: Option<String>,
    pub dport: Option<u16>,
    pub matching: Matching,
    pub target: Target,
    pub comment: Option<String>,
}

/// One change of the NAT table.
pub enum NatLine {
    /// A chain that starts out empty.
    Chain(String),
    /// A rule at the end of its chain.
    Append(Rule),
}

/// The content of a [`Matching`].
pub enum MatchingView {
    Any,
    RecentSet { name: Seq<char> },
    RecentCheck { name: Seq<char>, seconds: int },
    Connmark { mark: nat },
    Statistic { weight: nat },
}

/// The content of a [`Target`].
pub enum TargetView {
    Continue,
    Jump { chain: Seq<char> },
    Dnat { ip: Seq<char>, port: nat },
    SetMark { mark: nat },
}

/// The content of a [`Rule`].
pub struct RuleView {
    pub chain: Seq<char>,
    pub destination: Option<Seq<char>>,
    pub protocol: Option<Seq<char>>,
    pub dport: Option<nat>,
    pub matching: MatchingView,
    pub target: TargetView,
    pub comment: Option<Seq<char>>,
}

/// The content of a [`NatLine`].
pub enum LineView {
    Chain(Seq<char>),
    Append(RuleView),
}

impl View for Matching {
    type V = MatchingView;

    open spec fn view(&self) -> MatchingView {
        match self {
            Matching::Any => MatchingView::Any,
            Matching::RecentSet { name } => MatchingView::RecentSet { name: name@ },
            Matching::RecentCheck { name, seconds } => MatchingView::RecentCheck {
                name: name@,
                seconds: *seconds as int,
            },
            Matching::Connmark { mark } => MatchingView::Connmark { mark: *mark as nat },
            Matching::Statistic { weight } => MatchingView::Statistic { weight: *weight as nat },
        }
    }
}

impl View for Target {
    type V = TargetView;

    open spec fn view(&self) -> TargetView {
        match self {
            Target::Continue => TargetView::Continue,
            Target::Jump { chain } => TargetView::Jump { chain: chain@ },
            Target::Dnat { ip, port } => TargetView::Dnat { ip: ip@, port: *port as nat },
            Target::SetMark { mark } => TargetView::SetMark { mark: *mark as nat },
        }
    }
}

/// The number that an optional port holds.
pub open spec fn option_number(port: Option<u16>) -> Option<nat> {
    match port {
        Some(p) => Some(p as nat),
        None => None,
    }
}

impl View for Rule {
    type V = RuleView;

    open spec fn view(&self) -> RuleView {
        RuleView {
            chain: self.chain@,
            destination: option_text(self.destination),
            protocol: option_text(self.protocol),
            dport: option_number(self.dport),
            matching: self.matching@,
            target: self.target@,
            comment: option_text(self.comment),
        }
    }
}

impl View for NatLine {
    type V = LineView;

    open spec fn view(&self) -> LineView {
        match self {
            NatLine::Chain(chain) => LineView::Chain(chain@),
            NatLine::Append(rule) => LineView::Append(rule@),
        }
    }
}

impl RuleView {
    /// Whether every random match of the rule is a real choice.
    pub open spec fn wf(self) -> bool {
        self.matching matches MatchingView::Statistic { weight } ==> weight >= 2
    }
}

impl LineView {
    /// Whether the line holds a well-formed rule, if any.
    pub open spec fn wf(self) -> bool {
        self matches LineView::Append(rule) ==> rule.wf()
    }
}

/// What a list of lines holds.
pub open spec fn line_views(lines: Seq<NatLine>) -> Seq<LineView> {
    lines.map_values(|line: NatLine| line@)
}

/// Appends a line.
pub fn push_line(lines: &mut Vec<NatLine>, line: NatLine)
    ensures
        line_views(final(lines)@) == line_views(old(lines)@).push(line@),
{
    let ghost view = line@;
    lines.push(line);
    assert(line_views(lines@) =~= line_views(old(lines)@).push(view));
}

/// Whether all lines hold well-formed rules.
pub open spec fn lines_wf(lines: Seq<LineView>) -> bool {
    forall|i: int| 0 <= i < lines.len() ==> (#[trigger] lines[i]).wf()
}

// ---------------------------------------------------------------------------
// Words
// ---------------------------------------------------------------------------

/// A flag with its value, or nothing.
pub open spec fn flag_words(flag: Seq<char>, value: Option<Seq<char>>) -> Seq<Seq<char>> {
    match value {
        Some(v) => seq![flag, v],
        None => Seq::empty(),
    }
}

/// The words that demand the match.
pub open spec fn matching_words(m: MatchingView) -> Seq<Seq<char>> {
    match m {
        MatchingView::Any => Seq::empty(),
        MatchingView::RecentSet { name } => seq!["-m"@, "recent"@, "--name"@, name, "--set"@],
        MatchingView::RecentCheck { name, seconds } => seq![
            "-m"@,
            "recent"@,
            "--name"@,
            name,
            "--rcheck"@,
            "--seconds"@,
            signed_decimal(seconds),
            "--reap"@,
        ],
        MatchingView::Connmark { mark } => seq!["-m"@, "connmark"@, "--mark"@, decimal(mark)],
        MatchingView::Statistic { weight } => seq![
            "-m"@,
            "statistic"@,
            "--mode"@,
            "random"@,
            "--probability"@,
            probability(weight),
        ],
    }
}

/// An address and a port, as a destination is written.
pub open spec fn socket(ip: Seq<char>, port: nat) -> Seq<char> {
    ip + ":"@ + decimal(port)
}

/// The words that name the target.
pub open spec fn target_words(t: TargetView) -> Seq<Seq<char>> {
    match t {
        TargetView::Continue => Seq::empty(),
        TargetView::Jump { chain } => seq!["-j"@, chain],
        TargetView::Dnat { ip, port } => seq!["-j"@, "DNAT"@, "--to-destination"@, socket(ip, port)],
        TargetView::SetMark { mark } => seq!["-j"@, "CONNMARK"@, "--set-mark"@, decimal(mark)],
    }
}

/// The words of the comment, if there is one.
pub open spec fn comment_words(comment: Option<Seq<char>>) -> Seq<Seq<char>> {
    match comment {
        Some(c) => seq!["-m"@, "comment"@, "--comment"@, c],
        None => Seq::empty(),
    }
}

/// The words of a rule, with the comment in the form given.
pub open spec fn words_with(r: RuleView, comment: Option<Seq<char>>) -> Seq<Seq<char>> {
    seq!["-A"@, r.chain] + flag_words("-d"@, r.destination) + flag_words("-p"@, r.protocol)
        + flag_words(
        "--dport"@,
        match r.dport {
            Some(p) => Some(decimal(p)),
            None => None,
        },
    ) + matching_words(r.matching) + target_words(r.target) + comment_words(comment)
}

/// The words of a rule as a command takes them.
pub open spec fn rule_words(r: RuleView) -> Seq<Seq<char>> {
    words_with(r, r.comment)
}

/// A text in double quotes.
pub open spec fn quoted(text: Seq<char>) -> Seq<char> {
    "\""@ + text + "\""@
}

/// The words of a rule as a line of restore input holds them: the comment is quoted.
pub open spec fn restore_words(r: RuleView) -> Seq<Seq<char>> {
    words_with(
        r,
        match r.comment {
            Some(c) => Some(quoted(c)),
            None => None,
        },
    )
}

/// Writes an address and a port.
pub fn socket_text(ip: &str, port: u16) -> (text: String)
    ensures
        text@ == socket(ip@, port as nat),
{
    let mut text = ip.to_string();
    text.append(":");
    text.append(decimal_text(port as u128).as_str());
    text
}

fn push_flag(words: &mut Vec<String>, flag: &str, value: &Option<String>)
    ensures
        texts(final(words)@) == texts(old(words)@) + flag_words(flag@, option_text(*value)),
{
    match value {
        Some(v) => {
            push_word(words, flag);
            push_word(words, v.as_str());
        },
        None => {},
    }
    assert(texts(words@) =~= texts(old(words)@) + flag_words(flag@, option_text(*value)));
}

fn push_matching(words: &mut Vec<String>, m: &Matching)
    requires
        m@ matches MatchingView::Statistic { weight } ==> weight >= 2,
    ensures
        texts(final(words)@) == texts(old(words)@) + matching_words(m@),
{
    match m {
        Matching::Any => {},
        Matching::RecentSet { name } => {
            push_word(words, "-m");
            push_word(words, "recent");
            push_word(words, "--name");
            push_word(words, name.as_str());
            push_word(words, "--set");
        },
        Matching::RecentCheck { name, seconds } => {
            push_word(words, "-m");
            push_word(words, "recent");
            push_word(words, "--name");
            push_word(words, name.as_str());
            push_word(words, "--rcheck");
            push_word(words, "--seconds");
            push_word(words, signed_decimal_text(*seconds).as_str());
            push_word(words, "--reap");
        },
        Matching::Connmark { mark } => {
            push_word(words, "-m");
            push_word(words, "connmark");
            push_word(words, "--mark");
            push_word(words, decimal_text(*mark).as_str());
        },
        Matching::Statistic { weight } => {
            push_word(words, "-m");
            push_word(words, "statistic");
            push_word(words, "--mode");
            push_word(words, "random");
            push_word(words, "--probability");
            push_word(words, probability_text(*weight).as_str());
        },
    }
    assert(texts(words@) =~= texts(old(words)@) + matching_words(m@));
}

fn push_target(words: &mut Vec<String>, t: &Target)
    ensures
        texts(final(words)@) == texts(old(words)@) + target_words(t@),
{
    match t {
        Target::Continue => {},
        Target::Jump { chain } => {
            push_word(words, "-j");
            push_word(words, chain.as_str());
        },
        Target::Dnat { ip, port } => {
            push_word(words, "-j");
            push_word(words, "DNAT");
            push_word(words, "--to-destination");
            push_word(words, socket_text(ip.as_str(), *port).as_str());
        },
        Target::SetMark { mark } => {
            push_word(words, "-j");
            push_word(words, "CONNMARK");
            push_word(words, "--set-mark");
            push_word(words, decimal_text(*mark).as_str());
        },
    }
    assert(texts(words@) =~= texts(old(words)@) + target_words(t@));
}

fn push_rule(words: &mut Vec<String>, rule: &Rule, comment: &Option<String>)
    requires
        rule@.wf(),
    ensures
        texts(final(words)@) == texts(old(words)@) + words_with(rule@, option_text(*comment)),
{
    let dport: Option<String> = match rule.dport {
        Some(p) => Some(decimal_text(p as u128)),
        None => None,
    };
    push_word(words, "-A");
    push_word(words, rule.chain.as_str());
    push_flag(words, "-d", &rule.destination);
    push_flag(words, "-p", &rule.protocol);
    push_flag(words, "--dport", &dport);
    push_matching(words, &rule.matching);
    push_target(words, &rule.target);
    match comment {
        Some(c) => {
            push_word(words, "-m");
            push_word(words, "comment");
            push_word(words, "--comment");
            push_word(words, c.as_str());
        },
        None => {},
    }
    assert(texts(words@) =~= texts(old(words)@) + words_with(rule@, option_text(*comment)));
}

// ---------------------------------------------------------------------------
// Commands and restore input
// ---------------------------------------------------------------------------

/// The arguments of the command that makes one change of the NAT table.
pub open spec fn line_args(line: LineView) -> Seq<Seq<char>> {
    seq!["-t"@, "nat"@] + match line {
        LineView::Chain(chain) => seq!["-N"@, chain],
        LineView::Append(rule) => rule_words(rule),
    }
}

/// One line of restore input, with its line feed.
pub open spec fn restore_line(line: LineView) -> Seq<char> {
    match line {
        LineView::Chain(chain) => ":"@ + chain + " - [0:0]\n"@,
        LineView::Append(rule) => joined(restore_words(rule)) + "\n"@,
    }
}

/// Lines of restore input, one after the other.
pub open spec fn restore_lines(lines: Seq<LineView>) -> Seq<char>
    decreases lines.len(),
{
    if lines.len() == 0 {
        Seq::empty()
    } else {
        restore_lines(lines.drop_last()) + restore_line(lines.last())
    }
}

/// A whole restore input for the NAT table.
pub open spec fn restore_document(lines: Seq<LineView>) -> Seq<char> {
    "*nat\n"@ + restore_lines(lines) + "COMMIT\n"@
}

/// The arguments of the command that makes one change.
pub fn command_args(line: &NatLine) -> (args: Vec<String>)
    requires
        line@.wf(),
    ensures
        texts(args@) == line_args(line@),
{
    let mut args: Vec<String> = Vec::new();
    push_word(&mut args, "-t");
    push_word(&mut args, "nat");
    match line {
        NatLine::Chain(chain) => {
            push_word(&mut args, "-N");
            push_word(&mut args, chain.as_str());
        },
        NatLine::Append(rule) => {
            push_rule(&mut args, rule, &rule.comment);
        },
    }
    assert(texts(args@) =~= line_args(line@));
    args
}

fn append_restore_line(text: &mut String, line: &NatLine)
    requires
        line@.wf(),
    ensures
        final(text)@ == old(text)@ + restore_line(line@),
{
    match line {
        NatLine::Chain(chain) => {
            text.append(":");
            text.append(chain.as_str());
            text.append(" - [0:0]\n");
        },
        NatLine::Append(rule) => {
            let comment: Option<String> = match &rule.comment {
                Some(c) => {
                    let mut q = "\"".to_string();
                    q.append(c.as_str());
                    q.append("\"");
                    Some(q)
                },
                None => None,
            };
            let mut words: Vec<String> = Vec::new();
            push_rule(&mut words, rule, &comment);
            assert(texts(words@) =~= restore_words(rule@));
            text.append(join(&words).as_str());
            text.append("\n");
        },
    }
    assert(text@ =~= old(text)@ + restore_line(line@));
}

/// Writes restore input that makes all the changes at once.
pub fn restore_input(lines: &Vec<NatLine>) -> (text: String)
    requires
        lines_wf(line_views(lines@)),
    ensures
        text@ == restore_document(line_views(lines@)),
{
    let mut text = "*nat\n".to_string();
    let ghost all = line_views(lines@);
    let mut i: usize = 0;
    while i < lines.len()
        invariant
            i <= lines.len(),
            all == line_views(lines@),
            lines_wf(all),
            text@ == "*nat\n"@ + restore_lines(all.take(i as int)),
        decreases lines.len() - i,
    {
        assert(all[i as int].wf());
        append_restore_line(&mut text, &lines[i]);
        i += 1;
        proof {
            assert(all.take(i as int).drop_last() =~= all.take(i - 1));
            assert(text@ =~= "*nat\n"@ + restore_lines(all.take(i as int)));
        }
    }
    assert(all.take(i as int) =~= all);
    text.append("COMMIT\n");
    text
}

/// A rule says the same in both forms: a line of restore input holds the words that the command
/// takes behind the name of the table, with the comment in quotes.
pub proof fn law_both_forms_agree(rule: RuleView)
    ensures
        ({
            let words = line_args(LineView::Append(rule)).skip(2);
            restore_line(LineView::Append(rule)) == joined(
                match rule.comment {
                    Some(c) => words.drop_last().push(quoted(c)),
                    None => words,
                },
            ) + "\n"@
        }),
{
    let words = line_args(LineView::Append(rule)).skip(2);
    assert(words =~= rule_words(rule));
    if let Some(c) = rule.comment {
        assert(restore_words(rule) =~= words.drop_last().push(quoted(c)));
    }
}

} // verus!
