//! What the forms of text mean.

use crate::listing::{leftover_chains, lines_from, listed_chain, listed_chains, word_or_nothing};
use crate::loadbalancer::{key_parts, queue_keys};
use crate::probability::{fixed_digits, lemma_units_bounds, probability, probability_units};
use crate::rule::{quoted, restore_document, restore_line, restore_lines, LineView};
use crate::service::ServiceView;
use crate::text::{
    concat, decimal, digits_value, is_space, joined, lemma_concat_push, lemma_position,
    next_word_start, nth_word, occurs, port_number, position, signed_decimal, stands_at,
    unsigned_body, without, word_end, words_from,
};
use vstd::prelude::*;

verus! {

/// A part occurs in a text exactly where the text can be written with the part between two
/// others.
pub proof fn law_occurrence(text: Seq<char>, part: Seq<char>, before: Seq<char>, behind: Seq<char>)
    ensures
        text == before + part + behind ==> occurs(text, part),
        occurs(text, part) ==> exists|a: Seq<char>, b: Seq<char>| text == #[trigger] (a + part + b),
{
    if text == before + part + behind {
        let at = before.len() as int;
        assert(text.subrange(at, at + part.len()) =~= part);
        assert(stands_at(text, part, at));
    }
    if occurs(text, part) {
        let at = choose|at: int| stands_at(text, part, at);
        let a = text.take(at);
        let b = text.skip(at + part.len());
        assert(text =~= a + part + b) by {
            assert forall|i: int| 0 <= i < text.len() implies text[i] == (a + part + b)[i] by {
                if at <= i < at + part.len() {
                    assert(text.subrange(at, at + part.len())[i - at] == text[i]);
                }
            }
        }
    }
}

// ---------------------------------------------------------------------------
// Numbers
// ---------------------------------------------------------------------------

/// The number that digits denote: the last one counts once, the one before ten times.
pub open spec fn number(digits: Seq<char>) -> int
    decreases digits.len(),
{
    if digits.len() == 0 {
        0
    } else {
        10 * number(digits.drop_last()) + (digits.last() as int - 48)
    }
}

/// Whether a text consists of the characters `0` to `9`.
pub open spec fn all_digits(text: Seq<char>) -> bool {
    forall|i: int| 0 <= i < text.len() ==> '0' <= #[trigger] text[i] <= '9'
}

/// Decimal notation consists of digits, denotes its number, and has no leading zero but for zero
/// itself. A negative number has a minus sign in front.
pub proof fn law_decimal(n: nat, i: int)
    ensures
        all_digits(decimal(n)),
        number(decimal(n)) == n,
        decimal(n).len() > 0,
        decimal(n)[0] == '0' ==> n == 0 && decimal(n).len() == 1,
        i >= 0 ==> signed_decimal(i) == decimal(i as nat),
        i < 0 ==> signed_decimal(i) == "-"@ + decimal((-i) as nat),
    decreases n,
{
    if n >= 10 {
        law_decimal(n / 10, i);
        assert(decimal(n).drop_last() =~= decimal(n / 10));
        assert(decimal(n)[0] == decimal(n / 10)[0]);
    } else {
        assert(decimal(n).drop_last() =~= Seq::<char>::empty());
        reveal_with_fuel(number, 2);
    }
}

/// Whether a text denotes a number: by one or more digits, with a plus sign in front or without.
pub open spec fn denotes(text: Seq<char>, n: int) -> bool {
    let digits = if text.len() > 0 && text[0] == '+' {
        text.skip(1)
    } else {
        text
    };
    digits.len() > 0 && all_digits(digits) && number(digits) == n
}

/// A text is read as a port exactly where it denotes its number.
pub proof fn law_port_number(text: Seq<char>, port: u16)
    ensures
        port_number(text) == Some(port) <==> denotes(text, port as int),
{
    let digits = unsigned_body(text);
    if all_digits(digits) {
        lemma_number(digits);
    }
    if text.len() > 0 {
        assert(text.skip(1) =~= text.drop_first());
    }
}

proof fn lemma_number(digits: Seq<char>)
    requires
        all_digits(digits),
    ensures
        digits_value(digits) == number(digits),
    decreases digits.len(),
{
    if digits.len() > 0 {
        lemma_number(digits.drop_last());
    }
}

proof fn lemma_fixed(u: nat, width: nat)
    requires
        u < pow10(width),
    ensures
        all_digits(fixed_digits(u, width)),
        fixed_digits(u, width).len() == width,
        number(fixed_digits(u, width)) == u,
    decreases width,
{
    if width > 0 {
        lemma_fixed(u / 10, (width - 1) as nat);
        let d = fixed_digits(u, width);
        assert(d.drop_last() =~= fixed_digits(u / 10, (width - 1) as nat));
    }
}

/// Ten to the power.
pub open spec fn pow10(e: nat) -> nat
    decreases e,
{
    if e == 0 {
        1
    } else {
        10 * pow10((e - 1) as nat)
    }
}

/// The probability `1 / k` is written as a zero, a point and ten digits, and what they denote is
/// at most half a unit of the last place away from it.
pub proof fn law_probability(k: nat)
    requires
        k >= 2,
    ensures
        ({
            let digits = probability(k).skip(2);
            &&& probability(k).len() == 12
            &&& probability(k).take(2) == "0."@
            &&& all_digits(digits)
            &&& 2 * (number(digits) * k - 10_000_000_000) <= k
            &&& 2 * (10_000_000_000 - number(digits) * k) <= k
        }),
{
    reveal_strlit("0.");
    lemma_units_bounds(k);
    let u = probability_units(k);
    assert(pow10(10) == 10_000_000_000) by {
        reveal_with_fuel(pow10, 11);
    }
    lemma_fixed(u, 10);
    assert(probability(k).skip(2) =~= fixed_digits(u, 10));
    assert(probability(k).take(2) =~= "0."@);
}

/// Five to the power.
pub open spec fn pow5(e: nat) -> nat
    decreases e,
{
    if e == 0 {
        1
    } else {
        5 * pow5((e - 1) as nat)
    }
}

proof fn lemma_halve(odd: nat, k: nat, n: nat) -> (half: nat)
    requires
        odd % 2 == 1,
        odd * k == 2 * n,
    ensures
        k == 2 * half,
        odd * half == n,
{
    let half = k / 2;
    assert(k % 2 == 0) by (nonlinear_arith)
        requires
            odd % 2 == 1,
            odd * k == 2 * n,
    {
        let a = odd / 2;
        let b = k / 2;
        if k % 2 == 1 {
            assert(odd == 2 * a + 1);
            assert(k == 2 * b + 1);
            assert(odd * k == 2 * (2 * a * b + a + b) + 1);
        }
    }
    assert(odd * half == n) by (nonlinear_arith)
        requires
            odd * k == 2 * n,
            k == 2 * half,
    ;
    half
}

/// A factor of a power of five is a power of five.
proof fn lemma_factor(u: nat, t: nat, m: nat) -> (j: nat)
    requires
        u * t == pow5(m),
    ensures
        j <= m,
        t == pow5(j),
    decreases m,
{
    if m == 0 {
        assert(t == 1) by (nonlinear_arith)
            requires
                u * t == 1,
                u >= 0,
                t >= 0,
        ;
        0
    } else {
        let p = pow5((m - 1) as nat);
        if t % 5 == 0 {
            let s = t / 5;
            assert(u * s == p) by (nonlinear_arith)
                requires
                    u * t == 5 * p,
                    t == 5 * s,
            ;
            lemma_factor(u, s, (m - 1) as nat) + 1
        } else {
            let v = u / 5;
            let a = u % 5;
            let b = t % 5;
            let w = t / 5;
            assert(u == 5 * v + a);
            assert(t == 5 * w + b);
            assert((a * b) % 5 == 0) by (nonlinear_arith)
                requires
                    u * t == 5 * p,
                    u == 5 * v + a,
                    t == 5 * w + b,
            {
                assert(u * t == 5 * (5 * v * w + v * b + a * w) + a * b);
            }
            assert(a == 0) by {
                if a == 1 || a == 2 || a == 3 || a == 4 {
                    assert(b == 1 || b == 2 || b == 3 || b == 4);
                    assert(a * b == 1 || a * b == 2 || a * b == 3 || a * b == 4 || a * b == 6 || a
                        * b == 8 || a * b == 9 || a * b == 12 || a * b == 16);
                }
            }
            assert(v * t == p) by (nonlinear_arith)
                requires
                    u * t == 5 * p,
                    u == 5 * v,
            ;
            lemma_factor(v, t, (m - 1) as nat)
        }
    }
}

proof fn lemma_half_way(k: nat, q: nat)
    requires
        (2 * q + 1) * k == 20_000_000_000,
    ensures
        k == 2_048 || k == 10_240 || k == 51_200 || k == 256_000 || k == 1_280_000 || k == 6_400_000
            || k == 32_000_000 || k == 160_000_000 || k == 800_000_000 || k == 4_000_000_000 || k
            == 20_000_000_000,
{
    let odd = 2 * q + 1;
    let a = lemma_halve(odd, k, 10_000_000_000);
    let a = lemma_halve(odd, a, 5_000_000_000);
    let a = lemma_halve(odd, a, 2_500_000_000);
    let a = lemma_halve(odd, a, 1_250_000_000);
    let a = lemma_halve(odd, a, 625_000_000);
    let a = lemma_halve(odd, a, 312_500_000);
    let a = lemma_halve(odd, a, 156_250_000);
    let a = lemma_halve(odd, a, 78_125_000);
    let a = lemma_halve(odd, a, 39_062_500);
    let a = lemma_halve(odd, a, 19_531_250);
    let a = lemma_halve(odd, a, 9_765_625);
    reveal_with_fuel(pow5, 11);
    let j = lemma_factor(odd, a, 10);
    assert(k == 2048 * a);
}

/// Where `1 / k` lies half-way between two texts, the greater one is written, but for three `k`.
pub proof fn law_half_way(k: nat)
    requires
        k >= 2,
        2 * (10_000_000_000nat % k) == k,
    ensures
        ({
            let digits = probability(k).skip(2);
            if k == 2048 || k == 32_000_000 || k == 160_000_000 {
                number(digits) == 10_000_000_000nat / k
            } else {
                number(digits) == 10_000_000_000nat / k + 1
            }
        }),
{
    let q = 10_000_000_000nat / k;
    vstd::arithmetic::div_mod::lemma_fundamental_div_mod(10_000_000_000, k as int);
    lemma_units_bounds(k);
    assert((2 * q + 1) * k == 2 * (k * q) + k) by (nonlinear_arith);
    lemma_half_way(k, q);
    assert(pow10(10) == 10_000_000_000) by {
        reveal_with_fuel(pow10, 11);
    }
    lemma_fixed(probability_units(k), 10);
    reveal_strlit("0.");
    assert(probability(k).skip(2) =~= fixed_digits(probability_units(k), 10));
}

// ---------------------------------------------------------------------------
// Words and lines
// ---------------------------------------------------------------------------

/// The words of a list are joined with one space between any two.
pub proof fn law_joined(words: Seq<Seq<char>>, word: Seq<char>)
    ensures
        joined(Seq::empty()) == Seq::<char>::empty(),
        joined(seq![word]) == word,
        words.len() > 0 ==> joined(words.push(word)) == joined(words) + " "@ + word,
{
    if words.len() > 0 {
        assert(words.push(word).drop_last() =~= words);
    }
}

/// Removing a character takes away that character, wherever it stands, and nothing else.
pub proof fn law_without(a: Seq<char>, x: char, c: char)
    ensures
        without(Seq::empty(), c) == Seq::<char>::empty(),
        without(a.push(x), c) == if x == c {
            without(a, c)
        } else {
            without(a, c).push(x)
        },
{
    reveal(Seq::filter);
    assert(a.push(x).drop_last() =~= a);
}

/// A quoted text stands between two quotation marks.
pub proof fn law_quoted(text: Seq<char>)
    ensures
        quoted(text) == seq!['"'] + text + seq!['"'],
{
    reveal_strlit("\"");
    assert("\""@ =~= seq!['"']);
}

/// Restore input begins with the name of the table and ends with the order to commit. Each line
/// more stands just in front of that order. A chain is declared with a policy of none and
/// counters of zero.
pub proof fn law_restore_document(lines: Seq<LineView>, line: LineView, chain: Seq<char>)
    ensures
        restore_document(Seq::empty()) == "*nat\n"@ + "COMMIT\n"@,
        ({
            let text = restore_document(lines);
            let more = restore_document(lines.push(line));
            let cut = (text.len() - "COMMIT\n"@.len()) as int;
            &&& text.skip(cut) == "COMMIT\n"@
            &&& more == text.take(cut) + restore_line(line) + "COMMIT\n"@
        }),
        restore_line(LineView::Chain(chain)) == ":"@ + chain + " - [0:0]\n"@,
{
    assert(restore_lines(Seq::<LineView>::empty()) =~= Seq::<char>::empty());
    assert(restore_document(Seq::empty()) =~= "*nat\n"@ + "COMMIT\n"@);
    assert(lines.push(line).drop_last() =~= lines);
    let text = restore_document(lines);
    let cut = (text.len() - "COMMIT\n"@.len()) as int;
    assert(text.skip(cut) =~= "COMMIT\n"@);
    assert(text.take(cut) =~= "*nat\n"@ + restore_lines(lines));
    assert(restore_document(lines.push(line)) =~= text.take(cut) + restore_line(line)
        + "COMMIT\n"@);
}

/// Lines with one line feed between any two.
pub open spec fn unsplit(lines: Seq<Seq<char>>) -> Seq<char>
    decreases lines.len(),
{
    if lines.len() == 0 {
        Seq::empty()
    } else if lines.len() == 1 {
        lines[0]
    } else {
        lines[0] + seq!['\n'] + unsplit(lines.drop_first())
    }
}

/// The lines of a text hold no line feed, and with one line feed between any two they are the
/// text again.
pub proof fn law_lines(text: Seq<char>, i: int)
    requires
        0 <= i <= text.len(),
    ensures
        lines_from(text, i).len() > 0,
        unsplit(lines_from(text, i)) == text.skip(i),
        forall|k: int|
            0 <= k < lines_from(text, i).len() ==> !(#[trigger] lines_from(text, i)[k]).contains(
                '\n',
            ),
    decreases text.len() - i,
{
    lemma_position(text, '\n', i);
    let end = position(text, '\n', i);
    let lines = lines_from(text, i);
    if end < text.len() {
        law_lines(text, end + 1);
        let later = lines_from(text, end + 1);
        assert(lines.drop_first() =~= later);
        assert(lines[0] == text.subrange(i, end));
        assert(text.skip(i) =~= text.subrange(i, end) + seq!['\n'] + text.skip(end + 1));
        assert forall|k: int| 0 <= k < lines.len() implies !(#[trigger] lines[k]).contains(
            '\n',
        ) by {
            if k == 0 {
                lemma_no_feed(text, i, end);
            } else {
                assert(lines[k] == later[k - 1]);
            }
        }
    } else {
        assert(lines =~= seq![text.subrange(i, text.len() as int)]);
        assert(text.skip(i) =~= lines[0]);
        lemma_no_feed(text, i, end);
    }
}

proof fn lemma_no_feed(text: Seq<char>, i: int, end: int)
    requires
        0 <= i <= end <= text.len(),
        forall|k: int| i <= k < end ==> text[k] != '\n',
    ensures
        !text.subrange(i, end).contains('\n'),
{
    let line = text.subrange(i, end);
    assert forall|k: int| 0 <= k < line.len() implies line[k] != '\n' by {
        assert(line[k] == text[i + k]);
    }
}

/// Whether a text holds no white space, and something else.
pub open spec fn is_word(text: Seq<char>) -> bool {
    text.len() > 0 && forall|i: int| 0 <= i < text.len() ==> !is_space(#[trigger] text[i])
}

/// Whether a text holds white space only.
pub open spec fn is_gap(text: Seq<char>) -> bool {
    forall|i: int| 0 <= i < text.len() ==> is_space(#[trigger] text[i])
}

proof fn lemma_gap(text: Seq<char>, i: int, end: int)
    requires
        0 <= i <= end <= text.len(),
        forall|k: int| i <= k < end ==> is_space(#[trigger] text[k]),
        end == text.len() || !is_space(text[end]),
    ensures
        next_word_start(text, i) == end,
    decreases end - i,
{
    if i < end {
        lemma_gap(text, i + 1, end);
    }
}

proof fn lemma_word(text: Seq<char>, i: int, end: int)
    requires
        0 <= i <= end <= text.len(),
        forall|k: int| i <= k < end ==> !is_space(#[trigger] text[k]),
        end == text.len() || is_space(text[end]),
    ensures
        word_end(text, i) == end,
    decreases end - i,
{
    if i < end {
        lemma_word(text, i + 1, end);
    }
}

/// Where a text goes on with a gap, a word, and then white space or the end, the first word from
/// there on is that word, and the words that follow are those of what follows.
pub proof fn law_words(text: Seq<char>, i: int, gap: Seq<char>, word: Seq<char>, rest: Seq<char>)
    requires
        0 <= i <= text.len(),
        text.skip(i) == gap + word + rest,
        is_gap(gap),
        is_word(word),
        rest.len() == 0 || is_space(rest[0]),
    ensures
        nth_word(text, i, 0) == Some(word),
        forall|n: nat|
            #[trigger] nth_word(text, i, n + 1) == nth_word(
                text,
                (i + gap.len() + word.len()) as int,
                n,
            ),
{
    let a = (i + gap.len()) as int;
    let b = (a + word.len()) as int;
    let all = gap + word + rest;
    assert(text.len() == i + all.len());
    assert forall|k: int| i <= k < text.len() implies text[k] == all[k - i] by {
        assert(text.skip(i)[k - i] == text[k]);
    }
    assert(text[a] == word[0]);
    assert(!is_space(word[0]));
    assert forall|k: int| i <= k < a implies is_space(#[trigger] text[k]) by {
        assert(text[k] == gap[k - i]);
    }
    lemma_gap(text, i, a);
    assert forall|k: int| a <= k < b implies !is_space(#[trigger] text[k]) by {
        assert(text[k] == word[k - a]);
    }
    if rest.len() > 0 {
        assert(text[b] == rest[0]);
    }
    lemma_word(text, a, b);
    assert(text.subrange(a, b) =~= word);
    let words = words_from(text, i);
    assert(words == seq![word] + words_from(text, b));
    assert forall|n: nat| #[trigger] nth_word(text, i, n + 1) == nth_word(text, b, n) by {
        if n + 1 < words.len() {
            assert(words[n as int + 1] == words_from(text, b)[n as int]);
        }
    }
}

/// A text of white space only holds no word.
pub proof fn law_no_words(text: Seq<char>, i: int, n: nat)
    requires
        0 <= i <= text.len(),
        is_gap(text.skip(i)),
    ensures
        nth_word(text, i, n) is None,
{
    assert forall|k: int| i <= k < text.len() implies is_space(#[trigger] text[k]) by {
        assert(text.skip(i)[k - i] == text[k]);
    }
    lemma_gap(text, i, text.len() as int);
}

/// White space is what Unicode calls so: tab to carriage return, space, next line, no-break space,
/// and the spaces and separators from the Ogham space mark on to the ideographic space.
pub proof fn law_white_space(c: char)
    ensures
        c as int <= 127 ==> (is_space(c) <==> c == ' ' || '\t' <= c <= '\r'),
        128 <= c as int <= 0x1fff ==> (is_space(c) <==> c as int == 133 || c as int == 160
            || c as int == 5760),
        0x2000 <= c as int <= 0x2fff ==> (is_space(c) <==> c as int <= 0x200a || c as int == 8232
            || c as int == 8233 || c as int == 8239 || c as int == 8287),
        0x3000 <= c as int ==> (is_space(c) <==> c as int == 0x3000),
{
}

/// A line that begins with the heading of a chain of endpoints shows the chain that the word behind
/// it completes; and a line more shows what it shows behind what the others do.
pub proof fn law_shown_chains(
    lines: Seq<Seq<char>>,
    line: Seq<char>,
    gap: Seq<char>,
    word: Seq<char>,
    rest: Seq<char>,
)
    requires
        is_gap(gap),
        is_word(word),
        rest.len() == 0 || is_space(rest[0]),
    ensures
        line == "Chain KUBE-SEP-"@ + gap + word + rest ==> listed_chain(line) == Some(
            "KUBE-SEP-"@ + word,
        ),
        line == "Chain KUBE-NP-SEP-"@ + gap + word + rest ==> listed_chain(line) == Some(
            "KUBE-NP-SEP-"@ + word,
        ),
        ({
            let shown = |list: Seq<Seq<char>>| listed_chains(list, list.len());
            &&& shown(Seq::empty()).len() == 0
            &&& listed_chain(line) is None ==> shown(lines.push(line)) == shown(lines)
            &&& listed_chain(line) matches Some(chain) ==> shown(lines.push(line)) == shown(
                lines,
            ).push(chain)
        }),
{
    lemma_heading("Chain KUBE-SEP-"@, line, gap, word, rest);
    lemma_heading("Chain KUBE-NP-SEP-"@, line, gap, word, rest);
    reveal_strlit("Chain KUBE-SEP-");
    reveal_strlit("Chain KUBE-NP-SEP-");
    if line == "Chain KUBE-NP-SEP-"@ + gap + word + rest {
        assert(line[11] == 'N');
        if stands_at(line, "Chain KUBE-SEP-"@, 0) {
            assert(line.subrange(0, "Chain KUBE-SEP-"@.len() as int)[11] == 'S');
        }
    }
    let n = lines.len();
    let more = lines.push(line);
    let f = |i: int|
        match listed_chain(lines[i]) {
            Some(chain) => seq![chain],
            None => Seq::empty(),
        };
    let g = |i: int|
        match listed_chain(more[i]) {
            Some(chain) => seq![chain],
            None => Seq::empty(),
        };
    assert(Seq::new(n, f) =~= Seq::new(n, g));
    assert(Seq::new((n + 1) as nat, g) =~= Seq::new(n, g).push(g(n as int)));
    lemma_concat_push(Seq::new(n, g), g(n as int));
    let none = Seq::<Seq<char>>::empty();
    let h = |i: int|
        match listed_chain(none[i]) {
            Some(chain) => seq![chain],
            None => Seq::empty(),
        };
    assert(concat(Seq::new(0, h)).len() == 0);
}

proof fn lemma_heading(
    heading: Seq<char>,
    line: Seq<char>,
    gap: Seq<char>,
    word: Seq<char>,
    rest: Seq<char>,
)
    requires
        is_gap(gap),
        is_word(word),
        rest.len() == 0 || is_space(rest[0]),
    ensures
        line == heading + gap + word + rest ==> stands_at(line, heading, 0) && word_or_nothing(
            line,
            heading.len() as int,
        ) == word,
{
    if line == heading + gap + word + rest {
        assert(line.subrange(0, heading.len() as int) =~= heading);
        assert(line.skip(heading.len() as int) =~= gap + word + rest);
        law_words(line, heading.len() as int, gap, word, rest);
    }
}

/// What a listing shows is what its lines show.
pub proof fn law_listing(listing: Seq<char>)
    ensures
        leftover_chains(listing) == listed_chains(
            lines_from(listing, 0),
            lines_from(listing, 0).len(),
        ),
{
}

/// Only lines that begin with the heading of a chain of endpoints show one, and what they show
/// is named like one.
pub proof fn law_only_endpoint_chains(line: Seq<char>)
    ensures
        listed_chain(line) is Some <==> (line.len() >= "Chain KUBE-SEP-"@.len() && line.take(
            "Chain KUBE-SEP-"@.len() as int,
        ) == "Chain KUBE-SEP-"@) || (line.len() >= "Chain KUBE-NP-SEP-"@.len() && line.take(
            "Chain KUBE-NP-SEP-"@.len() as int,
        ) == "Chain KUBE-NP-SEP-"@),
        listed_chain(line) matches Some(chain) ==> exists|tail: Seq<char>|
            chain == #[trigger] ("KUBE-SEP-"@ + tail) || chain == "KUBE-NP-SEP-"@ + tail,
{
    assert(stands_at(line, "Chain KUBE-SEP-"@, 0) <==> (line.len() >= "Chain KUBE-SEP-"@.len()
        && line.take("Chain KUBE-SEP-"@.len() as int) == "Chain KUBE-SEP-"@));
    assert(stands_at(line, "Chain KUBE-NP-SEP-"@, 0) <==> (line.len()
        >= "Chain KUBE-NP-SEP-"@.len() && line.take("Chain KUBE-NP-SEP-"@.len() as int)
        == "Chain KUBE-NP-SEP-"@));
    if stands_at(line, "Chain KUBE-SEP-"@, 0) {
        let tail = word_or_nothing(line, "Chain KUBE-SEP-"@.len() as int);
        assert(listed_chain(line) == Some("KUBE-SEP-"@ + tail));
    } else if stands_at(line, "Chain KUBE-NP-SEP-"@, 0) {
        let tail = word_or_nothing(line, "Chain KUBE-NP-SEP-"@.len() as int);
        assert("KUBE-SEP-"@ + tail == "KUBE-SEP-"@ + tail);
        assert(listed_chain(line) == Some("KUBE-NP-SEP-"@ + tail));
    }
}

// ---------------------------------------------------------------------------
// Keys
// ---------------------------------------------------------------------------

/// A key is split at its first two slashes; a key with fewer holds nothing.
pub proof fn law_key_parts(kind: Seq<char>, namespace: Seq<char>, name: Seq<char>)
    requires
        !kind.contains('/'),
        !namespace.contains('/'),
    ensures
        key_parts(kind + seq!['/'] + namespace + seq!['/'] + name) == Some((namespace, name)),
        key_parts(kind + seq!['/'] + namespace) is None,
        key_parts(kind) is None,
{
    let key = kind + seq!['/'] + namespace + seq!['/'] + name;
    let a = kind.len() as int;
    let b = (a + 1 + namespace.len()) as int;
    lemma_first(key, 0, a, kind);
    lemma_first(key, a + 1, b, namespace);
    assert(key.subrange(a + 1, b) =~= namespace);
    assert(key.skip(b + 1) =~= name);
    let short = kind + seq!['/'] + namespace;
    lemma_first(short, 0, a, kind);
    lemma_none(short, a + 1, namespace);
    lemma_none(kind, 0, kind);
}

proof fn lemma_first(key: Seq<char>, i: int, at: int, part: Seq<char>)
    requires
        0 <= i <= at < key.len(),
        part.len() == at - i,
        !part.contains('/'),
        key[at] == '/',
        forall|k: int| i <= k < at ==> key[k] == part[k - i],
    ensures
        position(key, '/', i) == at,
{
    lemma_position(key, '/', i);
    let p = position(key, '/', i);
    if p < at {
        assert(key[p] == part[p - i]);
        assert(part.contains(part[p - i]));
    }
    if p > at {
        assert(key[at] != '/');
    }
}

proof fn lemma_none(key: Seq<char>, i: int, part: Seq<char>)
    requires
        0 <= i <= key.len(),
        part.len() == key.len() - i,
        !part.contains('/'),
        forall|k: int| i <= k < key.len() ==> key[k] == part[k - i],
    ensures
        position(key, '/', i) == key.len(),
{
    lemma_position(key, '/', i);
    let p = position(key, '/', i);
    if p < key.len() {
        assert(key[p] == part[p - i]);
        assert(part.contains(part[p - i]));
    }
}

/// Services are queued in order, each under its namespace, or none, and its name.
pub proof fn law_queue_keys(services: Seq<ServiceView>, i: int)
    requires
        0 <= i < services.len(),
    ensures
        queue_keys(services).len() == services.len(),
        queue_keys(services)[i] == "services/"@ + (match services[i].namespace {
            Some(namespace) => namespace,
            None => ""@,
        }) + "/"@ + services[i].name,
{
}

} // verus!
